//! Filled triangles, scan row by scan row.
//!
//! The sides of a triangle are the three lines between its corners, the
//! very positions that the line drawing covers. The fill covers, on every
//! row, the span from the leftmost to the rightmost position that the
//! sides have on that row.

use crate::engine::{ConsoleGameEngine, EngineView};
use crate::grid::Cell;
use crate::lines::{
    comes_before, drift, lemma_drift, lemma_drift_bounds, lemma_drift_ends, lemma_drift_value,
    lemma_line_ends, lemma_line_gapless, lemma_line_meets_row, lemma_line_parts,
    lemma_line_symmetric, lemma_line_within_ends, lemma_on_one_line_any_order, line_points,
    on_one_line, trace, triangle_outline,
};
use crate::shapes::{max, min, span};
use vstd::arithmetic::div_mod::{lemma_fundamental_div_mod, lemma_mod_bound};
use vstd::arithmetic::mul::lemma_mul_inequality;
use vstd::prelude::*;

verus! {

/// The positions between the leftmost and the rightmost position that `s`
/// has on each row, both included.
pub open spec fn row_hull(s: Set<(int, int)>) -> Set<(int, int)> {
    Set::new(
        |p: (int, int)|
            exists|a: int, c: int|
                a <= p.0 <= c && #[trigger] s.contains((a, p.1)) && #[trigger] s.contains((c, p.1)),
    )
}

/// The positions that a filled triangle covers: on every row, the span
/// between the outermost positions of its three sides.
pub open spec fn triangle_fill(x1: int, y1: int, x2: int, y2: int, x3: int, y3: int) -> Set<
    (int, int),
> {
    row_hull(triangle_outline(x1, y1, x2, y2, x3, y3))
}

/// The positions of `s` above row `y`.
pub open spec fn rows_above(s: Set<(int, int)>, y: int) -> Set<(int, int)> {
    Set::new(|p: (int, int)| s.contains(p) && p.1 < y)
}

/// Whether `e` names the leftmost and the rightmost position that `s` has
/// on row `y`, or says rightly that it has none there.
pub open spec fn extremes(s: Set<(int, int)>, y: int, e: Option<(i64, i64)>) -> bool {
    match e {
        Some(r) => {
            &&& s.contains((r.0 as int, y))
            &&& s.contains((r.1 as int, y))
            &&& forall|x: int| #[trigger] s.contains((x, y)) ==> r.0 <= x <= r.1
        },
        None => forall|x: int| !#[trigger] s.contains((x, y)),
    }
}

/// The row of a hull is the span between the extremes of the set.
pub proof fn lemma_hull_row(s: Set<(int, int)>, y: int, e: Option<(i64, i64)>)
    requires
        extremes(s, y, e),
    ensures
        match e {
            Some(r) => forall|x: int| #[trigger] row_hull(s).contains((x, y)) <==> r.0 <= x <= r.1,
            None => forall|x: int| !#[trigger] row_hull(s).contains((x, y)),
        },
{
    match e {
        Some(r) => {
            assert forall|x: int| #[trigger] row_hull(s).contains((x, y)) <==> r.0 <= x <= r.1 by {
                let p = (x, y);
                if row_hull(s).contains(p) {
                    let (a, c) = choose|a: int, c: int|
                        a <= p.0 <= c && #[trigger] s.contains((a, p.1)) && #[trigger] s.contains(
                            (c, p.1),
                        );
                    assert(s.contains((a, y)) && s.contains((c, y)));
                }
                if r.0 <= x <= r.1 {
                    assert(r.0 <= p.0 <= r.1 && s.contains((r.0 as int, p.1)) && s.contains(
                        (r.1 as int, p.1),
                    ));
                }
            }
        },
        None => {
            assert forall|x: int| !#[trigger] row_hull(s).contains((x, y)) by {
                let p = (x, y);
                if row_hull(s).contains(p) {
                    let (a, c) = choose|a: int, c: int|
                        a <= p.0 <= c && #[trigger] s.contains((a, p.1)) && #[trigger] s.contains(
                            (c, p.1),
                        );
                    assert(s.contains((a, y)));
                }
            }
        },
    }
}

/// A filled triangle covers its own outline: what drawing the triangle's
/// sides covers, filling it covers too.
pub proof fn lemma_triangle_fill_covers_outline(x1: int, y1: int, x2: int, y2: int, x3: int, y3: int)
    ensures
        triangle_outline(x1, y1, x2, y2, x3, y3).subset_of(triangle_fill(x1, y1, x2, y2, x3, y3)),
        triangle_fill(x1, y1, x2, y2, x3, y3).contains((x1, y1)),
        triangle_fill(x1, y1, x2, y2, x3, y3).contains((x2, y2)),
        triangle_fill(x1, y1, x2, y2, x3, y3).contains((x3, y3)),
{
    let sides = triangle_outline(x1, y1, x2, y2, x3, y3);
    let fill = triangle_fill(x1, y1, x2, y2, x3, y3);
    assert forall|p: (int, int)| sides.contains(p) implies fill.contains(p) by {
        assert(p.0 <= p.0 <= p.0 && sides.contains((p.0, p.1)) && sides.contains((p.0, p.1)));
    }
    lemma_line_ends(x1, y1, x2, y2);
    lemma_line_ends(x2, y2, x3, y3);
    assert(sides.contains((x1, y1)) && sides.contains((x2, y2)) && sides.contains((x3, y3)));
}

/// Whether `s` has no gaps within a row: with two positions of a row it
/// holds every position between them.
pub open spec fn gapless(s: Set<(int, int)>) -> bool {
    forall|a: int, b: int, c: int, y: int|
        a <= b <= c && #[trigger] s.contains((a, y)) && #[trigger] s.contains((c, y)) ==> #[trigger] s.contains(
            (b, y),
        )
}

/// A filled triangle has no gaps within a row, whatever its corners.
pub proof fn lemma_triangle_fill_gapless(x1: int, y1: int, x2: int, y2: int, x3: int, y3: int)
    ensures
        gapless(triangle_fill(x1, y1, x2, y2, x3, y3)),
{
    let sides = triangle_outline(x1, y1, x2, y2, x3, y3);
    let fill = triangle_fill(x1, y1, x2, y2, x3, y3);
    assert forall|a: int, b: int, c: int, y: int|
        a <= b <= c && #[trigger] fill.contains((a, y)) && #[trigger] fill.contains(
            (c, y),
        ) implies #[trigger] fill.contains((b, y)) by {
        let pa = (a, y);
        let pc = (c, y);
        let (u, _v) = choose|u: int, v: int|
            u <= pa.0 <= v && #[trigger] sides.contains((u, pa.1)) && #[trigger] sides.contains(
                (v, pa.1),
            );
        let (_u, v) = choose|u: int, v: int|
            u <= pc.0 <= v && #[trigger] sides.contains((u, pc.1)) && #[trigger] sides.contains(
                (v, pc.1),
            );
        let pb = (b, y);
        assert(u <= pb.0 <= v && sides.contains((u, pb.1)) && sides.contains((v, pb.1)));
    }
}

/// A filled triangle stays within the columns and the rows of its
/// corners: none of its positions lies left of the leftmost corner, right
/// of the rightmost one, above the topmost one or below the bottommost
/// one.
pub proof fn lemma_triangle_fill_within_corners(x1: int, y1: int, x2: int, y2: int, x3: int, y3: int)
    ensures
        forall|p: (int, int)| #[trigger]
            triangle_fill(x1, y1, x2, y2, x3, y3).contains(p) ==> min(min(x1, x2), x3) <= p.0 <= max(
                max(x1, x2),
                x3,
            ) && min(min(y1, y2), y3) <= p.1 <= max(max(y1, y2), y3),
{
    let sides = triangle_outline(x1, y1, x2, y2, x3, y3);
    let fill = triangle_fill(x1, y1, x2, y2, x3, y3);
    lemma_line_within_ends(x1, y1, x2, y2);
    lemma_line_within_ends(x2, y2, x3, y3);
    lemma_line_within_ends(x3, y3, x1, y1);
    assert forall|p: (int, int)| #[trigger] fill.contains(p) implies min(min(x1, x2), x3) <= p.0
        <= max(max(x1, x2), x3) && min(min(y1, y2), y3) <= p.1 <= max(max(y1, y2), y3) by {
        let (u, v) = choose|u: int, v: int|
            u <= p.0 <= v && #[trigger] sides.contains((u, p.1)) && #[trigger] sides.contains(
                (v, p.1),
            );
        let a = line_points(x1, y1, x2, y2);
        let b = line_points(x2, y2, x3, y3);
        let c = line_points(x3, y3, x1, y1);
        assert(a.contains((u, p.1)) || b.contains((u, p.1)) || c.contains((u, p.1)));
        assert(a.contains((v, p.1)) || b.contains((v, p.1)) || c.contains((v, p.1)));
    }
}

/// A filled triangle leaves no row empty: it has a position on every row
/// from its topmost corner to its bottommost one.
pub proof fn lemma_triangle_fill_meets_row(
    x1: int,
    y1: int,
    x2: int,
    y2: int,
    x3: int,
    y3: int,
    y: int,
) -> (x: int)
    requires
        min(min(y1, y2), y3) <= y <= max(max(y1, y2), y3),
    ensures
        triangle_fill(x1, y1, x2, y2, x3, y3).contains((x, y)),
{
    let sides = triangle_outline(x1, y1, x2, y2, x3, y3);
    let fill = triangle_fill(x1, y1, x2, y2, x3, y3);
    let x = if min(y1, y2) <= y <= max(y1, y2) {
        lemma_line_meets_row(x1, y1, x2, y2, y)
    } else if min(y2, y3) <= y <= max(y2, y3) {
        lemma_line_meets_row(x2, y2, x3, y3, y)
    } else {
        lemma_line_meets_row(x3, y3, x1, y1, y)
    };
    assert(sides.contains((x, y)));
    lemma_triangle_fill_covers_outline(x1, y1, x2, y2, x3, y3);
    assert(fill.contains((x, y)));
    x
}

/// Whether `s` has a position on row `y`.
pub open spec fn meets_row(s: Set<(int, int)>, y: int) -> bool {
    exists|x: int| #[trigger] s.contains((x, y))
}

/// A filled triangle leaves no row empty, said of all rows at once.
pub proof fn lemma_triangle_fill_meets_every_row(
    x1: int,
    y1: int,
    x2: int,
    y2: int,
    x3: int,
    y3: int,
)
    ensures
        forall|y: int|
            min(min(y1, y2), y3) <= y <= max(max(y1, y2), y3) ==> #[trigger] meets_row(
                triangle_fill(x1, y1, x2, y2, x3, y3),
                y,
            ),
{
    assert forall|y: int| min(min(y1, y2), y3) <= y <= max(max(y1, y2), y3) implies #[trigger] meets_row(
        triangle_fill(x1, y1, x2, y2, x3, y3),
        y,
    ) by {
        let x = lemma_triangle_fill_meets_row(x1, y1, x2, y2, x3, y3, y);
        assert(triangle_fill(x1, y1, x2, y2, x3, y3).contains((x, y)));
    }
}

/// The row hull of a set without gaps is the set itself.
pub proof fn lemma_hull_of_gapless(s: Set<(int, int)>)
    requires
        gapless(s),
    ensures
        row_hull(s) == s,
{
    assert forall|p: (int, int)| row_hull(s).contains(p) implies s.contains(p) by {
        let (a, c) = choose|a: int, c: int|
            a <= p.0 <= c && #[trigger] s.contains((a, p.1)) && #[trigger] s.contains((c, p.1));
        assert(s.contains((p.0, p.1)));
    }
    assert forall|p: (int, int)| s.contains(p) implies row_hull(s).contains(p) by {
        assert(p.0 <= p.0 <= p.0 && s.contains((p.0, p.1)) && s.contains((p.0, p.1)));
    }
    assert(row_hull(s) =~= s);
}

/// The first of three corners: the topmost one, and the leftmost of
/// those on its row.
pub open spec fn first_corner(x1: int, y1: int, x2: int, y2: int, x3: int, y3: int) -> (int, int) {
    if comes_before(x1, y1, x2, y2) && comes_before(x1, y1, x3, y3) {
        (x1, y1)
    } else if comes_before(x2, y2, x3, y3) {
        (x2, y2)
    } else {
        (x3, y3)
    }
}

/// The last of three corners: the bottommost one, and the rightmost of
/// those on its row.
pub open spec fn last_corner(x1: int, y1: int, x2: int, y2: int, x3: int, y3: int) -> (int, int) {
    if comes_before(x2, y2, x1, y1) && comes_before(x3, y3, x1, y1) {
        (x1, y1)
    } else if comes_before(x3, y3, x2, y2) {
        (x2, y2)
    } else {
        (x3, y3)
    }
}

/// The sides of a triangle whose corners lie on one line, the middle one
/// between the outer ones, are the line between the outer ones.
proof fn lemma_flat_outline(xp: int, yp: int, xm: int, ym: int, xq: int, yq: int)
    requires
        comes_before(xp, yp, xm, ym),
        comes_before(xm, ym, xq, yq),
        on_one_line(xp, yp, xm, ym, xq, yq),
    ensures
        line_points(xp, yp, xm, ym).union(line_points(xm, ym, xq, yq)).union(
            line_points(xq, yq, xp, yp),
        ) == line_points(xp, yp, xq, yq),
        line_points(xm, ym, xp, yp) == line_points(xp, yp, xm, ym),
        line_points(xq, yq, xm, ym) == line_points(xm, ym, xq, yq),
        line_points(xq, yq, xp, yp) == line_points(xp, yp, xq, yq),
{
    lemma_line_parts(xp, yp, xm, ym, xq, yq);
    lemma_line_symmetric(xp, yp, xm, ym);
    lemma_line_symmetric(xm, ym, xq, yq);
    lemma_line_symmetric(xp, yp, xq, yq);
    assert(line_points(xp, yp, xm, ym).union(line_points(xm, ym, xq, yq)).union(
        line_points(xq, yq, xp, yp),
    ) =~= line_points(xp, yp, xq, yq));
}

/// A filled triangle whose corners lie on one line is that line: it
/// covers exactly the positions of the line between its first and its
/// last corner, no cell more.
pub proof fn lemma_triangle_fill_on_one_line(x1: int, y1: int, x2: int, y2: int, x3: int, y3: int)
    requires
        on_one_line(x1, y1, x2, y2, x3, y3),
    ensures
        triangle_fill(x1, y1, x2, y2, x3, y3) == line_points(
            first_corner(x1, y1, x2, y2, x3, y3).0,
            first_corner(x1, y1, x2, y2, x3, y3).1,
            last_corner(x1, y1, x2, y2, x3, y3).0,
            last_corner(x1, y1, x2, y2, x3, y3).1,
        ),
{
    let sides = triangle_outline(x1, y1, x2, y2, x3, y3);
    let p = first_corner(x1, y1, x2, y2, x3, y3);
    let q = last_corner(x1, y1, x2, y2, x3, y3);
    let whole = line_points(p.0, p.1, q.0, q.1);
    lemma_on_one_line_any_order(x1, y1, x2, y2, x3, y3);
    if comes_before(x1, y1, x2, y2) && comes_before(x2, y2, x3, y3) {
        lemma_flat_outline(x1, y1, x2, y2, x3, y3);
        assert(sides =~= whole);
    } else if comes_before(x1, y1, x3, y3) && comes_before(x3, y3, x2, y2) {
        lemma_flat_outline(x1, y1, x3, y3, x2, y2);
        assert(sides =~= whole);
    } else if comes_before(x2, y2, x1, y1) && comes_before(x1, y1, x3, y3) {
        lemma_flat_outline(x2, y2, x1, y1, x3, y3);
        assert(sides =~= whole);
    } else if comes_before(x2, y2, x3, y3) && comes_before(x3, y3, x1, y1) {
        lemma_flat_outline(x2, y2, x3, y3, x1, y1);
        assert(sides =~= whole);
    } else if comes_before(x3, y3, x1, y1) && comes_before(x1, y1, x2, y2) {
        lemma_flat_outline(x3, y3, x1, y1, x2, y2);
        assert(sides =~= whole);
    } else {
        lemma_flat_outline(x3, y3, x2, y2, x1, y1);
        assert(sides =~= whole);
    }
    lemma_line_gapless(p.0, p.1, q.0, q.1);
    lemma_hull_of_gapless(whole);
}

/// The smallest `q` whose multiple of `b` reaches `a` is `a / b` rounded
/// up.
proof fn lemma_round_up(a: int, b: int, q: int)
    requires
        b > 0,
        q == (a + b - 1) / b,
    ensures
        q * b >= a,
        (q - 1) * b < a,
{
    lemma_fundamental_div_mod(a + b - 1, b);
    lemma_mod_bound(a + b - 1, b);
    assert(b * q == q * b && (q - 1) * b == q * b - b) by (nonlinear_arith);
}

/// The first and the last step of a flat line on which it has drifted by
/// exactly `m`.
fn flat_reach(long: i64, short: i64, m: i64) -> (r: (i64, i64))
    requires
        0 <= m <= short <= long <= 0x1_0000_0000,
    ensures
        0 <= r.0 <= r.1 <= long,
        drift(r.0 as int, long as int, short as int, 0) == m,
        drift(r.1 as int, long as int, short as int, 0) == m,
        forall|k: int|
            0 <= k <= long && #[trigger] drift(k, long as int, short as int, 0) == m ==> r.0 <= k
                <= r.1,
{
    let b: i128 = 2 * (short as i128);
    let ghost first_due: int = 2 * long * m - long;
    let ghost next_due: int = 2 * long * (m + 1) - long;
    assert(0 <= 2 * long * m <= 2 * long * short && 2 * long * short <= 0x2_0000_0000_0000_0000)
        by (nonlinear_arith)
        requires
            0 <= m <= short <= long <= 0x1_0000_0000,
    ;
    assert(2 * long * (m + 1) == 2 * long * m + 2 * long) by (nonlinear_arith);
    let lo: i64 = if m == 0 {
        0
    } else {
        assert(2 * long * m >= 2 * long) by (nonlinear_arith)
            requires
                m >= 1,
                long >= 0,
        ;
        let a: i128 = 2 * (long as i128) * (m as i128) - long as i128;
        let q = (a + b - 1) / b;
        proof {
            assert(a == first_due);
            lemma_round_up(a as int, b as int, q as int);
            // the end of the line is late enough, so `q` is no later
            assert(long * b >= a) by (nonlinear_arith)
                requires
                    b == 2 * short,
                    a == 2 * long * m - long,
                    0 <= m <= short,
                    0 <= long,
            ;
            if q > long {
                lemma_mul_inequality(long as int, q - 1, b as int);
            }
            if q < 1 {
                lemma_mul_inequality(q as int, 0, b as int);
            }
        }
        q as i64
    };
    let hi: i64 = if m == short {
        long
    } else {
        let a: i128 = 2 * (long as i128) * ((m + 1) as i128) - long as i128;
        let q = (a + b - 1) / b;
        proof {
            assert(a == next_due);
            lemma_round_up(a as int, b as int, q as int);
            assert(long * b >= a) by (nonlinear_arith)
                requires
                    b == 2 * short,
                    a == 2 * long * (m + 1) - long,
                    0 <= m + 1 <= short,
                    0 <= long,
            ;
            if q > long {
                lemma_mul_inequality(long as int, q - 1, b as int);
            }
            if q < 1 {
                lemma_mul_inequality(q as int, 0, b as int);
            }
        }
        (q - 1) as i64
    };
    proof {
        if long > 0 {
            lemma_drift_ends(long as int, short as int, 0);
            if m > 0 {
                assert(lo * b == 2 * short * lo) by (nonlinear_arith)
                    requires
                        b == 2 * short,
                ;
                assert((lo - 1) * b == 2 * short * lo - 2 * short) by (nonlinear_arith)
                    requires
                        b == 2 * short,
                ;
                lemma_drift(lo as int, long as int, short as int, 0, m as int);
            }
            if m < short {
                assert((hi + 1) * b == 2 * short * hi + 2 * short) by (nonlinear_arith)
                    requires
                        b == 2 * short,
                ;
                assert(hi * b == 2 * short * hi) by (nonlinear_arith)
                    requires
                        b == 2 * short,
                ;
                lemma_drift(hi as int, long as int, short as int, 0, m as int);
            }
            assert forall|k: int|
                0 <= k <= long && #[trigger] drift(
                    k,
                    long as int,
                    short as int,
                    0,
                ) == m implies lo <= k <= hi by {
                lemma_drift_value(k, long as int, short as int, 0);
                assert(k * b == 2 * short * k) by (nonlinear_arith)
                    requires
                        b == 2 * short,
                ;
                if m > 0 && k < lo {
                    lemma_mul_inequality(k, lo - 1, b as int);
                }
                if m < short && k > hi {
                    lemma_mul_inequality(hi + 1, k, b as int);
                }
            }
            assert(lo <= hi) by {
                if m > 0 {
                    lemma_drift_value(lo as int, long as int, short as int, 0);
                    assert(lo * b == 2 * short * lo) by (nonlinear_arith)
                        requires
                            b == 2 * short,
                    ;
                    if m < short && lo > hi {
                        lemma_mul_inequality(hi + 1, lo as int, b as int);
                    }
                }
            }
        }
    }
    (lo, hi)
}

/// The leftmost and the rightmost position that the line between
/// `(x1, y1)` and `(x2, y2)` has on row `y`, if it has any.
fn line_extremes(x1: i64, y1: i64, x2: i64, y2: i64, y: i64) -> (e: Option<(i64, i64)>)
    requires
        -0x8000_0000 <= x1 <= 0x7fff_ffff,
        -0x8000_0000 <= y1 <= 0x7fff_ffff,
        -0x8000_0000 <= x2 <= 0x7fff_ffff,
        -0x8000_0000 <= y2 <= 0x7fff_ffff,
        -0x8000_0000 <= y <= 0x7fff_ffff,
    ensures
        extremes(line_points(x1 as int, y1 as int, x2 as int, y2 as int), y as int, e),
{
    let ghost line = line_points(x1 as int, y1 as int, x2 as int, y2 as int);
    let dx = x2 - x1;
    let dy = y2 - y1;
    let wide = if dx < 0 {
        -dx
    } else {
        dx
    };
    let high = if dy < 0 {
        -dy
    } else {
        dy
    };
    let up = (dx < 0 && dy < 0) || (dx > 0 && dy > 0);
    if high <= wide {
        let (xs, ys) = if dx >= 0 {
            (x1, y1)
        } else {
            (x2, y2)
        };
        let m = if up {
            y - ys
        } else {
            ys - y
        };
        assert(line == trace(false, xs as int, ys as int, up, wide as int, high as int, wide as int));
        if m < 0 || m > high {
            proof {
                assert forall|x: int| !#[trigger] line.contains((x, y as int)) by {
                    if 0 <= x - xs <= wide {
                        lemma_drift_bounds(x - xs, wide as int, high as int, 0);
                    }
                }
            }
            None
        } else {
            let (lo, hi) = flat_reach(wide, high, m);
            proof {
                assert(line.contains((xs + lo, y as int)));
                assert(line.contains((xs + hi, y as int)));
                assert forall|x: int| #[trigger] line.contains((x, y as int)) implies xs + lo <= x
                    <= xs + hi by {
                    assert(drift(x - xs, wide as int, high as int, 0) == m);
                }
            }
            Some((xs + lo, xs + hi))
        }
    } else {
        let (xs, ys) = if dy >= 0 {
            (x1, y1)
        } else {
            (x2, y2)
        };
        let k = y - ys;
        assert(line == trace(true, ys as int, xs as int, up, high as int, wide as int, high as int));
        if k < 0 || k > high {
            None
        } else {
            assert(0 <= 2 * wide * k <= 0x2_0000_0000_0000_0000) by (nonlinear_arith)
                requires
                    0 <= wide <= 0x1_0000_0000,
                    0 <= k <= 0x1_0000_0000,
            ;
            let d = ((2 * (wide as i128) * (k as i128) + high as i128 - 1) / (2 * (high as i128))) as i64;
            proof {
                lemma_drift_bounds(k as int, high as int, wide as int, 1);
                assert(d == drift(k as int, high as int, wide as int, 1));
            }
            let x = if up {
                xs + d
            } else {
                xs - d
            };
            proof {
                assert(line.contains((x as int, y as int)));
            }
            Some((x, x))
        }
    }
}

/// The extremes of two sets together.
fn join(
    a: Option<(i64, i64)>,
    b: Option<(i64, i64)>,
    Ghost(s): Ghost<Set<(int, int)>>,
    Ghost(t): Ghost<Set<(int, int)>>,
    Ghost(y): Ghost<int>,
) -> (e: Option<(i64, i64)>)
    requires
        extremes(s, y, a),
        extremes(t, y, b),
    ensures
        extremes(s.union(t), y, e),
{
    match (a, b) {
        (Some(p), Some(q)) => {
            let lo = if p.0 <= q.0 {
                p.0
            } else {
                q.0
            };
            let hi = if p.1 >= q.1 {
                p.1
            } else {
                q.1
            };
            Some((lo, hi))
        },
        (Some(p), None) => Some(p),
        (None, Some(q)) => Some(q),
        (None, None) => None,
    }
}

impl ConsoleGameEngine {
    /// Fills the triangle with the three given corners, scan row by scan
    /// row, clipped to the screen. Every row from the topmost corner to
    /// the bottommost one gets the span between the outermost positions of
    /// the triangle's sides on it.
    pub fn fill_triangle(
        &mut self,
        x1: i32,
        y1: i32,
        x2: i32,
        y2: i32,
        x3: i32,
        y3: i32,
        glyph: u16,
        col: u16,
    )
        ensures
            final(self)@ == (EngineView {
                screen: old(self)@.screen.paint(
                    triangle_fill(x1 as int, y1 as int, x2 as int, y2 as int, x3 as int, y3 as int),
                    Cell { glyph, attributes: col },
                ),
                ..old(self)@
            }),
    {
        let cell = Cell { glyph, attributes: col };
        let ghost before = self@.screen;
        let ghost a = line_points(x1 as int, y1 as int, x2 as int, y2 as int);
        let ghost b = line_points(x2 as int, y2 as int, x3 as int, y3 as int);
        let ghost c = line_points(x3 as int, y3 as int, x1 as int, y1 as int);
        let ghost sides = triangle_outline(
            x1 as int,
            y1 as int,
            x2 as int,
            y2 as int,
            x3 as int,
            y3 as int,
        );
        let ghost fill = row_hull(sides);
        let top = if y1 <= y2 && y1 <= y3 {
            y1
        } else if y2 <= y3 {
            y2
        } else {
            y3
        } as i64;
        let bottom = if y1 >= y2 && y1 >= y3 {
            y1
        } else if y2 >= y3 {
            y2
        } else {
            y3
        } as i64;
        proof {
            lemma_line_within_ends(x1 as int, y1 as int, x2 as int, y2 as int);
            lemma_line_within_ends(x2 as int, y2 as int, x3 as int, y3 as int);
            lemma_line_within_ends(x3 as int, y3 as int, x1 as int, y1 as int);
            assert forall|p: (int, int)| #[trigger] fill.contains(p) implies top <= p.1 <= bottom by {
                let (u, v) = choose|u: int, v: int|
                    u <= p.0 <= v && #[trigger] sides.contains((u, p.1)) && #[trigger] sides.contains(
                        (v, p.1),
                    );
                assert(a.contains((u, p.1)) || b.contains((u, p.1)) || c.contains((u, p.1)));
            }
            before.lemma_paint_nothing(cell);
            assert(rows_above(fill, top as int) =~= Set::empty());
        }
        let mut y = top;
        while y <= bottom
            invariant
                top <= y <= bottom + 1,
                -0x8000_0000 <= top,
                bottom <= 0x7fff_ffff,
                a == line_points(x1 as int, y1 as int, x2 as int, y2 as int),
                b == line_points(x2 as int, y2 as int, x3 as int, y3 as int),
                c == line_points(x3 as int, y3 as int, x1 as int, y1 as int),
                fill == row_hull(a.union(b).union(c)),
                self@ == (EngineView {
                    screen: before.paint(rows_above(fill, y as int), cell),
                    ..old(self)@
                }),
            decreases bottom + 1 - y,
        {
            let first = line_extremes(x1 as i64, y1 as i64, x2 as i64, y2 as i64, y);
            let second = line_extremes(x2 as i64, y2 as i64, x3 as i64, y3 as i64, y);
            let third = line_extremes(x3 as i64, y3 as i64, x1 as i64, y1 as i64, y);
            let two = join(first, second, Ghost(a), Ghost(b), Ghost(y as int));
            let all = join(two, third, Ghost(a.union(b)), Ghost(c), Ghost(y as int));
            proof {
                lemma_hull_row(a.union(b).union(c), y as int, all);
            }
            match all {
                Some(r) => {
                    self.hline(r.0 as i128, r.1 as i128, y as i128, cell);
                    proof {
                        before.lemma_paint_twice(
                            rows_above(fill, y as int),
                            span(r.0 as int, r.1 as int, y as int),
                            cell,
                        );
                        assert(rows_above(fill, y as int).union(
                            span(r.0 as int, r.1 as int, y as int),
                        ) =~= rows_above(fill, y + 1));
                    }
                },
                None => {
                    assert(rows_above(fill, y as int) =~= rows_above(fill, y + 1));
                },
            }
            y = y + 1;
        }
        proof {
            assert(rows_above(fill, y as int) =~= fill);
        }
    }
}

} // verus!
