//! Circles and discs, by the midpoint circle walk.

use crate::engine::{ConsoleGameEngine, EngineView};
use crate::grid::Cell;
use crate::shapes::span;
use vstd::prelude::*;

verus! {

/// The eight positions that mirror the octant position `(a, b)` around the
/// centre `(cx, cy)`.
pub open spec fn ring(cx: int, cy: int, a: int, b: int) -> Set<(int, int)> {
    set![
        (cx - a, cy - b),
        (cx - b, cy - a),
        (cx + b, cy - a),
        (cx + a, cy - b),
        (cx - a, cy + b),
        (cx - b, cy + a),
        (cx + b, cy + a),
        (cx + a, cy + b),
    ]
}

/// The four horizontal spans between the positions of [`ring`].
pub open spec fn bands(cx: int, cy: int, a: int, b: int) -> Set<(int, int)> {
    span(cx - a, cx + a, cy - b).union(span(cx - b, cx + b, cy - a)).union(
        span(cx - a, cx + a, cy + b),
    ).union(span(cx - b, cx + b, cy + a))
}

/// What the midpoint circle walk covers from the octant position `(a, b)`
/// with the decision value `p` on: at every step the ring of the position,
/// or its bands if `filled`; then `a` grows, and `b` falls unless `p` is
/// negative. The walk ends when `b` is less than `a`.
pub open spec fn arc(cx: int, cy: int, a: int, b: int, p: int, filled: bool) -> Set<(int, int)>
    decreases b - a + 2,
{
    if b < a {
        Set::empty()
    } else {
        (if filled {
            bands(cx, cy, a, b)
        } else {
            ring(cx, cy, a, b)
        }).union(
            if p < 0 {
                arc(cx, cy, a + 1, b, p + 4 * a + 6, filled)
            } else {
                arc(cx, cy, a + 1, b - 1, p + 4 * (a - b) + 10, filled)
            },
        )
    }
}

/// The outline of the circle around `(cx, cy)`: the midpoint circle walk
/// from `(0, radius)` with the decision value `3 - 2 * radius`. A radius
/// that is not positive gives nothing.
pub open spec fn circle_outline(cx: int, cy: int, radius: int) -> Set<(int, int)> {
    if radius <= 0 {
        Set::empty()
    } else {
        arc(cx, cy, 0, radius, 3 - 2 * radius, false)
    }
}

/// The disc around `(cx, cy)`: the same walk as the outline, covering the
/// spans between the outline's positions.
pub open spec fn circle_fill(cx: int, cy: int, radius: int) -> Set<(int, int)> {
    if radius <= 0 {
        Set::empty()
    } else {
        arc(cx, cy, 0, radius, 3 - 2 * radius, true)
    }
}

/// From any position of the walk on, the filled walk covers what the
/// outlining walk covers.
pub proof fn lemma_arc_covered(cx: int, cy: int, a: int, b: int, p: int)
    requires
        0 <= a,
    ensures
        arc(cx, cy, a, b, p, false).subset_of(arc(cx, cy, a, b, p, true)),
    decreases b - a + 2,
{
    if b >= a {
        if p < 0 {
            lemma_arc_covered(cx, cy, a + 1, b, p + 4 * a + 6);
        } else {
            lemma_arc_covered(cx, cy, a + 1, b - 1, p + 4 * (a - b) + 10);
        }
        assert(ring(cx, cy, a, b).subset_of(bands(cx, cy, a, b)));
    }
}

/// A disc covers the outline of the circle with the same centre and
/// radius: every position of the outline is a position of the disc.
pub proof fn lemma_circle_fill_covers_outline(cx: int, cy: int, radius: int)
    ensures
        circle_outline(cx, cy, radius).subset_of(circle_fill(cx, cy, radius)),
{
    if radius > 0 {
        lemma_arc_covered(cx, cy, 0, radius, 3 - 2 * radius);
    }
}
/// The square of the distance between `p` and the centre `(cx, cy)`.
pub open spec fn distance_squared(p: (int, int), cx: int, cy: int) -> int {
    (p.0 - cx) * (p.0 - cx) + (p.1 - cy) * (p.1 - cy)
}

/// Every position of a ring is as far from the centre as the octant
/// position it mirrors.
proof fn lemma_ring_distance(cx: int, cy: int, a: int, b: int, q: (int, int))
    requires
        ring(cx, cy, a, b).contains(q),
    ensures
        distance_squared(q, cx, cy) == a * a + b * b,
{
    let dx = q.0 - cx;
    let dy = q.1 - cy;
    assert((dx == a || dx == -a) && (dy == b || dy == -b) || (dx == b || dx == -b) && (dy == a || dy
        == -a));
    assert(dx * dx + dy * dy == a * a + b * b) by (nonlinear_arith)
        requires
            (dx == a || dx == -a) && (dy == b || dy == -b) || (dx == b || dx == -b) && (dy == a
                || dy == -a),
    ;
}

/// No position of a band is farther from the centre than the octant
/// position whose ring bounds it.
proof fn lemma_bands_distance(cx: int, cy: int, a: int, b: int, q: (int, int))
    requires
        bands(cx, cy, a, b).contains(q),
    ensures
        distance_squared(q, cx, cy) <= a * a + b * b,
{
    let dx = q.0 - cx;
    let dy = q.1 - cy;
    assert((-a <= dx <= a && (dy == b || dy == -b)) || (-b <= dx <= b && (dy == a || dy == -a)));
    assert(dx * dx + dy * dy <= a * a + b * b) by (nonlinear_arith)
        requires
            (-a <= dx <= a && (dy == b || dy == -b)) || (-b <= dx <= b && (dy == a || dy == -a)),
    ;
}

/// What the decision value says at an octant position that the walk
/// covers: it is the sum of the errors of the two positions to choose from
/// next, and the position itself is off the ideal circle by no more than
/// its own height.
pub open spec fn on_course(a: int, b: int, p: int, radius: int) -> bool {
    &&& 0 <= a
    &&& b <= radius
    &&& p == 2 * (a * a + b * b - radius * radius) + 4 * a - 2 * b + 3
    &&& (b >= a ==> 4 * a - 4 * b + 3 <= p <= 4 * a + 3)
}

/// The walk stays on course, and whatever it covers from an octant
/// position on lies within the margin of the ideal circle; its bands do
/// not reach beyond it.
proof fn lemma_arc_near(cx: int, cy: int, radius: int, a: int, b: int, p: int, filled: bool)
    requires
        on_course(a, b, p, radius),
    ensures
        forall|q: (int, int)| #[trigger]
            arc(cx, cy, a, b, p, filled).contains(q) ==> distance_squared(q, cx, cy) <= radius
                * radius + radius,
        !filled ==> forall|q: (int, int)| #[trigger]
            arc(cx, cy, a, b, p, filled).contains(q) ==> radius * radius - radius
                <= distance_squared(q, cx, cy),
    decreases b - a + 2,
{
    if b >= a {
        let e = a * a + b * b - radius * radius;
        assert(-radius <= e <= radius);
        assert((a + 1) * (a + 1) == a * a + 2 * a + 1) by (nonlinear_arith);
        assert((b - 1) * (b - 1) == b * b - 2 * b + 1) by (nonlinear_arith);
        let (next_b, next_p) = if p < 0 {
            (b, p + 4 * a + 6)
        } else {
            (b - 1, p + 4 * (a - b) + 10)
        };
        assert(on_course(a + 1, next_b, next_p, radius));
        lemma_arc_near(cx, cy, radius, a + 1, next_b, next_p, filled);
        assert forall|q: (int, int)| #[trigger]
            arc(cx, cy, a, b, p, filled).contains(q) implies distance_squared(q, cx, cy) <= radius
            * radius + radius by {
            if arc(cx, cy, a + 1, next_b, next_p, filled).contains(q) {
            } else if filled {
                lemma_bands_distance(cx, cy, a, b, q);
            } else {
                lemma_ring_distance(cx, cy, a, b, q);
            }
        }
        if !filled {
            assert forall|q: (int, int)| #[trigger]
                arc(cx, cy, a, b, p, filled).contains(q) implies radius * radius - radius
                <= distance_squared(q, cx, cy) by {
                if arc(cx, cy, a + 1, next_b, next_p, filled).contains(q) {
                } else {
                    lemma_ring_distance(cx, cy, a, b, q);
                }
            }
        }
    }
}

/// A number whose square is at most `b * b + b` is at most `b` in size.
proof fn lemma_root_bound(d: int, b: int)
    by (nonlinear_arith)
    requires
        0 <= b,
        d * d <= b * b + b,
    ensures
        -b <= d <= b,
{
}

/// From an octant position on, the filling walk covers every position of
/// the ideal disc in the rows it has yet to close: those from `a` to `b`
/// away from the centre's row.
proof fn lemma_arc_covers(cx: int, cy: int, radius: int, a: int, b: int, p: int, dx: int, dy: int)
    requires
        on_course(a, b, p, radius),
        a <= dy <= b || a <= -dy <= b,
        dx * dx + dy * dy <= radius * radius,
    ensures
        arc(cx, cy, a, b, p, true).contains((cx + dx, cy + dy)),
    decreases b - a + 2,
{
    let e = a * a + b * b - radius * radius;
    let q = (cx + dx, cy + dy);
    let row = if dy < 0 {
        -dy
    } else {
        dy
    };
    assert(row * row == dy * dy) by (nonlinear_arith)
        requires
            row == dy || row == -dy,
    ;
    assert((a + 1) * (a + 1) == a * a + 2 * a + 1) by (nonlinear_arith);
    assert((b - 1) * (b - 1) == b * b - 2 * b + 1) by (nonlinear_arith);
    let (next_b, next_p) = if p < 0 {
        (b, p + 4 * a + 6)
    } else {
        (b - 1, p + 4 * (a - b) + 10)
    };
    assert(on_course(a + 1, next_b, next_p, radius));
    if row == a {
        assert(dx * dx <= b * b + b) by (nonlinear_arith)
            requires
                dx * dx + row * row <= radius * radius,
                row == a,
                e == a * a + b * b - radius * radius,
                -b <= e,
        ;
        lemma_root_bound(dx, b);
        assert(span(cx - b, cx + b, cy - a).contains(q) || span(cx - b, cx + b, cy + a).contains(q));
        assert(bands(cx, cy, a, b).contains(q));
    } else if row <= next_b {
        lemma_arc_covers(cx, cy, radius, a + 1, next_b, next_p, dx, dy);
    } else {
        assert(row == b && p >= 1);
        assert(dx * dx <= a * a + a) by (nonlinear_arith)
            requires
                dx * dx + row * row <= radius * radius,
                row == b,
                e == a * a + b * b - radius * radius,
                e >= b - 2 * a - 1,
                b >= a + 1,
        ;
        lemma_root_bound(dx, a);
        assert(span(cx - a, cx + a, cy - b).contains(q) || span(cx - a, cx + a, cy + b).contains(q));
        assert(bands(cx, cy, a, b).contains(q));
    }
}

/// A disc covers the ideal disc: every position whose distance from the
/// centre is the radius at most is a position of the disc.
pub proof fn lemma_circle_fill_covers_disc(cx: int, cy: int, radius: int)
    requires
        radius > 0,
    ensures
        forall|q: (int, int)|
            distance_squared(q, cx, cy) <= radius * radius ==> #[trigger] circle_fill(
                cx,
                cy,
                radius,
            ).contains(q),
{
    assert forall|q: (int, int)| distance_squared(q, cx, cy) <= radius * radius implies #[trigger] circle_fill(
        cx,
        cy,
        radius,
    ).contains(q) by {
        let dx = q.0 - cx;
        let dy = q.1 - cy;
        assert(-radius <= dy <= radius) by (nonlinear_arith)
            requires
                dx * dx + dy * dy <= radius * radius,
                radius > 0,
        ;
        lemma_arc_covers(cx, cy, radius, 0, radius, 3 - 2 * radius, dx, dy);
    }
}

/// The outline of a circle follows the ideal circle: the squared distance
/// of each of its positions from the centre differs from the squared
/// radius by the radius at most, so the distance itself by less than one
/// cell.
pub proof fn lemma_circle_outline_near_circle(cx: int, cy: int, radius: int)
    ensures
        forall|q: (int, int)| #[trigger]
            circle_outline(cx, cy, radius).contains(q) ==> radius * radius - radius
                <= distance_squared(q, cx, cy) <= radius * radius + radius,
{
    if radius > 0 {
        assert(radius * radius >= 0) by (nonlinear_arith);
        lemma_arc_near(cx, cy, radius, 0, radius, 3 - 2 * radius, false);
    }
}

/// A disc does not reach beyond its circle: the squared distance of each
/// of its positions from the centre exceeds the squared radius by the
/// radius at most.
pub proof fn lemma_circle_fill_inside_circle(cx: int, cy: int, radius: int)
    ensures
        forall|q: (int, int)| #[trigger]
            circle_fill(cx, cy, radius).contains(q) ==> distance_squared(q, cx, cy) <= radius
                * radius + radius,
{
    if radius > 0 {
        assert(radius * radius >= 0) by (nonlinear_arith);
        lemma_arc_near(cx, cy, radius, 0, radius, 3 - 2 * radius, true);
    }
}

impl ConsoleGameEngine {
    /// Writes `cell` to the eight positions that mirror `(a, b)` around
    /// `(cx, cy)`.
    fn plot_ring(&mut self, cx: i64, cy: i64, a: i64, b: i64, cell: Cell)
        requires
            -0x1_0000_0000 <= cx <= 0x1_0000_0000,
            -0x1_0000_0000 <= cy <= 0x1_0000_0000,
            -0x1_0000_0000 <= a <= 0x1_0000_0000,
            -0x1_0000_0000 <= b <= 0x1_0000_0000,
        ensures
            final(self)@ == (EngineView {
                screen: old(self)@.screen.paint(ring(cx as int, cy as int, a as int, b as int), cell),
                ..old(self)@
            }),
    {
        let ghost before = self@.screen;
        self.plot((cx - a) as i128, (cy - b) as i128, cell);
        self.plot((cx - b) as i128, (cy - a) as i128, cell);
        self.plot((cx + b) as i128, (cy - a) as i128, cell);
        self.plot((cx + a) as i128, (cy - b) as i128, cell);
        self.plot((cx - a) as i128, (cy + b) as i128, cell);
        self.plot((cx - b) as i128, (cy + a) as i128, cell);
        self.plot((cx + b) as i128, (cy + a) as i128, cell);
        self.plot((cx + a) as i128, (cy + b) as i128, cell);
        proof {
            let ring1: Set<(int, int)> = set![(cx - a, cy - b)];
            let ring2 = ring1.insert((cx - b, cy - a));
            let ring3 = ring2.insert((cx + b, cy - a));
            let ring4 = ring3.insert((cx + a, cy - b));
            let ring5 = ring4.insert((cx - a, cy + b));
            let ring6 = ring5.insert((cx - b, cy + a));
            let ring7 = ring6.insert((cx + b, cy + a));
            let ring8 = ring7.insert((cx + a, cy + b));
            before.lemma_paint_twice(ring1, set![(cx - b, cy - a)], cell);
            assert(ring1.union(set![(cx - b, cy - a)]) =~= ring2);
            before.lemma_paint_twice(ring2, set![(cx + b, cy - a)], cell);
            assert(ring2.union(set![(cx + b, cy - a)]) =~= ring3);
            before.lemma_paint_twice(ring3, set![(cx + a, cy - b)], cell);
            assert(ring3.union(set![(cx + a, cy - b)]) =~= ring4);
            before.lemma_paint_twice(ring4, set![(cx - a, cy + b)], cell);
            assert(ring4.union(set![(cx - a, cy + b)]) =~= ring5);
            before.lemma_paint_twice(ring5, set![(cx - b, cy + a)], cell);
            assert(ring5.union(set![(cx - b, cy + a)]) =~= ring6);
            before.lemma_paint_twice(ring6, set![(cx + b, cy + a)], cell);
            assert(ring6.union(set![(cx + b, cy + a)]) =~= ring7);
            before.lemma_paint_twice(ring7, set![(cx + a, cy + b)], cell);
            assert(ring7.union(set![(cx + a, cy + b)]) =~= ring8);
            assert(ring8 =~= ring(cx as int, cy as int, a as int, b as int));
        }
    }

    /// Writes `cell` to the four spans between the positions that mirror
    /// `(a, b)` around `(cx, cy)`.
    fn plot_bands(&mut self, cx: i64, cy: i64, a: i64, b: i64, cell: Cell)
        requires
            -0x1_0000_0000 <= cx <= 0x1_0000_0000,
            -0x1_0000_0000 <= cy <= 0x1_0000_0000,
            -0x1_0000_0000 <= a <= 0x1_0000_0000,
            -0x1_0000_0000 <= b <= 0x1_0000_0000,
        ensures
            final(self)@ == (EngineView {
                screen: old(self)@.screen.paint(bands(cx as int, cy as int, a as int, b as int), cell),
                ..old(self)@
            }),
    {
        let ghost before = self@.screen;
        let ghost next_b = span(cx - a, cx + a, cy - b);
        let ghost b2 = span(cx - b, cx + b, cy - a);
        let ghost b3 = span(cx - a, cx + a, cy + b);
        let ghost b4 = span(cx - b, cx + b, cy + a);
        self.hline((cx - a) as i128, (cx + a) as i128, (cy - b) as i128, cell);
        self.hline((cx - b) as i128, (cx + b) as i128, (cy - a) as i128, cell);
        self.hline((cx - a) as i128, (cx + a) as i128, (cy + b) as i128, cell);
        self.hline((cx - b) as i128, (cx + b) as i128, (cy + a) as i128, cell);
        proof {
            before.lemma_paint_twice(next_b, b2, cell);
            before.lemma_paint_twice(next_b.union(b2), b3, cell);
            before.lemma_paint_twice(next_b.union(b2).union(b3), b4, cell);
        }
    }

    /// Walks the octant of a circle and covers the ring of every position
    /// on it, or its bands if `filled`.
    fn draw_arc(&mut self, x: i32, y: i32, radius: i32, filled: bool, cell: Cell)
        requires
            radius > 0,
        ensures
            final(self)@ == (EngineView {
                screen: old(self)@.screen.paint(
                    arc(x as int, y as int, 0, radius as int, 3 - 2 * radius, filled),
                    cell,
                ),
                ..old(self)@
            }),
    {
        let ghost before = self@.screen;
        let ghost total = arc(x as int, y as int, 0, radius as int, 3 - 2 * radius, filled);
        let cx = x as i64;
        let cy = y as i64;
        let mut a: i64 = 0;
        let mut b: i64 = radius as i64;
        let mut p: i128 = 3 - 2 * (radius as i128);
        while b >= a
            invariant
                cx == x,
                cy == y,
                0 <= a <= b + 2,
                b <= radius,
                -0x4_0000_0000 - a * 0x8_0000_0000 <= p <= 0x4_0000_0000 + a * 0x8_0000_0000,
                self@ == (EngineView { screen: self@.screen, ..old(self)@ }),
                before.paint(total, cell) == self@.screen.paint(
                    arc(cx as int, cy as int, a as int, b as int, p as int, filled),
                    cell,
                ),
            decreases b - a + 2,
        {
            let ghost now = self@.screen;
            let ghost here = if filled {
                bands(cx as int, cy as int, a as int, b as int)
            } else {
                ring(cx as int, cy as int, a as int, b as int)
            };
            let ghost rest = if p < 0 {
                arc(cx as int, cy as int, a + 1, b as int, p + 4 * a + 6, filled)
            } else {
                arc(cx as int, cy as int, a + 1, b - 1, p + 4 * (a - b) + 10, filled)
            };
            if filled {
                self.plot_bands(cx, cy, a, b, cell);
            } else {
                self.plot_ring(cx, cy, a, b, cell);
            }
            proof {
                now.lemma_paint_twice(here, rest, cell);
            }
            if p < 0 {
                p = p + 4 * (a as i128) + 6;
                a = a + 1;
            } else {
                p = p + 4 * ((a - b) as i128) + 10;
                a = a + 1;
                b = b - 1;
            }
        }
        proof {
            self@.screen.lemma_paint_nothing(cell);
        }
    }

    /// Draws the outline of the circle around `(x, y)`; a radius that is
    /// not positive draws nothing.
    pub fn draw_circle(&mut self, x: i32, y: i32, radius: i32, glyph: u16, col: u16)
        ensures
            final(self)@ == (EngineView {
                screen: old(self)@.screen.paint(
                    circle_outline(x as int, y as int, radius as int),
                    Cell { glyph, attributes: col },
                ),
                ..old(self)@
            }),
    {
        if radius <= 0 {
            proof {
                self@.screen.lemma_paint_nothing(Cell { glyph, attributes: col });
            }
            return ;
        }
        self.draw_arc(x, y, radius, false, Cell { glyph, attributes: col });
    }

    /// Draws the disc around `(x, y)`; a radius that is not positive draws
    /// nothing.
    pub fn fill_circle(&mut self, x: i32, y: i32, radius: i32, glyph: u16, col: u16)
        ensures
            final(self)@ == (EngineView {
                screen: old(self)@.screen.paint(
                    circle_fill(x as int, y as int, radius as int),
                    Cell { glyph, attributes: col },
                ),
                ..old(self)@
            }),
    {
        if radius <= 0 {
            proof {
                self@.screen.lemma_paint_nothing(Cell { glyph, attributes: col });
            }
            return ;
        }
        self.draw_arc(x, y, radius, true, Cell { glyph, attributes: col });
    }
}

} // verus!
