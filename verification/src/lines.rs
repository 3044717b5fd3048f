//! Lines, and the outlines made of them.

use crate::engine::{ConsoleGameEngine, EngineView};
use crate::grid::Cell;
use crate::shapes::{max, min, span};
use vstd::arithmetic::div_mod::{
    lemma_div_is_ordered, lemma_div_pos_is_pos, lemma_fundamental_div_mod,
    lemma_fundamental_div_mod_converse, lemma_mod_bound,
};
use vstd::prelude::*;

verus! {

/// How far a line has moved along its minor axis after `k` steps along
/// its major one. The line covers `long` steps along the major axis and
/// `short` along the minor one, so this is `k * short / long` rounded to
/// the nearest integer; a tie rounds up where `bias` is 0 and down where
/// it is 1.
pub open spec fn drift(k: int, long: int, short: int, bias: int) -> int {
    if long <= 0 {
        0
    } else {
        (2 * short * k + long - bias) / (2 * long)
    }
}

/// The minor coordinate of a line after it has drifted by `d`.
pub open spec fn drifted(b0: int, up: bool, d: int) -> int {
    if up {
        b0 + d
    } else {
        b0 - d
    }
}

/// The first `upto + 1` positions of a line that starts at `a0` on its
/// major axis and at `b0` on its minor one. The major axis is y if `steep`
/// and x if not; the minor coordinate grows if `up` and falls if not.
pub open spec fn trace(
    steep: bool,
    a0: int,
    b0: int,
    up: bool,
    long: int,
    short: int,
    upto: int,
) -> Set<(int, int)> {
    Set::new(
        |p: (int, int)|
            {
                let a = if steep {
                    p.1
                } else {
                    p.0
                };
                let b = if steep {
                    p.0
                } else {
                    p.1
                };
                let d = drift(
                    a - a0,
                    long,
                    short,
                    if steep {
                        1
                    } else {
                        0
                    },
                );
                0 <= a - a0 <= upto && b == drifted(b0, up, d)
            },
    )
}

/// The positions of the line between `(x1, y1)` and `(x2, y2)`.
///
/// A line that is at least as wide as it is high has one position in every
/// column from its left end to its right end; a higher one has one in
/// every row from its upper end to its lower end. Along the other axis the
/// positions follow the ideal line, rounded to the nearest cell.
pub open spec fn line_points(x1: int, y1: int, x2: int, y2: int) -> Set<(int, int)> {
    let dx = x2 - x1;
    let dy = y2 - y1;
    let wide = if dx < 0 {
        -dx
    } else {
        dx
    };
    let high = if dy < 0 {
        -dy
    } else {
        dy
    };
    let up = (dx < 0 && dy < 0) || (dx > 0 && dy > 0);
    if high <= wide {
        if dx >= 0 {
            trace(false, x1, y1, up, wide, high, wide)
        } else {
            trace(false, x2, y2, up, wide, high, wide)
        }
    } else {
        if dy >= 0 {
            trace(true, y1, x1, up, high, wide, high)
        } else {
            trace(true, y2, x2, up, high, wide, high)
        }
    }
}

/// The outline of a triangle: its three sides.
pub open spec fn triangle_outline(x1: int, y1: int, x2: int, y2: int, x3: int, y3: int) -> Set<
    (int, int),
> {
    line_points(x1, y1, x2, y2).union(line_points(x2, y2, x3, y3)).union(
        line_points(x3, y3, x1, y1),
    )
}

/// The outline of the rectangle with the corners `(x, y)` and
/// `(x + w, y + h)`: its four sides.
pub open spec fn rect_outline(x: int, y: int, w: int, h: int) -> Set<(int, int)> {
    line_points(x, y, x + w, y).union(line_points(x + w, y, x + w, y + h)).union(
        line_points(x + w, y + h, x, y + h),
    ).union(line_points(x, y + h, x, y))
}

/// The sides of the closed polygon through the first `upto` of `points`:
/// each point is joined to the next one, and the last one to the first.
pub open spec fn wire_frame(points: Seq<(int, int)>, upto: int) -> Set<(int, int)>
    decreases upto,
{
    if upto <= 0 {
        Set::empty()
    } else {
        let a = points[upto - 1];
        let b = points[upto % (points.len() as int)];
        wire_frame(points, upto - 1).union(line_points(a.0, a.1, b.0, b.1))
    }
}

/// The points of a model as pairs of integers.
pub open spec fn model_points(model: Seq<(i32, i32)>) -> Seq<(int, int)> {
    Seq::new(model.len(), |i: int| (model[i].0 as int, model[i].1 as int))
}

/// A line's drift after `k` steps is `m` if `k * short / long` lies within
/// half a step of `m`.
pub proof fn lemma_drift(k: int, long: int, short: int, bias: int, m: int)
    requires
        0 < long,
        2 * long * m <= 2 * short * k + long - bias < 2 * long * m + 2 * long,
    ensures
        drift(k, long, short, bias) == m,
{
    let x = 2 * short * k + long - bias;
    let d = 2 * long;
    assert(m * d == 2 * long * m) by (nonlinear_arith)
        requires
            d == 2 * long,
    ;
    lemma_fundamental_div_mod_converse(x, d, m, x - m * d);
}

/// What a line's drift after `k` steps says of `k`: the ideal line has
/// then moved by the drift, give or take half a step.
pub proof fn lemma_drift_value(k: int, long: int, short: int, bias: int)
    requires
        0 < long,
    ensures
        2 * long * drift(k, long, short, bias) <= 2 * short * k + long - bias < 2 * long * drift(
            k,
            long,
            short,
            bias,
        ) + 2 * long,
{
    let x = 2 * short * k + long - bias;
    let d = 2 * long;
    lemma_fundamental_div_mod(x, d);
    lemma_mod_bound(x, d);
    assert(d * (x / d) == 2 * long * (x / d)) by (nonlinear_arith)
        requires
            d == 2 * long,
    ;
}

/// A line starts without drift and ends with all of it.
pub proof fn lemma_drift_ends(long: int, short: int, bias: int)
    requires
        0 <= short <= long,
        bias == 0 || (bias == 1 && long > 0),
    ensures
        drift(0, long, short, bias) == 0,
        drift(long, long, short, bias) == short,
{
    if long > 0 {
        lemma_drift(0, long, short, bias, 0);
        assert(2 * long * short == 2 * short * long) by (nonlinear_arith);
        lemma_drift(long, long, short, bias, short);
    }
}

/// A line never drifts backwards, nor further than it has to.
pub proof fn lemma_drift_bounds(k: int, long: int, short: int, bias: int)
    requires
        0 <= short <= long,
        0 <= k <= long,
        bias == 0 || (bias == 1 && long > 0),
    ensures
        0 <= drift(k, long, short, bias) <= short,
{
    if long > 0 {
        lemma_drift_ends(long, short, bias);
        assert(0 <= 2 * short * k <= 2 * short * long) by (nonlinear_arith)
            requires
                0 <= short,
                0 <= k <= long,
        ;
        lemma_div_pos_is_pos(2 * short * k + long - bias, 2 * long);
        lemma_div_is_ordered(2 * short * k + long - bias, 2 * short * long + long - bias, 2 * long);
    }
}

/// Every position of a line lies between its two ends, in both
/// directions.
pub proof fn lemma_line_within_ends(x1: int, y1: int, x2: int, y2: int)
    ensures
        forall|p: (int, int)| #[trigger]
            line_points(x1, y1, x2, y2).contains(p) ==> min(x1, x2) <= p.0 <= max(x1, x2) && min(
                y1,
                y2,
            ) <= p.1 <= max(y1, y2),
{
    let dx = x2 - x1;
    let dy = y2 - y1;
    let wide = if dx < 0 {
        -dx
    } else {
        dx
    };
    let high = if dy < 0 {
        -dy
    } else {
        dy
    };
    assert forall|p: (int, int)| #[trigger]
        line_points(x1, y1, x2, y2).contains(p) implies min(x1, x2) <= p.0 <= max(x1, x2) && min(
        y1,
        y2,
    ) <= p.1 <= max(y1, y2) by {
        if high <= wide {
            lemma_drift_bounds(p.0 - min(x1, x2), wide, high, 0);
        } else {
            lemma_drift_bounds(p.1 - min(y1, y2), high, wide, 1);
        }
    }
}

/// A flat line drifts by every amount from nothing to all of it: for each
/// `m` up to the drift after `hi` steps there is a step, `hi` at the
/// latest, after which the drift is `m`.
pub proof fn lemma_drift_onto(long: int, short: int, bias: int, m: int, hi: int) -> (k: int)
    requires
        0 < long,
        0 <= short <= long,
        bias == 0 || bias == 1,
        0 <= hi <= long,
        0 <= m <= drift(hi, long, short, bias),
    ensures
        0 <= k <= hi,
        drift(k, long, short, bias) == m,
    decreases hi,
{
    if drift(hi, long, short, bias) == m {
        hi
    } else {
        lemma_drift_ends(long, short, bias);
        lemma_drift_value(hi, long, short, bias);
        lemma_drift_value(hi - 1, long, short, bias);
        let d = drift(hi, long, short, bias);
        let e = drift(hi - 1, long, short, bias);
        assert(2 * short * hi == 2 * short * (hi - 1) + 2 * short) by (nonlinear_arith);
        assert(d <= e + 1) by (nonlinear_arith)
            requires
                2 * long * d < 2 * long * e + 4 * long,
                long > 0,
        ;
        lemma_drift_onto(long, short, bias, m, hi - 1)
    }
}

/// A line has a position on every row between its ends.
pub proof fn lemma_line_meets_row(x1: int, y1: int, x2: int, y2: int, y: int) -> (x: int)
    requires
        min(y1, y2) <= y <= max(y1, y2),
    ensures
        line_points(x1, y1, x2, y2).contains((x, y)),
{
    let dx = x2 - x1;
    let dy = y2 - y1;
    let wide = if dx < 0 {
        -dx
    } else {
        dx
    };
    let high = if dy < 0 {
        -dy
    } else {
        dy
    };
    let up = (dx < 0 && dy < 0) || (dx > 0 && dy > 0);
    if high <= wide {
        let xs = if dx >= 0 {
            x1
        } else {
            x2
        };
        let ys = if dx >= 0 {
            y1
        } else {
            y2
        };
        let m = if up {
            y - ys
        } else {
            ys - y
        };
        if wide > 0 {
            lemma_drift_ends(wide, high, 0);
            let k = lemma_drift_onto(wide, high, 0, m, wide);
            xs + k
        } else {
            xs
        }
    } else {
        let xs = if dy >= 0 {
            x1
        } else {
            x2
        };
        let ys = if dy >= 0 {
            y1
        } else {
            y2
        };
        drifted(xs, up, drift(y - ys, high, wide, 1))
    }
}

/// A part of a line that keeps the line's slope drifts as the whole line
/// does.
pub proof fn lemma_drift_of_part(
    k: int,
    long: int,
    short: int,
    part_long: int,
    part_short: int,
    bias: int,
)
    requires
        0 < long,
        0 < part_long,
        part_short * long == short * part_long,
        bias == 0 || bias == 1,
    ensures
        drift(k, part_long, part_short, bias) == drift(k, long, short, bias),
{
    let m = drift(k, long, short, bias);
    lemma_drift_value(k, long, short, bias);
    let whole_low = 2 * short * k + long - 2 * long * m;
    let part_low = 2 * part_short * k + part_long - 2 * part_long * m;
    assert(long * part_low == 2 * (part_short * long) * k + long * part_long - 2 * (long
        * part_long) * m) by (nonlinear_arith)
        requires
            part_low == 2 * part_short * k + part_long - 2 * part_long * m,
    ;
    assert(part_long * whole_low == 2 * (short * part_long) * k + long * part_long - 2 * (long
        * part_long) * m) by (nonlinear_arith)
        requires
            whole_low == 2 * short * k + long - 2 * long * m,
    ;
    assert(long * part_low == part_long * whole_low);
    // 0 <= whole_low - bias < 2 * long, to show 0 <= part_low - bias < 2 * part_long
    assert(bias <= part_low) by (nonlinear_arith)
        requires
            long * part_low == part_long * whole_low,
            bias <= whole_low,
            bias == 0 || bias == 1,
            0 < long,
            0 < part_long,
    ;
    assert(part_low - bias < 2 * part_long) by (nonlinear_arith)
        requires
            long * part_low == part_long * whole_low,
            whole_low - bias < 2 * long,
            bias == 0 || bias == 1,
            0 < long,
            0 < part_long,
    ;
    lemma_drift(k, part_long, part_short, bias, m);
}

/// Beyond a part that keeps the line's slope, a line drifts on from where
/// the part ends.
pub proof fn lemma_drift_past_part(
    k: int,
    long: int,
    short: int,
    part_long: int,
    part_short: int,
    bias: int,
)
    requires
        0 < long,
        part_short * long == short * part_long,
    ensures
        drift(part_long + k, long, short, bias) == part_short + drift(k, long, short, bias),
{
    let m = drift(k, long, short, bias);
    lemma_drift_value(k, long, short, bias);
    assert(2 * short * (part_long + k) == 2 * long * part_short + 2 * short * k) by (nonlinear_arith)
        requires
            part_short * long == short * part_long,
    ;
    assert(2 * long * (part_short + m) == 2 * long * part_short + 2 * long * m) by (nonlinear_arith);
    lemma_drift(part_long + k, long, short, bias, part_short + m);
}

/// The first part of a line, up to a position on the ideal line, is part
/// of the line.
pub proof fn lemma_trace_head(
    steep: bool,
    a0: int,
    b0: int,
    up: bool,
    long: int,
    short: int,
    part_long: int,
    part_short: int,
)
    requires
        0 < part_long <= long,
        part_short * long == short * part_long,
    ensures
        trace(steep, a0, b0, up, part_long, part_short, part_long).subset_of(
            trace(steep, a0, b0, up, long, short, long),
        ),
{
    let bias: int = if steep {
        1
    } else {
        0
    };
    assert forall|p: (int, int)|
        trace(steep, a0, b0, up, part_long, part_short, part_long).contains(p) implies trace(
        steep,
        a0,
        b0,
        up,
        long,
        short,
        long,
    ).contains(p) by {
        let a = if steep {
            p.1
        } else {
            p.0
        };
        lemma_drift_of_part(a - a0, long, short, part_long, part_short, bias);
    }
}

/// The last part of a line, from a position on the ideal line on, is part
/// of the line.
pub proof fn lemma_trace_tail(
    steep: bool,
    a0: int,
    b0: int,
    up: bool,
    long: int,
    short: int,
    part_long: int,
    part_short: int,
)
    requires
        0 <= part_long < long,
        part_short * long == short * part_long,
    ensures
        trace(
            steep,
            a0 + part_long,
            drifted(b0, up, part_short),
            up,
            long - part_long,
            short - part_short,
            long - part_long,
        ).subset_of(trace(steep, a0, b0, up, long, short, long)),
{
    let bias: int = if steep {
        1
    } else {
        0
    };
    let rest_long = long - part_long;
    let rest_short = short - part_short;
    assert(rest_short * long == short * rest_long) by (nonlinear_arith)
        requires
            part_short * long == short * part_long,
            rest_long == long - part_long,
            rest_short == short - part_short,
    ;
    assert forall|p: (int, int)|
        trace(
            steep,
            a0 + part_long,
            drifted(b0, up, part_short),
            up,
            rest_long,
            rest_short,
            rest_long,
        ).contains(p) implies trace(steep, a0, b0, up, long, short, long).contains(p) by {
        let a = if steep {
            p.1
        } else {
            p.0
        };
        let k = a - a0 - part_long;
        lemma_drift_of_part(k, long, short, rest_long, rest_short, bias);
        lemma_drift_past_part(k, long, short, part_long, part_short, bias);
        assert(part_long + k == a - a0);
    }
}

/// Whether `(xa, ya)` comes before `(xb, yb)`, or is it: it lies on a
/// higher row, or left of it on the same row.
pub open spec fn comes_before(xa: int, ya: int, xb: int, yb: int) -> bool {
    ya < yb || (ya == yb && xa <= xb)
}

/// Whether three positions lie on one straight line.
pub open spec fn on_one_line(x1: int, y1: int, x2: int, y2: int, x3: int, y3: int) -> bool {
    (x2 - x1) * (y3 - y1) == (x3 - x1) * (y2 - y1)
}

/// Three positions on one line are on one line in whatever order they are
/// named.
pub proof fn lemma_on_one_line_any_order(x1: int, y1: int, x2: int, y2: int, x3: int, y3: int)
    by (nonlinear_arith)
    requires
        on_one_line(x1, y1, x2, y2, x3, y3),
    ensures
        on_one_line(x1, y1, x3, y3, x2, y2),
        on_one_line(x2, y2, x1, y1, x3, y3),
        on_one_line(x2, y2, x3, y3, x1, y1),
        on_one_line(x3, y3, x1, y1, x2, y2),
        on_one_line(x3, y3, x2, y2, x1, y1),
{
}

/// What the slope of a line says of a part of it that ends on the line:
/// the part runs the same way, is no longer, and is as steep.
proof fn lemma_part_slope(dx: int, dy: int, px: int, py: int)
    by (nonlinear_arith)
    requires
        px * dy == dx * py,
        dy > 0,
        0 <= py <= dy,
        dx != 0,
        px != 0 || py != 0,
    ensures
        py > 0,
        dx > 0 ==> 0 < px <= dx,
        dx < 0 ==> dx <= px < 0,
        dx > 0 ==> (dy <= dx <==> py <= px),
        dx < 0 ==> (dy <= -dx <==> py <= -px),
{
}

/// Of three positions on one line, the lines from the middle one to the
/// outer ones are parts of the line between the outer ones.
pub proof fn lemma_line_parts(xp: int, yp: int, xm: int, ym: int, xq: int, yq: int)
    requires
        comes_before(xp, yp, xm, ym),
        comes_before(xm, ym, xq, yq),
        on_one_line(xp, yp, xm, ym, xq, yq),
    ensures
        line_points(xp, yp, xm, ym).subset_of(line_points(xp, yp, xq, yq)),
        line_points(xm, ym, xq, yq).subset_of(line_points(xp, yp, xq, yq)),
{
    let whole = line_points(xp, yp, xq, yq);
    let head = line_points(xp, yp, xm, ym);
    let tail = line_points(xm, ym, xq, yq);
    let dx = xq - xp;
    let dy = yq - yp;
    lemma_line_ends(xp, yp, xq, yq);
    if xm == xp && ym == yp {
        assert(head.subset_of(whole));
    } else if xm == xq && ym == yq {
        assert(tail.subset_of(whole));
    } else if dy == 0 {
        lemma_level_line(xp, xq, yp);
        lemma_level_line(xp, xm, yp);
        lemma_level_line(xm, xq, yp);
    } else if dx == 0 {
        assert(xm == xp) by (nonlinear_arith)
            requires
                (xm - xp) * dy == 0 * (ym - yp),
                dy > 0,
        ;
        lemma_upright_line(xp, yp, yq);
        lemma_upright_line(xp, yp, ym);
        lemma_upright_line(xp, ym, yq);
    } else {
        let px = xm - xp;
        let py = ym - yp;
        let rx = xq - xm;
        let ry = yq - ym;
        assert(rx * dy == dx * ry) by (nonlinear_arith)
            requires
                px * dy == dx * py,
                rx == dx - px,
                ry == dy - py,
        ;
        lemma_part_slope(dx, dy, px, py);
        lemma_part_slope(dx, dy, rx, ry);
        let wide = if dx < 0 {
            -dx
        } else {
            dx
        };
        let part_wide = if dx < 0 {
            -px
        } else {
            px
        };
        let rest_wide = wide - part_wide;
        assert(part_wide * dy == wide * py && rest_wide * dy == wide * ry) by (nonlinear_arith)
            requires
                px * dy == dx * py,
                rx * dy == dx * ry,
                wide == (if dx < 0 { -dx } else { dx }),
                part_wide == (if dx < 0 { -px } else { px }),
                rest_wide == (if dx < 0 { -rx } else { rx }),
        ;
        let up = dx > 0;
        if dy <= wide {
            assert(py * wide == dy * part_wide && ry * wide == dy * rest_wide) by (nonlinear_arith)
                requires
                    part_wide * dy == wide * py,
                    rest_wide * dy == wide * ry,
            ;
            if dx > 0 {
                assert(whole == trace(false, xp, yp, true, wide, dy, wide));
                assert(head == trace(false, xp, yp, true, part_wide, py, part_wide));
                assert(tail == trace(false, xm, ym, true, rest_wide, ry, rest_wide));
                lemma_trace_head(false, xp, yp, true, wide, dy, part_wide, py);
                lemma_trace_tail(false, xp, yp, true, wide, dy, part_wide, py);
            } else {
                assert(whole == trace(false, xq, yq, false, wide, dy, wide));
                assert(tail == trace(false, xq, yq, false, rest_wide, ry, rest_wide));
                assert(head == trace(false, xm, ym, false, part_wide, py, part_wide));
                lemma_trace_head(false, xq, yq, false, wide, dy, rest_wide, ry);
                lemma_trace_tail(false, xq, yq, false, wide, dy, rest_wide, ry);
            }
        } else {
            assert(whole == trace(true, yp, xp, up, dy, wide, dy));
            assert(head == trace(true, yp, xp, up, py, part_wide, py));
            assert(tail == trace(true, ym, xm, up, ry, rest_wide, ry));
            lemma_trace_head(true, yp, xp, up, dy, wide, py, part_wide);
            lemma_trace_tail(true, yp, xp, up, dy, wide, py, part_wide);
        }
    }
}

/// A line is the same whichever end it is drawn from.
pub proof fn lemma_line_symmetric(x1: int, y1: int, x2: int, y2: int)
    ensures
        line_points(x1, y1, x2, y2) == line_points(x2, y2, x1, y1),
{
    assert(line_points(x1, y1, x2, y2) =~= line_points(x2, y2, x1, y1));
}

/// A line has no gaps within a row: with two positions of a row it holds
/// every position between them.
pub proof fn lemma_line_gapless(x1: int, y1: int, x2: int, y2: int)
    ensures
        forall|a: int, b: int, c: int, y: int|
            a <= b <= c && #[trigger] line_points(x1, y1, x2, y2).contains((a, y)) && #[trigger] line_points(
                x1,
                y1,
                x2,
                y2,
            ).contains((c, y)) ==> #[trigger] line_points(x1, y1, x2, y2).contains((b, y)),
{
    let line = line_points(x1, y1, x2, y2);
    let dx = x2 - x1;
    let dy = y2 - y1;
    let wide = if dx < 0 {
        -dx
    } else {
        dx
    };
    let high = if dy < 0 {
        -dy
    } else {
        dy
    };
    let xs = if dx >= 0 {
        x1
    } else {
        x2
    };
    assert forall|a: int, b: int, c: int, y: int|
        a <= b <= c && #[trigger] line.contains((a, y)) && #[trigger] line.contains(
            (c, y),
        ) implies #[trigger] line.contains((b, y)) by {
        if high <= wide {
            if wide > 0 {
                assert(2 * high * (a - xs) <= 2 * high * (b - xs) <= 2 * high * (c - xs))
                    by (nonlinear_arith)
                    requires
                        a <= b <= c,
                        0 <= high,
                ;
                lemma_div_is_ordered(
                    2 * high * (a - xs) + wide,
                    2 * high * (b - xs) + wide,
                    2 * wide,
                );
                lemma_div_is_ordered(
                    2 * high * (b - xs) + wide,
                    2 * high * (c - xs) + wide,
                    2 * wide,
                );
            }
        }
    }
}

/// Every line covers both of its ends.
pub proof fn lemma_line_ends(x1: int, y1: int, x2: int, y2: int)
    ensures
        line_points(x1, y1, x2, y2).contains((x1, y1)),
        line_points(x1, y1, x2, y2).contains((x2, y2)),
{
    let dx = x2 - x1;
    let dy = y2 - y1;
    let wide = if dx < 0 {
        -dx
    } else {
        dx
    };
    let high = if dy < 0 {
        -dy
    } else {
        dy
    };
    if high <= wide {
        lemma_drift_ends(wide, high, 0);
    } else {
        lemma_drift_ends(high, wide, 1);
    }
}

/// A level line covers exactly the positions between its ends.
pub proof fn lemma_level_line(x1: int, x2: int, y: int)
    ensures
        line_points(x1, y, x2, y) == span(min(x1, x2), max(x1, x2), y),
{
    let wide = max(x1, x2) - min(x1, x2);
    assert forall|k: int| #[trigger] drift(k, wide, 0, 0) == 0 by {
        if wide > 0 {
            lemma_drift(k, wide, 0, 0, 0);
        }
    }
    assert(line_points(x1, y, x2, y) =~= span(min(x1, x2), max(x1, x2), y));
}

/// An upright line covers exactly the positions between its ends.
pub proof fn lemma_upright_line(x: int, y1: int, y2: int)
    ensures
        line_points(x, y1, x, y2) == Set::new(
            |p: (int, int)| p.0 == x && min(y1, y2) <= p.1 <= max(y1, y2),
        ),
{
    let high = max(y1, y2) - min(y1, y2);
    assert forall|k: int| #[trigger] drift(k, high, 0, 1) == 0 by {
        if high > 0 {
            lemma_drift(k, high, 0, 1, 0);
        }
    }
    assert forall|k: int| #[trigger] drift(k, 0, 0, 0) == 0 by {}
    assert(line_points(x, y1, x, y2) =~= Set::new(
        |p: (int, int)| p.0 == x && min(y1, y2) <= p.1 <= max(y1, y2),
    ));
}

impl ConsoleGameEngine {
    /// Draws a line along its major axis: `long + 1` positions from
    /// `(a0, b0)` on, the minor coordinate following the error term.
    fn draw_trace(&mut self, steep: bool, a0: i64, b0: i64, up: bool, long: i64, short: i64, cell: Cell)
        requires
            0 <= short <= long <= 0x2_0000_0000,
            -0x2_0000_0000 <= a0 <= 0x2_0000_0000,
            -0x2_0000_0000 <= b0 <= 0x2_0000_0000,
        ensures
            final(self)@ == (EngineView {
                screen: old(self)@.screen.paint(
                    trace(steep, a0 as int, b0 as int, up, long as int, short as int, long as int),
                    cell,
                ),
                ..old(self)@
            }),
    {
        let ghost before = self@.screen;
        let ghost bias: int = if steep {
            1
        } else {
            0
        };
        let mut k: i64 = 0;
        let mut b: i64 = b0;
        let mut err: i64 = 2 * short - long;
        let ghost mut m: int = 0;
        let ghost mut p: int = 0;
        let ghost mut q: int = 0;
        let w = self.screen_width();
        if steep {
            self.plot(b as i128, a0 as i128, cell);
        } else {
            self.plot(a0 as i128, b as i128, cell);
        }
        proof {
            if long > 0 {
                lemma_drift(0, long as int, short as int, bias, 0);
            }
            let first = if steep {
                (b0 as int, a0 as int)
            } else {
                (a0 as int, b0 as int)
            };
            before.lemma_put_is_paint(first.0, first.1, cell);
            assert(trace(steep, a0 as int, b0 as int, up, long as int, short as int, 0) =~= set![first]);
        }
        while k < long
            invariant
                0 <= short <= long <= 0x2_0000_0000,
                -0x2_0000_0000 <= a0 <= 0x2_0000_0000,
                -0x2_0000_0000 <= b0 <= 0x2_0000_0000,
                bias == (if steep { 1int } else { 0int }),
                0 <= k <= long,
                0 <= m <= k,
                b == drifted(b0 as int, up, m),
                p == 2 * short * k,
                q == 2 * long * m,
                long > 0 ==> q <= p + long - bias < q + 2 * long,
                err == p + 2 * short - q - long,
                before.wf(),
                self@ == (EngineView {
                    screen: before.paint(
                        trace(steep, a0 as int, b0 as int, up, long as int, short as int, k as int),
                        cell,
                    ),
                    ..old(self)@
                }),
            decreases long - k,
        {
            let ghost done = trace(steep, a0 as int, b0 as int, up, long as int, short as int, k as int);
            proof {
                assert(2 * short * (k + 1) == p + 2 * short) by (nonlinear_arith)
                    requires
                        p == 2 * short * k,
                ;
                assert(2 * long * (m + 1) == q + 2 * long) by (nonlinear_arith)
                    requires
                        q == 2 * long * m,
                ;
            }
            k = k + 1;
            if (!steep && err < 0) || (steep && err <= 0) {
                err = err + 2 * short;
            } else {
                b = if up {
                    b + 1
                } else {
                    b - 1
                };
                err = err + 2 * (short - long);
                proof {
                    m = m + 1;
                    q = q + 2 * long;
                }
            }
            proof {
                p = p + 2 * short;
                lemma_drift(k as int, long as int, short as int, bias, m);
            }
            if steep {
                self.plot(b as i128, (a0 + k) as i128, cell);
            } else {
                self.plot((a0 + k) as i128, b as i128, cell);
            }
            proof {
                let point = if steep {
                    (b as int, a0 + k)
                } else {
                    (a0 + k, b as int)
                };
                before.paint(done, cell).lemma_put_is_paint(point.0, point.1, cell);
                before.lemma_paint_twice(done, set![point], cell);
                assert(done.union(set![point]) =~= trace(
                    steep,
                    a0 as int,
                    b0 as int,
                    up,
                    long as int,
                    short as int,
                    k as int,
                ));
            }
        }
    }

    /// Draws the line between two positions that may lie beyond the range
    /// of the drawing coordinates.
    pub(crate) fn line(&mut self, x1: i64, y1: i64, x2: i64, y2: i64, cell: Cell)
        requires
            -0x1_0000_0000 <= x1 <= 0x1_0000_0000,
            -0x1_0000_0000 <= y1 <= 0x1_0000_0000,
            -0x1_0000_0000 <= x2 <= 0x1_0000_0000,
            -0x1_0000_0000 <= y2 <= 0x1_0000_0000,
        ensures
            final(self)@ == (EngineView {
                screen: old(self)@.screen.paint(
                    line_points(x1 as int, y1 as int, x2 as int, y2 as int),
                    cell,
                ),
                ..old(self)@
            }),
    {
        let dx = x2 - x1;
        let dy = y2 - y1;
        let wide = if dx < 0 {
            -dx
        } else {
            dx
        };
        let high = if dy < 0 {
            -dy
        } else {
            dy
        };
        let up = (dx < 0 && dy < 0) || (dx > 0 && dy > 0);
        if high <= wide {
            if dx >= 0 {
                self.draw_trace(false, x1, y1, up, wide, high, cell);
            } else {
                self.draw_trace(false, x2, y2, up, wide, high, cell);
            }
        } else {
            if dy >= 0 {
                self.draw_trace(true, y1, x1, up, high, wide, cell);
            } else {
                self.draw_trace(true, y2, x2, up, high, wide, cell);
            }
        }
    }

    /// Draws the line between `(x1, y1)` and `(x2, y2)`, both ends
    /// included, clipped to the screen.
    pub fn draw_line(&mut self, x1: i32, y1: i32, x2: i32, y2: i32, glyph: u16, col: u16)
        ensures
            final(self)@ == (EngineView {
                screen: old(self)@.screen.paint(
                    line_points(x1 as int, y1 as int, x2 as int, y2 as int),
                    Cell { glyph, attributes: col },
                ),
                ..old(self)@
            }),
    {
        self.line(x1 as i64, y1 as i64, x2 as i64, y2 as i64, Cell { glyph, attributes: col });
    }

    /// Draws the sides of the triangle with the three given corners.
    pub fn draw_triangle(
        &mut self,
        x1: i32,
        y1: i32,
        x2: i32,
        y2: i32,
        x3: i32,
        y3: i32,
        glyph: u16,
        col: u16,
    )
        ensures
            final(self)@ == (EngineView {
                screen: old(self)@.screen.paint(
                    triangle_outline(x1 as int, y1 as int, x2 as int, y2 as int, x3 as int, y3 as int),
                    Cell { glyph, attributes: col },
                ),
                ..old(self)@
            }),
    {
        let ghost before = self@.screen;
        let ghost cell = Cell { glyph, attributes: col };
        let ghost a = line_points(x1 as int, y1 as int, x2 as int, y2 as int);
        let ghost b = line_points(x2 as int, y2 as int, x3 as int, y3 as int);
        let ghost c = line_points(x3 as int, y3 as int, x1 as int, y1 as int);
        self.draw_line(x1, y1, x2, y2, glyph, col);
        self.draw_line(x2, y2, x3, y3, glyph, col);
        self.draw_line(x3, y3, x1, y1, glyph, col);
        proof {
            before.lemma_paint_twice(a, b, cell);
            before.lemma_paint_twice(a.union(b), c, cell);
        }
    }

    /// Draws the sides of the rectangle with the corners `(x, y)` and
    /// `(x + w, y + h)`.
    pub fn draw_rectangle(&mut self, x: i32, y: i32, w: i32, h: i32, glyph: u16, col: u16)
        ensures
            final(self)@ == (EngineView {
                screen: old(self)@.screen.paint(
                    rect_outline(x as int, y as int, w as int, h as int),
                    Cell { glyph, attributes: col },
                ),
                ..old(self)@
            }),
    {
        let ghost before = self@.screen;
        let cell = Cell { glyph, attributes: col };
        let left = x as i64;
        let top = y as i64;
        let right = x as i64 + w as i64;
        let bottom = y as i64 + h as i64;
        let ghost a = line_points(left as int, top as int, right as int, top as int);
        let ghost b = line_points(right as int, top as int, right as int, bottom as int);
        let ghost c = line_points(right as int, bottom as int, left as int, bottom as int);
        let ghost d = line_points(left as int, bottom as int, left as int, top as int);
        self.line(left, top, right, top, cell);
        self.line(right, top, right, bottom, cell);
        self.line(right, bottom, left, bottom, cell);
        self.line(left, bottom, left, top, cell);
        proof {
            before.lemma_paint_twice(a, b, cell);
            before.lemma_paint_twice(a.union(b), c, cell);
            before.lemma_paint_twice(a.union(b).union(c), d, cell);
        }
    }

    /// Draws the closed polygon through `model`: every point is joined to
    /// the next one and the last one to the first. No points draw nothing.
    pub fn draw_wire_frame_model(&mut self, model: &Vec<(i32, i32)>, glyph: u16, col: u16)
        ensures
            final(self)@ == (EngineView {
                screen: old(self)@.screen.paint(
                    wire_frame(model_points(model@), model@.len() as int),
                    Cell { glyph, attributes: col },
                ),
                ..old(self)@
            }),
    {
        let ghost before = self@.screen;
        let ghost points = model_points(model@);
        let cell = Cell { glyph, attributes: col };
        let n = model.len();
        let mut i: usize = 0;
        proof {
            before.lemma_paint_nothing(cell);
        }
        while i < n
            invariant
                i <= n,
                n == model@.len(),
                points == model_points(model@),
                cell == (Cell { glyph, attributes: col }),
                self@ == (EngineView {
                    screen: before.paint(wire_frame(points, i as int), cell),
                    ..old(self)@
                }),
            decreases n - i,
        {
            let a = model[i];
            let b = model[if i + 1 == n {
                0
            } else {
                i + 1
            }];
            proof {
                let k = i + 1;
                if k == n {
                    assert(k % (n as int) == 0) by (nonlinear_arith)
                        requires
                            k == n,
                            n > 0,
                    ;
                } else {
                    assert(k % (n as int) == k) by (nonlinear_arith)
                        requires
                            0 <= k < n,
                    ;
                }
                before.lemma_paint_twice(
                    wire_frame(points, i as int),
                    line_points(a.0 as int, a.1 as int, b.0 as int, b.1 as int),
                    cell,
                );
            }
            self.draw_line(a.0, a.1, b.0, b.1, glyph, col);
            i = i + 1;
            proof {
                assert(points[i - 1] == (a.0 as int, a.1 as int));
                assert(points[(i as int) % (points.len() as int)] == (b.0 as int, b.1 as int));
                assert(wire_frame(points, i as int) == wire_frame(points, i - 1).union(
                    line_points(a.0 as int, a.1 as int, b.0 as int, b.1 as int),
                ));
            }
        }
    }
}

} // verus!
