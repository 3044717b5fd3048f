//! The simplest sets of grid positions.
//!
//! Positions are pairs `(x, y)` of mathematical integers; a shape may reach
//! outside any grid, and painting clips it.

use vstd::prelude::*;

verus! {

/// The positions `x0 ..= x1` of row `y`.
pub open spec fn span(x0: int, x1: int, y: int) -> Set<(int, int)> {
    Set::new(|p: (int, int)| p.1 == y && x0 <= p.0 <= x1)
}

/// The positions of the rectangle `size_x` wide and `size_y` high whose
/// top left corner is `(x, y)`.
pub open spec fn rect(x: int, y: int, size_x: int, size_y: int) -> Set<(int, int)> {
    Set::new(|p: (int, int)| x <= p.0 < x + size_x && y <= p.1 < y + size_y)
}

/// The smaller of two integers.
pub open spec fn min(a: int, b: int) -> int {
    if a <= b {
        a
    } else {
        b
    }
}

/// The larger of two integers.
pub open spec fn max(a: int, b: int) -> int {
    if a >= b {
        a
    } else {
        b
    }
}

} // verus!
