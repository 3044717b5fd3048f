//! The rasterizer's ground floor: single cells, spans and rectangles.

use crate::engine::{ConsoleGameEngine, EngineView};
use crate::grid::{Cell, GridView};
use crate::shapes::{rect, span};
use vstd::prelude::*;

verus! {

impl ConsoleGameEngine {
    /// Writes `cell` at `(x, y)` if that is a position of the screen.
    pub(crate) fn plot(&mut self, x: i128, y: i128, cell: Cell)
        ensures
            final(self)@ == (EngineView {
                screen: old(self)@.screen.put(x as int, y as int, cell),
                ..old(self)@
            }),
            final(self)@.screen == old(self)@.screen.paint(set![(x as int, y as int)], cell),
            final(self)@.screen == old(self)@.screen.overlay(map![(x as int, y as int) => cell]),
    {
        let width = self.screen_width();
        let height = self.screen_height();
        proof {
            self@.screen.lemma_put_is_paint(x as int, y as int, cell);
            self@.screen.lemma_put_is_overlay(x as int, y as int, cell);
        }
        if x >= 0 && y >= 0 && x < (width as i128) && y < (height as i128) {
            self.screen_put(x as usize, y as usize, cell);
        }
    }

    /// Writes `cell` to the positions `x0 ..= x1` of row `y`, as far as
    /// they lie on the screen.
    pub(crate) fn hline(&mut self, x0: i128, x1: i128, y: i128, cell: Cell)
        ensures
            final(self)@ == (EngineView {
                screen: old(self)@.screen.paint(span(x0 as int, x1 as int, y as int), cell),
                ..old(self)@
            }),
    {
        let width = self.screen_width();
        let height = self.screen_height();
        let ghost before = self@.screen;
        let ghost all = span(x0 as int, x1 as int, y as int);
        if width == 0 || y < 0 || y >= height as i128 || x1 < 0 || x0 >= width as i128 || x0 > x1 {
            proof {
                before.lemma_paint_inside(all, Set::empty(), cell);
                before.lemma_paint_nothing(cell);
            }
            return ;
        }
        let lo: usize = if x0 < 0 {
            0
        } else {
            x0 as usize
        };
        let hi: usize = if x1 >= width as i128 {
            (width - 1) as usize
        } else {
            x1 as usize
        };
        let row = y as usize;
        let mut j: usize = lo;
        proof {
            before.lemma_paint_nothing(cell);
            assert(span(lo as int, j - 1, y as int) =~= Set::empty());
        }
        while j <= hi
            invariant
                lo <= j <= hi + 1,
                hi < width,
                width == before.width,
                before.wf(),
                row == y,
                self@ == (EngineView {
                    screen: before.paint(span(lo as int, j - 1, y as int), cell),
                    ..old(self)@
                }),
            decreases hi + 1 - j,
        {
            proof {
                let done = span(lo as int, j - 1, y as int);
                let now = before.paint(done, cell);
                now.lemma_put_is_paint(j as int, y as int, cell);
                before.lemma_paint_twice(done, set![(j as int, y as int)], cell);
                assert(done.union(set![(j as int, y as int)]) =~= span(lo as int, j as int, y as int));
            }
            self.screen_put(j, row, cell);
            j = j + 1;
        }
        proof {
            before.lemma_paint_inside(all, span(lo as int, hi as int, y as int), cell);
        }
    }

    /// Writes `cell` to the rectangle `size_x` wide and `size_y` high
    /// whose top left corner is `(x, y)`, as far as it lies on the screen.
    fn fill_rect(&mut self, x: i128, y: i128, size_x: i128, size_y: i128, cell: Cell)
        requires
            -0x1_0000_0000_0000_0000_0000 <= x <= 0x1_0000_0000_0000_0000_0000,
            -0x1_0000_0000_0000_0000_0000 <= y <= 0x1_0000_0000_0000_0000_0000,
            -0x1_0000_0000_0000_0000_0000 <= size_x <= 0x1_0000_0000_0000_0000_0000,
            -0x1_0000_0000_0000_0000_0000 <= size_y <= 0x1_0000_0000_0000_0000_0000,
        ensures
            final(self)@ == (EngineView {
                screen: old(self)@.screen.paint(
                    rect(x as int, y as int, size_x as int, size_y as int),
                    cell,
                ),
                ..old(self)@
            }),
    {
        let height = self.screen_height();
        let ghost before = self@.screen;
        let ghost all = rect(x as int, y as int, size_x as int, size_y as int);
        let lo: i128 = if y < 0 {
            0
        } else {
            y
        };
        let hi: i128 = if y + size_y > height as i128 {
            height as i128
        } else {
            y + size_y
        };
        let mut j: i128 = lo;
        proof {
            before.lemma_paint_nothing(cell);
            assert(rect(x as int, lo as int, size_x as int, 0) =~= Set::empty());
        }
        while j < hi
            invariant
                lo <= j,
                lo >= hi || j <= hi,
                lo >= hi ==> j == lo,
                hi <= height <= usize::MAX,
                height == before.height,
                lo == (if y < 0 { 0 } else { y as int }),
                hi == (if y + size_y > height { height as int } else { y + size_y }),
                before.wf(),
                -0x1_0000_0000_0000_0000_0000 <= x <= 0x1_0000_0000_0000_0000_0000,
                -0x1_0000_0000_0000_0000_0000 <= size_x <= 0x1_0000_0000_0000_0000_0000,
                self@ == (EngineView {
                    screen: before.paint(rect(x as int, lo as int, size_x as int, j - lo), cell),
                    ..old(self)@
                }),
            decreases hi - j,
        {
            let ghost done = rect(x as int, lo as int, size_x as int, j - lo);
            self.hline(x, x + size_x - 1, j, cell);
            proof {
                before.lemma_paint_twice(done, span(x as int, x + size_x - 1, j as int), cell);
                assert(done.union(span(x as int, x + size_x - 1, j as int)) =~= rect(
                    x as int,
                    lo as int,
                    size_x as int,
                    j + 1 - lo,
                ));
            }
            j = j + 1;
        }
        proof {
            before.lemma_paint_inside(all, rect(x as int, lo as int, size_x as int, j - lo), cell);
        }
    }

    /// Fills the rectangle `size_x` wide and `size_y` high whose top left
    /// corner is `(x, y)`, clipped to the screen.
    pub fn fill_rectangle(&mut self, x: i32, y: i32, size_x: i32, size_y: i32, glyph: u16, col: u16)
        ensures
            final(self)@ == (EngineView {
                screen: old(self)@.screen.paint(
                    rect(x as int, y as int, size_x as int, size_y as int),
                    Cell { glyph, attributes: col },
                ),
                ..old(self)@
            }),
    {
        self.fill_rect(
            x as i128,
            y as i128,
            size_x as i128,
            size_y as i128,
            Cell { glyph, attributes: col },
        );
    }

    /// Fills the whole screen with one cell.
    pub fn clear(&mut self, glyph: u16, col: u16)
        ensures
            final(self)@ == (EngineView {
                screen: GridView {
                    cells: Seq::new(
                        old(self)@.screen.cells.len(),
                        |i: int| Cell { glyph, attributes: col },
                    ),
                    ..old(self)@.screen
                },
                ..old(self)@
            }),
            forall|x: int, y: int| #![trigger final(self)@.screen.at(x, y)]
                final(self)@.screen.contains(x, y) ==> final(self)@.screen.at(x, y) == (Cell {
                    glyph,
                    attributes: col,
                }),
    {
        let width = self.screen_width();
        let height = self.screen_height();
        let cell = Cell { glyph, attributes: col };
        let ghost before = self@.screen;
        self.fill_rect(0, 0, width as i128, height as i128, cell);
        proof {
            let all = rect(0, 0, width as int, height as int);
            let after = GridView { cells: Seq::new(before.cells.len(), |i: int| cell), ..before };
            assert forall|i: int| 0 <= i < before.cells.len() implies before.paint(all, cell).cells[i]
                == cell by {
                before.lemma_position(i);
            }
            assert(before.paint(all, cell).cells =~= after.cells);
            assert forall|x: int, y: int| after.contains(x, y) implies after.at(x, y) == cell by {
                after.lemma_index(x, y);
            }
        }
    }
}

} // verus!
