//! The cell grid: the backing store every drawing operation writes into.

use vstd::arithmetic::div_mod::{
    lemma_div_pos_is_pos, lemma_fundamental_div_mod, lemma_fundamental_div_mod_converse,
    lemma_mod_pos_bound,
};
use vstd::prelude::*;

verus! {

/// One grid position: a glyph code unit and its packed colour attribute.
#[derive(Clone, Copy, Debug, PartialEq, Eq, Structural)]
pub struct Cell {
    pub glyph: u16,
    pub attributes: u16,
}

/// The mathematical model of a grid: `cells` in row-major order.
pub struct GridView {
    pub width: nat,
    pub height: nat,
    pub cells: Seq<Cell>,
}

impl GridView {
    /// There is exactly one cell for every position.
    pub open spec fn wf(self) -> bool {
        self.cells.len() == self.width * self.height
    }

    /// Whether `(x, y)` names a position of the grid.
    pub open spec fn contains(self, x: int, y: int) -> bool {
        0 <= x < self.width && 0 <= y < self.height
    }

    /// The cell at `(x, y)`; meaningful only for positions of the grid.
    pub open spec fn at(self, x: int, y: int) -> Cell
        recommends
            self.contains(x, y),
    {
        self.cells[y * self.width + x]
    }

    /// The grid after one bounds-checked write: positions outside the grid
    /// are ignored.
    pub open spec fn put(self, x: int, y: int, cell: Cell) -> GridView {
        if self.contains(x, y) {
            GridView { cells: self.cells.update(y * self.width + x, cell), ..self }
        } else {
            self
        }
    }

    /// The grid after laying `layer` over it: a position of the grid that
    /// `layer` covers takes the layer's cell, every other one keeps its own.
    pub open spec fn overlay(self, layer: Map<(int, int), Cell>) -> GridView {
        GridView {
            cells: Seq::new(
                self.cells.len(),
                |i: int|
                    {
                        let p = (i % (self.width as int), i / (self.width as int));
                        if layer.dom().contains(p) {
                            layer[p]
                        } else {
                            self.cells[i]
                        }
                    },
            ),
            ..self
        }
    }

    /// The grid after writing `cell` to every position of `points` that lies
    /// inside it.
    pub open spec fn paint(self, points: Set<(int, int)>, cell: Cell) -> GridView {
        self.overlay(Map::new(|p: (int, int)| points.contains(p), |p: (int, int)| cell))
    }

    /// Position `(x, y)` of a grid `width` wide is stored at `y * width + x`,
    /// and no other position is.
    pub proof fn lemma_index(self, x: int, y: int)
        requires
            self.wf(),
            self.contains(x, y),
        ensures
            0 <= y * self.width + x < self.cells.len(),
            (y * self.width + x) % (self.width as int) == x,
            (y * self.width + x) / (self.width as int) == y,
    {
        let w = self.width as int;
        let h = self.height as int;
        assert(0 <= y * w && y * w + x < w * h) by (nonlinear_arith)
            requires
                0 <= x < w,
                0 <= y < h,
        ;
        lemma_fundamental_div_mod_converse(y * w + x, w, y, x);
    }

    /// Every index of `cells` belongs to exactly one position of the grid.
    pub proof fn lemma_position(self, i: int)
        requires
            self.wf(),
            0 <= i < self.cells.len(),
        ensures
            self.contains(i % (self.width as int), i / (self.width as int)),
            (i / (self.width as int)) * self.width + i % (self.width as int) == i,
    {
        let w = self.width as int;
        let h = self.height as int;
        assert(w > 0) by (nonlinear_arith)
            requires
                0 <= i < w * h,
                0 <= w,
        ;
        lemma_fundamental_div_mod(i, w);
        lemma_mod_pos_bound(i, w);
        lemma_div_pos_is_pos(i, w);
        let q = i / w;
        let r = i % w;
        assert(w * q == q * w) by (nonlinear_arith);
        assert(q < h) by (nonlinear_arith)
            requires
                i == q * w + r,
                0 <= r,
                0 < w,
                i < w * h,
        ;
    }

    /// After a write at a position of the grid that position holds the
    /// written cell and every other position what it held before; a write
    /// at a position outside the grid changes nothing.
    pub proof fn lemma_put_at(self, x: int, y: int, cell: Cell)
        requires
            self.wf(),
        ensures
            self.put(x, y, cell).wf(),
            self.put(x, y, cell).width == self.width,
            self.put(x, y, cell).height == self.height,
            self.contains(x, y) ==> self.put(x, y, cell).at(x, y) == cell,
            !self.contains(x, y) ==> self.put(x, y, cell) == self,
            forall|u: int, v: int|
                self.contains(u, v) && (u, v) != (x, y) ==> #[trigger] self.put(x, y, cell).at(u, v)
                    == self.at(u, v),
    {
        if self.contains(x, y) {
            self.lemma_index(x, y);
            assert forall|u: int, v: int| self.contains(u, v) && (u, v) != (x, y) implies #[trigger] self.put(
                x,
                y,
                cell,
            ).at(u, v) == self.at(u, v) by {
                self.lemma_index(u, v);
            }
        }
    }

    /// What an overlaid grid holds at a position of the grid.
    pub proof fn lemma_overlay_at(self, layer: Map<(int, int), Cell>, x: int, y: int)
        requires
            self.wf(),
            self.contains(x, y),
        ensures
            self.overlay(layer).at(x, y) == if layer.dom().contains((x, y)) {
                layer[(x, y)]
            } else {
                self.at(x, y)
            },
    {
        self.lemma_index(x, y);
    }

    /// One bounds-checked write is an overlay of a single cell.
    pub proof fn lemma_put_is_overlay(self, x: int, y: int, cell: Cell)
        requires
            self.wf(),
        ensures
            self.put(x, y, cell) == self.overlay(map![(x, y) => cell]),
    {
        let b = self.overlay(map![(x, y) => cell]);
        let at = y * self.width + x;
        assert forall|i: int| 0 <= i < self.cells.len() implies #[trigger] b.cells[i] == (if self.contains(
            x,
            y,
        ) && i == at {
            cell
        } else {
            self.cells[i]
        }) by {
            self.lemma_position(i);
            if self.contains(x, y) {
                self.lemma_index(x, y);
            }
        }
        if self.contains(x, y) {
            self.lemma_index(x, y);
            assert(self.cells.update(at, cell) =~= b.cells);
        } else {
            assert(self.cells =~= b.cells);
        }
    }

    /// Laying one layer over another is laying their union, in which the
    /// later layer wins.
    pub proof fn lemma_overlay_twice(self, first: Map<(int, int), Cell>, second: Map<(int, int), Cell>)
        ensures
            self.overlay(first).overlay(second) == self.overlay(first.union_prefer_right(second)),
    {
        assert(self.overlay(first).overlay(second).cells =~= self.overlay(
            first.union_prefer_right(second),
        ).cells);
    }

    /// One bounds-checked write paints a single position.
    pub proof fn lemma_put_is_paint(self, x: int, y: int, cell: Cell)
        requires
            self.wf(),
        ensures
            self.put(x, y, cell) == self.paint(set![(x, y)], cell),
    {
        self.lemma_put_is_overlay(x, y, cell);
        let points: Set<(int, int)> = set![(x, y)];
        assert(Map::new(|p: (int, int)| points.contains(p), |p: (int, int)| cell) =~= map![(x, y) => cell]);
    }

    /// Painting two sets of positions with one cell, in either order, paints
    /// their union.
    pub proof fn lemma_paint_twice(self, first: Set<(int, int)>, second: Set<(int, int)>, cell: Cell)
        ensures
            self.paint(first, cell).paint(second, cell) == self.paint(first.union(second), cell),
    {
        let a = Map::new(|p: (int, int)| first.contains(p), |p: (int, int)| cell);
        let b = Map::new(|p: (int, int)| second.contains(p), |p: (int, int)| cell);
        let u = first.union(second);
        self.lemma_overlay_twice(a, b);
        assert(a.union_prefer_right(b) =~= Map::new(
            |p: (int, int)| u.contains(p),
            |p: (int, int)| cell,
        ));
    }

    /// Only the positions inside the grid count: two sets that agree there
    /// paint alike.
    pub proof fn lemma_paint_inside(self, a: Set<(int, int)>, b: Set<(int, int)>, cell: Cell)
        requires
            self.wf(),
            forall|x: int, y: int|
                self.contains(x, y) ==> (#[trigger] a.contains((x, y)) <==> b.contains((x, y))),
        ensures
            self.paint(a, cell) == self.paint(b, cell),
    {
        assert forall|i: int| 0 <= i < self.cells.len() implies self.paint(a, cell).cells[i]
            == self.paint(b, cell).cells[i] by {
            self.lemma_position(i);
            let x = i % (self.width as int);
            let y = i / (self.width as int);
            assert(a.contains((x, y)) <==> b.contains((x, y)));
        }
        assert(self.paint(a, cell).cells =~= self.paint(b, cell).cells);
    }

    /// Painting nothing changes nothing.
    pub proof fn lemma_paint_nothing(self, cell: Cell)
        ensures
            self.paint(Set::empty(), cell) == self,
    {
        assert(self.paint(Set::empty(), cell).cells =~= self.cells);
    }

    /// What a painted grid holds at a position of the grid.
    pub proof fn lemma_paint_at(self, points: Set<(int, int)>, cell: Cell, x: int, y: int)
        requires
            self.wf(),
            self.contains(x, y),
        ensures
            self.paint(points, cell).at(x, y) == if points.contains((x, y)) {
                cell
            } else {
                self.at(x, y)
            },
    {
        self.lemma_overlay_at(
            Map::new(|p: (int, int)| points.contains(p), |p: (int, int)| cell),
            x,
            y,
        );
    }
}

/// A rectangular grid of cells, `width * height` of them, stored row by row.
pub struct Grid {
    width: usize,
    height: usize,
    cells: Vec<Cell>,
}

impl View for Grid {
    type V = GridView;

    closed spec fn view(&self) -> GridView {
        GridView { width: self.width as nat, height: self.height as nat, cells: self.cells@ }
    }
}

impl Grid {
    /// There is exactly one cell for every position.
    #[verifier::type_invariant]
    spec fn inv(self) -> bool {
        self.cells@.len() == self.width * self.height
    }

    /// A grid of the given size with `fill` in every cell.
    pub fn new(width: usize, height: usize, fill: Cell) -> (grid: Grid)
        requires
            width * height <= usize::MAX,
        ensures
            grid@.width == width,
            grid@.height == height,
            grid@.cells == Seq::new((width * height) as nat, |i: int| fill),
    {
        let cells = vec![fill; width * height];
        assert(cells@ =~= Seq::new((width * height) as nat, |i: int| fill));
        Grid { width, height, cells }
    }

    /// The number of columns. Every grid is well formed, which callers
    /// learn here.
    pub fn width(&self) -> (w: usize)
        ensures
            w == self@.width,
            self@.wf(),
    {
        proof {
            use_type_invariant(self);
        }
        self.width
    }

    /// The number of rows.
    pub fn height(&self) -> (h: usize)
        ensures
            h == self@.height,
            self@.wf(),
    {
        proof {
            use_type_invariant(self);
        }
        self.height
    }

    /// The cells in row-major order, as the display surface takes them.
    pub fn cells(&self) -> (cells: &Vec<Cell>)
        ensures
            cells@ == self@.cells,
    {
        &self.cells
    }

    /// The cell at `(x, y)`, or nothing outside the grid.
    pub fn get(&self, x: usize, y: usize) -> (cell: Option<Cell>)
        ensures
            cell == (if self@.contains(x as int, y as int) {
                Some(self@.at(x as int, y as int))
            } else {
                None
            }),
    {
        proof {
            use_type_invariant(self);
        }
        if x < self.width && y < self.height {
            assert(0 <= y * self.width && y * self.width + x < self.width * self.height)
                by (nonlinear_arith)
                requires
                    x < self.width,
                    y < self.height,
            ;
            assert(self.width * self.height == self.cells.len());
            Some(self.cells[y * self.width + x])
        } else {
            None
        }
    }

    /// Writes one cell if `(x, y)` lies inside the grid, and does nothing
    /// otherwise. Every drawing operation goes through this write.
    pub fn put(&mut self, x: usize, y: usize, cell: Cell)
        ensures
            final(self)@ == old(self)@.put(x as int, y as int, cell),
    {
        proof {
            use_type_invariant(&*self);
        }
        if x < self.width && y < self.height {
            assert(0 <= y * self.width && y * self.width + x < self.width * self.height)
                by (nonlinear_arith)
                requires
                    x < self.width,
                    y < self.height,
            ;
            assert(self.width * self.height == self.cells.len());
            let i = y * self.width + x;
            self.cells[i] = cell;
        }
    }
}

} // verus!
