//! The mathematical picture of a grid.

use vstd::prelude::*;

verus! {

/// What a grid is, independent of how it is stored: its two extents and the
/// cells in storage order.
pub struct Grid<T> {
    /// Number of valid values of the first coordinate, `x`.
    pub height: nat,
    /// Number of valid values of the second coordinate, `y`.
    pub width: nat,
    /// The cells; the one at `(x, y)` is at position `x * width + y`.
    pub tiles: Seq<T>,
}

impl<T> Grid<T> {
    /// There is exactly one cell per coordinate.
    pub open spec fn wf(self) -> bool {
        self.tiles.len() == self.height * self.width
    }

    /// `(x, y)` addresses a cell of the grid.
    pub open spec fn contains(self, x: int, y: int) -> bool {
        0 <= x < self.height && 0 <= y < self.width
    }

    /// Position of the cell `(x, y)` in `tiles`.
    pub open spec fn index_of(self, x: int, y: int) -> int {
        x * self.width + y
    }

    /// The value stored at `(x, y)`.
    pub open spec fn at(self, x: int, y: int) -> T
        recommends
            self.wf(),
            self.contains(x, y),
    {
        self.tiles[self.index_of(x, y)]
    }

    /// The grid with the cell `(x, y)` replaced by `value`.
    pub open spec fn put(self, x: int, y: int, value: T) -> Self
        recommends
            self.wf(),
            self.contains(x, y),
    {
        Grid { tiles: self.tiles.update(self.index_of(x, y), value), ..self }
    }

    /// The position of a cell of the grid lies inside `tiles`.
    pub proof fn lemma_index_in_range(self, x: int, y: int)
        requires
            self.wf(),
            self.contains(x, y),
        ensures
            0 <= self.index_of(x, y) < self.tiles.len(),
    {
        let w = self.width as int;
        let h = self.height as int;
        assert(0 <= x * w && x * w + w <= h * w) by (nonlinear_arith)
            requires
                0 <= x < h,
                0 <= w,
        ;
    }

    /// Two different cells of the grid have different positions.
    pub proof fn lemma_index_injective(self, x: int, y: int, a: int, b: int)
        requires
            self.contains(x, y),
            self.contains(a, b),
            self.index_of(x, y) == self.index_of(a, b),
        ensures
            x == a,
            y == b,
    {
        let w = self.width as int;
        assert(x == a) by (nonlinear_arith)
            requires
                0 <= y < w,
                0 <= b < w,
                x * w + y == a * w + b,
        ;
    }

    /// Writing a cell keeps the shape of the grid.
    pub proof fn lemma_put_keeps_shape(self, x: int, y: int, value: T)
        requires
            self.wf(),
            self.contains(x, y),
        ensures
            self.put(x, y, value).wf(),
            self.put(x, y, value).height == self.height,
            self.put(x, y, value).width == self.width,
            forall|a: int, b: int| self.put(x, y, value).contains(a, b) == self.contains(a, b),
    {
        self.lemma_index_in_range(x, y);
    }

    /// Reading after writing: the written cell holds the new value and every
    /// other cell of the grid holds what it held before.
    pub proof fn lemma_put_then_at(self, x: int, y: int, value: T, a: int, b: int)
        requires
            self.wf(),
            self.contains(x, y),
            self.contains(a, b),
        ensures
            self.put(x, y, value).at(a, b) == if a == x && b == y {
                value
            } else {
                self.at(a, b)
            },
    {
        self.lemma_index_in_range(x, y);
        self.lemma_index_in_range(a, b);
        if self.index_of(x, y) == self.index_of(a, b) {
            self.lemma_index_injective(x, y, a, b);
        }
    }

    /// A grid with a zero extent has no cell at all.
    pub proof fn lemma_degenerate_is_empty(self, x: int, y: int)
        requires
            self.height == 0 || self.width == 0,
        ensures
            !self.contains(x, y),
    {
    }
}

} // verus!
