//! Which coordinates touch each other in the tiling.

use vstd::prelude::*;
use crate::model::Grid;

verus! {

/// Column `x` is one of the shifted columns: the odd ones, which sit half a
/// cell further along the `y` axis than the even ones.
pub open spec fn shifted(x: int) -> bool {
    x % 2 != 0
}

/// Whether column `x` is a shifted column.
pub fn is_shifted(x: usize) -> (r: bool)
    ensures
        r == shifted(x as int),
{
    x % 2 != 0
}

/// The row of the two diagonal neighbours of a cell in column `x`: the next
/// row for a shifted column, the previous row for the others.
pub open spec fn diagonal_row(x: int, y: int) -> int {
    if shifted(x) {
        y + 1
    } else {
        y - 1
    }
}

/// `(a, b)` is one of the six positions around `(x, y)` in the unbounded
/// tiling: the two in the same column, and in each adjacent column the one in
/// the same row and the one in the diagonal row.
pub open spec fn touches(x: int, y: int, a: int, b: int) -> bool {
    ||| a == x && (b == y - 1 || b == y + 1)
    ||| (a == x - 1 || a == x + 1) && (b == y || b == diagonal_row(x, y))
}

/// Touching is mutual: the odd column's diagonal row is the even column's own
/// row seen from the other side.
pub proof fn lemma_touches_symmetric(x: int, y: int, a: int, b: int)
    ensures
        touches(x, y, a, b) == touches(a, b, x, y),
{
}

/// No position touches itself.
pub proof fn lemma_touches_irreflexive(x: int, y: int)
    ensures
        !touches(x, y, x, y),
{
}

impl<T> Grid<T> {
    /// `(a, b)` is a cell of the grid that touches `(x, y)`.
    pub open spec fn is_neighbor(self, x: int, y: int, a: int, b: int) -> bool {
        self.contains(a, b) && touches(x, y, a, b)
    }

    /// One if `(a, b)` is a cell of the grid, zero if not.
    pub open spec fn present(self, a: int, b: int) -> nat {
        if self.contains(a, b) {
            1
        } else {
            0
        }
    }

    /// How many of the six positions around `(x, y)` are cells of the grid.
    pub open spec fn degree(self, x: int, y: int) -> nat {
        let d = diagonal_row(x, y);
        self.present(x, y - 1) + self.present(x, y + 1) + self.present(x - 1, y) + self.present(
            x + 1,
            y,
        ) + self.present(x - 1, d) + self.present(x + 1, d)
    }

    /// The neighbours of `(x, y)` as a set.
    pub open spec fn neighbors(self, x: int, y: int) -> Set<(int, int)> {
        Set::new(|p: (int, int)| self.is_neighbor(x, y, p.0, p.1))
    }

    /// `set` with `(a, b)` added if it is a cell of the grid.
    spec fn with_cell(self, set: Set<(int, int)>, a: int, b: int) -> Set<(int, int)> {
        if self.contains(a, b) {
            set.insert((a, b))
        } else {
            set
        }
    }

    /// The degree counts the neighbours: the six positions around `(x, y)`
    /// are all different, so each one that is a cell counts once.
    pub proof fn lemma_degree_counts_neighbors(self, x: int, y: int)
        ensures
            self.neighbors(x, y).finite(),
            self.neighbors(x, y).len() == self.degree(x, y),
    {
        let d = diagonal_row(x, y);
        let s1 = self.with_cell(Set::empty(), x, y - 1);
        let s2 = self.with_cell(s1, x, y + 1);
        let s3 = self.with_cell(s2, x - 1, y);
        let s4 = self.with_cell(s3, x + 1, y);
        let s5 = self.with_cell(s4, x - 1, d);
        let s6 = self.with_cell(s5, x + 1, d);
        assert(s1.finite() && s1.len() == self.present(x, y - 1));
        assert(s2.finite() && s2.len() == s1.len() + self.present(x, y + 1));
        assert(s3.finite() && s3.len() == s2.len() + self.present(x - 1, y));
        assert(s4.finite() && s4.len() == s3.len() + self.present(x + 1, y));
        assert(s5.finite() && s5.len() == s4.len() + self.present(x - 1, d));
        assert(s6.finite() && s6.len() == s5.len() + self.present(x + 1, d));
        assert(s6 =~= self.neighbors(x, y));
    }

    /// `s` is a listing of the neighbours of `(x, y)`: it names each of them
    /// once and nothing else. The order of a listing carries no meaning.
    pub open spec fn lists_neighbors(self, x: int, y: int, s: Seq<(usize, usize)>) -> bool {
        &&& s.no_duplicates()
        &&& s.len() == self.degree(x, y)
        &&& forall|a: usize, b: usize| #[trigger]
            s.contains((a, b)) <==> self.is_neighbor(x, y, a as int, b as int)
    }

    /// Two listings of the neighbours of one position agree as sets, whatever
    /// their orders: they have the same length and the same members.
    pub proof fn lemma_listings_agree(
        self,
        x: int,
        y: int,
        s: Seq<(usize, usize)>,
        t: Seq<(usize, usize)>,
    )
        requires
            self.lists_neighbors(x, y, s),
            self.lists_neighbors(x, y, t),
        ensures
            s.len() == t.len(),
            forall|p: (usize, usize)| s.contains(p) <==> t.contains(p),
    {
        assert forall|p: (usize, usize)| s.contains(p) <==> t.contains(p) by {
            assert(p == (p.0, p.1));
            assert(s.contains((p.0, p.1)) <==> self.is_neighbor(x, y, p.0 as int, p.1 as int));
            assert(t.contains((p.0, p.1)) <==> self.is_neighbor(x, y, p.0 as int, p.1 as int));
        }
    }

    /// Within the grid the neighbour relation is symmetric: a cell is a
    /// neighbour of each of its own neighbours.
    pub proof fn lemma_neighbor_symmetric(self, x: int, y: int, a: int, b: int)
        requires
            self.contains(x, y),
            self.is_neighbor(x, y, a, b),
        ensures
            self.is_neighbor(a, b, x, y),
    {
    }

    /// The same for listings: if a listing for a cell names `(a, b)`, every
    /// listing for `(a, b)` names that cell.
    pub proof fn lemma_listing_symmetric(
        self,
        x: usize,
        y: usize,
        a: usize,
        b: usize,
        s: Seq<(usize, usize)>,
        t: Seq<(usize, usize)>,
    )
        requires
            self.contains(x as int, y as int),
            self.lists_neighbors(x as int, y as int, s),
            self.lists_neighbors(a as int, b as int, t),
            s.contains((a, b)),
        ensures
            t.contains((x, y)),
    {
        self.lemma_neighbor_symmetric(x as int, y as int, a as int, b as int);
    }

    /// A neighbour is always a cell of the grid, and never the cell itself.
    pub proof fn lemma_neighbor_is_other_cell(self, x: int, y: int, a: int, b: int)
        requires
            self.is_neighbor(x, y, a, b),
        ensures
            self.contains(a, b),
            !(a == x && b == y),
    {
    }

    /// A cell away from every border has all six neighbours.
    pub proof fn lemma_interior_degree(self, x: int, y: int)
        requires
            0 < x < self.height - 1,
            0 < y < self.width - 1,
        ensures
            self.degree(x, y) == 6,
    {
    }

    /// `x` is the first or the last column of the grid.
    pub open spec fn on_column_border(self, x: int) -> bool {
        x == 0 || x == self.height - 1
    }

    /// `y` is the first or the last row of the grid.
    pub open spec fn on_row_border(self, y: int) -> bool {
        y == 0 || y == self.width - 1
    }

    /// In a grid with at least two columns and two rows, a corner cell has two
    /// or three neighbours and any other border cell has three to five.
    pub proof fn lemma_border_degree(self, x: int, y: int)
        requires
            self.contains(x, y),
            self.height >= 2,
            self.width >= 2,
        ensures
            self.on_column_border(x) && self.on_row_border(y) ==> 2 <= self.degree(x, y) <= 3,
            self.on_column_border(x) != self.on_row_border(y) ==> 3 <= self.degree(x, y) <= 5,
    {
    }

    /// No position has more than six neighbours.
    pub proof fn lemma_degree_bounds(self, x: int, y: int)
        ensures
            self.degree(x, y) <= 6,
    {
    }
}

} // verus!
