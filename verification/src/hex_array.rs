//! The executable container.

use vstd::prelude::*;
use crate::model::Grid;
use crate::topology::is_shifted;

verus! {

/// A grid of `height * width` values laid out as a hexagonal tiling.
pub struct HexArray<T> {
    height: usize,
    width: usize,
    tiles: Vec<T>,
}

impl<T> View for HexArray<T> {
    type V = Grid<T>;

    closed spec fn view(&self) -> Grid<T> {
        Grid { height: self.height as nat, width: self.width as nat, tiles: self.tiles@ }
    }
}

impl<T> HexArray<T> where T: Clone {
    /// Creates a grid of `height * width` cells, each a clone of `default`.
    ///
    /// The number of cells must fit in a `usize`.
    pub fn new(height: usize, width: usize, default: T) -> (r: Self)
        requires
            height * width <= usize::MAX,
        ensures
            r@.wf(),
            r@.height == height,
            r@.width == width,
            forall|i: int| 0 <= i < r@.tiles.len() ==> cloned(default, #[trigger] r@.tiles[i]),
            forall|x: int, y: int|
                r@.contains(x, y) ==> cloned(default, #[trigger] r@.at(x, y)),
    {
        let r = HexArray { height, width, tiles: vec![default; height * width] };
        proof {
            assert forall|x: int, y: int| r@.contains(x, y) implies cloned(
                default,
                #[trigger] r@.at(x, y),
            ) by {
                r@.lemma_index_in_range(x, y);
            }
        }
        r
    }
}

impl<T> HexArray<T> {
    /// Holds of every value of the type, at every point of its life: there
    /// is one stored cell per coordinate.
    #[verifier::type_invariant]
    spec fn shape_holds(self) -> bool {
        self@.wf()
    }

    /// Builds a grid from its extents and its cells in storage order.
    ///
    /// Succeeds exactly when there is one cell per coordinate; a sequence of
    /// any other length is turned down.
    pub fn from_tiles(height: usize, width: usize, tiles: Vec<T>) -> (r: Option<Self>)
        ensures
            r.is_some() <==> tiles@.len() == height * width,
            r.is_some() ==> r.unwrap()@.wf() && r.unwrap()@ == (Grid {
                height: height as nat,
                width: width as nat,
                tiles: tiles@,
            }),
    {
        proof {
            assert(0 <= height * width) by (nonlinear_arith);
            assert(tiles.len() == tiles@.len());
        }
        match height.checked_mul(width) {
            Some(n) => {
                if n == tiles.len() {
                    Some(HexArray { height, width, tiles })
                } else {
                    None
                }
            },
            None => None,
        }
    }

    /// Number of valid values of the first coordinate.
    pub fn height(&self) -> (r: usize)
        ensures
            r == self@.height,
            self@.wf(),
    {
        proof {
            use_type_invariant(self);
        }
        self.height
    }

    /// Number of valid values of the second coordinate.
    pub fn width(&self) -> (r: usize)
        ensures
            r == self@.width,
            self@.wf(),
    {
        proof {
            use_type_invariant(self);
        }
        self.width
    }

    /// The cells in storage order.
    pub fn tiles(&self) -> (r: &Vec<T>)
        ensures
            r@ == self@.tiles,
            self@.wf(),
    {
        proof {
            use_type_invariant(self);
        }
        &self.tiles
    }

    /// Takes the grid apart, handing out the cells in storage order.
    pub fn into_tiles(self) -> (r: Vec<T>)
        ensures
            r@ == self@.tiles,
            self@.wf(),
    {
        proof {
            use_type_invariant(&self);
        }
        self.tiles
    }

    /// The cell at `(x, y)`, or `None` if the grid has no such cell.
    pub fn get(&self, x: usize, y: usize) -> (r: Option<&T>)
        ensures
            self@.wf(),
            r == if self@.contains(x as int, y as int) {
                Some(&self@.at(x as int, y as int))
            } else {
                None
            },
    {
        proof {
            use_type_invariant(self);
        }
        if x < self.height && y < self.width {
            proof {
                self@.lemma_index_in_range(x as int, y as int);
                assert(self.tiles.len() == self@.tiles.len());
                assert(0 <= x * self.width) by (nonlinear_arith);
            }
            Some(&self.tiles[x * self.width + y])
        } else {
            None
        }
    }

    /// Exclusive access to the cell at `(x, y)`, or `None` if the grid has no
    /// such cell.
    ///
    /// Whatever the caller leaves in the cell is what the grid holds there
    /// afterwards; nothing else changes.
    pub fn get_mut(&mut self, x: usize, y: usize) -> (r: Option<&mut T>)
        ensures
            old(self)@.wf(),
            final(self)@.wf(),
            r.is_some() <==> old(self)@.contains(x as int, y as int),
            r.is_some() ==> *r.unwrap() == old(self)@.at(x as int, y as int) && final(self)@
                == old(self)@.put(x as int, y as int, *final(r.unwrap())),
            r.is_none() ==> final(self)@ == old(self)@,
    {
        proof {
            use_type_invariant(&*self);
        }
        if x < self.height && y < self.width {
            proof {
                self@.lemma_index_in_range(x as int, y as int);
                assert(self.tiles.len() == self@.tiles.len());
                assert(0 <= x * self.width) by (nonlinear_arith);
            }
            Some(&mut self.tiles[x * self.width + y])
        } else {
            None
        }
    }

    /// Overwrites the cell at `(x, y)` with `value`.
    ///
    /// Returns `None`, and leaves the grid as it was, if the grid has no such
    /// cell.
    pub fn set(&mut self, x: usize, y: usize, value: T) -> (r: Option<()>)
        ensures
            final(self)@.wf(),
            r.is_some() <==> old(self)@.contains(x as int, y as int),
            final(self)@ == if old(self)@.contains(x as int, y as int) {
                old(self)@.put(x as int, y as int, value)
            } else {
                old(self)@
            },
            r.is_some() ==> final(self)@.at(x as int, y as int) == value,
            forall|a: int, b: int|
                old(self)@.contains(a, b) && !(a == x && b == y) ==> #[trigger] final(self)@.at(a, b)
                    == old(self)@.at(a, b),
    {
        proof {
            use_type_invariant(&*self);
        }
        if x < self.height && y < self.width {
            proof {
                self@.lemma_index_in_range(x as int, y as int);
                self@.lemma_put_keeps_shape(x as int, y as int, value);
                assert(self.tiles.len() == self@.tiles.len());
                assert(0 <= x * self.width) by (nonlinear_arith);
                assert forall|a: int, b: int| self@.contains(a, b) implies #[trigger] self@.put(
                    x as int,
                    y as int,
                    value,
                ).at(a, b) == if a == x && b == y {
                    value
                } else {
                    self@.at(a, b)
                } by {
                    self@.lemma_put_then_at(x as int, y as int, value, a, b);
                }
            }
            self.tiles[x * self.width + y] = value;
            Some(())
        } else {
            None
        }
    }
}

/// `s` names the position `(a, b)`.
#[verifier::opaque]
spec fn names(s: Seq<(usize, usize)>, a: usize, b: usize) -> bool {
    s.contains((a, b))
}

/// `s` names no position twice.
#[verifier::opaque]
spec fn distinct(s: Seq<(usize, usize)>) -> bool {
    s.no_duplicates()
}

proof fn lemma_names_unfold(s: Seq<(usize, usize)>)
    ensures
        forall|a: usize, b: usize| #[trigger] s.contains((a, b)) <==> names(s, a, b),
        distinct(s) <==> s.no_duplicates(),
{
    reveal(names);
    reveal(distinct);
}

proof fn lemma_names_empty(s: Seq<(usize, usize)>)
    requires
        s.len() == 0,
    ensures
        distinct(s),
        forall|a: usize, b: usize| !#[trigger] names(s, a, b),
{
    reveal(names);
    reveal(distinct);
}

proof fn lemma_names_push(s: Seq<(usize, usize)>, a: usize, b: usize)
    requires
        distinct(s),
        !names(s, a, b),
    ensures
        distinct(s.push((a, b))),
        forall|c: usize, d: usize| #[trigger]
            names(s.push((a, b)), c, d) <==> names(s, c, d) || (c == a && d == b),
{
    reveal(names);
    reveal(distinct);
    let t = s.push((a, b));
    assert forall|c: usize, d: usize| #[trigger]
        names(t, c, d) <==> names(s, c, d) || (c == a && d == b) by {
        if t.contains((c, d)) {
            let i = choose|i: int| 0 <= i < t.len() && t[i] == (c, d);
            if i < s.len() {
                assert(s[i] == (c, d));
            }
        }
        if s.contains((c, d)) {
            let i = choose|i: int| 0 <= i < s.len() && s[i] == (c, d);
            assert(t[i] == (c, d));
        }
        if c == a && d == b {
            assert(t[s.len() as int] == (c, d));
        }
    }
}

impl<T> HexArray<T> {
    /// Appends `(a, b)` to `out` if it is a cell of the grid.
    fn push_inside(&self, out: &mut Vec<(usize, usize)>, a: usize, b: usize)
        requires
            distinct(old(out)@),
            !names(old(out)@, a, b),
        ensures
            distinct(final(out)@),
            forall|c: usize, d: usize| #[trigger]
                names(final(out)@, c, d) <==> names(old(out)@, c, d) || (c == a && d == b
                    && self@.contains(a as int, b as int)),
            final(out)@.len() == old(out)@.len() + self@.present(a as int, b as int),
    {
        if a < self.height && b < self.width {
            proof {
                lemma_names_push(out@, a, b);
            }
            out.push((a, b));
        }
    }

    /// The cells that touch `(x, y)`, in no particular order.
    ///
    /// The result names every neighbour of `(x, y)` exactly once. Positions
    /// around `(x, y)` that fall outside the grid are left out, so a cell on a
    /// border has fewer than six; `(x, y)` itself need not be a cell.
    #[verifier::rlimit(30)]
    pub fn adjacent(&self, x: usize, y: usize) -> (r: Vec<(usize, usize)>)
        ensures
            self@.lists_neighbors(x as int, y as int, r@),
    {
        let mut result: Vec<(usize, usize)> = Vec::new();
        proof {
            lemma_names_empty(result@);
        }
        if is_shifted(x) {
            if y < usize::MAX {
                self.push_inside(&mut result, x, y + 1);
                if x < usize::MAX {
                    self.push_inside(&mut result, x + 1, y + 1);
                }
                self.push_inside(&mut result, x - 1, y + 1);
            }
            if y > 0 {
                self.push_inside(&mut result, x, y - 1);
            }
        } else {
            if y > 0 {
                self.push_inside(&mut result, x, y - 1);
                if x < usize::MAX {
                    self.push_inside(&mut result, x + 1, y - 1);
                }
                if x > 0 {
                    self.push_inside(&mut result, x - 1, y - 1);
                }
            }
            if y < usize::MAX {
                self.push_inside(&mut result, x, y + 1);
            }
        }
        if x < usize::MAX {
            self.push_inside(&mut result, x + 1, y);
        }
        if x > 0 {
            self.push_inside(&mut result, x - 1, y);
        }
        proof {
            lemma_names_unfold(result@);
            assert(result@.no_duplicates());
            assert(result@.len() == self@.degree(x as int, y as int));
            assert forall|a: usize, b: usize| #[trigger]
                result@.contains((a, b)) <==> self@.is_neighbor(
                    x as int,
                    y as int,
                    a as int,
                    b as int,
                ) by {
                assert(result@.contains((a, b)) <==> names(result@, a, b));
            }
        }
        result
    }
}

} // verus!
