//! Where the cells lie in the plane, in exact arithmetic.
//!
//! Columns are three halves of a unit apart, cells of one column are the
//! square root of three apart, and a shifted column starts half of that
//! further along. Counted in half units along the first axis and in half cell
//! heights along the second, both coordinates of a centre are whole numbers,
//! and distances between centres can be compared without rounding.

use vstd::prelude::*;
use crate::topology::{shifted, touches};

verus! {

/// First plane coordinate of column `x`, in half units.
pub open spec fn plane_x_halves(x: int) -> int {
    3 * x
}

/// Second plane coordinate of the cell `(x, y)`, in half cell heights.
pub open spec fn plane_y_halves(x: int, y: int) -> int {
    if shifted(x) {
        2 * y + 1
    } else {
        2 * y
    }
}

/// Four times the squared distance between the centres of `(x, y)` and
/// `(a, b)`. A half cell height squared is three times a half unit squared.
pub open spec fn quadrance(x: int, y: int, a: int, b: int) -> int {
    let dx = plane_x_halves(a) - plane_x_halves(x);
    let dy = plane_y_halves(a, b) - plane_y_halves(x, y);
    dx * dx + 3 * (dy * dy)
}

/// The squares of the small whole numbers, and a bound for the others.
proof fn lemma_small_squares(d: int)
    ensures
        d == 0 ==> d * d == 0,
        d == 1 || d == -1 ==> d * d == 1,
        d == 2 || d == -2 ==> d * d == 4,
        d >= 3 || d <= -3 ==> d * d >= 9,
{
    assert(d == 0 ==> d * d == 0) by (nonlinear_arith);
    assert(d == 1 || d == -1 ==> d * d == 1) by (nonlinear_arith);
    assert(d == 2 || d == -2 ==> d * d == 4) by (nonlinear_arith);
    assert(d >= 3 || d <= -3 ==> d * d >= 9) by (nonlinear_arith);
}

/// The positions around a cell are exactly those whose centres are one cell
/// height away from its own: the layout in the plane and the neighbour
/// relation describe the same tiling.
pub proof fn lemma_touching_is_one_height_apart(x: int, y: int, a: int, b: int)
    ensures
        touches(x, y, a, b) <==> quadrance(x, y, a, b) == 12,
{
    let dx = plane_x_halves(a) - plane_x_halves(x);
    let dy = plane_y_halves(a, b) - plane_y_halves(x, y);
    let c = a - x;
    assert(dx * dx == 9 * (c * c)) by (nonlinear_arith)
        requires
            dx == 3 * c,
    ;
    lemma_small_squares(c);
    lemma_small_squares(dy);
}

/// Different positions have different centres, at least one cell height
/// apart.
pub proof fn lemma_centres_keep_apart(x: int, y: int, a: int, b: int)
    requires
        !(x == a && y == b),
    ensures
        quadrance(x, y, a, b) >= 12,
{
    let dx = plane_x_halves(a) - plane_x_halves(x);
    let dy = plane_y_halves(a, b) - plane_y_halves(x, y);
    let c = a - x;
    assert(dx * dx == 9 * (c * c)) by (nonlinear_arith)
        requires
            dx == 3 * c,
    ;
    lemma_small_squares(c);
    lemma_small_squares(dy);
}

} // verus!
