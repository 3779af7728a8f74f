//! A fixed-size two-dimensional container whose cells form a hexagonal tiling.
//!
//! Cells are addressed by an offset coordinate `(x, y)` with `x < height` and
//! `y < width`, and are stored in one flat vector. Columns with an odd `x` sit
//! half a cell lower than columns with an even `x`, which decides which six
//! cells touch a given one.
//!
//! * [`model`] is the mathematical picture of a grid: its shape, its cells and
//!   how a coordinate maps to a position in the flat sequence.
//! * [`topology`] says which coordinates touch each other.
//! * [`plane`] places the cells in the plane and ties that layout to the
//!   neighbour relation.
//! * [`hex_array`] is the executable container, specified against the others.

pub mod model;
pub mod topology;
pub mod plane;
pub mod hex_array;

pub use hex_array::HexArray;
