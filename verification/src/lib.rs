//! Conway's Game of Life on a fixed-size toroidal grid.
//!
//! The grid is a packed bit array of `width * height` cells in row-major
//! order, stored in a `fixedbitset::FixedBitSet`. Neighbor indices wrap
//! around both edges, so the same transition rule applies uniformly to
//! every cell, corners and edges included.

pub mod bitset;
pub mod laws;
pub mod universe;

pub use universe::Universe;
