//! Conway's Game of Life on a fixed-size, non-wrapping grid.

pub mod board;
pub mod cell;
pub mod grid;
