//! A backtracking solver for 9×9 Sudoku puzzles.
//!
//! A puzzle is a row-major sequence of 81 cells, each a digit 1–9 or 0 for
//! an empty cell. The solver fills the empty cells in row-major order, trying
//! digits in ascending order, so its answer is the lexicographically least
//! admissible filling of the puzzle.

pub mod bits;
pub mod grid;
pub mod laws;
pub mod search;
pub mod theory;
pub mod tracker;

pub use crate::search::solve_puzzle;
