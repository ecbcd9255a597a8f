//! Store and access data in two-dimensional grids.
//!
//! A [`Grid`] keeps its cells in one row-major `Vec`; a [`point::Point`] names a
//! cell by column and row and projects to the linear index `y * width + x`.
pub mod grid;
pub mod point;

pub use grid::{Grid, GridError};
pub use point::Point;
