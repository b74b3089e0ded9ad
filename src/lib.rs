//! Vector, matrix and descriptive-statistics primitives with verified contracts.
pub mod linear_algebra;
pub mod statistics;
pub mod visualize;
