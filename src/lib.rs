//! Dense row-major matrices with checked construction, 1-based element
//! access, row and column extraction, and element-wise and dot-product
//! based arithmetic whose scalar operations are supplied by the caller.

pub mod matrix;

pub use matrix::{Matrix, MatrixError, MatrixView};

pub mod laws;
