//! Matrices, vectors and the solvers built on them.

pub mod matrix;
pub mod vector;
pub mod solvers;
