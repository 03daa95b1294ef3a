//! Solvers for linear systems given as an augmented matrix.

pub mod linear_system_solution;
pub mod pivot_walk;
pub mod row_reduction_solver;
pub mod soundness;
