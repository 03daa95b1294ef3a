//! Dense linear algebra over a generic scalar: matrix storage, row
//! reduction and a solver for linear systems.
//!
//! - `scalar` holds the contract that a scalar type meets (`Number`), the
//!   exact fractions and the complex numbers that meet it, and the laws of
//!   a field as a hypothesis.
//! - `linalg::vector` and `linalg::matrix` hold the arithmetic on vectors
//!   and matrices, and the reduction of a matrix to row echelon form and to
//!   reduced row echelon form.
//! - `linalg::solvers` reads the solutions of a linear system off its
//!   reduced augmented matrix.
//!
//! Every function says what it computes for all scalars, machine numbers
//! included. What that achieves where the scalars form a field is proved
//! beside it: the reduced row echelon form is reached and is not changed by
//! a second reduction, and the solution set that the solver returns is the
//! solution set of the system.

pub mod scalar;
pub mod linalg;
