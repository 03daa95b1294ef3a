//! Scalar types and the contract that the algorithms ask of them.

pub mod number;
pub mod field;
pub mod rational;
pub mod complex;
