//! Arithmetic on vectors of scalars.

pub mod util;
pub mod dot;
pub mod vector_add;
pub mod vector_dot;
pub mod vector_neg;
pub mod vector_scaler_mult;
pub mod vector_sub;
