//! Dense matrix storage and the operations on it.

pub mod matrix;
pub mod util;
pub mod matrix_add;
pub mod matrix_sub;
pub mod matrix_neg;
pub mod matrix_mult;
pub mod matrix_transpose;
pub mod matrix_text;
pub mod reduction;
pub mod pivots;
pub mod matrix_row_reduction;
pub mod reduced_shape;
