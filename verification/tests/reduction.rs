use luna::linalg::matrix::matrix::Matrix;
use luna::scalar::rational::Rational;

fn whole(n: i64) -> Rational {
    Rational { pos: n >= 0, num: n.unsigned_abs(), den: 1 }
}

fn frac(n: i64, d: u64) -> Rational {
    Rational { pos: n >= 0, num: n.unsigned_abs(), den: d }
}

fn wholes(values: &[i64]) -> Vec<Rational> {
    values.iter().map(|n| whole(*n)).collect()
}

fn matrix(rows: usize, cols: usize, values: &[i64]) -> Matrix<Rational> {
    Matrix::new(rows, cols, wholes(values))
}

#[test]
fn echelon_form_swaps_a_zero_leading_entry_away() {
    let mut m = matrix(2, 2, &[0, 1, 1, 0]);
    m.row_echelon_form();
    assert_eq!(m.data, wholes(&[1, 0, 0, 1]));
}

#[test]
fn echelon_form_clears_below_the_pivot() {
    let mut m = matrix(2, 3, &[1, 2, 3, 2, 6, 8]);
    m.row_echelon_form();
    // The greater entry, 2, is the pivot: the rows are exchanged.
    assert_eq!(m.data, vec![whole(2), whole(6), whole(8), whole(0), whole(-1), whole(-1)]);
}

#[test]
fn echelon_form_looks_for_the_pivot_in_the_current_column() {
    let mut m = matrix(3, 2, &[1, 0, 0, 0, 0, 5]);
    m.row_echelon_form();
    assert_eq!(m.data, wholes(&[1, 0, 0, 5, 0, 0]));
}

#[test]
fn echelon_form_of_an_empty_matrix() {
    let mut m = matrix(0, 3, &[]);
    m.row_echelon_form();
    assert!(m.data.is_empty());
    let mut n = matrix(3, 0, &[]);
    n.row_echelon_form();
    assert!(n.data.is_empty());
}

#[test]
fn reduced_form_of_an_invertible_matrix_is_the_identity() {
    let mut m = matrix(2, 2, &[2, 1, 1, 3]);
    m.reduced_row_echelon_form();
    assert_eq!(m.data, wholes(&[1, 0, 0, 1]));
}

#[test]
fn reduced_form_scales_the_pivot_row() {
    let mut m = matrix(1, 3, &[4, 2, 6]);
    m.reduced_row_echelon_form();
    assert_eq!(m.data, vec![whole(1), frac(1, 2), frac(3, 2)]);
}

#[test]
fn reduced_form_is_idempotent() {
    let mut m = matrix(3, 4, &[1, 2, 3, 4, 2, 4, 6, 9, 1, 1, 1, 1]);
    m.reduced_row_echelon_form();
    let once = m.data.clone();
    m.reduced_row_echelon_form();
    assert_eq!(m.data, once);
}

#[test]
fn reduced_form_passes_over_a_column_without_a_positive_entry() {
    // The pivot search compares entries as they are: a column of zero and
    // negative entries has no pivot.
    let mut m = matrix(2, 1, &[0, -1]);
    m.reduced_row_echelon_form();
    assert_eq!(m.data, wholes(&[0, -1]));
}

#[test]
fn reduced_form_takes_the_first_of_equal_maxima() {
    let mut m = matrix(2, 2, &[3, 1, 3, 2]);
    m.reduced_row_echelon_form();
    assert_eq!(m.data, wholes(&[1, 0, 0, 1]));
}

#[test]
fn swap_rows_exchanges_two_rows() {
    let mut m = matrix(3, 2, &[1, 2, 3, 4, 5, 6]);
    m.swap_rows(0, 2);
    assert_eq!(m.data, wholes(&[5, 6, 3, 4, 1, 2]));
    m.swap_rows(1, 1);
    assert_eq!(m.data, wholes(&[5, 6, 3, 4, 1, 2]));
}

#[test]
fn reduced_form_is_idempotent_where_a_column_was_passed_over() {
    // After the first pivot the second column holds 0 and -1 below the
    // pivot row: it is passed over, and so it is when the result is
    // reduced again.
    let mut m = matrix(3, 3, &[1, 2, 3, 2, 4, 6, 1, 1, 1]);
    m.reduced_row_echelon_form();
    assert_eq!(m.data, wholes(&[1, 2, 3, 0, 0, 0, 0, -1, -2]));
    m.reduced_row_echelon_form();
    assert_eq!(m.data, wholes(&[1, 2, 3, 0, 0, 0, 0, -1, -2]));
}
