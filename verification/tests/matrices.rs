use luna::linalg::matrix::matrix::Matrix;
use luna::linalg::matrix::matrix_add::{
    gen_matrix_add, gen_matrix_iadd, u_gen_matrix_add, u_gen_matrix_iadd,
};
use luna::linalg::matrix::matrix_mult::{
    gen_matrix_imult, gen_matrix_mult, u_gen_matrix_imult, u_gen_matrix_mult,
};
use luna::linalg::matrix::matrix_neg::{
    gen_matrix_ineg, gen_matrix_neg, u_gen_matrix_ineg, u_gen_matrix_neg,
};
use luna::linalg::matrix::matrix_sub::{
    gen_matrix_isub, gen_matrix_sub, u_gen_matrix_isub, u_gen_matrix_sub,
};
use luna::linalg::matrix::matrix_text::layout;
use luna::linalg::matrix::matrix_transpose::{
    gen_matrix_itranspose, gen_matrix_transpose, u_gen_matrix_itranspose, u_gen_matrix_transpose,
};
use luna::scalar::rational::Rational;

fn whole(n: i64) -> Rational {
    Rational { pos: n >= 0, num: n.unsigned_abs(), den: 1 }
}

fn wholes(values: &[i64]) -> Vec<Rational> {
    values.iter().map(|n| whole(*n)).collect()
}

fn matrix(rows: usize, cols: usize, values: &[i64]) -> Matrix<Rational> {
    Matrix::new(rows, cols, wholes(values))
}

#[test]
fn new_keeps_shape_and_entries() {
    let m = matrix(2, 3, &[1, 2, 3, 4, 5, 6]);
    assert_eq!(m.rows, 2);
    assert_eq!(m.cols, 3);
    assert_eq!(m.data, wholes(&[1, 2, 3, 4, 5, 6]));
    assert_eq!(m.size(), 6);
    assert_eq!(m.shape(), (2, 3));
    assert!(!m.square());
    assert!(matrix(2, 2, &[1, 2, 3, 4]).square());
    assert!(m.well_formed());
}

#[test]
fn well_formed_tells_a_wrong_length() {
    let short = Matrix { rows: 2, cols: 3, data: wholes(&[1, 2, 3]) };
    assert!(!short.well_formed());
    let huge: Matrix<Rational> = Matrix { rows: usize::MAX, cols: 2, data: Vec::new() };
    assert!(!huge.well_formed());
    let empty: Matrix<Rational> = Matrix { rows: 0, cols: 7, data: Vec::new() };
    assert!(empty.well_formed());
}

#[test]
fn entries_by_place_and_by_cell() {
    let mut m = matrix(2, 3, &[1, 2, 3, 4, 5, 6]);
    assert_eq!(*m.get(4), whole(5));
    assert_eq!(*m.get_loc(1, 1), whole(5));
    assert_eq!(*m.get_loc(0, 2), whole(3));
    *m.get_mut(0) = whole(10);
    *m.get_mut_loc(1, 2) = whole(60);
    assert_eq!(m.data, wholes(&[10, 2, 3, 4, 5, 60]));
    assert_eq!(m[(1, 0)], whole(4));
    assert_eq!(m[1], whole(2));
    m[(0, 1)] = whole(20);
    m[3] = whole(40);
    assert_eq!(m.data, wholes(&[10, 20, 3, 40, 5, 60]));
    assert_eq!(m.index_to_location(4), (1, 1));
    assert_eq!(m.index_to_location(2), (0, 2));
}

#[test]
fn clone_is_a_matrix_of_its_own() {
    let m = matrix(2, 2, &[1, 2, 3, 4]);
    let mut copy = m.clone();
    *copy.get_mut(0) = whole(9);
    assert_eq!(m.data, wholes(&[1, 2, 3, 4]));
    assert_eq!(copy.data, wholes(&[9, 2, 3, 4]));
    assert_eq!(copy.shape(), (2, 2));
}

#[test]
fn zero_and_identity_matrices() {
    let z: Matrix<Rational> = Matrix::zeroes(2, 3);
    assert_eq!(z.shape(), (2, 3));
    assert_eq!(z.data, wholes(&[0, 0, 0, 0, 0, 0]));
    let i: Matrix<Rational> = Matrix::identity(3);
    assert_eq!(i.shape(), (3, 3));
    assert_eq!(i.data, wholes(&[1, 0, 0, 0, 1, 0, 0, 0, 1]));
    let none: Matrix<Rational> = Matrix::identity(0);
    assert!(none.data.is_empty());
}

#[test]
fn sum_of_matrices() {
    let a = matrix(2, 2, &[1, 2, 3, 4]);
    let b = matrix(2, 2, &[10, 20, 30, 40]);
    assert_eq!(gen_matrix_add(&a, &b).data, wholes(&[11, 22, 33, 44]));
    assert_eq!((&a + &b).data, wholes(&[11, 22, 33, 44]));
    let part = u_gen_matrix_add(&a, &b, 3);
    assert_eq!(part.data, wholes(&[11, 22, 33]));
    assert_eq!(part.shape(), (2, 2));
    let mut des = matrix(2, 2, &[0, 0, 0, 0]);
    gen_matrix_iadd(&a, &b, &mut des);
    assert_eq!(des.data, wholes(&[11, 22, 33, 44]));
    let mut other = matrix(2, 2, &[7, 7, 7, 7]);
    u_gen_matrix_iadd(&a, &b, &mut other, 1);
    assert_eq!(other.data, wholes(&[11, 7, 7, 7]));
    let mut c = matrix(2, 2, &[1, 2, 3, 4]);
    c.add(&b);
    assert_eq!(c.data, wholes(&[11, 22, 33, 44]));
    c.u_add(&a, 2);
    assert_eq!(c.data, wholes(&[12, 24, 33, 44]));
}

#[test]
fn difference_of_matrices() {
    let a = matrix(2, 2, &[1, 2, 3, 4]);
    let b = matrix(2, 2, &[10, 20, 30, 40]);
    assert_eq!(gen_matrix_sub(&b, &a).data, wholes(&[9, 18, 27, 36]));
    assert_eq!((&a - &b).data, wholes(&[-9, -18, -27, -36]));
    assert_eq!(u_gen_matrix_sub(&b, &a, 2).data, wholes(&[9, 18]));
    let mut des = matrix(2, 2, &[0, 0, 0, 0]);
    gen_matrix_isub(&b, &a, &mut des);
    assert_eq!(des.data, wholes(&[9, 18, 27, 36]));
    let mut other = matrix(2, 2, &[7, 7, 7, 7]);
    u_gen_matrix_isub(&b, &a, &mut other, 3);
    assert_eq!(other.data, wholes(&[9, 18, 27, 7]));
    let mut c = matrix(2, 2, &[10, 20, 30, 40]);
    c.sub(&a);
    assert_eq!(c.data, wholes(&[9, 18, 27, 36]));
    c.u_sub(&a, 1);
    assert_eq!(c.data, wholes(&[8, 18, 27, 36]));
}

#[test]
fn negation_of_matrices() {
    let a = matrix(2, 2, &[1, -2, 3, -4]);
    assert_eq!(gen_matrix_neg(&a).data, wholes(&[-1, 2, -3, 4]));
    assert_eq!((-&a).data, wholes(&[-1, 2, -3, 4]));
    assert_eq!(u_gen_matrix_neg(&a, 3).data, wholes(&[-1, 2, -3]));
    let mut des = matrix(2, 2, &[0, 0, 0, 0]);
    gen_matrix_ineg(&a, &mut des);
    assert_eq!(des.data, wholes(&[-1, 2, -3, 4]));
    let mut other = matrix(2, 2, &[7, 7, 7, 7]);
    u_gen_matrix_ineg(&a, &mut other, 2);
    assert_eq!(other.data, wholes(&[-1, 2, 7, 7]));
    let mut c = matrix(2, 2, &[1, -2, 3, -4]);
    c.negate();
    assert_eq!(c.data, wholes(&[-1, 2, -3, 4]));
    c.u_negate(1);
    assert_eq!(c.data, wholes(&[1, 2, -3, 4]));
}

#[test]
fn product_of_matrices() {
    let a = matrix(2, 3, &[1, 2, 3, 4, 5, 6]);
    let b = matrix(3, 2, &[7, 8, 9, 10, 11, 12]);
    let product = gen_matrix_mult(&a, &b);
    assert_eq!(product.shape(), (2, 2));
    assert_eq!(product.data, wholes(&[58, 64, 139, 154]));
    assert_eq!((&a * &b).data, wholes(&[58, 64, 139, 154]));
    assert_eq!(u_gen_matrix_mult(&a, &b, 2, 3, 2).data, wholes(&[58, 64, 139, 154]));
    let mut des = matrix(2, 2, &[0, 0, 0, 0]);
    gen_matrix_imult(&a, &b, &mut des);
    assert_eq!(des.data, wholes(&[58, 64, 139, 154]));
    let mut first_row = matrix(2, 2, &[7, 7, 7, 7]);
    u_gen_matrix_imult(&a, &b, &mut first_row, 1, 3, 2);
    assert_eq!(first_row.data, wholes(&[58, 64, 7, 7]));
}

#[test]
fn product_with_the_identity() {
    let a = matrix(2, 2, &[1, 2, 3, 4]);
    let i: Matrix<Rational> = Matrix::identity(2);
    assert_eq!(gen_matrix_mult(&a, &i).data, a.data);
    assert_eq!(gen_matrix_mult(&i, &a).data, a.data);
}

#[test]
fn product_over_no_inner_entries_is_zero() {
    let a = matrix(2, 0, &[]);
    let b = matrix(0, 2, &[]);
    assert_eq!(gen_matrix_mult(&a, &b).data, wholes(&[0, 0, 0, 0]));
}

#[test]
fn transpose_of_a_matrix() {
    let a = matrix(2, 3, &[1, 2, 3, 4, 5, 6]);
    let t = gen_matrix_transpose(&a);
    assert_eq!(t.shape(), (3, 2));
    assert_eq!(t.data, wholes(&[1, 4, 2, 5, 3, 6]));
    assert_eq!(u_gen_matrix_transpose(&a, 4).data, wholes(&[1, 4, 2, 5]));
    let mut des = matrix(3, 2, &[0, 0, 0, 0, 0, 0]);
    gen_matrix_itranspose(&a, &mut des);
    assert_eq!(des.data, wholes(&[1, 4, 2, 5, 3, 6]));
    let mut part = matrix(3, 2, &[7, 7, 7, 7, 7, 7]);
    u_gen_matrix_itranspose(&a, &mut part, 3);
    assert_eq!(part.data, wholes(&[1, 4, 2, 7, 7, 7]));
    let square = matrix(2, 2, &[1, 2, 3, 4]);
    assert_eq!(gen_matrix_transpose(&square).data, wholes(&[1, 3, 2, 4]));
}

#[test]
fn transpose_in_place() {
    let mut a = matrix(2, 3, &[1, 2, 3, 4, 5, 6]);
    a.transpose();
    assert_eq!(a.shape(), (3, 2));
    assert_eq!(a.data, wholes(&[1, 4, 2, 5, 3, 6]));
    a.u_transpose(6);
    assert_eq!(a.shape(), (2, 3));
    assert_eq!(a.data, wholes(&[1, 2, 3, 4, 5, 6]));
}

#[test]
fn layout_of_cell_texts() {
    let cells: Vec<String> = vec!["1", "-2", "3", "40", "5", "6"]
        .into_iter()
        .map(String::from)
        .collect();
    assert_eq!(layout(2, 3, &cells), "[1, -2, 3]\n[40, 5, 6]");
    assert_eq!(layout(3, 2, &cells), "[1, -2]\n[3, 40]\n[5, 6]");
    assert_eq!(layout(1, 6, &cells), "[1, -2, 3, 40, 5, 6]");
    assert_eq!(layout(0, 0, &Vec::new()), "");
    assert_eq!(layout(2, 0, &Vec::new()), "[]\n[]");
}
