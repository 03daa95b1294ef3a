use luna::linalg::matrix::matrix::Matrix;
use luna::linalg::matrix::matrix_mult::gen_matrix_mult;
use luna::linalg::solvers::linear_system_solution::LinearSystemSolution;
use luna::linalg::solvers::row_reduction_solver::{
    isolve_linear_system_basis_rref, isolve_linear_system_rref, solve_linear_system_basis_rref,
    solve_linear_system_rref,
};
use luna::scalar::rational::Rational;

fn whole(n: i64) -> Rational {
    Rational { pos: n >= 0, num: n.unsigned_abs(), den: 1 }
}

fn frac(n: i64, d: u64) -> Rational {
    Rational { pos: n >= 0, num: n.unsigned_abs(), den: d }
}

fn wholes(values: &[i64]) -> Vec<Rational> {
    values.iter().map(|n| whole(*n)).collect()
}

fn matrix(rows: usize, cols: usize, values: &[i64]) -> Matrix<Rational> {
    Matrix::new(rows, cols, wholes(values))
}

#[test]
fn inconsistent_system_has_no_solution() {
    let aug = matrix(2, 4, &[1, 0, 0, 1, 0, 0, 0, 1]);
    assert!(matches!(solve_linear_system_basis_rref(&aug), LinearSystemSolution::NoSolution));
}

#[test]
fn underdetermined_homogeneous_system_has_one_basis_vector() {
    let aug = matrix(2, 4, &[1, 1, 0, 0, 0, 0, 1, 0]);
    match solve_linear_system_basis_rref(&aug) {
        LinearSystemSolution::HomogenousBasis(basis) => {
            assert_eq!(basis.len(), 1);
            assert_eq!(basis[0], wholes(&[-1, 1, 0]));
        }
        _ => panic!("expected a homogeneous basis"),
    }
}

#[test]
fn unique_solution_of_two_equations() {
    let aug = matrix(2, 3, &[2, 1, 5, 1, 3, 10]);
    match solve_linear_system_basis_rref(&aug) {
        LinearSystemSolution::Solution(x) => assert_eq!(x, wholes(&[1, 3])),
        _ => panic!("expected a unique solution"),
    }
}

#[test]
fn affine_basis_of_one_equation() {
    // x + 2y = 3
    let aug = matrix(1, 3, &[1, 2, 3]);
    match solve_linear_system_basis_rref(&aug) {
        LinearSystemSolution::AffineBasis(p, basis) => {
            assert_eq!(p, wholes(&[3, 0]));
            assert_eq!(basis.len(), 1);
            assert_eq!(basis[0], wholes(&[-2, 1]));
        }
        _ => panic!("expected an affine basis"),
    }
}

#[test]
fn solver_leaves_the_matrix_as_it_is() {
    let aug = matrix(2, 3, &[2, 1, 5, 1, 3, 10]);
    let _ = solve_linear_system_basis_rref(&aug);
    assert_eq!(aug.data, wholes(&[2, 1, 5, 1, 3, 10]));
}

#[test]
fn in_place_solver_reduces_the_matrix() {
    let mut aug = matrix(2, 3, &[2, 1, 5, 1, 3, 10]);
    let _ = isolve_linear_system_basis_rref(&mut aug);
    assert_eq!(aug.data, wholes(&[1, 0, 1, 0, 1, 3]));
}

#[test]
fn redundant_equation_keeps_the_solution_unique() {
    let aug = matrix(3, 3, &[1, 0, 2, 0, 1, 3, 1, 1, 5]);
    match solve_linear_system_basis_rref(&aug) {
        LinearSystemSolution::Solution(x) => assert_eq!(x, wholes(&[2, 3])),
        _ => panic!("expected a unique solution"),
    }
}

#[test]
fn contradicting_third_equation_has_no_solution() {
    let aug = matrix(3, 3, &[1, 0, 2, 0, 1, 3, 1, 1, 6]);
    assert!(matches!(solve_linear_system_basis_rref(&aug), LinearSystemSolution::NoSolution));
}

#[test]
fn no_unknowns() {
    let consistent = matrix(2, 1, &[0, 0]);
    match solve_linear_system_basis_rref(&consistent) {
        LinearSystemSolution::Solution(x) => assert!(x.is_empty()),
        _ => panic!("expected the empty solution"),
    }
    let inconsistent = matrix(2, 1, &[0, 4]);
    assert!(matches!(
        solve_linear_system_basis_rref(&inconsistent),
        LinearSystemSolution::NoSolution
    ));
}

#[test]
fn single_solution_entry_point() {
    let aug = matrix(2, 3, &[2, 1, 5, 1, 3, 10]);
    assert_eq!(solve_linear_system_rref(&aug), Some(wholes(&[1, 3])));
}

#[test]
fn single_solution_fails_on_a_free_variable() {
    let aug = matrix(2, 4, &[1, 1, 0, 0, 0, 0, 1, 0]);
    assert_eq!(solve_linear_system_rref(&aug), None);
}

#[test]
fn single_solution_fails_on_an_inconsistent_system() {
    let aug = matrix(3, 3, &[1, 0, 2, 0, 1, 3, 1, 1, 6]);
    assert_eq!(solve_linear_system_rref(&aug), None);
}

#[test]
fn single_solution_in_place_writes_the_answer() {
    let mut aug = matrix(2, 3, &[1, 1, 3, 1, -1, 1]);
    let mut answer = wholes(&[9, 9]);
    assert!(isolve_linear_system_rref(&mut aug, &mut answer));
    assert_eq!(answer, wholes(&[2, 1]));
    assert_eq!(aug.data, wholes(&[1, 0, 2, 0, 1, 1]));
}

#[test]
fn fractions_in_the_solution() {
    // 2x = 1, 3y = 2
    let aug = matrix(2, 3, &[2, 0, 1, 0, 3, 2]);
    match solve_linear_system_basis_rref(&aug) {
        LinearSystemSolution::Solution(x) => {
            assert_eq!(x, vec![frac(1, 2), frac(2, 3)]);
        }
        _ => panic!("expected a unique solution"),
    }
}

#[test]
fn single_solution_of_a_wide_system_leaves_the_last_unknowns_zero() {
    // x + 2y = 3 with one row only: y is never looked at.
    let aug = matrix(1, 3, &[1, 2, 3]);
    assert_eq!(solve_linear_system_rref(&aug), Some(wholes(&[3, 0])));
}

#[test]
fn single_solution_with_a_redundant_equation() {
    let aug = matrix(3, 3, &[1, 0, 2, 0, 1, 3, 1, 1, 5]);
    assert_eq!(solve_linear_system_rref(&aug), Some(wholes(&[2, 3])));
}

#[test]
fn single_solution_in_place_keeps_what_it_wrote_before_it_failed() {
    // x = 4, then 0 = 0 in a row that still has an unknown: y is free.
    let mut aug = matrix(2, 3, &[1, 0, 4, 0, 0, 0]);
    let mut answer = wholes(&[9, 9]);
    assert!(!isolve_linear_system_rref(&mut aug, &mut answer));
    assert_eq!(answer, wholes(&[4, 9]));
}

#[test]
fn free_column_between_two_pivots() {
    // x + 2y = 1, z = 5
    let aug = matrix(2, 4, &[1, 2, 0, 1, 0, 0, 1, 5]);
    match solve_linear_system_basis_rref(&aug) {
        LinearSystemSolution::AffineBasis(p, basis) => {
            assert_eq!(p, wholes(&[1, 0, 5]));
            assert_eq!(basis.len(), 1);
            assert_eq!(basis[0], wholes(&[-2, 1, 0]));
        }
        _ => panic!("expected an affine basis"),
    }
}

#[test]
fn two_free_columns() {
    // x + y + z = 0
    let aug = matrix(1, 4, &[1, 1, 1, 0]);
    match solve_linear_system_basis_rref(&aug) {
        LinearSystemSolution::HomogenousBasis(basis) => {
            assert_eq!(basis.len(), 2);
            assert_eq!(basis[0], wholes(&[-1, 1, 0]));
            assert_eq!(basis[1], wholes(&[-1, 0, 1]));
        }
        _ => panic!("expected a homogeneous basis"),
    }
}

#[test]
fn basis_vectors_solve_the_homogeneous_system() {
    let rows = 2;
    let unknowns = 4;
    let values = [1, 2, 3, 4, 10, 2, 5, 7, 8, 20];
    let aug = matrix(rows, unknowns + 1, &values);
    match solve_linear_system_basis_rref(&aug) {
        LinearSystemSolution::AffineBasis(p, basis) => {
            assert_eq!(basis.len(), 2);
            for r in 0..rows {
                let mut sum = whole(0);
                for c in 0..unknowns {
                    sum = sum + whole(values[r * (unknowns + 1) + c]) * p[c];
                }
                assert_eq!(sum, whole(values[r * (unknowns + 1) + unknowns]));
                for v in basis.iter() {
                    let mut zero = whole(0);
                    for c in 0..unknowns {
                        zero = zero + whole(values[r * (unknowns + 1) + c]) * v[c];
                    }
                    assert_eq!(zero, whole(0));
                }
            }
        }
        _ => panic!("expected an affine basis"),
    }
}

#[test]
fn column_of_negative_entries_counts_as_free() {
    // -x = 0 has the one solution x = 0. The pivot search compares entries
    // as they are and finds no pivot in a column whose greatest entry is
    // zero, so the unknown is reported as free.
    let aug = matrix(2, 2, &[0, 0, -1, 0]);
    match solve_linear_system_basis_rref(&aug) {
        LinearSystemSolution::HomogenousBasis(basis) => {
            assert_eq!(basis.len(), 1);
            assert_eq!(basis[0], wholes(&[1]));
        }
        _ => panic!("expected a homogeneous basis"),
    }
}

/// The product of the coefficient matrix, given row after row, with a
/// vector.
fn times(rows: usize, unknowns: usize, coefficients: &[i64], x: &[Rational]) -> Vec<Rational> {
    let a = matrix(rows, unknowns, coefficients);
    let column = Matrix::new(unknowns, 1, x.to_vec());
    gen_matrix_mult(&a, &column).data
}

#[test]
fn unique_solution_solves_the_system() {
    let coefficients = [2, 1, -1, -3, -1, 2, -2, 1, 2];
    let aug = matrix(3, 4, &[2, 1, -1, 8, -3, -1, 2, -11, -2, 1, 2, -3]);
    match solve_linear_system_basis_rref(&aug) {
        LinearSystemSolution::Solution(x) => {
            assert_eq!(x, wholes(&[2, 3, -1]));
            assert_eq!(times(3, 3, &coefficients, &x), wholes(&[8, -11, -3]));
        }
        _ => panic!("expected a unique solution"),
    }
}

#[test]
fn homogeneous_basis_lies_in_the_null_space() {
    let coefficients = [1, 2, 3, 2, 4, 6, 1, 3, 5];
    let aug = matrix(3, 4, &[1, 2, 3, 0, 2, 4, 6, 0, 1, 3, 5, 0]);
    match solve_linear_system_basis_rref(&aug) {
        LinearSystemSolution::HomogenousBasis(basis) => {
            assert_eq!(basis.len(), 1);
            assert_eq!(basis[0], wholes(&[1, -2, 1]));
            for v in basis.iter() {
                assert_eq!(times(3, 3, &coefficients, v), wholes(&[0, 0, 0]));
            }
        }
        _ => panic!("expected a homogeneous basis"),
    }
}

#[test]
fn affine_basis_solves_the_system() {
    let coefficients = [1, 2, 3, 2, 4, 6, 1, 3, 5];
    let aug = matrix(3, 4, &[1, 2, 3, 6, 2, 4, 6, 12, 1, 3, 5, 9]);
    match solve_linear_system_basis_rref(&aug) {
        LinearSystemSolution::AffineBasis(p, basis) => {
            assert_eq!(times(3, 3, &coefficients, &p), wholes(&[6, 12, 9]));
            assert_eq!(basis.len(), 1);
            for v in basis.iter() {
                assert_eq!(times(3, 3, &coefficients, v), wholes(&[0, 0, 0]));
            }
        }
        _ => panic!("expected an affine basis"),
    }
}
