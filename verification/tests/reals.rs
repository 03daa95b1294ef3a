use luna::linalg::matrix::matrix::Matrix;
use luna::linalg::solvers::linear_system_solution::LinearSystemSolution;
use luna::linalg::solvers::row_reduction_solver::solve_linear_system_basis_rref;
use luna::scalar::complex::{Complex, ComplexNumber};
use luna::scalar::number::{Number, RealNumber};
use std::ops::{Add, Div, Mul, Neg, Sub};

/// A floating-point scalar, as a caller of the library would bring it.
#[derive(Clone, Copy, Debug, PartialEq, PartialOrd)]
struct Real(f64);

impl Add for Real {
    type Output = Real;
    fn add(self, rhs: Real) -> Real {
        Real(self.0 + rhs.0)
    }
}

impl Sub for Real {
    type Output = Real;
    fn sub(self, rhs: Real) -> Real {
        Real(self.0 - rhs.0)
    }
}

impl Mul for Real {
    type Output = Real;
    fn mul(self, rhs: Real) -> Real {
        Real(self.0 * rhs.0)
    }
}

impl Div for Real {
    type Output = Real;
    fn div(self, rhs: Real) -> Real {
        Real(self.0 / rhs.0)
    }
}

impl Neg for Real {
    type Output = Real;
    fn neg(self) -> Real {
        Real(-self.0)
    }
}

// The specification items of the traits are never run: only the verifier
// reads them.
impl Number for Real {
    fn zero_spec() -> Real {
        unreachable!()
    }
    fn one_spec() -> Real {
        unreachable!()
    }
    fn inverse_spec(self) -> Real {
        unreachable!()
    }
    fn valid_spec(self) -> bool {
        unreachable!()
    }
    fn operators_are_total() {
        unreachable!()
    }
    fn zero() -> Real {
        Real(0.0)
    }
    fn one() -> Real {
        Real(1.0)
    }
    fn inverse(self) -> Real {
        Real(1.0 / self.0)
    }
    fn valid(self) -> bool {
        self.0.is_finite()
    }
}

impl RealNumber for Real {
    fn power_spec(self, _other: Real) -> Real {
        unreachable!()
    }
    fn power(self, other: Real) -> Real {
        Real(self.0.powf(other.0))
    }
}

impl std::fmt::Display for Real {
    fn fmt(&self, f: &mut std::fmt::Formatter<'_>) -> std::fmt::Result {
        self.0.fmt(f)
    }
}

fn reals(values: &[f64]) -> Vec<Real> {
    values.iter().map(|x| Real(*x)).collect()
}

fn close(a: f64, b: f64) -> bool {
    (a - b).abs() < 1e-9
}

#[test]
fn unique_solution_in_floating_point() {
    let aug = Matrix::new(2, 3, reals(&[2.0, 1.0, 5.0, 1.0, 3.0, 10.0]));
    match solve_linear_system_basis_rref(&aug) {
        LinearSystemSolution::Solution(x) => {
            assert_eq!(x.len(), 2);
            assert!(close(x[0].0, 1.0));
            assert!(close(x[1].0, 3.0));
        }
        _ => panic!("expected a unique solution"),
    }
}

#[test]
fn reduced_form_of_the_sample_matrix() {
    let mut m = Matrix::new(3, 3, reals(&[10.0, 2.0, 3.0, 4.0, 5.0, 6.0, 7.0, 4.0, 9.0]));
    m.reduced_row_echelon_form();
    let identity = [1.0, 0.0, 0.0, 0.0, 1.0, 0.0, 0.0, 0.0, 1.0];
    for i in 0..9 {
        assert!(close(m.data[i].0, identity[i]));
    }
}

#[test]
fn validity_of_real_scalars() {
    assert!(Real(1.5).valid());
    assert!(!Real(0.0).inverse().valid());
    assert!(!Real(f64::NAN).valid());
}

fn c(re: f64, im: f64) -> Complex<Real> {
    Complex { re: Real(re), im: Real(im) }
}

#[test]
fn complex_arithmetic() {
    assert_eq!(c(1.0, 2.0) + c(3.0, -1.0), c(4.0, 1.0));
    assert_eq!(c(1.0, 2.0) - c(3.0, -1.0), c(-2.0, 3.0));
    // (1 + 2i)(3 - i) = 3 - i + 6i + 2 = 5 + 5i
    assert_eq!(c(1.0, 2.0) * c(3.0, -1.0), c(5.0, 5.0));
    // (5 + 5i) / (3 - i) = 1 + 2i
    assert_eq!(c(5.0, 5.0) / c(3.0, -1.0), c(1.0, 2.0));
    assert_eq!(-c(1.0, -2.0), c(-1.0, 2.0));
}

#[test]
fn complex_assignment_operators() {
    let mut z = c(1.0, 2.0);
    z += c(3.0, -1.0);
    assert_eq!(z, c(4.0, 1.0));
    z -= c(1.0, 1.0);
    assert_eq!(z, c(3.0, 0.0));
    z *= c(0.0, 1.0);
    assert_eq!(z, c(0.0, 3.0));
    z /= c(0.0, 3.0);
    assert_eq!(z, c(1.0, 0.0));
}

#[test]
fn complex_identities_and_inverse() {
    assert_eq!(Complex::<Real>::zero(), c(0.0, 0.0));
    assert_eq!(Complex::<Real>::one(), c(1.0, 0.0));
    // 1 / (0 + 2i) = -i / 2
    assert_eq!(c(0.0, 2.0).inverse(), c(0.0, -0.5));
    assert_eq!(c(3.0, 4.0) * c(3.0, 4.0).inverse(), c(1.0, 0.0));
    assert!(c(1.0, 1.0).valid());
    assert!(!c(0.0, 0.0).inverse().valid());
}

#[test]
fn complex_conjugate() {
    assert_eq!(c(1.0, 2.0).conjugate(), c(1.0, -2.0));
    assert_eq!(ComplexNumber::conjugate(c(1.0, 2.0)), c(1.0, -2.0));
    assert_eq!(c(3.0, 4.0).norm(), Real(25.0));
}

#[test]
fn complex_order_goes_by_the_real_part_first() {
    assert!(c(2.0, 0.0) > c(1.0, 5.0));
    assert!(c(1.0, 0.0) < c(1.0, 5.0));
    assert!(c(1.0, 5.0) >= c(1.0, 5.0));
    assert!(c(1.0, 5.0) <= c(1.0, 5.0));
    assert_eq!(c(1.0, 5.0).partial_cmp(&c(1.0, 5.0)), Some(std::cmp::Ordering::Equal));
    assert_eq!(c(f64::NAN, 0.0).partial_cmp(&c(1.0, 0.0)), None);
    assert!(c(2.0, 0.0).is_above(&c(1.0, 5.0)));
    assert!(c(1.0, 0.0).is_below(&c(1.0, 5.0)));
}

#[test]
fn power_of_real_scalars() {
    assert_eq!(Real(2.0).power(Real(3.0)), Real(8.0));
}

#[test]
fn matrix_as_text() {
    let m = Matrix::new(2, 2, reals(&[1.5, -2.0, 0.25, 4.0]));
    assert_eq!(m.to_text(), "[1.5, -2]\n[0.25, 4]");
    let row = Matrix::new(1, 3, reals(&[1.0, 2.0, 3.0]));
    assert_eq!(row.to_text(), "[1, 2, 3]");
    let none: Matrix<Real> = Matrix::new(0, 0, Vec::new());
    assert_eq!(none.to_text(), "");
}
