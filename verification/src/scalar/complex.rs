//! Complex numbers over a real scalar type.

use crate::scalar::field::{
    divides_by_inverse, is_field, lemma_add_neg, lemma_distributive, lemma_inverse_of_inverse,
    lemma_mul_assoc, lemma_mul_comm, lemma_mul_interchange, lemma_mul_inverse, lemma_mul_negated,
    lemma_mul_one, lemma_mul_zero, lemma_sub_is_add_neg,
};
use crate::scalar::number::{greater, less, Number, RealNumber};
use std::cmp::Ordering;
use std::ops::{Add, AddAssign, Div, DivAssign, Mul, MulAssign, Neg, Sub, SubAssign};
use vstd::prelude::*;
use vstd::std_specs::cmp::{PartialEqSpec, PartialOrdSpec};
use vstd::std_specs::ops::{AddSpec, DivSpec, MulSpec, NegSpec, SubSpec};

verus! {

/// The complex number `re + im * i`.
#[derive(Copy, Debug)]
pub struct Complex<T: RealNumber> {
    pub re: T,
    pub im: T,
}

impl<T: RealNumber> Clone for Complex<T> {
    fn clone(&self) -> (r: Self)
        ensures
            r == *self,
    {
        *self
    }
}

/// A scalar that has a complex conjugate.
pub trait ComplexNumber: Number {
    /// The complex conjugate.
    spec fn conjugate_spec(self) -> Self;

    fn conjugate(self) -> (r: Self)
        ensures
            r == self.conjugate_spec(),
    ;
}

impl<T: RealNumber> Complex<T> {
    /// The square of the absolute value: `re * re + im * im`.
    pub open spec fn norm_spec(self) -> T {
        self.re.mul_spec(self.re).add_spec(self.im.mul_spec(self.im))
    }

    /// The square of the absolute value.
    pub fn norm(self) -> (n: T)
        ensures
            n == self.norm_spec(),
    {
        proof {
            T::operators_are_total();
        }
        self.re * self.re + self.im * self.im
    }

    /// The complex conjugate: the imaginary part is negated.
    pub fn conjugate(self) -> (r: Complex<T>)
        ensures
            r == (Complex { re: self.re, im: self.im.neg_spec() }),
    {
        proof {
            T::operators_are_total();
        }
        Complex { re: self.re, im: self.im.neg() }
    }

    /// Whether `self` comes after `other`: by the real parts, and by the
    /// imaginary parts where the real parts are neither above nor below each
    /// other.
    pub open spec fn above(self, other: Complex<T>) -> bool {
        if greater(self.re, other.re) {
            true
        } else if less(self.re, other.re) {
            false
        } else {
            greater(self.im, other.im)
        }
    }

    /// Whether `self` comes before `other`: by the real parts, and by the
    /// imaginary parts where the real parts are neither above nor below each
    /// other.
    pub open spec fn below(self, other: Complex<T>) -> bool {
        if less(self.re, other.re) {
            true
        } else if greater(self.re, other.re) {
            false
        } else {
            less(self.im, other.im)
        }
    }

    /// Whether `self` comes after `other`.
    pub fn is_above(&self, other: &Complex<T>) -> (r: bool)
        ensures
            r == self.above(*other),
    {
        proof {
            T::operators_are_total();
        }
        if self.re > other.re {
            return true;
        } else if self.re < other.re {
            return false;
        } else if self.im > other.im {
            return true;
        }
        false
    }

    /// Whether `self` comes before `other`.
    pub fn is_below(&self, other: &Complex<T>) -> (r: bool)
        ensures
            r == self.below(*other),
    {
        proof {
            T::operators_are_total();
        }
        if self.re < other.re {
            return true;
        } else if self.re > other.re {
            return false;
        } else if self.im < other.im {
            return true;
        }
        false
    }
}

impl<T: RealNumber> Number for Complex<T> {
    open spec fn zero_spec() -> Complex<T> {
        Complex { re: T::zero_spec(), im: T::zero_spec() }
    }

    open spec fn one_spec() -> Complex<T> {
        Complex { re: T::one_spec(), im: T::zero_spec() }
    }

    open spec fn inverse_spec(self) -> Complex<T> {
        Complex {
            re: self.re.div_spec(self.norm_spec()),
            im: self.im.neg_spec().div_spec(self.norm_spec()),
        }
    }

    open spec fn valid_spec(self) -> bool {
        self.re.valid_spec() && self.im.valid_spec()
    }

    fn zero() -> (r: Complex<T>) {
        Complex { re: T::zero(), im: T::zero() }
    }

    fn one() -> (r: Complex<T>) {
        Complex { re: T::one(), im: T::zero() }
    }

    fn inverse(self) -> (r: Complex<T>) {
        proof {
            T::operators_are_total();
        }
        let dem = self.norm();
        Complex { re: self.re / dem, im: self.im.neg() / dem }
    }

    fn valid(self) -> (r: bool) {
        self.re.valid() && self.im.valid()
    }

    proof fn operators_are_total() {
        T::operators_are_total();
    }
}

impl<T: RealNumber> ComplexNumber for Complex<T> {
    open spec fn conjugate_spec(self) -> Complex<T> {
        Complex { re: self.re, im: self.im.neg_spec() }
    }

    fn conjugate(self) -> (r: Complex<T>) {
        Complex::conjugate(self)
    }
}

impl<T: RealNumber> Add for Complex<T> {
    type Output = Complex<T>;

    fn add(self, rhs: Complex<T>) -> (r: Complex<T>) {
        proof {
            T::operators_are_total();
        }
        Complex { re: self.re + rhs.re, im: self.im + rhs.im }
    }
}

impl<T: RealNumber> vstd::std_specs::ops::AddSpecImpl for Complex<T> {
    open spec fn obeys_add_spec() -> bool {
        true
    }

    open spec fn add_req(self, rhs: Complex<T>) -> bool {
        true
    }

    open spec fn add_spec(self, rhs: Complex<T>) -> Complex<T> {
        Complex { re: self.re.add_spec(rhs.re), im: self.im.add_spec(rhs.im) }
    }
}

impl<T: RealNumber> Sub for Complex<T> {
    type Output = Complex<T>;

    fn sub(self, rhs: Complex<T>) -> (r: Complex<T>) {
        proof {
            T::operators_are_total();
        }
        Complex { re: self.re - rhs.re, im: self.im - rhs.im }
    }
}

impl<T: RealNumber> vstd::std_specs::ops::SubSpecImpl for Complex<T> {
    open spec fn obeys_sub_spec() -> bool {
        true
    }

    open spec fn sub_req(self, rhs: Complex<T>) -> bool {
        true
    }

    open spec fn sub_spec(self, rhs: Complex<T>) -> Complex<T> {
        Complex { re: self.re.sub_spec(rhs.re), im: self.im.sub_spec(rhs.im) }
    }
}

impl<T: RealNumber> Mul for Complex<T> {
    type Output = Complex<T>;

    fn mul(self, rhs: Complex<T>) -> (r: Complex<T>) {
        proof {
            T::operators_are_total();
        }
        Complex {
            re: self.re * rhs.re - self.im * rhs.im,
            im: self.re * rhs.im + self.im * rhs.re,
        }
    }
}

impl<T: RealNumber> vstd::std_specs::ops::MulSpecImpl for Complex<T> {
    open spec fn obeys_mul_spec() -> bool {
        true
    }

    open spec fn mul_req(self, rhs: Complex<T>) -> bool {
        true
    }

    open spec fn mul_spec(self, rhs: Complex<T>) -> Complex<T> {
        Complex {
            re: self.re.mul_spec(rhs.re).sub_spec(self.im.mul_spec(rhs.im)),
            im: self.re.mul_spec(rhs.im).add_spec(self.im.mul_spec(rhs.re)),
        }
    }
}

impl<T: RealNumber> Div for Complex<T> {
    type Output = Complex<T>;

    fn div(self, rhs: Complex<T>) -> (r: Complex<T>) {
        proof {
            T::operators_are_total();
        }
        let dem = rhs.norm();
        Complex {
            re: (self.re * rhs.re + self.im * rhs.im) / dem,
            im: (self.im * rhs.re - self.re * rhs.im) / dem,
        }
    }
}

impl<T: RealNumber> vstd::std_specs::ops::DivSpecImpl for Complex<T> {
    open spec fn obeys_div_spec() -> bool {
        true
    }

    open spec fn div_req(self, rhs: Complex<T>) -> bool {
        true
    }

    open spec fn div_spec(self, rhs: Complex<T>) -> Complex<T> {
        Complex {
            re: self.re.mul_spec(rhs.re).add_spec(self.im.mul_spec(rhs.im)).div_spec(
                rhs.norm_spec(),
            ),
            im: self.im.mul_spec(rhs.re).sub_spec(self.re.mul_spec(rhs.im)).div_spec(
                rhs.norm_spec(),
            ),
        }
    }
}

impl<T: RealNumber> Neg for Complex<T> {
    type Output = Complex<T>;

    fn neg(self) -> (r: Complex<T>) {
        proof {
            T::operators_are_total();
        }
        Complex { re: self.re.neg(), im: self.im.neg() }
    }
}

impl<T: RealNumber> vstd::std_specs::ops::NegSpecImpl for Complex<T> {
    open spec fn obeys_neg_spec() -> bool {
        true
    }

    open spec fn neg_req(self) -> bool {
        true
    }

    open spec fn neg_spec(self) -> Complex<T> {
        Complex { re: self.re.neg_spec(), im: self.im.neg_spec() }
    }
}

impl<T: RealNumber> AddAssign<Complex<T>> for Complex<T> {
    fn add_assign(&mut self, rhs: Complex<T>)
        ensures
            *final(self) == old(self).add_spec(rhs),
    {
        *self = *self + rhs;
    }
}

impl<T: RealNumber> SubAssign<Complex<T>> for Complex<T> {
    fn sub_assign(&mut self, rhs: Complex<T>)
        ensures
            *final(self) == old(self).sub_spec(rhs),
    {
        *self = *self - rhs;
    }
}

impl<T: RealNumber> MulAssign<Complex<T>> for Complex<T> {
    fn mul_assign(&mut self, rhs: Complex<T>)
        ensures
            *final(self) == old(self).mul_spec(rhs),
    {
        *self = *self * rhs;
    }
}

impl<T: RealNumber> DivAssign<Complex<T>> for Complex<T> {
    fn div_assign(&mut self, rhs: Complex<T>)
        ensures
            *final(self) == old(self).div_spec(rhs),
    {
        *self = *self / rhs;
    }
}

impl<T: RealNumber> PartialEq for Complex<T> {
    fn eq(&self, other: &Complex<T>) -> (r: bool) {
        proof {
            T::operators_are_total();
        }
        self.re == other.re && self.im == other.im
    }
}

impl<T: RealNumber> vstd::std_specs::cmp::PartialEqSpecImpl for Complex<T> {
    open spec fn obeys_eq_spec() -> bool {
        true
    }

    open spec fn eq_spec(&self, other: &Complex<T>) -> bool {
        self.re.eq_spec(&other.re) && self.im.eq_spec(&other.im)
    }
}

impl<T: RealNumber> PartialOrd for Complex<T> {
    fn partial_cmp(&self, other: &Complex<T>) -> (r: Option<Ordering>) {
        if self.is_above(other) {
            Some(Ordering::Greater)
        } else if self.is_below(other) {
            Some(Ordering::Less)
        } else if self == other {
            Some(Ordering::Equal)
        } else {
            None
        }
    }

    fn gt(&self, other: &Complex<T>) -> (r: bool) {
        self.is_above(other)
    }

    fn lt(&self, other: &Complex<T>) -> (r: bool) {
        self.is_below(other)
    }
}

impl<T: RealNumber> vstd::std_specs::cmp::PartialOrdSpecImpl for Complex<T> {
    open spec fn obeys_partial_cmp_spec() -> bool {
        true
    }

    open spec fn partial_cmp_spec(&self, other: &Complex<T>) -> Option<Ordering> {
        if self.above(*other) {
            Some(Ordering::Greater)
        } else if self.below(*other) {
            Some(Ordering::Less)
        } else if self.eq_spec(other) {
            Some(Ordering::Equal)
        } else {
            None
        }
    }
}

/// Over a real field in which division is multiplication by the inverse, a
/// complex number whose absolute value is not zero, times its inverse, is
/// one.
pub proof fn lemma_complex_times_inverse_is_one<T: RealNumber>(x: Complex<T>)
    requires
        is_field::<T>(),
        divides_by_inverse::<T>(),
        x.norm_spec() != T::zero_spec(),
    ensures
        x.mul_spec(x.inverse_spec()) == Complex::<T>::one_spec(),
{
    let a = x.re;
    let b = x.im;
    let n = x.norm_spec();
    let i = n.inverse_spec();
    let inverse = x.inverse_spec();
    assert(inverse.re == a.mul_spec(i));
    assert(inverse.im == b.neg_spec().mul_spec(i));
    let product = x.mul_spec(inverse);
    // The real part: a * (a * i) - b * ((-b) * i) == (a * a + b * b) * i
    lemma_mul_assoc(a, a, i);
    lemma_mul_assoc(b, b.neg_spec(), i);
    lemma_mul_negated(b, b);
    lemma_mul_negated(i, b.mul_spec(b));
    lemma_mul_comm(b.mul_spec(b), i);
    let bbi = b.mul_spec(b).mul_spec(i);
    assert(b.mul_spec(inverse.im) == bbi.neg_spec());
    lemma_sub_is_add_neg(a.mul_spec(inverse.re), b.mul_spec(inverse.im));
    lemma_mul_negated(bbi, bbi);
    lemma_distributive(i, a.mul_spec(a), b.mul_spec(b));
    lemma_mul_comm(a.mul_spec(a), i);
    lemma_mul_comm(n, i);
    lemma_mul_inverse(n);
    assert(product.re == T::one_spec());
    // The imaginary part: a * ((-b) * i) + b * (a * i) == (-(a * b) + a * b) * i
    lemma_mul_assoc(a, b.neg_spec(), i);
    lemma_mul_assoc(b, a, i);
    lemma_mul_negated(a, b);
    lemma_mul_comm(b, a);
    let ab = a.mul_spec(b);
    lemma_distributive(i, ab.neg_spec(), ab);
    lemma_mul_comm(ab.neg_spec(), i);
    lemma_mul_comm(ab, i);
    lemma_add_neg(ab);
    lemma_mul_zero(i);
    assert(product.im == T::zero_spec());
}

/// Over a real field in which division is multiplication by the inverse,
/// the inverse of the inverse of a complex number whose absolute value is
/// not zero is the number.
pub proof fn lemma_complex_inverse_of_inverse<T: RealNumber>(x: Complex<T>)
    requires
        is_field::<T>(),
        divides_by_inverse::<T>(),
        x.norm_spec() != T::zero_spec(),
    ensures
        x.inverse_spec().inverse_spec() == x,
{
    let a = x.re;
    let b = x.im;
    let n = x.norm_spec();
    let i = n.inverse_spec();
    let y = x.inverse_spec();
    let u = a.mul_spec(i);
    let w = b.mul_spec(i);
    assert(y.re == u);
    lemma_mul_negated(i, b);
    lemma_mul_comm(i, b);
    assert(y.im == w.neg_spec());
    // The square of the absolute value of the inverse is the inverse of `n`.
    lemma_mul_negated(w, w);
    lemma_mul_negated(w.neg_spec(), w);
    lemma_mul_negated(w.mul_spec(w), w);
    assert(y.im.mul_spec(y.im) == w.mul_spec(w));
    lemma_mul_interchange(a, i, a, i);
    lemma_mul_interchange(b, i, b, i);
    let ii = i.mul_spec(i);
    lemma_distributive(ii, a.mul_spec(a), b.mul_spec(b));
    lemma_mul_comm(a.mul_spec(a), ii);
    lemma_mul_comm(b.mul_spec(b), ii);
    lemma_mul_comm(n, ii);
    lemma_mul_assoc(n, i, i);
    lemma_mul_inverse(n);
    lemma_mul_one(i);
    assert(y.norm_spec() == i);
    // Dividing by it is multiplying by `n`.
    lemma_inverse_of_inverse(n);
    assert(y.inverse_spec().re == u.mul_spec(n));
    assert(y.inverse_spec().im == w.mul_spec(n));
    lemma_mul_assoc(a, i, n);
    lemma_mul_assoc(b, i, n);
    lemma_mul_one(a);
    lemma_mul_one(b);
}

} // verus!
