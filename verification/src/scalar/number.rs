//! The scalar contract: a type with the four arithmetic operators, negation,
//! an equality test and a comparison, each described by a specification
//! function of the same shape.

use std::cmp::Ordering;
use std::fmt::Debug;
use std::ops::{Add, Div, Mul, Neg, Sub};
use vstd::prelude::*;
use vstd::std_specs::cmp::{PartialEqSpec, PartialOrdSpec};
use vstd::std_specs::ops::{AddSpec, DivSpec, MulSpec, NegSpec, SubSpec};

verus! {

/// A scalar that the matrix algorithms can compute with.
///
/// Every operation is total: it returns a value for every operand. What that
/// value is, the specification functions say; whether it is a meaningful
/// number, `valid` says. The algorithms never ask: a caller who cares about
/// overflow or undefined results checks what goes in and what comes out.
///
/// The laws of a field are no part of this contract, since machine numbers
/// do not obey them. What the algorithms achieve over a field is proved
/// under the hypothesis `is_field` of the module `field`.
///
/// The specification items are for the verifier only and are never run. An
/// implementation that is not verified, such as one for floating-point
/// numbers, still has to name them, with bodies that are never reached.
pub trait Number: Copy
    + Debug
    + Add<Output = Self>
    + Sub<Output = Self>
    + Mul<Output = Self>
    + Div<Output = Self>
    + Neg<Output = Self>
    + PartialEq
    + PartialOrd
{
    /// The additive identity.
    spec fn zero_spec() -> Self;

    /// The multiplicative identity.
    spec fn one_spec() -> Self;

    /// The multiplicative inverse. What it is at zero is up to the type.
    spec fn inverse_spec(self) -> Self;

    /// Whether the value stands for a number at all.
    spec fn valid_spec(self) -> bool;

    /// The additive identity.
    fn zero() -> (r: Self)
        ensures
            r == Self::zero_spec(),
    ;

    /// The multiplicative identity.
    fn one() -> (r: Self)
        ensures
            r == Self::one_spec(),
    ;

    /// The multiplicative inverse. The inverse of zero is up to the type;
    /// the caller guards against it.
    fn inverse(self) -> (r: Self)
        ensures
            r == self.inverse_spec(),
    ;

    /// Whether the value stands for a number: false for what is not finite
    /// or not defined.
    fn valid(self) -> (r: bool)
        ensures
            r == self.valid_spec(),
    ;

    /// The operators of the type do what their specification functions say,
    /// on every operand.
    proof fn operators_are_total()
        ensures
            Self::obeys_add_spec(),
            Self::obeys_sub_spec(),
            Self::obeys_mul_spec(),
            Self::obeys_div_spec(),
            Self::obeys_neg_spec(),
            Self::obeys_eq_spec(),
            Self::obeys_partial_cmp_spec(),
            forall|a: Self, b: Self| #[trigger] a.add_req(b),
            forall|a: Self, b: Self| #[trigger] a.sub_req(b),
            forall|a: Self, b: Self| #[trigger] a.mul_req(b),
            forall|a: Self, b: Self| #[trigger] a.div_req(b),
            forall|a: Self| #[trigger] a.neg_req(),
    ;
}

/// `a > b`, as the comparison of the type sees it.
pub open spec fn greater<T: Number>(a: T, b: T) -> bool {
    a.partial_cmp_spec(&b) == Some(Ordering::Greater)
}

/// `a < b`, as the comparison of the type sees it.
pub open spec fn less<T: Number>(a: T, b: T) -> bool {
    a.partial_cmp_spec(&b) == Some(Ordering::Less)
}

/// A scalar that can be raised to a power of its own type.
pub trait RealNumber: Number {
    /// `self` to the power `other`.
    spec fn power_spec(self, other: Self) -> Self;

    /// `self` to the power `other`.
    fn power(self, other: Self) -> (r: Self)
        ensures
            r == self.power_spec(other),
    ;
}

} // verus!
