//! Scalars that form a field, and what follows from the field laws.
//!
//! Machine numbers are no field: they overflow or round. The laws are
//! therefore no part of `Number`. They are a hypothesis, `is_field`, under
//! which the algebraic facts about the matrix algorithms are proved.

use crate::scalar::number::{greater, Number};
use vstd::prelude::*;
use vstd::std_specs::cmp::PartialEqSpec;
use vstd::std_specs::ops::{AddSpec, DivSpec, MulSpec, NegSpec, SubSpec};

verus! {

/// The operations of `T` obey the laws of a field, and the equality test of
/// `T` tells whether two values are the same.
#[verifier::opaque]
pub open spec fn is_field<T: Number>() -> bool {
    &&& forall|a: T, b: T| #[trigger] a.eq_spec(&b) <==> a == b
    &&& forall|a: T, b: T| #[trigger] a.add_spec(b) == b.add_spec(a)
    &&& forall|a: T, b: T, c: T| #[trigger]
        a.add_spec(b).add_spec(c) == a.add_spec(b.add_spec(c))
    &&& forall|a: T| #[trigger] a.add_spec(T::zero_spec()) == a
    &&& forall|a: T| a.add_spec(#[trigger] a.neg_spec()) == T::zero_spec()
    &&& forall|a: T, b: T| #[trigger] a.sub_spec(b) == a.add_spec(b.neg_spec())
    &&& forall|a: T, b: T| #[trigger] a.mul_spec(b) == b.mul_spec(a)
    &&& forall|a: T, b: T, c: T| #[trigger]
        a.mul_spec(b).mul_spec(c) == a.mul_spec(b.mul_spec(c))
    &&& forall|a: T| #[trigger] a.mul_spec(T::one_spec()) == a
    &&& forall|a: T, b: T, c: T| #[trigger]
        a.mul_spec(b.add_spec(c)) == a.mul_spec(b).add_spec(a.mul_spec(c))
    &&& forall|a: T|
        a != T::zero_spec() ==> a.mul_spec(#[trigger] a.inverse_spec()) == T::one_spec()
    &&& T::zero_spec() != T::one_spec()
}

/// The comparison of `T` is a linear order: no value is greater than
/// itself, greater is transitive, and of two different values one is greater
/// than the other.
#[verifier::opaque]
pub open spec fn is_linear_order<T: Number>() -> bool {
    &&& forall|a: T| !#[trigger] greater(a, a)
    &&& forall|a: T, b: T, c: T|
        #![trigger greater(a, b), greater(b, c)]
        greater(a, b) && greater(b, c) ==> greater(a, c)
    &&& forall|a: T, b: T|
        #![trigger greater(a, b), greater(b, a)]
        !greater(a, b) && !greater(b, a) ==> a == b
}

/// In a linear order no value is greater than itself.
pub proof fn lemma_greater_irreflexive<T: Number>(a: T)
    requires
        is_linear_order::<T>(),
    ensures
        !greater(a, a),
{
    reveal(is_linear_order);
}

/// A linear order is transitive.
pub proof fn lemma_greater_transitive<T: Number>(a: T, b: T, c: T)
    requires
        is_linear_order::<T>(),
        greater(a, b),
        greater(b, c),
    ensures
        greater(a, c),
{
    reveal(is_linear_order);
}

/// In a linear order, two values of which neither is greater are the same.
pub proof fn lemma_neither_greater<T: Number>(a: T, b: T)
    requires
        is_linear_order::<T>(),
        !greater(a, b),
        !greater(b, a),
    ensures
        a == b,
{
    reveal(is_linear_order);
}

/// Division in `T` is multiplication by the inverse.
pub open spec fn divides_by_inverse<T: Number>() -> bool {
    forall|a: T, b: T| #[trigger] a.div_spec(b) == a.mul_spec(b.inverse_spec())
}

/// The comparison of `T` does not put zero above one.
pub open spec fn zero_not_above_one<T: Number>() -> bool {
    !greater(T::zero_spec(), T::one_spec())
}

/// The equality test tells whether two values are the same.
pub proof fn lemma_eq<T: Number>(a: T, b: T)
    requires
        is_field::<T>(),
    ensures
        a.eq_spec(&b) <==> a == b,
{
    reveal(is_field);
}

pub proof fn lemma_add_comm<T: Number>(a: T, b: T)
    requires
        is_field::<T>(),
    ensures
        a.add_spec(b) == b.add_spec(a),
{
    reveal(is_field);
}

pub proof fn lemma_add_assoc<T: Number>(a: T, b: T, c: T)
    requires
        is_field::<T>(),
    ensures
        a.add_spec(b).add_spec(c) == a.add_spec(b.add_spec(c)),
{
    reveal(is_field);
}

pub proof fn lemma_add_zero<T: Number>(a: T)
    requires
        is_field::<T>(),
    ensures
        a.add_spec(T::zero_spec()) == a,
        T::zero_spec().add_spec(a) == a,
{
    reveal(is_field);
}

pub proof fn lemma_add_neg<T: Number>(a: T)
    requires
        is_field::<T>(),
    ensures
        a.add_spec(a.neg_spec()) == T::zero_spec(),
        a.neg_spec().add_spec(a) == T::zero_spec(),
{
    reveal(is_field);
}

pub proof fn lemma_sub_is_add_neg<T: Number>(a: T, b: T)
    requires
        is_field::<T>(),
    ensures
        a.sub_spec(b) == a.add_spec(b.neg_spec()),
{
    reveal(is_field);
}

pub proof fn lemma_mul_comm<T: Number>(a: T, b: T)
    requires
        is_field::<T>(),
    ensures
        a.mul_spec(b) == b.mul_spec(a),
{
    reveal(is_field);
}

pub proof fn lemma_mul_assoc<T: Number>(a: T, b: T, c: T)
    requires
        is_field::<T>(),
    ensures
        a.mul_spec(b).mul_spec(c) == a.mul_spec(b.mul_spec(c)),
{
    reveal(is_field);
}

pub proof fn lemma_mul_one<T: Number>(a: T)
    requires
        is_field::<T>(),
    ensures
        a.mul_spec(T::one_spec()) == a,
        T::one_spec().mul_spec(a) == a,
{
    reveal(is_field);
}

pub proof fn lemma_distributive<T: Number>(a: T, b: T, c: T)
    requires
        is_field::<T>(),
    ensures
        a.mul_spec(b.add_spec(c)) == a.mul_spec(b).add_spec(a.mul_spec(c)),
        b.add_spec(c).mul_spec(a) == b.mul_spec(a).add_spec(c.mul_spec(a)),
{
    reveal(is_field);
}

pub proof fn lemma_mul_inverse<T: Number>(a: T)
    requires
        is_field::<T>(),
        a != T::zero_spec(),
    ensures
        a.mul_spec(a.inverse_spec()) == T::one_spec(),
        a.inverse_spec().mul_spec(a) == T::one_spec(),
{
    reveal(is_field);
}

pub proof fn lemma_zero_is_not_one<T: Number>()
    requires
        is_field::<T>(),
    ensures
        T::zero_spec() != T::one_spec(),
        !T::zero_spec().eq_spec(&T::one_spec()),
        !T::one_spec().eq_spec(&T::zero_spec()),
{
    reveal(is_field);
}

/// A summand on the right can be cancelled.
pub proof fn lemma_add_cancel<T: Number>(a: T, b: T, c: T)
    requires
        is_field::<T>(),
        a.add_spec(c) == b.add_spec(c),
    ensures
        a == b,
{
    lemma_add_assoc(a, c, c.neg_spec());
    lemma_add_assoc(b, c, c.neg_spec());
    lemma_add_neg(c);
    lemma_add_zero(a);
    lemma_add_zero(b);
}

/// A product with zero is zero.
pub proof fn lemma_mul_zero<T: Number>(a: T)
    requires
        is_field::<T>(),
    ensures
        a.mul_spec(T::zero_spec()) == T::zero_spec(),
        T::zero_spec().mul_spec(a) == T::zero_spec(),
{
    let z = T::zero_spec();
    lemma_add_zero(z);
    lemma_distributive(a, z, z);
    lemma_add_zero(a.mul_spec(z));
    lemma_add_cancel(z, a.mul_spec(z), a.mul_spec(z));
    lemma_mul_comm(a, z);
}

/// `(a - b) + b` is `a`.
pub proof fn lemma_sub_then_add<T: Number>(a: T, b: T)
    requires
        is_field::<T>(),
    ensures
        a.sub_spec(b).add_spec(b) == a,
{
    lemma_sub_is_add_neg(a, b);
    lemma_add_assoc(a, b.neg_spec(), b);
    lemma_add_neg(b);
    lemma_add_zero(a);
}

/// `a - a` is zero, and `a - 0` is `a`.
pub proof fn lemma_sub_self<T: Number>(a: T)
    requires
        is_field::<T>(),
    ensures
        a.sub_spec(a) == T::zero_spec(),
        a.sub_spec(T::zero_spec()) == a,
{
    lemma_sub_is_add_neg(a, a);
    lemma_add_neg(a);
    let z = T::zero_spec();
    lemma_sub_is_add_neg(a, z);
    lemma_add_neg(z);
    lemma_add_zero(z.neg_spec());
    lemma_add_zero(a);
}

/// `(a + b) + (c + d)` is `(a + c) + (b + d)`.
pub proof fn lemma_add_interchange<T: Number>(a: T, b: T, c: T, d: T)
    requires
        is_field::<T>(),
    ensures
        a.add_spec(b).add_spec(c.add_spec(d)) == a.add_spec(c).add_spec(b.add_spec(d)),
{
    lemma_add_assoc(a, b, c.add_spec(d));
    lemma_add_assoc(b, c, d);
    lemma_add_comm(b, c);
    lemma_add_assoc(c, b, d);
    lemma_add_assoc(a, c, b.add_spec(d));
}

/// The inverse of one is one.
pub proof fn lemma_inverse_of_one<T: Number>()
    requires
        is_field::<T>(),
    ensures
        T::one_spec().inverse_spec() == T::one_spec(),
{
    lemma_zero_is_not_one::<T>();
    lemma_mul_inverse(T::one_spec());
    lemma_mul_one(T::one_spec().inverse_spec());
}

/// What was multiplied by the inverse of `p` comes back when it is multiplied
/// by `p`.
pub proof fn lemma_mul_inverse_cancels<T: Number>(a: T, p: T)
    requires
        is_field::<T>(),
        p != T::zero_spec(),
    ensures
        a.mul_spec(p.inverse_spec()).mul_spec(p) == a,
        p.mul_spec(p.inverse_spec().mul_spec(a)) == a,
{
    lemma_mul_assoc(a, p.inverse_spec(), p);
    lemma_mul_inverse(p);
    lemma_mul_one(a);
    lemma_mul_assoc(p, p.inverse_spec(), a);
}

/// `a + b * (-1)` is zero only if `a` is `b`.
pub proof fn lemma_difference_zero<T: Number>(a: T, b: T)
    requires
        is_field::<T>(),
        a.add_spec(b.mul_spec(T::one_spec().neg_spec())) == T::zero_spec(),
    ensures
        a == b,
{
    let one = T::one_spec();
    let m = b.mul_spec(one.neg_spec());
    // b + m = b * (1 + (-1)) = 0
    lemma_mul_one(b);
    lemma_distributive(b, one, one.neg_spec());
    lemma_add_neg(one);
    lemma_mul_zero(b);
    assert(b.add_spec(m) == T::zero_spec());
    lemma_add_cancel(a, b, m);
}

/// `a + a * (-1)` is zero.
pub proof fn lemma_add_negated<T: Number>(a: T)
    requires
        is_field::<T>(),
    ensures
        a.add_spec(a.mul_spec(T::one_spec().neg_spec())) == T::zero_spec(),
{
    let one = T::one_spec();
    lemma_mul_one(a);
    lemma_distributive(a, one, one.neg_spec());
    lemma_add_neg(one);
    lemma_mul_zero(a);
}

/// Over a field, the inverse of a value that is not zero is not zero, and
/// its inverse is the value.
pub proof fn lemma_inverse_of_inverse<T: Number>(a: T)
    requires
        is_field::<T>(),
        a != T::zero_spec(),
    ensures
        a.inverse_spec() != T::zero_spec(),
        a.inverse_spec().inverse_spec() == a,
{
    let inv = a.inverse_spec();
    lemma_mul_inverse(a);
    lemma_zero_is_not_one::<T>();
    if inv == T::zero_spec() {
        lemma_mul_zero(a);
    }
    lemma_mul_inverse(inv);
    lemma_mul_assoc(a, inv, inv.inverse_spec());
    lemma_mul_one(a);
    lemma_mul_one(inv.inverse_spec());
}

/// Over a field, what adds up to zero with a value is its negation.
pub proof fn lemma_negation_is_unique<T: Number>(a: T, b: T)
    requires
        is_field::<T>(),
        a.add_spec(b) == T::zero_spec(),
    ensures
        b == a.neg_spec(),
{
    lemma_add_neg(a);
    lemma_add_comm(a, b);
    lemma_add_comm(a, a.neg_spec());
    lemma_add_cancel(b, a.neg_spec(), a);
}

/// Over a field, `a * (-b)` is `-(a * b)`, and `-(-a)` is `a`.
pub proof fn lemma_mul_negated<T: Number>(a: T, b: T)
    requires
        is_field::<T>(),
    ensures
        a.mul_spec(b.neg_spec()) == a.mul_spec(b).neg_spec(),
        b.neg_spec().mul_spec(a) == a.mul_spec(b).neg_spec(),
        a.neg_spec().neg_spec() == a,
{
    lemma_distributive(a, b, b.neg_spec());
    lemma_add_neg(b);
    lemma_mul_zero(a);
    lemma_negation_is_unique(a.mul_spec(b), a.mul_spec(b.neg_spec()));
    lemma_mul_comm(a, b.neg_spec());
    lemma_add_neg(a);
    lemma_negation_is_unique(a.neg_spec(), a);
}

/// Over a field, `(a * b) * (c * d)` is `(a * c) * (b * d)`.
pub proof fn lemma_mul_interchange<T: Number>(a: T, b: T, c: T, d: T)
    requires
        is_field::<T>(),
    ensures
        a.mul_spec(b).mul_spec(c.mul_spec(d)) == a.mul_spec(c).mul_spec(b.mul_spec(d)),
{
    lemma_mul_assoc(a, b, c.mul_spec(d));
    lemma_mul_assoc(b, c, d);
    lemma_mul_comm(b, c);
    lemma_mul_assoc(c, b, d);
    lemma_mul_assoc(a, c, b.mul_spec(d));
}

} // verus!
