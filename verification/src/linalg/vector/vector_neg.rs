//! Negation of vectors.

use crate::linalg::vector::util::non_zeroed_vec;
use crate::scalar::number::Number;
use std::ops::Neg;
use vstd::prelude::*;
use vstd::std_specs::ops::NegSpec;

verus! {

/// The first `n` entries of `a`, each negated.
pub open spec fn vector_negation<T: Number>(a: Seq<T>, n: int) -> Seq<T> {
    Seq::new(n as nat, |i: int| a[i].neg_spec())
}

/// The vector with each entry negated.
pub fn gen_vector_neg<T: Number>(a: &[T]) -> (negated: Vec<T>)
    ensures
        negated@ == vector_negation(a@, a@.len() as int),
{
    u_gen_vector_neg(a, a.len())
}

/// The first `size` entries of a vector that is known to have as many, each
/// negated.
pub fn u_gen_vector_neg<T: Number>(a: &[T], size: usize) -> (negated: Vec<T>)
    requires
        size <= a@.len(),
    ensures
        negated@ == vector_negation(a@, size as int),
{
    let mut v = non_zeroed_vec(size);
    u_gen_vector_ineg(a, v.as_mut_slice(), size);
    assert(v@ =~= vector_negation(a@, size as int));
    v
}

/// Writes the negated entries of a vector to `des`, which has its length.
pub fn gen_vector_ineg<T: Number>(a: &[T], des: &mut [T])
    requires
        a@.len() == old(des)@.len(),
    ensures
        final(des)@ == vector_negation(a@, a@.len() as int),
{
    u_gen_vector_ineg(a, des, a.len());
    assert(des@ =~= vector_negation(a@, a@.len() as int));
}

/// Writes the first `size` entries of a vector, each negated, to the first
/// `size` entries of `des`; both are known to have as many.
pub fn u_gen_vector_ineg<T: Number>(a: &[T], des: &mut [T], size: usize)
    requires
        size <= a@.len(),
        size <= old(des)@.len(),
    ensures
        final(des)@ == vector_negation(a@, size as int) + old(des)@.skip(size as int),
{
    for i in 0..size
        invariant
            size <= a@.len(),
            size <= des@.len(),
            des@.len() == old(des)@.len(),
            forall|j: int| 0 <= j < i ==> #[trigger] des@[j] == a@[j].neg_spec(),
            forall|j: int| i <= j < des@.len() ==> #[trigger] des@[j] == old(des)@[j],
    {
        proof {
            T::operators_are_total();
        }
        des[i] = a[i].neg();
    }
    assert(des@ =~= vector_negation(a@, size as int) + old(des)@.skip(size as int));
}

} // verus!
