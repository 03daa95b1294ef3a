//! Differences of vectors.

use crate::linalg::vector::util::non_zeroed_vec;
use crate::scalar::number::Number;
use vstd::prelude::*;
use vstd::std_specs::ops::SubSpec;

verus! {

/// The differences of the first `n` entries of `a` and `b`, entry by entry.
pub open spec fn vector_difference<T: Number>(a: Seq<T>, b: Seq<T>, n: int) -> Seq<T> {
    Seq::new(n as nat, |i: int| a[i].sub_spec(b[i]))
}

/// The difference of two vectors of one length.
pub fn gen_vector_sub<T: Number>(a: &[T], b: &[T]) -> (difference: Vec<T>)
    requires
        a@.len() == b@.len(),
    ensures
        difference@ == vector_difference(a@, b@, a@.len() as int),
{
    u_gen_vector_sub(a, b, a.len())
}

/// The difference of the first `size` entries of two vectors that are known
/// to have as many.
pub fn u_gen_vector_sub<T: Number>(a: &[T], b: &[T], size: usize) -> (difference: Vec<T>)
    requires
        size <= a@.len(),
        size <= b@.len(),
    ensures
        difference@ == vector_difference(a@, b@, size as int),
{
    let mut v = non_zeroed_vec(size);
    u_gen_vector_isub(a, b, v.as_mut_slice(), size);
    assert(v@ =~= vector_difference(a@, b@, size as int));
    v
}

/// Writes the difference of two vectors of one length to `des`, which has
/// that length too.
pub fn gen_vector_isub<T: Number>(a: &[T], b: &[T], des: &mut [T])
    requires
        a@.len() == b@.len(),
        a@.len() == old(des)@.len(),
    ensures
        final(des)@ == vector_difference(a@, b@, a@.len() as int),
{
    u_gen_vector_isub(a, b, des, a.len());
    assert(des@ =~= vector_difference(a@, b@, a@.len() as int));
}

/// Writes the difference of the first `size` entries of two vectors to the
/// first `size` entries of `des`; all three are known to have as many.
pub fn u_gen_vector_isub<T: Number>(a: &[T], b: &[T], des: &mut [T], size: usize)
    requires
        size <= a@.len(),
        size <= b@.len(),
        size <= old(des)@.len(),
    ensures
        final(des)@ == vector_difference(a@, b@, size as int) + old(des)@.skip(size as int),
{
    for i in 0..size
        invariant
            size <= a@.len(),
            size <= b@.len(),
            size <= des@.len(),
            des@.len() == old(des)@.len(),
            forall|j: int| 0 <= j < i ==> #[trigger] des@[j] == a@[j].sub_spec(b@[j]),
            forall|j: int| i <= j < des@.len() ==> #[trigger] des@[j] == old(des)@[j],
    {
        proof {
            T::operators_are_total();
        }
        des[i] = a[i] - b[i];
    }
    assert(des@ =~= vector_difference(a@, b@, size as int) + old(des)@.skip(size as int));
}

} // verus!
