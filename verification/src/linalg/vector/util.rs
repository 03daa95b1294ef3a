//! Allocation of vectors.

use crate::scalar::number::Number;
use vstd::prelude::*;

verus! {

/// The vector of `n` zeros.
pub open spec fn zeros<T: Number>(n: nat) -> Seq<T> {
    Seq::new(n, |i: int| T::zero_spec())
}

/// A slice's length is a machine word.
pub proof fn lemma_slice_len_fits<T>(s: &[T])
    ensures
        s@.len() <= usize::MAX,
{
    assert(s.len() == s@.len());
}

/// A vector of `size` entries that are all `value`.
pub fn filled<T: Copy>(value: T, size: usize) -> (v: Vec<T>)
    ensures
        v@ == Seq::new(size as nat, |i: int| value),
{
    let mut v: Vec<T> = Vec::with_capacity(size);
    for i in 0..size
        invariant
            v@ == Seq::new(i as nat, |j: int| value),
    {
        v.push(value);
        assert(v@ =~= Seq::new((i + 1) as nat, |j: int| value));
    }
    v
}

/// A vector of `size` entries for the caller to overwrite. There is no
/// memory that was never written to hand out, so the entries are zero.
pub fn non_zeroed_vec<T: Number>(size: usize) -> (v: Vec<T>)
    ensures
        v@ == zeros::<T>(size as nat),
{
    filled(T::zero(), size)
}

} // verus!
