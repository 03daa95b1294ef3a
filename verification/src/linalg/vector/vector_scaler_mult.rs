//! Multiples of vectors.

use crate::linalg::vector::util::non_zeroed_vec;
use crate::scalar::number::Number;
use vstd::prelude::*;
use vstd::std_specs::ops::MulSpec;

verus! {

/// The first `n` entries of `v`, each multiplied by `a` from the left.
pub open spec fn vector_multiple<T: Number>(a: T, v: Seq<T>, n: int) -> Seq<T> {
    Seq::new(n as nat, |i: int| a.mul_spec(v[i]))
}

/// The vector `v` times the scalar `a`.
pub fn gen_vector_scaler_mult<T: Number>(a: T, v: &[T]) -> (multiple: Vec<T>)
    ensures
        multiple@ == vector_multiple(a, v@, v@.len() as int),
{
    u_gen_vector_scaler_mult(a, v, v.len())
}

/// The first `size` entries of a vector that is known to have as many, times
/// the scalar `a`.
pub fn u_gen_vector_scaler_mult<T: Number>(a: T, v: &[T], size: usize) -> (multiple: Vec<T>)
    requires
        size <= v@.len(),
    ensures
        multiple@ == vector_multiple(a, v@, size as int),
{
    let mut des = non_zeroed_vec(size);
    u_gen_vector_scaler_imult(a, v, des.as_mut_slice(), size);
    assert(des@ =~= vector_multiple(a, v@, size as int));
    des
}

/// Writes the vector `v` times the scalar `a` to `des`, which has the length
/// of `v`.
pub fn gen_vector_scaler_imult<T: Number>(a: T, v: &[T], des: &mut [T])
    requires
        v@.len() == old(des)@.len(),
    ensures
        final(des)@ == vector_multiple(a, v@, v@.len() as int),
{
    u_gen_vector_scaler_imult(a, v, des, v.len());
    assert(des@ =~= vector_multiple(a, v@, v@.len() as int));
}

/// Writes the first `size` entries of `v`, times the scalar `a`, to the
/// first `size` entries of `des`; both are known to have as many.
pub fn u_gen_vector_scaler_imult<T: Number>(a: T, v: &[T], des: &mut [T], size: usize)
    requires
        size <= v@.len(),
        size <= old(des)@.len(),
    ensures
        final(des)@ == vector_multiple(a, v@, size as int) + old(des)@.skip(size as int),
{
    for i in 0..size
        invariant
            size <= v@.len(),
            size <= des@.len(),
            des@.len() == old(des)@.len(),
            forall|j: int| 0 <= j < i ==> #[trigger] des@[j] == a.mul_spec(v@[j]),
            forall|j: int| i <= j < des@.len() ==> #[trigger] des@[j] == old(des)@[j],
    {
        proof {
            T::operators_are_total();
        }
        des[i] = a * v[i];
    }
    assert(des@ =~= vector_multiple(a, v@, size as int) + old(des)@.skip(size as int));
}

} // verus!
