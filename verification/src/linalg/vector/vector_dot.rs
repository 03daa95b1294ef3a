//! Dot products.

use crate::linalg::vector::dot::{dot, dot_upto, strided_dot_upto};
use crate::linalg::vector::util::lemma_slice_len_fits;
use crate::scalar::number::Number;
use vstd::prelude::*;

verus! {

/// The dot product of two vectors of one length.
pub fn gen_vector_dot<T: Number>(a: &[T], b: &[T]) -> (product: T)
    requires
        a@.len() == b@.len(),
    ensures
        product == dot(a@, b@),
{
    u_gen_vector_dot(a, b, a.len())
}

/// The dot product of the first `size` entries of two vectors that are known
/// to have as many.
pub fn u_gen_vector_dot<T: Number>(a: &[T], b: &[T], size: usize) -> (product: T)
    requires
        size <= a@.len(),
        size <= b@.len(),
    ensures
        product == dot_upto(a@, b@, size as int),
{
    let mut acc = T::zero();
    for i in 0..size
        invariant
            size <= a@.len(),
            size <= b@.len(),
            acc == dot_upto(a@, b@, i as int),
    {
        proof {
            T::operators_are_total();
        }
        acc = acc + (a[i] * b[i]);
    }
    acc
}

/// The places `0`, `stride`, `2 * stride`, ... below `count * stride` lie in
/// a vector of at least `count * stride` entries, minus what follows the
/// last of them.
pub proof fn lemma_stride_in_range(i: int, count: int, stride: int, len: int)
    requires
        0 <= i < count,
        0 <= stride,
        (count - 1) * stride < len,
    ensures
        0 <= i * stride < len,
{
    assert(0 <= i * stride <= (count - 1) * stride) by (nonlinear_arith)
        requires
            0 <= i <= count - 1,
            0 <= stride,
    ;
}

/// The dot product of every `a_stride`-th entry of `a` with every
/// `b_stride`-th entry of `b`, which has as many of them.
pub fn gen_vector_sdot<T: Number>(a: &[T], b: &[T], a_stride: usize, b_stride: usize) -> (product:
    T)
    requires
        a_stride != 0,
        b_stride != 0,
        a@.len() as int / a_stride as int == b@.len() as int / b_stride as int,
    ensures
        product == strided_dot_upto(
            a@,
            b@,
            a_stride as int,
            b_stride as int,
            a@.len() as int / a_stride as int,
        ),
{
    let size = a.len() / a_stride;
    proof {
        let la = a@.len() as int;
        let lb = b@.len() as int;
        let sa = a_stride as int;
        let sb = b_stride as int;
        assert(size > 0 ==> (size - 1) * sa < la) by (nonlinear_arith)
            requires
                size == la / sa,
                sa > 0,
                la >= 0,
        ;
        assert(size > 0 ==> (size - 1) * sb < lb) by (nonlinear_arith)
            requires
                size == lb / sb,
                sb > 0,
                lb >= 0,
        ;
    }
    u_gen_vector_sdot(a, b, a_stride, b_stride, size)
}

/// The dot product of `size` entries of `a`, `a_stride` apart, with `size`
/// entries of `b`, `b_stride` apart; both are known to reach that far.
pub fn u_gen_vector_sdot<T: Number>(
    a: &[T],
    b: &[T],
    a_stride: usize,
    b_stride: usize,
    size: usize,
) -> (product: T)
    requires
        size > 0 ==> (size - 1) * a_stride < a@.len(),
        size > 0 ==> (size - 1) * b_stride < b@.len(),
    ensures
        product == strided_dot_upto(a@, b@, a_stride as int, b_stride as int, size as int),
{
    let mut acc = T::zero();
    for i in 0..size
        invariant
            size > 0 ==> (size - 1) * a_stride < a@.len(),
            size > 0 ==> (size - 1) * b_stride < b@.len(),
            acc == strided_dot_upto(a@, b@, a_stride as int, b_stride as int, i as int),
    {
        proof {
            T::operators_are_total();
            lemma_slice_len_fits(a);
            lemma_slice_len_fits(b);
            lemma_stride_in_range(i as int, size as int, a_stride as int, a@.len() as int);
            lemma_stride_in_range(i as int, size as int, b_stride as int, b@.len() as int);
        }
        acc = acc + (a[i * a_stride] * b[i * b_stride]);
    }
    acc
}

} // verus!
