//! The dot product as a sum from the left, and how it behaves over a field.

use crate::scalar::field::{
    is_field, lemma_add_comm, lemma_add_interchange, lemma_add_zero, lemma_distributive,
    lemma_mul_assoc, lemma_mul_zero,
};
use crate::scalar::number::Number;
use vstd::prelude::*;
use vstd::std_specs::ops::{AddSpec, MulSpec};

verus! {

/// The sum of the products `a[i] * b[i]` for `i` below `n`, added up from the
/// left, starting with zero.
pub open spec fn dot_upto<T: Number>(a: Seq<T>, b: Seq<T>, n: int) -> T
    decreases n,
{
    if n <= 0 {
        T::zero_spec()
    } else {
        dot_upto(a, b, n - 1).add_spec(a[n - 1].mul_spec(b[n - 1]))
    }
}

/// The dot product of `a` with a vector `b` that is at least as long.
pub open spec fn dot<T: Number>(a: Seq<T>, b: Seq<T>) -> T {
    dot_upto(a, b, a.len() as int)
}

/// The sum of the products `a[i * a_stride] * b[i * b_stride]` for `i` below
/// `n`, added up from the left, starting with zero.
pub open spec fn strided_dot_upto<T: Number>(
    a: Seq<T>,
    b: Seq<T>,
    a_stride: int,
    b_stride: int,
    n: int,
) -> T
    decreases n,
{
    if n <= 0 {
        T::zero_spec()
    } else {
        strided_dot_upto(a, b, a_stride, b_stride, n - 1).add_spec(
            a[(n - 1) * a_stride].mul_spec(b[(n - 1) * b_stride]),
        )
    }
}

/// The product of a matrix, given by its rows, with a vector: the dot
/// product of each row with it.
pub open spec fn mat_vec<T: Number>(m: Seq<Seq<T>>, x: Seq<T>) -> Seq<T> {
    Seq::new(m.len(), |r: int| dot(m[r], x))
}

/// The sum depends on the first `n` entries of each vector only.
pub proof fn lemma_dot_upto_prefix<T: Number>(a: Seq<T>, b: Seq<T>, a2: Seq<T>, b2: Seq<T>, n: int)
    requires
        forall|i: int| 0 <= i < n ==> a[i] == a2[i] && b[i] == b2[i],
    ensures
        dot_upto(a, b, n) == dot_upto(a2, b2, n),
    decreases n,
{
    if n > 0 {
        lemma_dot_upto_prefix(a, b, a2, b2, n - 1);
    }
}

/// Over a field, if `r` is `u + m * w` entry by entry, then `r . y` is
/// `u . y + m * (w . y)`.
pub proof fn lemma_dot_upto_combination<T: Number>(
    r: Seq<T>,
    u: Seq<T>,
    m: T,
    w: Seq<T>,
    y: Seq<T>,
    n: int,
)
    requires
        is_field::<T>(),
        forall|j: int| 0 <= j < n ==> r[j] == u[j].add_spec(m.mul_spec(w[j])),
    ensures
        dot_upto(r, y, n) == dot_upto(u, y, n).add_spec(m.mul_spec(dot_upto(w, y, n))),
    decreases n,
{
    if n <= 0 {
        lemma_mul_zero(m);
        lemma_add_zero(T::zero_spec());
    } else {
        lemma_dot_upto_combination(r, u, m, w, y, n - 1);
        let su = dot_upto(u, y, n - 1);
        let sw = dot_upto(w, y, n - 1);
        let un = u[n - 1];
        let wn = w[n - 1];
        let yn = y[n - 1];
        // (un + m * wn) * yn == un * yn + m * (wn * yn)
        lemma_distributive(yn, un, m.mul_spec(wn));
        lemma_mul_assoc(m, wn, yn);
        // m * (sw + wn * yn) == m * sw + m * (wn * yn)
        lemma_distributive(m, sw, wn.mul_spec(yn));
        lemma_add_interchange(su, m.mul_spec(sw), un.mul_spec(yn), m.mul_spec(wn.mul_spec(yn)));
    }
}

/// Over a field, if `r` is `m * w` entry by entry, then `r . y` is
/// `m * (w . y)`.
pub proof fn lemma_dot_upto_scaled<T: Number>(r: Seq<T>, m: T, w: Seq<T>, y: Seq<T>, n: int)
    requires
        is_field::<T>(),
        forall|j: int| 0 <= j < n ==> r[j] == m.mul_spec(w[j]),
    ensures
        dot_upto(r, y, n) == m.mul_spec(dot_upto(w, y, n)),
    decreases n,
{
    if n <= 0 {
        lemma_mul_zero(m);
    } else {
        lemma_dot_upto_scaled(r, m, w, y, n - 1);
        lemma_mul_assoc(m, w[n - 1], y[n - 1]);
        lemma_distributive(m, dot_upto(w, y, n - 1), w[n - 1].mul_spec(y[n - 1]));
    }
}

/// Over a field, a sum of products that are all zero is zero.
pub proof fn lemma_dot_upto_no_term<T: Number>(a: Seq<T>, b: Seq<T>, n: int)
    requires
        is_field::<T>(),
        forall|j: int| 0 <= j < n ==> a[j].mul_spec(b[j]) == T::zero_spec(),
    ensures
        dot_upto(a, b, n) == T::zero_spec(),
    decreases n,
{
    if n > 0 {
        lemma_dot_upto_no_term(a, b, n - 1);
        lemma_add_zero(T::zero_spec());
    }
}

/// Over a field, a sum of products of which only the one at `c0` may differ
/// from zero is that product.
pub proof fn lemma_dot_upto_one_term<T: Number>(a: Seq<T>, b: Seq<T>, n: int, c0: int)
    requires
        is_field::<T>(),
        0 <= c0 < n,
        forall|j: int| 0 <= j < n && j != c0 ==> a[j].mul_spec(b[j]) == T::zero_spec(),
    ensures
        dot_upto(a, b, n) == a[c0].mul_spec(b[c0]),
    decreases n,
{
    if n - 1 == c0 {
        lemma_dot_upto_no_term(a, b, n - 1);
        lemma_add_zero(a[c0].mul_spec(b[c0]));
    } else {
        lemma_dot_upto_one_term(a, b, n - 1, c0);
        lemma_add_zero(a[c0].mul_spec(b[c0]));
    }
}

/// Over a field, a sum of products of which only those at `c0` and `c1` may
/// differ from zero is the sum of these two.
pub proof fn lemma_dot_upto_two_terms<T: Number>(a: Seq<T>, b: Seq<T>, n: int, c0: int, c1: int)
    requires
        is_field::<T>(),
        0 <= c0 < n,
        0 <= c1 < n,
        c0 != c1,
        forall|j: int| 0 <= j < n && j != c0 && j != c1 ==> a[j].mul_spec(b[j]) == T::zero_spec(),
    ensures
        dot_upto(a, b, n) == a[c0].mul_spec(b[c0]).add_spec(a[c1].mul_spec(b[c1])),
    decreases n,
{
    let t0 = a[c0].mul_spec(b[c0]);
    let t1 = a[c1].mul_spec(b[c1]);
    if n - 1 == c0 {
        lemma_dot_upto_one_term(a, b, n - 1, c1);
        lemma_add_comm(t0, t1);
    } else if n - 1 == c1 {
        lemma_dot_upto_one_term(a, b, n - 1, c0);
    } else {
        lemma_dot_upto_two_terms(a, b, n - 1, c0, c1);
        lemma_add_zero(t0.add_spec(t1));
    }
}

} // verus!
