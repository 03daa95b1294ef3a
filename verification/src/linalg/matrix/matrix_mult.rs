//! Products of matrices.

use crate::linalg::matrix::matrix::{grid, lemma_cell_index, lemma_len_fits, Matrix};
use crate::linalg::vector::dot::{dot, dot_upto, strided_dot_upto};
use crate::linalg::vector::util::non_zeroed_vec;
use crate::linalg::vector::vector_dot::u_gen_vector_sdot;
use crate::scalar::number::Number;
use std::ops::Mul;
use vstd::prelude::*;
use vstd::slice::slice_subrange;

verus! {

/// Column `j` of a matrix.
pub open spec fn column<T>(b: Seq<Seq<T>>, j: int) -> Seq<T> {
    Seq::new(b.len(), |k: int| b[k][j])
}

/// The product of a matrix `a` with a matrix `b` of `p` columns and as many
/// rows as `a` has columns: the dot products of the rows of `a` with the
/// columns of `b`.
pub open spec fn matrix_product<T: Number>(a: Seq<Seq<T>>, b: Seq<Seq<T>>, p: int) -> Seq<Seq<T>> {
    Seq::new(a.len(), |i: int| Seq::new(p as nat, |j: int| dot(a[i], column(b, j))))
}

/// Entry `i` of the flat storage of the product of two matrices, given by
/// their flat storages: `a` with `n` columns, `b` with `n` rows and `p`
/// columns.
pub open spec fn product_entry<T: Number>(a: Seq<T>, b: Seq<T>, n: int, p: int, i: int) -> T {
    strided_dot_upto(a.skip((i / p) * n), b.skip(i % p), 1, p, n)
}

/// The first `count` entries of the flat storage of a product.
pub open spec fn product_entries<T: Number>(a: Seq<T>, b: Seq<T>, n: int, p: int, count: int) -> Seq<
    T,
> {
    Seq::new(count as nat, |i: int| product_entry(a, b, n, p, i))
}

/// Row `r` of the first factor starts at `r * n` and ends within the first
/// `m * n` entries.
pub proof fn lemma_row_in_range(m: int, n: int, r: int)
    requires
        0 <= r < m,
        0 <= n,
    ensures
        0 <= r * n,
        r * n + n <= m * n,
{
    assert(0 <= r * n && r * n + n <= m * n) by (nonlinear_arith)
        requires
            0 <= r,
            r + 1 <= m,
            0 <= n,
    ;
}

/// Place `i` of an `m` by `p` matrix lies in row `i / p`, below `m`, and in
/// column `i % p`, below `p`.
pub proof fn lemma_place_to_cell(m: int, p: int, i: int)
    requires
        0 <= i < m * p,
        0 <= m,
        0 <= p,
    ensures
        p > 0,
        0 <= i / p < m,
        0 <= i % p < p,
        i == (i / p) * p + i % p,
{
    assert(p > 0) by (nonlinear_arith)
        requires
            0 <= i < m * p,
            0 <= m,
            0 <= p,
    ;
    vstd::arithmetic::div_mod::lemma_fundamental_div_mod(i, p);
    vstd::arithmetic::div_mod::lemma_mod_bound(i, p);
    assert(0 <= i / p < m) by (nonlinear_arith)
        requires
            0 <= i < m * p,
            p > 0,
            i == p * (i / p) + i % p,
            0 <= i % p < p,
    ;
    assert(p * (i / p) == (i / p) * p) by (nonlinear_arith);
}

/// The strided sum over the flat storages is the dot product of a row of
/// the first factor with a column of the second.
pub proof fn lemma_strided_is_row_by_column<T: Number>(
    a: Seq<T>,
    b: Seq<T>,
    m: int,
    n: int,
    p: int,
    r: int,
    c: int,
    k: int,
)
    requires
        0 <= r < m,
        0 <= c < p,
        0 <= k <= n,
        m * n <= a.len(),
        n * p <= b.len(),
    ensures
        strided_dot_upto(a.skip(r * n), b.skip(c), 1, p, k) == dot_upto(
            grid(a, m, n)[r],
            column(grid(b, n, p), c),
            k,
        ),
    decreases k,
{
    if k > 0 {
        lemma_strided_is_row_by_column(a, b, m, n, p, r, c, k - 1);
        lemma_cell_index(m, n, r, k - 1);
        lemma_cell_index(n, p, k - 1, c);
        assert(a.skip(r * n)[(k - 1) * 1] == a[r * n + (k - 1)]);
        assert(b.skip(c)[(k - 1) * p] == b[(k - 1) * p + c]);
    }
}

/// The flat storage of a product, laid out in rows, is the product of the
/// matrices.
pub proof fn lemma_grid_of_product<T: Number>(a: Seq<T>, b: Seq<T>, m: int, n: int, p: int)
    requires
        0 <= m,
        0 <= n,
        0 <= p,
        m * n == a.len(),
        n * p == b.len(),
    ensures
        grid(product_entries(a, b, n, p, m * p), m, p) == matrix_product(
            grid(a, m, n),
            grid(b, n, p),
            p,
        ),
{
    let left = grid(product_entries(a, b, n, p, m * p), m, p);
    let right = matrix_product(grid(a, m, n), grid(b, n, p), p);
    assert forall|r: int, c: int| 0 <= r < m && 0 <= c < p implies left[r][c] == right[r][c] by {
        lemma_cell_index(m, p, r, c);
        lemma_strided_is_row_by_column(a, b, m, n, p, r, c, n);
    }
    assert(left =~~= right);
}

/// The product of two matrices, the first with as many columns as the
/// second has rows. The number of its entries is a machine word.
pub fn gen_matrix_mult<T: Number>(a: &Matrix<T>, b: &Matrix<T>) -> (product: Matrix<T>)
    requires
        a.wf(),
        b.wf(),
        a.cols == b.rows,
        a.rows * b.cols <= usize::MAX,
    ensures
        product@ == matrix_product(a@, b@, b.cols as int),
        product.rows == a.rows,
        product.cols == b.cols,
        product.wf(),
{
    proof {
        lemma_grid_of_product(a.data@, b.data@, a.rows as int, a.cols as int, b.cols as int);
    }
    u_gen_matrix_mult(a, b, a.rows, a.cols, b.cols)
}

/// The product of two matrices that are known to hold `m` by `n` and `n` by
/// `p` entries, with `m * p` a machine word. The result has the rows of `a`
/// and the columns of `b`.
pub fn u_gen_matrix_mult<T: Number>(a: &Matrix<T>, b: &Matrix<T>, m: usize, n: usize, p: usize) -> (product:
    Matrix<T>)
    requires
        m * n <= a.data@.len(),
        n * p <= b.data@.len(),
        m * p <= usize::MAX,
    ensures
        product.data@ == product_entries(a.data@, b.data@, n as int, p as int, m * p),
        product.rows == a.rows,
        product.cols == b.cols,
{
    let mut des = Matrix { rows: a.rows, cols: b.cols, data: non_zeroed_vec(m * p) };
    u_gen_matrix_imult(a, b, &mut des, m, n, p);
    assert(des.data@ =~= product_entries(a.data@, b.data@, n as int, p as int, m * p));
    des
}

/// Writes the product of two matrices to `des`, which has the rows of `a`
/// and the columns of `b`; `a` has as many columns as `b` has rows.
pub fn gen_matrix_imult<T: Number>(a: &Matrix<T>, b: &Matrix<T>, des: &mut Matrix<T>)
    requires
        a.wf(),
        b.wf(),
        old(des).wf(),
        a.cols == b.rows,
        a.rows == old(des).rows,
        b.cols == old(des).cols,
    ensures
        final(des)@ == matrix_product(a@, b@, b.cols as int),
        final(des).rows == old(des).rows,
        final(des).cols == old(des).cols,
        final(des).wf(),
{
    proof {
        lemma_grid_of_product(a.data@, b.data@, a.rows as int, a.cols as int, b.cols as int);
    }
    u_gen_matrix_imult(a, b, des, a.rows, a.cols, b.cols);
    assert(des.data@ =~= product_entries(
        a.data@,
        b.data@,
        a.cols as int,
        b.cols as int,
        a.rows * b.cols,
    ));
}

/// Writes the product of two matrices that are known to hold `m` by `n` and
/// `n` by `p` entries to the first `m * p` entries of `des`, which is known
/// to have as many.
pub fn u_gen_matrix_imult<T: Number>(
    a: &Matrix<T>,
    b: &Matrix<T>,
    des: &mut Matrix<T>,
    m: usize,
    n: usize,
    p: usize,
)
    requires
        m * n <= a.data@.len(),
        n * p <= b.data@.len(),
        m * p <= old(des).data@.len(),
    ensures
        final(des).data@ == product_entries(a.data@, b.data@, n as int, p as int, m * p) + old(
            des,
        ).data@.skip(m * p),
        final(des).rows == old(des).rows,
        final(des).cols == old(des).cols,
{
    proof {
        lemma_len_fits(&des.data);
        lemma_len_fits(&a.data);
        lemma_len_fits(&b.data);
    }
    let total = m * p;
    for i in 0..total
        invariant
            total == m * p,
            m * n <= a.data@.len(),
            n * p <= b.data@.len(),
            m * p <= des.data@.len(),
            a.data@.len() <= usize::MAX,
            b.data@.len() <= usize::MAX,
            des.rows == old(des).rows,
            des.cols == old(des).cols,
            des.data@.len() == old(des).data@.len(),
            forall|j: int|
                0 <= j < i ==> #[trigger] des.data@[j] == product_entry(
                    a.data@,
                    b.data@,
                    n as int,
                    p as int,
                    j,
                ),
            forall|j: int|
                i <= j < des.data@.len() ==> #[trigger] des.data@[j] == old(des).data@[j],
    {
        proof {
            lemma_place_to_cell(m as int, p as int, i as int);
            lemma_row_in_range(m as int, n as int, i as int / p as int);
            lemma_row_in_range(n as int + 1, p as int, n as int);
            if n > 0 {
                lemma_row_in_range(n as int, p as int, n - 1);
            }
        }
        let row_start = (i / p) * n;
        let a_row = slice_subrange(a.data.as_slice(), row_start, a.data.len());
        // A matrix without rows has no column to start in.
        let b_column = if n == 0 {
            b.data.as_slice()
        } else {
            slice_subrange(b.data.as_slice(), i % p, b.data.len())
        };
        proof {
            assert(a_row@ =~= a.data@.skip(row_start as int));
            if n != 0 {
                assert(b_column@ =~= b.data@.skip(i as int % p as int));
            }
        }
        let entry = u_gen_vector_sdot(a_row, b_column, 1, p, n);
        *des.get_mut(i) = entry;
    }
    assert(des.data@ =~= product_entries(a.data@, b.data@, n as int, p as int, m * p) + old(
        des,
    ).data@.skip(m * p));
}

impl<T: Number> Mul for &Matrix<T> {
    type Output = Matrix<T>;

    /// The product of two matrices, the first with as many columns as the
    /// second has rows.
    fn mul(self, rhs: &Matrix<T>) -> (product: Matrix<T>)
        ensures
            product@ == matrix_product(self@, rhs@, rhs.cols as int),
            product.rows == self.rows,
            product.cols == rhs.cols,
            product.wf(),
    {
        gen_matrix_mult(self, rhs)
    }
}

/// The operator asks for two well-formed matrices that fit each other and
/// whose product has a machine word of entries. Its result is described by
/// the contract of `mul` itself: a matrix is more than its entries, so no
/// specification function names it.
impl<T: Number> vstd::std_specs::ops::MulSpecImpl for &Matrix<T> {
    open spec fn obeys_mul_spec() -> bool {
        false
    }

    open spec fn mul_req(self, rhs: &Matrix<T>) -> bool {
        &&& self.wf()
        &&& rhs.wf()
        &&& self.cols == rhs.rows
        &&& self.rows * rhs.cols <= usize::MAX
    }

    open spec fn mul_spec(self, rhs: &Matrix<T>) -> Matrix<T> {
        arbitrary()
    }
}

} // verus!
