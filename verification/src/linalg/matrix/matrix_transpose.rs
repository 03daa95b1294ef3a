//! The transpose of a matrix.

use crate::linalg::matrix::matrix::{grid, lemma_cell_index, lemma_len_fits, Matrix};
use crate::linalg::matrix::matrix_mult::{column, lemma_place_to_cell};
use crate::linalg::vector::util::non_zeroed_vec;
use crate::scalar::number::Number;
use vstd::prelude::*;

verus! {

/// The transpose of a matrix with `cols` columns: its rows are the columns
/// of the matrix.
pub open spec fn transposed<T>(a: Seq<Seq<T>>, cols: int) -> Seq<Seq<T>> {
    Seq::new(cols as nat, |j: int| column(a, j))
}

/// The first `count` entries of the flat storage of the transpose of a
/// matrix with `rows` rows.
pub open spec fn transposed_entries<T>(a: Seq<Seq<T>>, rows: int, count: int) -> Seq<T> {
    Seq::new(count as nat, |i: int| a[i % rows][i / rows])
}

/// The flat storage of the transpose, laid out in rows, is the transpose.
pub proof fn lemma_grid_of_transposed<T>(a: Seq<Seq<T>>, rows: int, cols: int)
    requires
        0 <= rows,
        0 <= cols,
        a.len() == rows,
    ensures
        grid(transposed_entries(a, rows, cols * rows), cols, rows) == transposed(a, cols),
{
    let left = grid(transposed_entries(a, rows, cols * rows), cols, rows);
    let right = transposed(a, cols);
    assert forall|j: int, i: int| 0 <= j < cols && 0 <= i < rows implies left[j][i]
        == right[j][i] by {
        lemma_cell_index(cols, rows, j, i);
    }
    assert(left =~~= right);
}

impl<T: Number> Matrix<T> {
    /// Turns the matrix into its transpose.
    pub fn transpose(&mut self)
        requires
            old(self).wf(),
        ensures
            final(self)@ == transposed(old(self)@, old(self).cols as int),
            final(self).rows == old(self).cols,
            final(self).cols == old(self).rows,
            final(self).wf(),
    {
        proof {
            lemma_len_fits(&self.data);
            lemma_grid_of_transposed(self@, self.rows as int, self.cols as int);
            assert(self.cols * self.rows == self.rows * self.cols) by (nonlinear_arith);
        }
        let size = self.size();
        self.u_transpose(size);
    }

    /// Turns into its transpose a matrix that is known to be well formed and
    /// to have `size` entries.
    pub fn u_transpose(&mut self, size: usize)
        requires
            old(self).wf(),
            size == old(self).data@.len(),
        ensures
            final(self).data@ == transposed_entries(
                old(self)@,
                old(self).rows as int,
                size as int,
            ),
            final(self).rows == old(self).cols,
            final(self).cols == old(self).rows,
    {
        let turned = u_gen_matrix_transpose(self, size);
        *self = turned;
    }
}

/// The transpose of a matrix.
pub fn gen_matrix_transpose<T: Number>(a: &Matrix<T>) -> (transpose: Matrix<T>)
    requires
        a.wf(),
    ensures
        transpose@ == transposed(a@, a.cols as int),
        transpose.rows == a.cols,
        transpose.cols == a.rows,
        transpose.wf(),
{
    proof {
        lemma_len_fits(&a.data);
        lemma_grid_of_transposed(a@, a.rows as int, a.cols as int);
        assert(a.cols * a.rows == a.rows * a.cols) by (nonlinear_arith);
    }
    let size = a.size();
    u_gen_matrix_transpose(a, size)
}

/// The first `size` entries of the transpose of a well-formed matrix that
/// is known to have as many, in the shape of the transpose.
pub fn u_gen_matrix_transpose<T: Number>(a: &Matrix<T>, size: usize) -> (transpose: Matrix<T>)
    requires
        a.wf(),
        size <= a.data@.len(),
    ensures
        transpose.data@ == transposed_entries(a@, a.rows as int, size as int),
        transpose.rows == a.cols,
        transpose.cols == a.rows,
{
    let mut des = Matrix { rows: a.cols, cols: a.rows, data: non_zeroed_vec(size) };
    u_gen_matrix_itranspose(a, &mut des, size);
    assert(des.data@ =~= transposed_entries(a@, a.rows as int, size as int));
    des
}

/// Writes the transpose of a matrix to `des`, which has its shape turned.
pub fn gen_matrix_itranspose<T: Number>(a: &Matrix<T>, des: &mut Matrix<T>)
    requires
        a.wf(),
        old(des).wf(),
        a.rows == old(des).cols,
        a.cols == old(des).rows,
    ensures
        final(des)@ == transposed(a@, a.cols as int),
        final(des).rows == old(des).rows,
        final(des).cols == old(des).cols,
        final(des).wf(),
{
    proof {
        lemma_len_fits(&a.data);
        lemma_grid_of_transposed(a@, a.rows as int, a.cols as int);
        assert(a.cols * a.rows == a.rows * a.cols) by (nonlinear_arith);
    }
    u_gen_matrix_itranspose(a, des, a.size());
    assert(des.data@ =~= transposed_entries(a@, a.rows as int, a.cols * a.rows));
}

/// Writes the first `size` entries of the transpose of a well-formed matrix
/// to those of `des`, which is known to have as many, and as many columns as
/// the matrix has rows.
pub fn u_gen_matrix_itranspose<T: Number>(a: &Matrix<T>, des: &mut Matrix<T>, size: usize)
    requires
        a.wf(),
        a.rows == old(des).cols,
        size <= a.data@.len(),
        size <= old(des).data@.len(),
    ensures
        final(des).data@ == transposed_entries(a@, a.rows as int, size as int) + old(
            des,
        ).data@.skip(size as int),
        final(des).rows == old(des).rows,
        final(des).cols == old(des).cols,
{
    for i in 0..size
        invariant
            a.wf(),
            a.rows == des.cols,
            size <= a.data@.len(),
            size <= des.data@.len(),
            des.rows == old(des).rows,
            des.cols == old(des).cols,
            des.data@.len() == old(des).data@.len(),
            forall|j: int|
                0 <= j < i ==> #[trigger] des.data@[j] == a@[j % a.rows as int][j / a.rows as int],
            forall|j: int|
                i <= j < des.data@.len() ==> #[trigger] des.data@[j] == old(des).data@[j],
    {
        proof {
            assert(a.cols * a.rows == a.rows * a.cols) by (nonlinear_arith);
            lemma_place_to_cell(a.cols as int, a.rows as int, i as int);
        }
        let loc = des.index_to_location(i);
        *des.get_mut(i) = *a.get_loc(loc.1, loc.0);
    }
    assert(des.data@ =~= transposed_entries(a@, a.rows as int, size as int) + old(
        des,
    ).data@.skip(size as int));
}

} // verus!
