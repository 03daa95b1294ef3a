//! Sums of matrices.

use crate::linalg::matrix::matrix::{grid, lemma_cell_index, lemma_len_fits, Matrix};
use crate::linalg::vector::util::non_zeroed_vec;
use crate::linalg::vector::vector_add::vector_sum;
use crate::scalar::number::Number;
use std::ops::Add;
use vstd::prelude::*;
use vstd::std_specs::ops::AddSpec;

verus! {

/// The sum of two matrices of one shape, entry by entry.
pub open spec fn matrix_sum<T: Number>(a: Seq<Seq<T>>, b: Seq<Seq<T>>) -> Seq<Seq<T>> {
    Seq::new(a.len(), |r: int| vector_sum(a[r], b[r], a[r].len() as int))
}

/// The sum of the flat storages of two matrices of one shape is the flat
/// storage of their sum.
pub proof fn lemma_grid_of_sum<T: Number>(a: Seq<T>, b: Seq<T>, rows: int, cols: int)
    requires
        0 <= rows,
        0 <= cols,
    ensures
        grid(vector_sum(a, b, rows * cols), rows, cols) == matrix_sum(
            grid(a, rows, cols),
            grid(b, rows, cols),
        ),
{
    let left = grid(vector_sum(a, b, rows * cols), rows, cols);
    let right = matrix_sum(grid(a, rows, cols), grid(b, rows, cols));
    assert forall|r: int, c: int| 0 <= r < rows && 0 <= c < cols implies left[r][c]
        == right[r][c] by {
        lemma_cell_index(rows, cols, r, c);
    }
    assert(left =~~= right);
}

impl<T: Number> Matrix<T> {
    /// Adds `other`, a matrix of the same shape, to the matrix.
    pub fn add(&mut self, other: &Matrix<T>)
        requires
            old(self).wf(),
            other.wf(),
            old(self).rows == other.rows,
            old(self).cols == other.cols,
        ensures
            final(self)@ == matrix_sum(old(self)@, other@),
            final(self).rows == old(self).rows,
            final(self).cols == old(self).cols,
            final(self).wf(),
    {
        proof {
            lemma_len_fits(&self.data);
            lemma_grid_of_sum(self.data@, other.data@, self.rows as int, self.cols as int);
        }
        let size = self.size();
        self.u_add(other, size);
        assert(self.data@ =~= vector_sum(old(self).data@, other.data@, size as int));
    }

    /// Adds the first `size` entries of `other` to those of the matrix; both
    /// are known to have as many.
    pub fn u_add(&mut self, other: &Matrix<T>, size: usize)
        requires
            size <= old(self).data@.len(),
            size <= other.data@.len(),
        ensures
            final(self).data@ == vector_sum(old(self).data@, other.data@, size as int) + old(
                self,
            ).data@.skip(size as int),
            final(self).rows == old(self).rows,
            final(self).cols == old(self).cols,
    {
        for i in 0..size
            invariant
                size <= self.data@.len(),
                size <= other.data@.len(),
                self.rows == old(self).rows,
                self.cols == old(self).cols,
                self.data@.len() == old(self).data@.len(),
                forall|j: int|
                    0 <= j < i ==> #[trigger] self.data@[j] == old(self).data@[j].add_spec(
                        other.data@[j],
                    ),
                forall|j: int|
                    i <= j < self.data@.len() ==> #[trigger] self.data@[j] == old(self).data@[j],
        {
            proof {
                T::operators_are_total();
            }
            let sum = *self.get(i) + *other.get(i);
            *self.get_mut(i) = sum;
        }
        assert(self.data@ =~= vector_sum(old(self).data@, other.data@, size as int) + old(
            self,
        ).data@.skip(size as int));
    }
}

/// The sum of two matrices of one shape.
pub fn gen_matrix_add<T: Number>(a: &Matrix<T>, b: &Matrix<T>) -> (sum: Matrix<T>)
    requires
        a.wf(),
        b.wf(),
        a.rows == b.rows,
        a.cols == b.cols,
    ensures
        sum@ == matrix_sum(a@, b@),
        sum.rows == a.rows,
        sum.cols == a.cols,
        sum.wf(),
{
    proof {
        lemma_len_fits(&a.data);
        lemma_grid_of_sum(a.data@, b.data@, a.rows as int, a.cols as int);
    }
    let size = a.size();
    u_gen_matrix_add(a, b, size)
}

/// The sum of the first `size` entries of two matrices that are known to
/// have as many, in the shape of the first.
pub fn u_gen_matrix_add<T: Number>(a: &Matrix<T>, b: &Matrix<T>, size: usize) -> (sum: Matrix<T>)
    requires
        size <= a.data@.len(),
        size <= b.data@.len(),
    ensures
        sum.data@ == vector_sum(a.data@, b.data@, size as int),
        sum.rows == a.rows,
        sum.cols == a.cols,
{
    let mut des = Matrix { rows: a.rows, cols: a.cols, data: non_zeroed_vec(size) };
    u_gen_matrix_iadd(a, b, &mut des, size);
    assert(des.data@ =~= vector_sum(a.data@, b.data@, size as int));
    des
}

/// Writes the sum of two matrices to `des`; all three have one shape.
pub fn gen_matrix_iadd<T: Number>(a: &Matrix<T>, b: &Matrix<T>, des: &mut Matrix<T>)
    requires
        a.wf(),
        b.wf(),
        old(des).wf(),
        a.rows == b.rows,
        a.cols == b.cols,
        a.rows == old(des).rows,
        a.cols == old(des).cols,
    ensures
        final(des)@ == matrix_sum(a@, b@),
        final(des).rows == old(des).rows,
        final(des).cols == old(des).cols,
        final(des).wf(),
{
    proof {
        lemma_len_fits(&a.data);
        lemma_grid_of_sum(a.data@, b.data@, a.rows as int, a.cols as int);
    }
    u_gen_matrix_iadd(a, b, des, a.size());
    assert(des.data@ =~= vector_sum(a.data@, b.data@, a.data@.len() as int));
}

/// Writes the sum of the first `size` entries of two matrices to those of
/// `des`; all three are known to have as many.
pub fn u_gen_matrix_iadd<T: Number>(a: &Matrix<T>, b: &Matrix<T>, des: &mut Matrix<T>, size: usize)
    requires
        size <= a.data@.len(),
        size <= b.data@.len(),
        size <= old(des).data@.len(),
    ensures
        final(des).data@ == vector_sum(a.data@, b.data@, size as int) + old(des).data@.skip(
            size as int,
        ),
        final(des).rows == old(des).rows,
        final(des).cols == old(des).cols,
{
    for i in 0..size
        invariant
            size <= a.data@.len(),
            size <= b.data@.len(),
            size <= des.data@.len(),
            des.rows == old(des).rows,
            des.cols == old(des).cols,
            des.data@.len() == old(des).data@.len(),
            forall|j: int|
                0 <= j < i ==> #[trigger] des.data@[j] == a.data@[j].add_spec(b.data@[j]),
            forall|j: int|
                i <= j < des.data@.len() ==> #[trigger] des.data@[j] == old(des).data@[j],
    {
        proof {
            T::operators_are_total();
        }
        *des.get_mut(i) = *a.get(i) + *b.get(i);
    }
    assert(des.data@ =~= vector_sum(a.data@, b.data@, size as int) + old(des).data@.skip(
        size as int,
    ));
}

impl<T: Number> Add for &Matrix<T> {
    type Output = Matrix<T>;

    /// The sum of two matrices of one shape.
    fn add(self, rhs: &Matrix<T>) -> (sum: Matrix<T>)
        ensures
            sum@ == matrix_sum(self@, rhs@),
            sum.rows == self.rows,
            sum.cols == self.cols,
            sum.wf(),
    {
        gen_matrix_add(self, rhs)
    }
}

/// The operator asks for two well-formed matrices of one shape. Its result
/// is described by the contract of `add` itself: a matrix is more than its
/// entries, so no specification function names it.
impl<T: Number> vstd::std_specs::ops::AddSpecImpl for &Matrix<T> {
    open spec fn obeys_add_spec() -> bool {
        false
    }

    open spec fn add_req(self, rhs: &Matrix<T>) -> bool {
        &&& self.wf()
        &&& rhs.wf()
        &&& self.rows == rhs.rows
        &&& self.cols == rhs.cols
    }

    open spec fn add_spec(self, rhs: &Matrix<T>) -> Matrix<T> {
        arbitrary()
    }
}

} // verus!
