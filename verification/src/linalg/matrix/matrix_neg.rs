//! Negation of matrices.

use crate::linalg::matrix::matrix::{grid, lemma_cell_index, lemma_len_fits, Matrix};
use crate::linalg::vector::util::non_zeroed_vec;
use crate::linalg::vector::vector_neg::vector_negation;
use crate::scalar::number::Number;
use std::ops::Neg;
use vstd::prelude::*;
use vstd::std_specs::ops::NegSpec;

verus! {

/// The matrix with each entry negated.
pub open spec fn matrix_negation<T: Number>(a: Seq<Seq<T>>) -> Seq<Seq<T>> {
    Seq::new(a.len(), |r: int| vector_negation(a[r], a[r].len() as int))
}

/// The negated flat storage of a matrix is the flat storage of the negated
/// matrix.
pub proof fn lemma_grid_of_negation<T: Number>(a: Seq<T>, rows: int, cols: int)
    requires
        0 <= rows,
        0 <= cols,
    ensures
        grid(vector_negation(a, rows * cols), rows, cols) == matrix_negation(grid(a, rows, cols)),
{
    let left = grid(vector_negation(a, rows * cols), rows, cols);
    let right = matrix_negation(grid(a, rows, cols));
    assert forall|r: int, c: int| 0 <= r < rows && 0 <= c < cols implies left[r][c]
        == right[r][c] by {
        lemma_cell_index(rows, cols, r, c);
    }
    assert(left =~~= right);
}

impl<T: Number> Matrix<T> {
    /// Negates each entry of the matrix.
    pub fn negate(&mut self)
        requires
            old(self).wf(),
        ensures
            final(self)@ == matrix_negation(old(self)@),
            final(self).rows == old(self).rows,
            final(self).cols == old(self).cols,
            final(self).wf(),
    {
        proof {
            lemma_len_fits(&self.data);
            lemma_grid_of_negation(self.data@, self.rows as int, self.cols as int);
        }
        let size = self.size();
        self.u_negate(size);
        assert(self.data@ =~= vector_negation(old(self).data@, size as int));
    }

    /// Negates the first `size` entries of a matrix that is known to have as
    /// many.
    pub fn u_negate(&mut self, size: usize)
        requires
            size <= old(self).data@.len(),
        ensures
            final(self).data@ == vector_negation(old(self).data@, size as int) + old(
                self,
            ).data@.skip(size as int),
            final(self).rows == old(self).rows,
            final(self).cols == old(self).cols,
    {
        for i in 0..size
            invariant
                size <= self.data@.len(),
                self.rows == old(self).rows,
                self.cols == old(self).cols,
                self.data@.len() == old(self).data@.len(),
                forall|j: int|
                    0 <= j < i ==> #[trigger] self.data@[j] == old(self).data@[j].neg_spec(),
                forall|j: int|
                    i <= j < self.data@.len() ==> #[trigger] self.data@[j] == old(self).data@[j],
        {
            proof {
                T::operators_are_total();
            }
            let negated = self.get(i).neg();
            *self.get_mut(i) = negated;
        }
        assert(self.data@ =~= vector_negation(old(self).data@, size as int) + old(
            self,
        ).data@.skip(size as int));
    }
}

/// The matrix with each entry negated.
pub fn gen_matrix_neg<T: Number>(a: &Matrix<T>) -> (negated: Matrix<T>)
    requires
        a.wf(),
    ensures
        negated@ == matrix_negation(a@),
        negated.rows == a.rows,
        negated.cols == a.cols,
        negated.wf(),
{
    proof {
        lemma_len_fits(&a.data);
        lemma_grid_of_negation(a.data@, a.rows as int, a.cols as int);
    }
    let size = a.size();
    u_gen_matrix_neg(a, size)
}

/// The first `size` entries of a matrix that is known to have as many, each
/// negated, in the shape of the matrix.
pub fn u_gen_matrix_neg<T: Number>(a: &Matrix<T>, size: usize) -> (negated: Matrix<T>)
    requires
        size <= a.data@.len(),
    ensures
        negated.data@ == vector_negation(a.data@, size as int),
        negated.rows == a.rows,
        negated.cols == a.cols,
{
    let mut des = Matrix { rows: a.rows, cols: a.cols, data: non_zeroed_vec(size) };
    u_gen_matrix_ineg(a, &mut des, size);
    assert(des.data@ =~= vector_negation(a.data@, size as int));
    des
}

/// Writes the negated entries of a matrix to `des`, which has its shape.
pub fn gen_matrix_ineg<T: Number>(a: &Matrix<T>, des: &mut Matrix<T>)
    requires
        a.wf(),
        old(des).wf(),
        a.rows == old(des).rows,
        a.cols == old(des).cols,
    ensures
        final(des)@ == matrix_negation(a@),
        final(des).rows == old(des).rows,
        final(des).cols == old(des).cols,
        final(des).wf(),
{
    proof {
        lemma_len_fits(&a.data);
        lemma_grid_of_negation(a.data@, a.rows as int, a.cols as int);
    }
    u_gen_matrix_ineg(a, des, a.size());
    assert(des.data@ =~= vector_negation(a.data@, a.data@.len() as int));
}

/// Writes the first `size` entries of a matrix, each negated, to those of
/// `des`; both are known to have as many.
pub fn u_gen_matrix_ineg<T: Number>(a: &Matrix<T>, des: &mut Matrix<T>, size: usize)
    requires
        size <= a.data@.len(),
        size <= old(des).data@.len(),
    ensures
        final(des).data@ == vector_negation(a.data@, size as int) + old(des).data@.skip(
            size as int,
        ),
        final(des).rows == old(des).rows,
        final(des).cols == old(des).cols,
{
    for i in 0..size
        invariant
            size <= a.data@.len(),
            size <= des.data@.len(),
            des.rows == old(des).rows,
            des.cols == old(des).cols,
            des.data@.len() == old(des).data@.len(),
            forall|j: int| 0 <= j < i ==> #[trigger] des.data@[j] == a.data@[j].neg_spec(),
            forall|j: int|
                i <= j < des.data@.len() ==> #[trigger] des.data@[j] == old(des).data@[j],
    {
        proof {
            T::operators_are_total();
        }
        *des.get_mut(i) = a.get(i).neg();
    }
    assert(des.data@ =~= vector_negation(a.data@, size as int) + old(des).data@.skip(
        size as int,
    ));
}

impl<T: Number> Neg for &Matrix<T> {
    type Output = Matrix<T>;

    /// The matrix with each entry negated.
    fn neg(self) -> (negated: Matrix<T>)
        ensures
            negated@ == matrix_negation(self@),
            negated.rows == self.rows,
            negated.cols == self.cols,
            negated.wf(),
    {
        gen_matrix_neg(self)
    }
}

/// The operator asks for a well-formed matrix. Its result is described by
/// the contract of `neg` itself: a matrix is more than its entries, so no
/// specification function names it.
impl<T: Number> vstd::std_specs::ops::NegSpecImpl for &Matrix<T> {
    open spec fn obeys_neg_spec() -> bool {
        false
    }

    open spec fn neg_req(self) -> bool {
        self.wf()
    }

    open spec fn neg_spec(self) -> Matrix<T> {
        arbitrary()
    }
}

} // verus!
