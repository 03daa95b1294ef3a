//! Matrices to start from.

use crate::linalg::matrix::matrix::{lemma_cell_index, Matrix};
use crate::linalg::vector::util::filled;
use crate::scalar::number::Number;
use vstd::prelude::*;

verus! {

/// The `rows` by `cols` matrix of zeros.
pub open spec fn zero_matrix<T: Number>(rows: int, cols: int) -> Seq<Seq<T>> {
    Seq::new(rows as nat, |r: int| Seq::new(cols as nat, |c: int| T::zero_spec()))
}

/// The identity matrix of `size` rows: one on the diagonal, zero elsewhere.
pub open spec fn identity_matrix<T: Number>(size: int) -> Seq<Seq<T>> {
    Seq::new(
        size as nat,
        |r: int|
            Seq::new(
                size as nat,
                |c: int|
                    if r == c {
                        T::one_spec()
                    } else {
                        T::zero_spec()
                    },
            ),
    )
}

impl<T: Number> Matrix<T> {
    /// The `rows` by `cols` matrix of zeros, whose number of entries is a
    /// machine word.
    pub fn zeroes(rows: usize, cols: usize) -> (m: Self)
        requires
            rows * cols <= usize::MAX,
        ensures
            m@ == zero_matrix::<T>(rows as int, cols as int),
            m.rows == rows,
            m.cols == cols,
            m.wf(),
    {
        let m = Self { rows: rows, cols: cols, data: filled(T::zero(), rows * cols) };
        proof {
            assert forall|r: int, c: int| 0 <= r < rows && 0 <= c < cols implies m@[r][c]
                == T::zero_spec() by {
                lemma_cell_index(rows as int, cols as int, r, c);
            }
            assert(m@ =~~= zero_matrix::<T>(rows as int, cols as int));
        }
        m
    }

    /// The identity matrix of `size` rows, whose number of entries is a
    /// machine word.
    pub fn identity(size: usize) -> (m: Self)
        requires
            size * size <= usize::MAX,
        ensures
            m@ == identity_matrix::<T>(size as int),
            m.rows == size,
            m.cols == size,
            m.wf(),
    {
        let mut m = Self::zeroes(size, size);
        for i in 0..size
            invariant
                m.wf(),
                m.rows == size,
                m.cols == size,
                m@.len() == size,
                forall|r: int| 0 <= r < size ==> (#[trigger] m@[r]).len() == size,
                forall|r: int, c: int|
                    0 <= r < size && 0 <= c < size ==> #[trigger] m@[r][c] == (if r == c && r < i {
                        T::one_spec()
                    } else {
                        T::zero_spec()
                    }),
        {
            *m.get_mut_loc(i, i) = T::one();
        }
        assert(m@ =~~= identity_matrix::<T>(size as int));
        m
    }
}

} // verus!
