//! Row reduction in place: row echelon form and reduced row echelon form.
//!
//! Both reductions go through the columns from the left. In each column they
//! look for a pivot from the current row down: the greatest entry, the first
//! of equals. Entries are compared as they are, not by magnitude. Where the
//! pivot is zero the column is passed over; otherwise its row is moved up to
//! the current row and taken off the other rows, so that they become zero in
//! the column. The module `reduction` says this as functions on the rows.

use crate::linalg::matrix::matrix::Matrix;
use crate::linalg::matrix::pivots::{
    echelon_pivots, lemma_echelon_form_zeros_below_pivots, lemma_reduced_form_pivot_columns,
    pivot_columns_are_unit, reduced_pivots, zeros_below_pivots,
};
use crate::linalg::matrix::reduction::{
    clear_below_upto, clear_others_upto, echelon_form, echelon_from, echelon_step, eliminate_row,
    eliminate_row_upto, is_matrix, multiplier, pivot_scan, reduced_form, reduced_from,
    reduced_step, scale_row, scale_row_upto,
};
use crate::linalg::matrix::reduced_shape::{
    is_reduced, lemma_reduced_form_idempotent, lemma_reduced_form_is_reduced, regular,
};
use crate::scalar::field::{is_field, is_linear_order, zero_not_above_one};
use crate::scalar::number::{greater, Number};
use vstd::prelude::*;

verus! {

impl<T: Number> Matrix<T> {
    /// Looks down column `col` from row `start_row` for the pivot: the first
    /// entry that no later entry is greater than. Returns its row and value.
    fn find_pivot(&self, start_row: usize, col: usize) -> (found: (usize, T))
        requires
            self.wf(),
            start_row < self.rows,
            col < self.cols,
        ensures
            found.0 == pivot_scan(self@, col as int, start_row as int, self.rows as int),
            start_row <= found.0 < self.rows,
            found.1 == self@[found.0 as int][col as int],
    {
        let rows = self.rows;
        let mut max_index = start_row;
        let mut max_val = *self.get_loc(start_row, col);
        for row in start_row + 1..rows
            invariant
                self.wf(),
                rows == self.rows,
                start_row < rows,
                col < self.cols,
                start_row <= max_index < rows,
                max_index == pivot_scan(self@, col as int, start_row as int, row as int),
                max_val == self@[max_index as int][col as int],
        {
            proof {
                T::operators_are_total();
            }
            let test_val = *self.get_loc(row, col);
            if test_val > max_val {
                max_index = row;
                max_val = test_val;
            }
        }
        (max_index, max_val)
    }

    /// Takes the pivot row off row `row`, so that its entry in the pivot
    /// column `col` becomes zero. `pivot_val` is the pivot.
    fn eliminate(&mut self, row: usize, pivot_row: usize, col: usize, pivot_val: T)
        requires
            old(self).wf(),
            row < old(self).rows,
            pivot_row < old(self).rows,
            row != pivot_row,
            col < old(self).cols,
            pivot_val == old(self)@[pivot_row as int][col as int],
        ensures
            final(self)@ == old(self)@.update(
                row as int,
                eliminate_row(old(self)@[row as int], old(self)@[pivot_row as int], col as int),
            ),
            final(self).rows == old(self).rows,
            final(self).cols == old(self).cols,
            final(self).wf(),
    {
        proof {
            T::operators_are_total();
        }
        let cols = self.cols;
        let ghost before = self@;
        let mult_value = *self.get_loc(row, col) * pivot_val.inverse();
        *self.get_mut_loc(row, col) = T::zero();
        assert(self@[row as int] =~= eliminate_row_upto(
            before[row as int],
            before[pivot_row as int],
            col as int,
            col + 1,
        ));
        for c in col + 1..cols
            invariant
                self.wf(),
                self.rows == old(self).rows,
                self.cols == old(self).cols,
                cols == self.cols,
                row < self.rows,
                pivot_row < self.rows,
                row != pivot_row,
                col < cols,
                before == old(self)@,
                mult_value == multiplier(before[row as int], before[pivot_row as int], col as int),
                self@ == before.update(
                    row as int,
                    eliminate_row_upto(
                        before[row as int],
                        before[pivot_row as int],
                        col as int,
                        c as int,
                    ),
                ),
        {
            proof {
                T::operators_are_total();
            }
            let sub_val = mult_value * *self.get_loc(pivot_row, c);
            let entry = *self.get_loc(row, c);
            *self.get_mut_loc(row, c) = entry - sub_val;
            assert(self@[row as int] =~= eliminate_row_upto(
                before[row as int],
                before[pivot_row as int],
                col as int,
                c + 1,
            ));
        }
    }

    /// Divides the pivot row `row` by its pivot `pivot_val` in column `col`.
    fn normalize(&mut self, row: usize, col: usize, pivot_val: T)
        requires
            old(self).wf(),
            row < old(self).rows,
            col < old(self).cols,
            pivot_val == old(self)@[row as int][col as int],
        ensures
            final(self)@ == old(self)@.update(
                row as int,
                scale_row(old(self)@[row as int], col as int),
            ),
            final(self).rows == old(self).rows,
            final(self).cols == old(self).cols,
            final(self).wf(),
    {
        let cols = self.cols;
        let ghost before = self@;
        *self.get_mut_loc(row, col) = T::one();
        let mult_value = pivot_val.inverse();
        assert(self@[row as int] =~= scale_row_upto(before[row as int], col as int, col + 1));
        for c in col + 1..cols
            invariant
                self.wf(),
                self.rows == old(self).rows,
                self.cols == old(self).cols,
                cols == self.cols,
                row < self.rows,
                col < cols,
                before == old(self)@,
                mult_value == before[row as int][col as int].inverse_spec(),
                self@ == before.update(
                    row as int,
                    scale_row_upto(before[row as int], col as int, c as int),
                ),
        {
            proof {
                T::operators_are_total();
            }
            let entry = *self.get_loc(row, c);
            *self.get_mut_loc(row, c) = entry * mult_value;
            assert(self@[row as int] =~= scale_row_upto(before[row as int], col as int, c + 1));
        }
    }

    /// Brings the matrix to row echelon form: the rows below each pivot are
    /// cleared in the pivot's column.
    pub fn row_echelon_form(&mut self)
        requires
            old(self).wf(),
        ensures
            final(self)@ == echelon_form(old(self)@, old(self).cols as int),
            zeros_below_pivots(
                final(self)@,
                echelon_pivots(old(self)@, old(self).cols as int),
            ),
            final(self).rows == old(self).rows,
            final(self).cols == old(self).cols,
            final(self).wf(),
    {
        let rows = self.rows;
        let cols = self.cols;
        self.u_row_echelon_form(rows, cols);
    }

    /// Brings to row echelon form a matrix that is known to be well formed
    /// and to have `rows` rows and `cols` columns.
    pub fn u_row_echelon_form(&mut self, rows: usize, cols: usize)
        requires
            old(self).wf(),
            rows == old(self).rows,
            cols == old(self).cols,
        ensures
            final(self)@ == echelon_form(old(self)@, cols as int),
            zeros_below_pivots(final(self)@, echelon_pivots(old(self)@, cols as int)),
            final(self).rows == old(self).rows,
            final(self).cols == old(self).cols,
            final(self).wf(),
    {
        proof {
            lemma_echelon_form_zeros_below_pivots(old(self)@, rows as int, cols as int);
        }
        let mut start_col: usize = 0;
        let mut start_row: usize = 0;
        while start_row + 1 < rows && start_col < cols
            invariant
                self.wf(),
                rows == self.rows,
                cols == self.cols,
                self.rows == old(self).rows,
                self.cols == old(self).cols,
                start_row == 0 || start_row < rows,
                start_col <= cols,
                echelon_from(self@, cols as int, start_row as int, start_col as int)
                    == echelon_form(old(self)@, cols as int),
            decreases cols - start_col,
        {
            proof {
                T::operators_are_total();
            }
            let ghost at_entry = self@;
            let (max_index, max_val) = self.find_pivot(start_row, start_col);
            if max_val != T::zero() {
                self.u_swap_rows(max_index, start_row, cols);
                let ghost swapped = self@;
                for row in start_row + 1..rows
                    invariant
                        self.wf(),
                        rows == self.rows,
                        cols == self.cols,
                        self.rows == old(self).rows,
                        self.cols == old(self).cols,
                        start_row < rows,
                        start_col < cols,
                        is_matrix(swapped, rows as int, cols as int),
                        max_val == swapped[start_row as int][start_col as int],
                        self@ == clear_below_upto(
                            swapped,
                            start_row as int,
                            start_col as int,
                            row as int,
                        ),
                {
                    self.eliminate(row, start_row, start_col, max_val);
                    assert(self@ =~= clear_below_upto(
                        swapped,
                        start_row as int,
                        start_col as int,
                        row + 1,
                    ));
                }
                assert(self@ == echelon_step(at_entry, start_row as int, start_col as int));
                start_row += 1;
            }
            start_col += 1;
        }
    }

    /// Brings the matrix to reduced row echelon form: all rows but the
    /// pivot's are cleared in the pivot's column, and the pivot row is divided
    /// by the pivot. Over a field with a linear order, reducing again changes
    /// nothing; over a field and where no column is passed over that holds an
    /// entry that is not zero, the result is in reduced row echelon form.
    pub fn reduced_row_echelon_form(&mut self)
        requires
            old(self).wf(),
        ensures
            final(self)@ == reduced_form(old(self)@, old(self).cols as int),
            pivot_columns_are_unit(
                final(self)@,
                reduced_pivots(old(self)@, old(self).cols as int),
            ),
            is_field::<T>() && is_linear_order::<T>() && zero_not_above_one::<T>() ==> reduced_form(
                final(self)@,
                old(self).cols as int,
            ) == final(self)@,
            is_field::<T>() && regular(old(self)@, old(self).cols as int) ==> is_reduced(
                final(self)@,
                old(self).rows as int,
                old(self).cols as int,
            ),
            final(self).rows == old(self).rows,
            final(self).cols == old(self).cols,
            final(self).wf(),
    {
        let rows = self.rows;
        let cols = self.cols;
        self.u_reduced_row_echelon_form(rows, cols);
    }

    /// Brings to reduced row echelon form a matrix that is known to be well
    /// formed and to have `rows` rows and `cols` columns.
    pub fn u_reduced_row_echelon_form(&mut self, rows: usize, cols: usize)
        requires
            old(self).wf(),
            rows == old(self).rows,
            cols == old(self).cols,
        ensures
            final(self)@ == reduced_form(old(self)@, cols as int),
            pivot_columns_are_unit(final(self)@, reduced_pivots(old(self)@, cols as int)),
            is_field::<T>() && is_linear_order::<T>() && zero_not_above_one::<T>() ==> reduced_form(
                final(self)@,
                cols as int,
            ) == final(self)@,
            is_field::<T>() && regular(old(self)@, cols as int) ==> is_reduced(
                final(self)@,
                rows as int,
                cols as int,
            ),
            final(self).rows == old(self).rows,
            final(self).cols == old(self).cols,
            final(self).wf(),
    {
        proof {
            lemma_reduced_form_pivot_columns(old(self)@, rows as int, cols as int);
            if is_field::<T>() && is_linear_order::<T>() && zero_not_above_one::<T>() {
                lemma_reduced_form_idempotent(old(self)@, rows as int, cols as int);
            }
            if is_field::<T>() && regular(old(self)@, cols as int) {
                lemma_reduced_form_is_reduced(old(self)@, rows as int, cols as int);
            }
        }
        let mut start_col: usize = 0;
        let mut start_row: usize = 0;
        while start_row < rows && start_col < cols
            invariant
                self.wf(),
                rows == self.rows,
                cols == self.cols,
                self.rows == old(self).rows,
                self.cols == old(self).cols,
                start_row <= rows,
                start_col <= cols,
                reduced_from(self@, cols as int, start_row as int, start_col as int)
                    == reduced_form(old(self)@, cols as int),
            decreases cols - start_col,
        {
            proof {
                T::operators_are_total();
            }
            let ghost at_entry = self@;
            let (max_index, max_val) = self.find_pivot(start_row, start_col);
            if max_val != T::zero() {
                self.u_swap_rows(max_index, start_row, cols);
                let ghost swapped = self@;
                for row in 0..rows
                    invariant
                        self.wf(),
                        rows == self.rows,
                        cols == self.cols,
                        self.rows == old(self).rows,
                        self.cols == old(self).cols,
                        start_row < rows,
                        start_col < cols,
                        is_matrix(swapped, rows as int, cols as int),
                        max_val == swapped[start_row as int][start_col as int],
                        self@ == clear_others_upto(
                            swapped,
                            start_row as int,
                            start_col as int,
                            row as int,
                        ),
                {
                    if row != start_row {
                        self.eliminate(row, start_row, start_col, max_val);
                    }
                    assert(self@ =~= clear_others_upto(
                        swapped,
                        start_row as int,
                        start_col as int,
                        row + 1,
                    ));
                }
                self.normalize(start_row, start_col, max_val);
                assert(self@ == reduced_step(at_entry, start_row as int, start_col as int));
                start_row += 1;
            }
            start_col += 1;
        }
    }
}

} // verus!
