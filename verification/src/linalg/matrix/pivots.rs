//! The pivots that a reduction makes, and what holds of their columns in
//! the result, whatever the scalars are.

use crate::linalg::matrix::reduction::{
    echelon_form, echelon_from, echelon_step, has_pivot, is_matrix, lemma_pivot_scan_in_range,
    lemma_steps_keep_shape, pivot_scan, reduced_form, reduced_from, reduced_step, swap_rows,
};
use crate::scalar::number::Number;
use vstd::prelude::*;

verus! {

/// The columns in which the reduction to row echelon form finds a pivot
/// when it goes on from `m` with row `s` and column `col`. The first of them
/// is the pivot column of row `s`, the next that of row `s + 1`, and so on.
pub open spec fn echelon_pivots_from<T: Number>(m: Seq<Seq<T>>, cols: int, s: int, col: int) -> Seq<
    int,
>
    decreases cols - col,
{
    if s + 1 >= m.len() || col >= cols {
        Seq::empty()
    } else if has_pivot(m, s, col) {
        seq![col] + echelon_pivots_from(echelon_step(m, s, col), cols, s + 1, col + 1)
    } else {
        echelon_pivots_from(m, cols, s, col + 1)
    }
}

/// The columns in which the reduction to reduced row echelon form finds a
/// pivot when it goes on from `m` with row `s` and column `col`. The first of
/// them is the pivot column of row `s`, the next that of row `s + 1`, and so
/// on.
pub open spec fn reduced_pivots_from<T: Number>(m: Seq<Seq<T>>, cols: int, s: int, col: int) -> Seq<
    int,
>
    decreases cols - col,
{
    if s >= m.len() || col >= cols {
        Seq::empty()
    } else if has_pivot(m, s, col) {
        seq![col] + reduced_pivots_from(reduced_step(m, s, col), cols, s + 1, col + 1)
    } else {
        reduced_pivots_from(m, cols, s, col + 1)
    }
}

/// The pivot columns of the reduction to row echelon form: that of row 0,
/// that of row 1, and so on.
pub open spec fn echelon_pivots<T: Number>(m: Seq<Seq<T>>, cols: int) -> Seq<int> {
    echelon_pivots_from(m, cols, 0, 0)
}

/// The pivot columns of the reduction to reduced row echelon form: that of
/// row 0, that of row 1, and so on.
pub open spec fn reduced_pivots<T: Number>(m: Seq<Seq<T>>, cols: int) -> Seq<int> {
    reduced_pivots_from(m, cols, 0, 0)
}

/// The matrix has zeros below each pivot: row `j` has its pivot in column
/// `pivots[j]`, and the rows after it are zero there.
pub open spec fn zeros_below_pivots<T: Number>(m: Seq<Seq<T>>, pivots: Seq<int>) -> bool {
    forall|i: int, j: int|
        0 <= j < pivots.len() && j < i < m.len() ==> (#[trigger] m[i])[#[trigger] pivots[j]]
            == T::zero_spec()
}

/// Each pivot column holds the one of its pivot and zeros besides: row `j`
/// has its pivot in column `pivots[j]`.
pub open spec fn pivot_columns_are_unit<T: Number>(m: Seq<Seq<T>>, pivots: Seq<int>) -> bool {
    &&& forall|j: int| 0 <= j < pivots.len() ==> m[j][#[trigger] pivots[j]] == T::one_spec()
    &&& forall|i: int, j: int|
        0 <= j < pivots.len() && 0 <= i < m.len() && i != j ==> (#[trigger] m[i])[#[trigger] pivots[j]]
            == T::zero_spec()
}

/// A column before `col` that is zero from row `bound` on stays as it is
/// when the reduction to row echelon form goes on with a row `s` from
/// `bound` on and with column `col`.
pub proof fn lemma_echelon_keeps_column<T: Number>(
    m: Seq<Seq<T>>,
    rows: int,
    cols: int,
    s: int,
    col: int,
    c: int,
    bound: int,
)
    requires
        is_matrix(m, rows, cols),
        0 <= bound <= s,
        0 <= c < col,
        forall|i: int| bound <= i < rows ==> (#[trigger] m[i])[c] == T::zero_spec(),
    ensures
        forall|i: int| 0 <= i < rows ==> (#[trigger] echelon_from(m, cols, s, col)[i])[c] == m[i][c],
    decreases cols - col,
{
    if s + 1 >= m.len() || col >= cols {
    } else if has_pivot(m, s, col) {
        lemma_pivot_scan_in_range(m, col, s, rows);
        lemma_steps_keep_shape(m, rows, cols, s, col);
        let p = pivot_scan(m, col, s, rows);
        let swapped = swap_rows(m, p, s);
        let next = echelon_step(m, s, col);
        assert(m[p][c] == T::zero_spec());
        assert(m[s][c] == T::zero_spec());
        assert forall|i: int| 0 <= i < rows implies (#[trigger] next[i])[c] == m[i][c] by {
            assert(next[i][c] == swapped[i][c]);
            if i == s {
                assert(swapped[i] == m[p]);
            } else if i == p {
                assert(swapped[i] == m[s]);
            } else {
                assert(swapped[i] == m[i]);
            }
        }
        assert forall|i: int| 0 <= i < rows implies (#[trigger] m[i])[c] == next[i][c] by {}
        assert(forall|i: int| bound <= i < rows ==> (#[trigger] next[i])[c] == T::zero_spec());
        lemma_echelon_keeps_column(next, rows, cols, s + 1, col + 1, c, bound);
        assert(echelon_from(m, cols, s, col) == echelon_from(next, cols, s + 1, col + 1));
        assert forall|i: int| 0 <= i < rows implies (#[trigger] echelon_from(m, cols, s, col)[i])[c] == m[i][c] by {
            assert(echelon_from(next, cols, s + 1, col + 1)[i][c] == next[i][c]);
            assert(next[i][c] == m[i][c]);
        }
    } else {
        lemma_echelon_keeps_column(m, rows, cols, s, col + 1, c, bound);
        assert(echelon_from(m, cols, s, col) == echelon_from(m, cols, s, col + 1));
    }
}

/// A column before `col` that is zero from row `s` on stays as it is when
/// the reduction to reduced row echelon form goes on with row `s` and column
/// `col`.
pub proof fn lemma_reduced_keeps_column<T: Number>(
    m: Seq<Seq<T>>,
    rows: int,
    cols: int,
    s: int,
    col: int,
    c: int,
)
    requires
        is_matrix(m, rows, cols),
        0 <= s,
        0 <= c < col,
        forall|i: int| s <= i < rows ==> (#[trigger] m[i])[c] == T::zero_spec(),
    ensures
        forall|i: int| 0 <= i < rows ==> (#[trigger] reduced_from(m, cols, s, col)[i])[c] == m[i][c],
    decreases cols - col,
{
    if s >= m.len() || col >= cols {
    } else if has_pivot(m, s, col) {
        lemma_pivot_scan_in_range(m, col, s, rows);
        lemma_steps_keep_shape(m, rows, cols, s, col);
        let p = pivot_scan(m, col, s, rows);
        let swapped = swap_rows(m, p, s);
        let next = reduced_step(m, s, col);
        assert(m[p][c] == T::zero_spec());
        assert(m[s][c] == T::zero_spec());
        assert forall|i: int| 0 <= i < rows implies (#[trigger] next[i])[c] == m[i][c] by {
            assert(next[i][c] == swapped[i][c]);
            if i == s {
                assert(swapped[i] == m[p]);
            } else if i == p {
                assert(swapped[i] == m[s]);
            } else {
                assert(swapped[i] == m[i]);
            }
        }
        assert forall|i: int| 0 <= i < rows implies (#[trigger] m[i])[c] == next[i][c] by {}
        lemma_reduced_keeps_column(next, rows, cols, s + 1, col + 1, c);
        assert(reduced_from(m, cols, s, col) == reduced_from(next, cols, s + 1, col + 1));
    } else {
        lemma_reduced_keeps_column(m, rows, cols, s, col + 1, c);
        assert(reduced_from(m, cols, s, col) == reduced_from(m, cols, s, col + 1));
    }
}

/// The pivot columns that the reduction to row echelon form finds from row
/// `s` and column `col` on lie from `col` on, and the result is zero in each
/// of them below the pivot's row.
pub proof fn lemma_echelon_pivots_from<T: Number>(
    m: Seq<Seq<T>>,
    rows: int,
    cols: int,
    s: int,
    col: int,
)
    requires
        is_matrix(m, rows, cols),
        0 <= s,
        0 <= col,
    ensures
        forall|j: int|
            0 <= j < echelon_pivots_from(m, cols, s, col).len() ==> col <= #[trigger] echelon_pivots_from(
                m,
                cols,
                s,
                col,
            )[j] < cols,
        forall|i: int, j: int|
            0 <= j < echelon_pivots_from(m, cols, s, col).len() && s + j < i < rows ==> (#[trigger] echelon_from(
                m,
                cols,
                s,
                col,
            )[i])[#[trigger] echelon_pivots_from(m, cols, s, col)[j]] == T::zero_spec(),
    decreases cols - col,
{
    if s + 1 >= m.len() || col >= cols {
    } else if has_pivot(m, s, col) {
        lemma_pivot_scan_in_range(m, col, s, rows);
        lemma_steps_keep_shape(m, rows, cols, s, col);
        let next = echelon_step(m, s, col);
        let rest = echelon_pivots_from(next, cols, s + 1, col + 1);
        let all = echelon_pivots_from(m, cols, s, col);
        let result = echelon_from(m, cols, s, col);
        lemma_echelon_pivots_from(next, rows, cols, s + 1, col + 1);
        assert forall|i: int| s + 1 <= i < rows implies (#[trigger] next[i])[col]
            == T::zero_spec() by {}
        lemma_echelon_keeps_column(next, rows, cols, s + 1, col + 1, col, s + 1);
        assert(result == echelon_from(next, cols, s + 1, col + 1));
        assert(all == seq![col] + rest);
        assert forall|j: int| 0 <= j < all.len() implies col <= #[trigger] all[j] < cols by {
            if j > 0 {
                assert(all[j] == rest[j - 1]);
            }
        }
        assert forall|i: int, j: int| 0 <= j < all.len() && s + j < i < rows implies (#[trigger] result[i])[#[trigger] all[j]]
            == T::zero_spec() by {
            if j > 0 {
                assert(all[j] == rest[j - 1]);
            } else {
                assert(result[i][col] == next[i][col]);
            }
        }
    } else {
        lemma_echelon_pivots_from(m, rows, cols, s, col + 1);
        assert(echelon_from(m, cols, s, col) == echelon_from(m, cols, s, col + 1));
        assert(echelon_pivots_from(m, cols, s, col) == echelon_pivots_from(m, cols, s, col + 1));
    }
}

/// The pivot columns that the reduction to reduced row echelon form finds
/// from row `s` and column `col` on lie from `col` on, and the result holds
/// in each of them a one in the pivot's row and zeros besides.
pub proof fn lemma_reduced_pivots_from<T: Number>(
    m: Seq<Seq<T>>,
    rows: int,
    cols: int,
    s: int,
    col: int,
)
    requires
        is_matrix(m, rows, cols),
        0 <= s,
        0 <= col,
    ensures
        forall|j: int|
            0 <= j < reduced_pivots_from(m, cols, s, col).len() ==> col <= #[trigger] reduced_pivots_from(
                m,
                cols,
                s,
                col,
            )[j] < cols,
        reduced_pivots_from(m, cols, s, col).len() <= (if s <= rows {
            rows - s
        } else {
            0
        }),
        forall|j: int|
            0 <= j < reduced_pivots_from(m, cols, s, col).len() ==> reduced_from(m, cols, s, col)[s
                + j][#[trigger] reduced_pivots_from(m, cols, s, col)[j]] == T::one_spec(),
        forall|i: int, j: int|
            0 <= j < reduced_pivots_from(m, cols, s, col).len() && 0 <= i < rows && i != s + j
                ==> (#[trigger] reduced_from(m, cols, s, col)[i])[#[trigger] reduced_pivots_from(
                m,
                cols,
                s,
                col,
            )[j]] == T::zero_spec(),
    decreases cols - col,
{
    if s >= m.len() || col >= cols {
    } else if has_pivot(m, s, col) {
        lemma_pivot_scan_in_range(m, col, s, rows);
        lemma_steps_keep_shape(m, rows, cols, s, col);
        let next = reduced_step(m, s, col);
        let rest = reduced_pivots_from(next, cols, s + 1, col + 1);
        let all = reduced_pivots_from(m, cols, s, col);
        let result = reduced_from(m, cols, s, col);
        lemma_reduced_pivots_from(next, rows, cols, s + 1, col + 1);
        assert forall|i: int| s + 1 <= i < rows implies (#[trigger] next[i])[col]
            == T::zero_spec() by {}
        lemma_reduced_keeps_column(next, rows, cols, s + 1, col + 1, col);
        assert(result == reduced_from(next, cols, s + 1, col + 1));
        assert(all == seq![col] + rest);
        assert(next[s][col] == T::one_spec());
        assert forall|i: int| 0 <= i < rows && i != s implies (#[trigger] next[i])[col]
            == T::zero_spec() by {}
        assert forall|j: int| 0 <= j < all.len() implies col <= #[trigger] all[j] < cols by {
            if j > 0 {
                assert(all[j] == rest[j - 1]);
            }
        }
        assert forall|j: int| 0 <= j < all.len() implies result[s + j][#[trigger] all[j]]
            == T::one_spec() by {
            if j > 0 {
                assert(all[j] == rest[j - 1]);
                assert(result[(s + 1) + (j - 1)][rest[j - 1]] == T::one_spec());
            } else {
                assert(result[s][col] == next[s][col]);
            }
        }
        assert forall|i: int, j: int|
            0 <= j < all.len() && 0 <= i < rows && i != s + j implies (#[trigger] result[i])[#[trigger] all[j]]
            == T::zero_spec() by {
            if j > 0 {
                assert(all[j] == rest[j - 1]);
                assert(i != (s + 1) + (j - 1));
            } else {
                assert(result[i][col] == next[i][col]);
            }
        }
    } else {
        lemma_reduced_pivots_from(m, rows, cols, s, col + 1);
        assert(reduced_from(m, cols, s, col) == reduced_from(m, cols, s, col + 1));
        assert(reduced_pivots_from(m, cols, s, col) == reduced_pivots_from(m, cols, s, col + 1));
    }
}

/// The row echelon form has zeros below each pivot.
pub proof fn lemma_echelon_form_zeros_below_pivots<T: Number>(m: Seq<Seq<T>>, rows: int, cols: int)
    requires
        is_matrix(m, rows, cols),
    ensures
        zeros_below_pivots(echelon_form(m, cols), echelon_pivots(m, cols)),
{
    lemma_echelon_pivots_from(m, rows, cols, 0, 0);
    crate::linalg::matrix::reduction::lemma_echelon_keeps_shape(m, rows, cols, 0, 0);
}

/// In the reduced row echelon form each pivot column holds the one of its
/// pivot and zeros besides.
pub proof fn lemma_reduced_form_pivot_columns<T: Number>(m: Seq<Seq<T>>, rows: int, cols: int)
    requires
        is_matrix(m, rows, cols),
    ensures
        pivot_columns_are_unit(reduced_form(m, cols), reduced_pivots(m, cols)),
{
    lemma_reduced_pivots_from(m, rows, cols, 0, 0);
    crate::linalg::matrix::reduction::lemma_reduced_keeps_shape(m, rows, cols, 0, 0);
}

} // verus!
