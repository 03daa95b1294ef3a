//! What row reduction computes, as functions on the rows of a matrix.
//!
//! A matrix is a sequence of rows here. The pivot of a column is looked for
//! from a starting row downwards; the row that holds it is moved up to the
//! starting row, and the other rows are cleared with it.

use crate::scalar::number::{greater, Number};
use vstd::prelude::*;
use vstd::std_specs::cmp::PartialEqSpec;
use vstd::std_specs::ops::{MulSpec, SubSpec};

verus! {

/// `m` has `rows` rows of `cols` entries each.
pub open spec fn is_matrix<T>(m: Seq<Seq<T>>, rows: int, cols: int) -> bool {
    &&& m.len() == rows
    &&& forall|r: int| 0 <= r < rows ==> (#[trigger] m[r]).len() == cols
}

/// `m` with the rows `r1` and `r2` exchanged.
pub open spec fn swap_rows<T>(m: Seq<Seq<T>>, r1: int, r2: int) -> Seq<Seq<T>> {
    m.update(r1, m[r2]).update(r2, m[r1])
}

/// The row that a scan of column `col` over the rows `from..upto` settles on:
/// it starts with row `from` and moves on to a later row whenever that row's
/// entry is greater than the one it holds.
pub open spec fn pivot_scan<T: Number>(m: Seq<Seq<T>>, col: int, from: int, upto: int) -> int
    decreases upto - from,
{
    if upto <= from + 1 {
        from
    } else {
        let best = pivot_scan(m, col, from, upto - 1);
        if greater(m[upto - 1][col], m[best][col]) {
            upto - 1
        } else {
            best
        }
    }
}

/// The factor by which the pivot row is taken off `row`.
pub open spec fn multiplier<T: Number>(row: Seq<T>, pivot: Seq<T>, col: int) -> T {
    row[col].mul_spec(pivot[col].inverse_spec())
}

/// `row` after the pivot row `pivot`, with its pivot in column `col`, has been
/// taken off it: the entry in column `col` is zero, the entries to the right
/// have lost their share of the pivot row, and the entries to the left are
/// as they were.
pub open spec fn eliminate_row<T: Number>(row: Seq<T>, pivot: Seq<T>, col: int) -> Seq<T> {
    eliminate_row_upto(row, pivot, col, row.len() as int)
}

/// `eliminate_row`, carried out on the columns before `upto` only.
pub open spec fn eliminate_row_upto<T: Number>(
    row: Seq<T>,
    pivot: Seq<T>,
    col: int,
    upto: int,
) -> Seq<T> {
    Seq::new(
        row.len(),
        |c: int|
            if c < col || c >= upto {
                row[c]
            } else if c == col {
                T::zero_spec()
            } else {
                row[c].sub_spec(multiplier(row, pivot, col).mul_spec(pivot[c]))
            },
    )
}

/// The pivot row after it has been divided by its pivot: the pivot is one and
/// the entries to its right are multiplied by the pivot's inverse.
pub open spec fn scale_row<T: Number>(pivot: Seq<T>, col: int) -> Seq<T> {
    scale_row_upto(pivot, col, pivot.len() as int)
}

/// `scale_row`, carried out on the columns before `upto` only.
pub open spec fn scale_row_upto<T: Number>(pivot: Seq<T>, col: int, upto: int) -> Seq<T> {
    Seq::new(
        pivot.len(),
        |c: int|
            if c < col || c >= upto {
                pivot[c]
            } else if c == col {
                T::one_spec()
            } else {
                pivot[c].mul_spec(pivot[col].inverse_spec())
            },
    )
}

/// One step of the reduction to row echelon form on a matrix whose pivot row
/// already stands in row `s`: the rows below `s` are cleared in column `col`.
pub open spec fn clear_below<T: Number>(m: Seq<Seq<T>>, s: int, col: int) -> Seq<Seq<T>> {
    clear_below_upto(m, s, col, m.len() as int)
}

/// `clear_below`, carried out on the rows before `upto` only.
pub open spec fn clear_below_upto<T: Number>(m: Seq<Seq<T>>, s: int, col: int, upto: int) -> Seq<
    Seq<T>,
> {
    Seq::new(
        m.len(),
        |r: int|
            if s < r < upto {
                eliminate_row(m[r], m[s], col)
            } else {
                m[r]
            },
    )
}

/// One step of the reduction to reduced row echelon form on a matrix whose
/// pivot row already stands in row `s`: every other row is cleared in column
/// `col`.
pub open spec fn clear_others<T: Number>(m: Seq<Seq<T>>, s: int, col: int) -> Seq<Seq<T>> {
    clear_others_upto(m, s, col, m.len() as int)
}

/// `clear_others`, carried out on the rows before `upto` only.
pub open spec fn clear_others_upto<T: Number>(m: Seq<Seq<T>>, s: int, col: int, upto: int) -> Seq<
    Seq<T>,
> {
    Seq::new(
        m.len(),
        |r: int|
            if r != s && r < upto {
                eliminate_row(m[r], m[s], col)
            } else {
                m[r]
            },
    )
}

/// A whole pivot step of the reduction to row echelon form: the pivot row of
/// column `col` goes to row `s` and the rows below are cleared.
pub open spec fn echelon_step<T: Number>(m: Seq<Seq<T>>, s: int, col: int) -> Seq<Seq<T>> {
    let p = pivot_scan(m, col, s, m.len() as int);
    clear_below(swap_rows(m, p, s), s, col)
}

/// A whole pivot step of the reduction to reduced row echelon form: the
/// pivot row of column `col` goes to row `s`, every other row is cleared, and
/// the pivot row is divided by its pivot.
pub open spec fn reduced_step<T: Number>(m: Seq<Seq<T>>, s: int, col: int) -> Seq<Seq<T>> {
    let p = pivot_scan(m, col, s, m.len() as int);
    let cleared = clear_others(swap_rows(m, p, s), s, col);
    cleared.update(s, scale_row(cleared[s], col))
}

/// Whether column `col` has a pivot for row `s`: the entry that the scan
/// settles on is not zero.
pub open spec fn has_pivot<T: Number>(m: Seq<Seq<T>>, s: int, col: int) -> bool {
    !m[pivot_scan(m, col, s, m.len() as int)][col].eq_spec(&T::zero_spec())
}

/// The row echelon form that the reduction reaches from `m` when it goes on
/// with row `s` and column `col`. It stops at the last row or past the last
/// column; a column without a pivot is passed over.
pub open spec fn echelon_from<T: Number>(m: Seq<Seq<T>>, cols: int, s: int, col: int) -> Seq<
    Seq<T>,
>
    decreases cols - col,
{
    if s + 1 >= m.len() || col >= cols {
        m
    } else if has_pivot(m, s, col) {
        echelon_from(echelon_step(m, s, col), cols, s + 1, col + 1)
    } else {
        echelon_from(m, cols, s, col + 1)
    }
}

/// The reduced row echelon form that the reduction reaches from `m` when it
/// goes on with row `s` and column `col`. It stops past the last row or past
/// the last column; a column without a pivot is passed over.
pub open spec fn reduced_from<T: Number>(m: Seq<Seq<T>>, cols: int, s: int, col: int) -> Seq<
    Seq<T>,
>
    decreases cols - col,
{
    if s >= m.len() || col >= cols {
        m
    } else if has_pivot(m, s, col) {
        reduced_from(reduced_step(m, s, col), cols, s + 1, col + 1)
    } else {
        reduced_from(m, cols, s, col + 1)
    }
}

/// The row echelon form of a matrix with `cols` columns.
pub open spec fn echelon_form<T: Number>(m: Seq<Seq<T>>, cols: int) -> Seq<Seq<T>> {
    echelon_from(m, cols, 0, 0)
}

/// The reduced row echelon form of a matrix with `cols` columns.
pub open spec fn reduced_form<T: Number>(m: Seq<Seq<T>>, cols: int) -> Seq<Seq<T>> {
    reduced_from(m, cols, 0, 0)
}

/// The scan settles on one of the rows it looks at.
pub proof fn lemma_pivot_scan_in_range<T: Number>(m: Seq<Seq<T>>, col: int, from: int, upto: int)
    requires
        from < upto,
    ensures
        from <= pivot_scan(m, col, from, upto) < upto,
    decreases upto - from,
{
    if upto > from + 1 {
        lemma_pivot_scan_in_range(m, col, from, upto - 1);
    }
}

/// A pivot step of either kind keeps the shape of the matrix.
pub proof fn lemma_steps_keep_shape<T: Number>(m: Seq<Seq<T>>, rows: int, cols: int, s: int, col: int)
    requires
        is_matrix(m, rows, cols),
        0 <= s < rows,
    ensures
        is_matrix(echelon_step(m, s, col), rows, cols),
        is_matrix(reduced_step(m, s, col), rows, cols),
{
    lemma_pivot_scan_in_range(m, col, s, rows);
}

/// The reduction to row echelon form keeps the shape of the matrix.
pub proof fn lemma_echelon_keeps_shape<T: Number>(
    m: Seq<Seq<T>>,
    rows: int,
    cols: int,
    s: int,
    col: int,
)
    requires
        is_matrix(m, rows, cols),
        0 <= s,
    ensures
        is_matrix(echelon_from(m, cols, s, col), rows, cols),
    decreases cols - col,
{
    if s + 1 >= m.len() || col >= cols {
    } else if has_pivot(m, s, col) {
        lemma_steps_keep_shape(m, rows, cols, s, col);
        lemma_echelon_keeps_shape(echelon_step(m, s, col), rows, cols, s + 1, col + 1);
    } else {
        lemma_echelon_keeps_shape(m, rows, cols, s, col + 1);
    }
}

/// The reduction to reduced row echelon form keeps the shape of the matrix.
pub proof fn lemma_reduced_keeps_shape<T: Number>(
    m: Seq<Seq<T>>,
    rows: int,
    cols: int,
    s: int,
    col: int,
)
    requires
        is_matrix(m, rows, cols),
        0 <= s,
    ensures
        is_matrix(reduced_from(m, cols, s, col), rows, cols),
    decreases cols - col,
{
    if s >= m.len() || col >= cols {
    } else if has_pivot(m, s, col) {
        lemma_steps_keep_shape(m, rows, cols, s, col);
        lemma_reduced_keeps_shape(reduced_step(m, s, col), rows, cols, s + 1, col + 1);
    } else {
        lemma_reduced_keeps_shape(m, rows, cols, s, col + 1);
    }
}

} // verus!
