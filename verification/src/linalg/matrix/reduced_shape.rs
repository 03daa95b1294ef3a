//! What the reduction to reduced row echelon form achieves over a field.
//!
//! The pivot search compares entries as they are, so a column whose entries
//! from the pivot row down are zero or negative counts as having no pivot.
//! Where that never hides an entry that is not zero, the reduction is called
//! regular. A regular reduction over a field ends in a matrix of reduced
//! shape, whose rows annihilate just what the rows of the matrix it started
//! from annihilate. Whether regular or not, a reduction over a field with a
//! linear order changes nothing when it is run again on its result.

use crate::linalg::matrix::reduction::{
    eliminate_row, has_pivot, is_matrix, lemma_pivot_scan_in_range, multiplier, pivot_scan,
    reduced_form, reduced_from, reduced_step, swap_rows,
};
use crate::linalg::vector::dot::{dot, lemma_dot_upto_combination, lemma_dot_upto_scaled};
use crate::scalar::field::{
    is_field, lemma_add_zero, lemma_eq, lemma_inverse_of_one, lemma_mul_comm, lemma_mul_inverse,
    lemma_mul_inverse_cancels, lemma_mul_one, lemma_mul_zero, lemma_sub_self, lemma_sub_then_add,
    is_linear_order, lemma_greater_irreflexive, lemma_greater_transitive, lemma_neither_greater,
    lemma_zero_is_not_one, zero_not_above_one,
};
use crate::scalar::number::{greater, Number};
use vstd::prelude::*;
use vstd::std_specs::ops::{AddSpec, MulSpec};

verus! {

/// Pivot columns rise strictly, and lie between `from` and `last`.
pub open spec fn rising(pivots: Seq<int>, from: int, last: int) -> bool {
    &&& forall|j: int| 0 <= j < pivots.len() ==> from <= #[trigger] pivots[j] < last
    &&& forall|i: int, j: int| 0 <= i < j < pivots.len() ==> pivots[i] < pivots[j]
}

/// Whether the reduction that goes on from `m` with row `s` and column `col`
/// is regular: wherever it passes over a column, the column is zero from
/// row `s` down.
pub open spec fn regular_from<T: Number>(m: Seq<Seq<T>>, cols: int, s: int, col: int) -> bool
    decreases cols - col,
{
    if s >= m.len() || col >= cols {
        true
    } else if has_pivot(m, s, col) {
        regular_from(reduced_step(m, s, col), cols, s + 1, col + 1)
    } else {
        &&& forall|i: int| s <= i < m.len() ==> (#[trigger] m[i])[col] == T::zero_spec()
        &&& regular_from(m, cols, s, col + 1)
    }
}

/// Whether the reduction of `m` is regular.
pub open spec fn regular<T: Number>(m: Seq<Seq<T>>, cols: int) -> bool {
    regular_from(m, cols, 0, 0)
}

/// Row `j` has its pivot in column `pivots[j]`: the pivot is one, it is the
/// only entry of its column that is not zero, and the row is zero to its
/// left.
pub open spec fn pivots_in_place<T: Number>(m: Seq<Seq<T>>, pivots: Seq<int>) -> bool {
    &&& forall|j: int| 0 <= j < pivots.len() ==> m[j][#[trigger] pivots[j]] == T::one_spec()
    &&& forall|i: int, j: int|
        0 <= i < m.len() && 0 <= j < pivots.len() && i != j ==> (#[trigger] m[i])[#[trigger] pivots[j]]
            == T::zero_spec()
    &&& forall|j: int, c: int|
        0 <= j < pivots.len() && 0 <= c < pivots[j] ==> #[trigger] m[j][c] == T::zero_spec()
}

/// The rows from `s` on are zero in the columns before `col`.
pub open spec fn zero_block<T: Number>(m: Seq<Seq<T>>, s: int, col: int) -> bool {
    forall|i: int, c: int| s <= i < m.len() && 0 <= c < col ==> #[trigger] m[i][c] == T::zero_spec()
}

/// The state of a regular reduction that goes on with row `s` and column
/// `col`: the rows before `s` have their pivots, in the columns `pivots`
/// before `col`, and the other rows are zero before `col`.
pub open spec fn in_progress<T: Number>(
    m: Seq<Seq<T>>,
    rows: int,
    cols: int,
    s: int,
    col: int,
    pivots: Seq<int>,
) -> bool {
    &&& is_matrix(m, rows, cols)
    &&& 0 <= s <= rows
    &&& 0 <= col <= cols
    &&& pivots.len() == s
    &&& rising(pivots, 0, col)
    &&& pivots_in_place(m, pivots)
    &&& zero_block(m, s, col)
}

/// `m` is in reduced row echelon form with its pivots in the columns
/// `pivots`, one for each of the first rows; the rows after them are zero.
pub open spec fn reduced_with<T: Number>(m: Seq<Seq<T>>, rows: int, cols: int, pivots: Seq<int>) -> bool {
    in_progress(m, rows, cols, pivots.len() as int, cols, pivots)
}

/// `m` is in reduced row echelon form.
pub open spec fn is_reduced<T: Number>(m: Seq<Seq<T>>, rows: int, cols: int) -> bool {
    exists|pivots: Seq<int>| reduced_with(m, rows, cols, pivots)
}

/// Every row of `m` has the dot product zero with `y`.
pub open spec fn annihilates<T: Number>(m: Seq<Seq<T>>, y: Seq<T>) -> bool {
    forall|i: int| 0 <= i < m.len() ==> dot(#[trigger] m[i], y) == T::zero_spec()
}

/// A pivot step of a regular reduction leads to the next state of a regular
/// reduction, with the column of the step as a further pivot column.
pub proof fn lemma_step_in_progress<T: Number>(
    m: Seq<Seq<T>>,
    rows: int,
    cols: int,
    s: int,
    col: int,
    pivots: Seq<int>,
)
    requires
        is_field::<T>(),
        in_progress(m, rows, cols, s, col, pivots),
        s < rows,
        col < cols,
        has_pivot(m, s, col),
    ensures
        in_progress(reduced_step(m, s, col), rows, cols, s + 1, col + 1, pivots.push(col)),
{
    lemma_pivot_scan_in_range(m, col, s, rows);
    let p = pivot_scan(m, col, s, rows);
    let swapped = swap_rows(m, p, s);
    let next = reduced_step(m, s, col);
    let grown = pivots.push(col);
    assert(is_matrix(next, rows, cols));
    assert forall|i: int, c: int| 0 <= i < rows && 0 <= c < col implies #[trigger] next[i][c]
        == swapped[i][c] by {}
    assert forall|i: int| 0 <= i < rows && i != s implies (#[trigger] next[i])[col]
        == T::zero_spec() by {}
    assert(next[s][col] == T::one_spec());
    assert forall|j: int| 0 <= j < grown.len() implies next[j][#[trigger] grown[j]]
        == T::one_spec() by {
        if j < s {
            assert(grown[j] == pivots[j]);
            assert(next[j][pivots[j]] == swapped[j][pivots[j]]);
        }
    }
    assert forall|i: int, j: int|
        0 <= i < next.len() && 0 <= j < grown.len() && i != j implies (#[trigger] next[i])[#[trigger] grown[j]]
        == T::zero_spec() by {
        if j < s {
            assert(grown[j] == pivots[j]);
            assert(next[i][pivots[j]] == swapped[i][pivots[j]]);
            if i == s {
                assert(swapped[i] == m[p]);
            } else if i == p {
                assert(swapped[i] == m[s]);
            } else {
                assert(swapped[i] == m[i]);
            }
        }
    }
    assert forall|j: int, c: int|
        0 <= j < grown.len() && 0 <= c < grown[j] implies #[trigger] next[j][c]
        == T::zero_spec() by {
        assert(next[j][c] == swapped[j][c]);
        if j < s {
            assert(grown[j] == pivots[j]);
        } else {
            assert(swapped[s] == m[p]);
        }
    }
    assert forall|i: int, c: int| s + 1 <= i < next.len() && 0 <= c < col + 1 implies #[trigger] next[i][c]
        == T::zero_spec() by {
        if c < col {
            assert(next[i][c] == swapped[i][c]);
            if i == p {
                assert(swapped[i] == m[s]);
            } else {
                assert(swapped[i] == m[i]);
            }
        }
    }
}

/// A pivot step of a regular reduction keeps the solutions: the rows
/// annihilate after the step just what they annihilated before it.
pub proof fn lemma_step_keeps_kernel<T: Number>(
    m: Seq<Seq<T>>,
    rows: int,
    cols: int,
    s: int,
    col: int,
    pivots: Seq<int>,
    y: Seq<T>,
)
    requires
        is_field::<T>(),
        in_progress(m, rows, cols, s, col, pivots),
        s < rows,
        col < cols,
        has_pivot(m, s, col),
    ensures
        annihilates(reduced_step(m, s, col), y) <==> annihilates(m, y),
{
    lemma_pivot_scan_in_range(m, col, s, rows);
    let p = pivot_scan(m, col, s, rows);
    let swapped = swap_rows(m, p, s);
    let next = reduced_step(m, s, col);
    let pivot_row = swapped[s];
    let pivot = pivot_row[col];
    let inv = pivot.inverse_spec();
    let zero = T::zero_spec();
    assert(pivot_row == m[p]);
    lemma_eq(pivot, zero);
    assert(pivot != zero);
    assert forall|c: int| 0 <= c < col implies #[trigger] pivot_row[c] == zero by {
        assert(m[p][c] == zero);
    }
    // The pivot row after the step is the pivot row before it, times the
    // inverse of the pivot.
    let scaled = next[s];
    assert forall|c: int| 0 <= c < cols implies #[trigger] scaled[c] == inv.mul_spec(
        pivot_row[c],
    ) by {
        if c < col {
            lemma_mul_zero(inv);
        } else if c == col {
            lemma_mul_inverse(pivot);
        } else {
            lemma_mul_comm(pivot_row[c], inv);
        }
    }
    lemma_dot_upto_scaled(scaled, inv, pivot_row, y, cols);
    // Each other row before the step is the row after it, plus a multiple
    // of the pivot row.
    assert forall|at: int| 0 <= at < rows && at != s implies dot(swapped[at], y) == dot(
        #[trigger] next[at],
        y,
    ).add_spec(multiplier(swapped[at], pivot_row, col).mul_spec(dot(pivot_row, y))) by {
        let row = swapped[at];
        let cleared = next[at];
        let mult = multiplier(row, pivot_row, col);
        assert(cleared == eliminate_row(row, pivot_row, col));
        assert forall|c: int| 0 <= c < cols implies #[trigger] row[c] == cleared[c].add_spec(
            mult.mul_spec(pivot_row[c]),
        ) by {
            if c < col {
                lemma_mul_zero(mult);
                lemma_add_zero(row[c]);
            } else if c == col {
                lemma_mul_inverse_cancels(row[col], pivot);
                lemma_add_zero(row[col]);
            } else {
                lemma_sub_then_add(row[c], mult.mul_spec(pivot_row[c]));
            }
        }
        lemma_dot_upto_combination(row, cleared, mult, pivot_row, y, cols);
    }
    if annihilates(next, y) {
        assert(dot(next[s], y) == zero);
        lemma_mul_inverse_cancels(dot(pivot_row, y), pivot);
        lemma_mul_zero(pivot);
        assert(dot(pivot_row, y) == zero);
        assert forall|i: int| 0 <= i < m.len() implies dot(#[trigger] m[i], y) == zero by {
            let at = if i == p {
                s
            } else if i == s {
                p
            } else {
                i
            };
            assert(swapped[at] == m[i]);
            if at != s {
                assert(dot(next[at], y) == zero);
                lemma_mul_zero(multiplier(swapped[at], pivot_row, col));
                lemma_add_zero(zero);
            }
        }
    }
    if annihilates(m, y) {
        assert(dot(m[p], y) == zero);
        lemma_mul_zero(inv);
        assert forall|at: int| 0 <= at < next.len() implies dot(#[trigger] next[at], y)
            == zero by {
            if at != s {
                let from = if at == p {
                    s
                } else {
                    at
                };
                assert(swapped[at] == m[from]);
                assert(dot(m[from], y) == zero);
                lemma_mul_zero(multiplier(swapped[at], pivot_row, col));
                lemma_add_zero(dot(next[at], y));
            }
        }
    }
}

/// A regular reduction over a field ends in reduced row echelon form. The
/// pivot columns of the result are returned.
pub proof fn lemma_regular_reduction_ends_reduced<T: Number>(
    m: Seq<Seq<T>>,
    rows: int,
    cols: int,
    s: int,
    col: int,
    pivots: Seq<int>,
) -> (all_pivots: Seq<int>)
    requires
        is_field::<T>(),
        in_progress(m, rows, cols, s, col, pivots),
        regular_from(m, cols, s, col),
    ensures
        reduced_with(reduced_from(m, cols, s, col), rows, cols, all_pivots),
    decreases cols - col,
{
    if s >= m.len() || col >= cols {
        pivots
    } else if has_pivot(m, s, col) {
        lemma_step_in_progress(m, rows, cols, s, col, pivots);
        lemma_regular_reduction_ends_reduced(
            reduced_step(m, s, col),
            rows,
            cols,
            s + 1,
            col + 1,
            pivots.push(col),
        )
    } else {
        lemma_regular_reduction_ends_reduced(m, rows, cols, s, col + 1, pivots)
    }
}

/// A regular reduction over a field keeps the solutions: the rows of the
/// reduced matrix annihilate just what the rows of the matrix it started
/// from annihilate.
pub proof fn lemma_regular_reduction_keeps_kernel<T: Number>(
    m: Seq<Seq<T>>,
    rows: int,
    cols: int,
    s: int,
    col: int,
    pivots: Seq<int>,
    y: Seq<T>,
)
    requires
        is_field::<T>(),
        in_progress(m, rows, cols, s, col, pivots),
        regular_from(m, cols, s, col),
    ensures
        annihilates(reduced_from(m, cols, s, col), y) <==> annihilates(m, y),
    decreases cols - col,
{
    if s >= m.len() || col >= cols {
    } else if has_pivot(m, s, col) {
        lemma_step_in_progress(m, rows, cols, s, col, pivots);
        lemma_regular_reduction_keeps_kernel(
            reduced_step(m, s, col),
            rows,
            cols,
            s + 1,
            col + 1,
            pivots.push(col),
            y,
        );
        lemma_step_keeps_kernel(m, rows, cols, s, col, pivots, y);
    } else {
        lemma_regular_reduction_keeps_kernel(m, rows, cols, s, col + 1, pivots, y);
    }
}

/// Over a field, the reduced row echelon form that a regular reduction
/// computes is in reduced row echelon form.
pub proof fn lemma_reduced_form_is_reduced<T: Number>(m: Seq<Seq<T>>, rows: int, cols: int)
    requires
        is_field::<T>(),
        is_matrix(m, rows, cols),
        0 <= cols,
        regular(m, cols),
    ensures
        is_reduced(reduced_form(m, cols), rows, cols),
{
    let pivots = lemma_regular_reduction_ends_reduced(m, rows, cols, 0, 0, Seq::<int>::empty());
    assert(reduced_with(reduced_form(m, cols), rows, cols, pivots));
}

/// Over a field, the rows of the reduced row echelon form annihilate just
/// what the rows of the matrix annihilate, if the reduction is regular.
pub proof fn lemma_reduced_form_keeps_kernel<T: Number>(
    m: Seq<Seq<T>>,
    rows: int,
    cols: int,
    y: Seq<T>,
)
    requires
        is_field::<T>(),
        is_matrix(m, rows, cols),
        0 <= cols,
        regular(m, cols),
    ensures
        annihilates(reduced_form(m, cols), y) <==> annihilates(m, y),
{
    lemma_regular_reduction_keeps_kernel(m, rows, cols, 0, 0, Seq::<int>::empty(), y);
}

/// A scan that meets no entry greater than the one it starts with settles
/// on the row it starts with.
pub proof fn lemma_pivot_scan_stays<T: Number>(m: Seq<Seq<T>>, col: int, from: int, upto: int)
    requires
        forall|i: int| from < i < upto ==> !greater((#[trigger] m[i])[col], m[from][col]),
    ensures
        pivot_scan(m, col, from, upto) == from,
    decreases upto - from,
{
    if upto > from + 1 {
        lemma_pivot_scan_stays(m, col, from, upto - 1);
    }
}

/// A pivot step on a column that holds a one in the pivot row and zeros
/// besides finds its pivot there and changes nothing.
pub proof fn lemma_step_on_unit_column<T: Number>(
    m: Seq<Seq<T>>,
    rows: int,
    cols: int,
    s: int,
    col: int,
)
    requires
        is_field::<T>(),
        zero_not_above_one::<T>(),
        is_matrix(m, rows, cols),
        0 <= s < rows,
        0 <= col < cols,
        m[s][col] == T::one_spec(),
        forall|i: int| 0 <= i < rows && i != s ==> (#[trigger] m[i])[col] == T::zero_spec(),
    ensures
        has_pivot(m, s, col),
        reduced_step(m, s, col) == m,
{
    let zero = T::zero_spec();
    let one = T::one_spec();
    lemma_pivot_scan_stays(m, col, s, rows);
    lemma_zero_is_not_one::<T>();
    let next = reduced_step(m, s, col);
    assert(swap_rows(m, s, s) =~= m);
    assert forall|i: int| 0 <= i < rows implies #[trigger] next[i] == m[i] by {
        if i == s {
            lemma_inverse_of_one::<T>();
            assert forall|c: int| 0 <= c < cols implies next[i][c] == m[i][c] by {
                lemma_mul_one(m[i][c]);
            }
            assert(next[i] =~= m[i]);
        } else {
            lemma_mul_zero(one.inverse_spec());
            assert(multiplier(m[i], m[s], col) == zero);
            assert forall|c: int| 0 <= c < cols implies next[i][c] == m[i][c] by {
                lemma_mul_zero(m[s][c]);
                lemma_sub_self(m[i][c]);
            }
            assert(next[i] =~= m[i]);
        }
    }
    assert(next =~= m);
}

/// The reduction leaves a matrix in reduced row echelon form as it is, from
/// any row `s` and column `col` that it could have reached on that matrix.
pub proof fn lemma_reduction_fixes_reduced<T: Number>(
    m: Seq<Seq<T>>,
    rows: int,
    cols: int,
    s: int,
    col: int,
    pivots: Seq<int>,
)
    requires
        is_field::<T>(),
        zero_not_above_one::<T>(),
        reduced_with(m, rows, cols, pivots),
        0 <= s <= pivots.len(),
        0 <= col,
        forall|j: int| 0 <= j < s ==> #[trigger] pivots[j] < col,
        s < pivots.len() ==> col <= pivots[s],
    ensures
        reduced_from(m, cols, s, col) == m,
    decreases cols - col,
{
    let zero = T::zero_spec();
    if s >= m.len() || col >= cols {
    } else if s < pivots.len() && col == pivots[s] {
        assert(m[s][pivots[s]] == T::one_spec());
        assert forall|i: int| 0 <= i < rows && i != s implies (#[trigger] m[i])[col] == zero by {
            assert(m[i][pivots[s]] == zero);
        }
        lemma_step_on_unit_column(m, rows, cols, s, col);
        lemma_reduction_fixes_reduced(m, rows, cols, s + 1, col + 1, pivots);
    } else {
        lemma_pivot_scan_in_range(m, col, s, rows);
        let p = pivot_scan(m, col, s, rows);
        if p < pivots.len() {
            assert(col < pivots[s]);
            assert(pivots[s] <= pivots[p]);
            assert(m[p][col] == zero);
        } else {
            assert(m[p][col] == zero);
        }
        lemma_eq(m[p][col], zero);
        assert(!has_pivot(m, s, col));
        lemma_reduction_fixes_reduced(m, rows, cols, s, col + 1, pivots);
    }
}

/// Over a field whose comparison does not put zero above one, reducing a
/// matrix that is in reduced row echelon form yields the same matrix.
pub proof fn lemma_reduced_form_of_reduced<T: Number>(m: Seq<Seq<T>>, rows: int, cols: int)
    requires
        is_field::<T>(),
        zero_not_above_one::<T>(),
        is_reduced(m, rows, cols),
    ensures
        reduced_form(m, cols) == m,
{
    let pivots = choose|pivots: Seq<int>| reduced_with(m, rows, cols, pivots);
    lemma_reduction_fixes_reduced(m, rows, cols, 0, 0, pivots);
}

/// In a linear order the scan settles on an entry that no entry it looked at
/// is greater than.
pub proof fn lemma_scan_is_greatest<T: Number>(m: Seq<Seq<T>>, col: int, from: int, upto: int)
    requires
        is_linear_order::<T>(),
        from < upto,
    ensures
        forall|i: int|
            from <= i < upto ==> !greater(
                (#[trigger] m[i])[col],
                m[pivot_scan(m, col, from, upto)][col],
            ),
    decreases upto - from,
{
    let best = pivot_scan(m, col, from, upto);
    if upto <= from + 1 {
        assert forall|i: int| from <= i < upto implies !greater((#[trigger] m[i])[col], m[best][col]) by {
            lemma_greater_irreflexive(m[from][col]);
        }
    } else {
        lemma_scan_is_greatest(m, col, from, upto - 1);
        let before = pivot_scan(m, col, from, upto - 1);
        assert forall|i: int| from <= i < upto implies !greater((#[trigger] m[i])[col], m[best][col]) by {
            if greater(m[i][col], m[best][col]) {
                if best == upto - 1 {
                    if i == upto - 1 {
                        lemma_greater_irreflexive(m[i][col]);
                    } else {
                        lemma_greater_transitive(m[i][col], m[best][col], m[before][col]);
                    }
                }
            }
        }
    }
}

/// Column `c` has no entry above zero from row `s` down, and an entry that
/// is zero: a scan of it from row `s` finds no pivot.
pub open spec fn settled<T: Number>(m: Seq<Seq<T>>, s: int, c: int) -> bool {
    &&& forall|i: int| s <= i < m.len() ==> !greater((#[trigger] m[i])[c], T::zero_spec())
    &&& exists|i: int| s <= i < m.len() && (#[trigger] m[i])[c] == T::zero_spec()
}

/// Over a field with a linear order, a column has no pivot for row `s` just
/// when it is settled from row `s` down.
pub proof fn lemma_no_pivot_is_settled<T: Number>(m: Seq<Seq<T>>, rows: int, s: int, col: int)
    requires
        is_field::<T>(),
        is_linear_order::<T>(),
        m.len() == rows,
        0 <= s < rows,
    ensures
        !has_pivot(m, s, col) <==> settled(m, s, col),
{
    let zero = T::zero_spec();
    lemma_pivot_scan_in_range(m, col, s, rows);
    lemma_scan_is_greatest(m, col, s, rows);
    let p = pivot_scan(m, col, s, rows);
    lemma_eq(m[p][col], zero);
    if settled(m, s, col) {
        let at = choose|i: int| s <= i < m.len() && (#[trigger] m[i])[col] == zero;
        assert(!greater(m[at][col], m[p][col]));
        assert(!greater(m[p][col], zero));
        lemma_neither_greater(m[p][col], zero);
    }
    if !has_pivot(m, s, col) {
        assert(m[p][col] == zero);
    }
}

/// A column before `col` that is settled from row `bound` down stays so
/// when the reduction goes on with a row `s` from `bound` on and with column
/// `col`: its entries are moved with their rows, and not changed.
pub proof fn lemma_reduction_keeps_settled<T: Number>(
    m: Seq<Seq<T>>,
    rows: int,
    cols: int,
    s: int,
    col: int,
    c: int,
    bound: int,
)
    requires
        is_matrix(m, rows, cols),
        0 <= bound <= s,
        0 <= c < col,
        settled(m, bound, c),
    ensures
        settled(reduced_from(m, cols, s, col), bound, c),
    decreases cols - col,
{
    let zero = T::zero_spec();
    if s >= m.len() || col >= cols {
    } else if has_pivot(m, s, col) {
        lemma_pivot_scan_in_range(m, col, s, rows);
        crate::linalg::matrix::reduction::lemma_steps_keep_shape(m, rows, cols, s, col);
        let p = pivot_scan(m, col, s, rows);
        let swapped = swap_rows(m, p, s);
        let next = reduced_step(m, s, col);
        assert forall|i: int| 0 <= i < rows implies (#[trigger] next[i])[c] == swapped[i][c] by {}
        assert forall|i: int| bound <= i < next.len() implies !greater(
            (#[trigger] next[i])[c],
            zero,
        ) by {
            if i == s {
                assert(swapped[i] == m[p]);
            } else if i == p {
                assert(swapped[i] == m[s]);
            } else {
                assert(swapped[i] == m[i]);
            }
        }
        let at = choose|i: int| bound <= i < m.len() && (#[trigger] m[i])[c] == zero;
        let moved = if at == s {
            p
        } else if at == p {
            s
        } else {
            at
        };
        assert(swapped[moved] == m[at]);
        assert(next[moved][c] == zero);
        lemma_reduction_keeps_settled(next, rows, cols, s + 1, col + 1, c, bound);
        assert(reduced_from(m, cols, s, col) == reduced_from(next, cols, s + 1, col + 1));
    } else {
        lemma_reduction_keeps_settled(m, rows, cols, s, col + 1, c, bound);
        assert(reduced_from(m, cols, s, col) == reduced_from(m, cols, s, col + 1));
    }
}

/// Over a field with a linear order that does not put zero above one, the
/// reduction that goes on with row `s` and column `col` changes nothing when
/// it is run from there again on its own result.
pub proof fn lemma_second_reduction_changes_nothing<T: Number>(
    m: Seq<Seq<T>>,
    rows: int,
    cols: int,
    s: int,
    col: int,
)
    requires
        is_field::<T>(),
        is_linear_order::<T>(),
        zero_not_above_one::<T>(),
        is_matrix(m, rows, cols),
        0 <= s,
        0 <= col,
    ensures
        reduced_from(reduced_from(m, cols, s, col), cols, s, col) == reduced_from(m, cols, s, col),
    decreases cols - col,
{
    let zero = T::zero_spec();
    let result = reduced_from(m, cols, s, col);
    crate::linalg::matrix::reduction::lemma_reduced_keeps_shape(m, rows, cols, s, col);
    if s >= m.len() || col >= cols {
    } else if has_pivot(m, s, col) {
        lemma_pivot_scan_in_range(m, col, s, rows);
        crate::linalg::matrix::reduction::lemma_steps_keep_shape(m, rows, cols, s, col);
        let next = reduced_step(m, s, col);
        assert(result == reduced_from(next, cols, s + 1, col + 1));
        lemma_second_reduction_changes_nothing(next, rows, cols, s + 1, col + 1);
        assert(next[s][col] == T::one_spec());
        assert forall|i: int| 0 <= i < rows && i != s implies (#[trigger] next[i])[col]
            == zero by {}
        crate::linalg::matrix::pivots::lemma_reduced_keeps_column(
            next,
            rows,
            cols,
            s + 1,
            col + 1,
            col,
        );
        assert(result[s][col] == next[s][col]);
        assert forall|i: int| 0 <= i < rows && i != s implies (#[trigger] result[i])[col]
            == zero by {
            assert(result[i][col] == next[i][col]);
        }
        lemma_step_on_unit_column(result, rows, cols, s, col);
    } else {
        assert(result == reduced_from(m, cols, s, col + 1));
        lemma_second_reduction_changes_nothing(m, rows, cols, s, col + 1);
        lemma_no_pivot_is_settled(m, rows, s, col);
        lemma_reduction_keeps_settled(m, rows, cols, s, col + 1, col, s);
        lemma_no_pivot_is_settled(result, rows, s, col);
    }
}

/// Over a field with a linear order that does not put zero above one, the
/// reduction to reduced row echelon form is idempotent: reducing its result
/// again yields the same matrix.
pub proof fn lemma_reduced_form_idempotent<T: Number>(m: Seq<Seq<T>>, rows: int, cols: int)
    requires
        is_field::<T>(),
        is_linear_order::<T>(),
        zero_not_above_one::<T>(),
        is_matrix(m, rows, cols),
    ensures
        reduced_form(reduced_form(m, cols), cols) == reduced_form(m, cols),
{
    lemma_second_reduction_changes_nothing(m, rows, cols, 0, 0);
}

} // verus!
