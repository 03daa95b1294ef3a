//! Solving a linear system by row reduction of its augmented matrix.
//!
//! The augmented matrix holds the coefficients of the system `A x = b` and,
//! in its last column, the right-hand side `b`. It is brought to reduced row
//! echelon form, and the solutions are read off that form as the module
//! `pivot_walk` describes. What is read off is stated for all scalars. That
//! it describes the solutions of the system is stated over a field and for a
//! regular reduction (see the modules `field` and `reduced_shape`); the
//! module `soundness` proves it, and more.
//!
//! The entry points whose names start with `i` reduce the matrix in place,
//! the others work on a copy. Those whose names start with `u_` take the
//! numbers of rows and columns that the caller has checked already.

use crate::linalg::matrix::matrix::Matrix;
use crate::linalg::matrix::reduced_shape::{regular, rising};
use crate::linalg::matrix::reduction::reduced_form;
use crate::linalg::solvers::linear_system_solution::{LinearSystemSolution, vectors};
use crate::linalg::solvers::pivot_walk::{
    basis, basis_vector, direct_from, free_columns, homogeneous, inconsistent, inconsistent_from,
    lemma_free_columns, lemma_index_of_rising, lemma_next_one, lemma_pivots_rising, next_one,
    particular, pivot_columns, pivots_from, single_solution, solution_set, unit_vector,
};
use crate::linalg::solvers::soundness::{
    describes_solutions, lemma_single_solution_solves_system,
    lemma_solution_set_describes_solutions, solves,
};
use crate::linalg::vector::util::filled;
use crate::scalar::field::is_field;
use crate::scalar::number::Number;
use std::ops::Neg;
use vstd::prelude::*;
use vstd::std_specs::cmp::PartialEqSpec;

verus! {

/// Solves the system of the augmented matrix `aug_matrix` for one solution,
/// leaving the matrix as it is. There is none to return where a row of the
/// reduced matrix has no pivot right at the cursor: where an unknown is
/// free, or where the system has no solution.
pub fn solve_linear_system_rref<T: Number>(aug_matrix: &Matrix<T>) -> (answer: Option<Vec<T>>)
    requires
        aug_matrix.wf(),
        aug_matrix.cols >= 1,
    ensures
        match answer {
            Some(x) => single_solution(
                reduced_form(aug_matrix@, aug_matrix.cols as int),
                aug_matrix.cols - 1,
            ) == Some(x@),
            None => single_solution(
                reduced_form(aug_matrix@, aug_matrix.cols as int),
                aug_matrix.cols - 1,
            ) is None,
        },
        is_field::<T>() && regular(aug_matrix@, aug_matrix.cols as int) ==> match answer {
            Some(x) => solves(aug_matrix@, aug_matrix.cols - 1, x@),
            None => true,
        },
{
    u_solve_linear_system_rref(aug_matrix, aug_matrix.rows, aug_matrix.cols)
}

/// Solves for one solution the system of an augmented matrix that is known
/// to be well formed and to have `rows` rows and `cols` columns, leaving the
/// matrix as it is.
pub fn u_solve_linear_system_rref<T: Number>(aug_matrix: &Matrix<T>, rows: usize, cols: usize) -> (answer:
    Option<Vec<T>>)
    requires
        aug_matrix.wf(),
        rows == aug_matrix.rows,
        cols == aug_matrix.cols,
        cols >= 1,
    ensures
        match answer {
            Some(x) => single_solution(reduced_form(aug_matrix@, cols as int), cols - 1) == Some(
                x@,
            ),
            None => single_solution(reduced_form(aug_matrix@, cols as int), cols - 1) is None,
        },
        is_field::<T>() && regular(aug_matrix@, cols as int) ==> match answer {
            Some(x) => solves(aug_matrix@, cols - 1, x@),
            None => true,
        },
{
    proof {
        if is_field::<T>() && regular(aug_matrix@, cols as int) {
            let walk = single_solution(reduced_form(aug_matrix@, cols as int), cols - 1);
            if walk is Some {
                lemma_single_solution_solves_system(
                    aug_matrix@,
                    rows as int,
                    cols as int,
                    walk->Some_0,
                );
            }
        }
    }
    let mut matrix_copy = aug_matrix.clone();
    let mut des_vector = filled(T::zero(), cols - 1);
    assert(des_vector@ =~= crate::linalg::vector::util::zeros::<T>((cols - 1) as nat));
    if u_isolve_linear_system_rref(&mut matrix_copy, &mut des_vector, rows, cols) {
        Some(des_vector)
    } else {
        None
    }
}

/// Solves the system of the augmented matrix `aug_matrix` for one solution,
/// which is written to `answer_des`. The matrix is reduced in place. Returns
/// whether a solution was found; the entries of `answer_des` that the walk
/// did not reach are as they were.
pub fn isolve_linear_system_rref<T: Number>(aug_matrix: &mut Matrix<T>, answer_des: &mut Vec<T>) -> (ok:
    bool)
    requires
        old(aug_matrix).wf(),
        old(aug_matrix).cols >= 1,
        old(answer_des)@.len() == old(aug_matrix).cols - 1,
    ensures
        final(aug_matrix)@ == reduced_form(old(aug_matrix)@, old(aug_matrix).cols as int),
        final(aug_matrix).rows == old(aug_matrix).rows,
        final(aug_matrix).cols == old(aug_matrix).cols,
        final(aug_matrix).wf(),
        (ok, final(answer_des)@) == direct_from(
            final(aug_matrix)@,
            old(aug_matrix).cols - 1,
            0,
            old(answer_des)@,
        ),
{
    let rows = aug_matrix.rows;
    let cols = aug_matrix.cols;
    u_isolve_linear_system_rref(aug_matrix, answer_des, rows, cols)
}

/// Solves for one solution the system of an augmented matrix that is known
/// to be well formed and to have `rows` rows and `cols` columns. The solution
/// is written to `answer_des`, which has room for it; the matrix is reduced
/// in place.
pub fn u_isolve_linear_system_rref<T: Number>(
    aug_matrix: &mut Matrix<T>,
    answer_des: &mut Vec<T>,
    rows: usize,
    cols: usize,
) -> (ok: bool)
    requires
        old(aug_matrix).wf(),
        rows == old(aug_matrix).rows,
        cols == old(aug_matrix).cols,
        cols >= 1,
        old(answer_des)@.len() >= cols - 1,
    ensures
        final(aug_matrix)@ == reduced_form(old(aug_matrix)@, cols as int),
        final(aug_matrix).rows == old(aug_matrix).rows,
        final(aug_matrix).cols == old(aug_matrix).cols,
        final(aug_matrix).wf(),
        (ok, final(answer_des)@) == direct_from(final(aug_matrix)@, cols - 1, 0, old(answer_des)@),
{
    aug_matrix.u_reduced_row_echelon_form(rows, cols);
    let last_col = cols - 1;
    let ghost reduced = aug_matrix@;
    for row in 0..rows
        invariant
            aug_matrix.wf(),
            rows == aug_matrix.rows,
            cols == aug_matrix.cols,
            last_col == cols - 1,
            rows == old(aug_matrix).rows,
            cols == old(aug_matrix).cols,
            aug_matrix@ == reduced,
            reduced == reduced_form(old(aug_matrix)@, cols as int),
            answer_des@.len() >= last_col,
            direct_from(reduced, last_col as int, row as int, answer_des@) == direct_from(
                reduced,
                last_col as int,
                0,
                old(answer_des)@,
            ),
    {
        proof {
            T::operators_are_total();
        }
        if row >= last_col {
            return *aug_matrix.get_loc(row, last_col) == T::zero();
        }
        if *aug_matrix.get_loc(row, row) != T::one() {
            return false;
        }
        answer_des[row] = *aug_matrix.get_loc(row, last_col);
    }
    true
}

/// Solves the system of the augmented matrix `aug_matrix` for its whole
/// solution set, leaving the matrix as it is: the one solution, a basis of
/// the solutions where there are infinitely many, or the finding that there
/// is none.
pub fn solve_linear_system_basis_rref<T: Number>(aug_matrix: &Matrix<T>) -> (solution:
    LinearSystemSolution<T>)
    requires
        aug_matrix.wf(),
        aug_matrix.cols >= 1,
    ensures
        solution@ == solution_set(
            reduced_form(aug_matrix@, aug_matrix.cols as int),
            aug_matrix.cols - 1,
        ),
        is_field::<T>() && regular(aug_matrix@, aug_matrix.cols as int) ==> describes_solutions(
            aug_matrix@,
            aug_matrix.cols - 1,
            solution@,
        ),
{
    u_solve_linear_system_basis_rref(aug_matrix, aug_matrix.rows, aug_matrix.cols)
}

/// Solves for its whole solution set the system of an augmented matrix that
/// is known to be well formed and to have `rows` rows and `cols` columns,
/// leaving the matrix as it is.
pub fn u_solve_linear_system_basis_rref<T: Number>(
    aug_matrix: &Matrix<T>,
    rows: usize,
    cols: usize,
) -> (solution: LinearSystemSolution<T>)
    requires
        aug_matrix.wf(),
        rows == aug_matrix.rows,
        cols == aug_matrix.cols,
        cols >= 1,
    ensures
        solution@ == solution_set(reduced_form(aug_matrix@, cols as int), cols - 1),
        is_field::<T>() && regular(aug_matrix@, cols as int) ==> describes_solutions(
            aug_matrix@,
            cols - 1,
            solution@,
        ),
{
    let mut matrix_copy = aug_matrix.clone();
    u_isolve_linear_system_basis_rref(&mut matrix_copy, rows, cols)
}

/// Solves the system of the augmented matrix `aug_matrix` for its whole
/// solution set. The matrix is reduced in place.
pub fn isolve_linear_system_basis_rref<T: Number>(aug_matrix: &mut Matrix<T>) -> (solution:
    LinearSystemSolution<T>)
    requires
        old(aug_matrix).wf(),
        old(aug_matrix).cols >= 1,
    ensures
        final(aug_matrix)@ == reduced_form(old(aug_matrix)@, old(aug_matrix).cols as int),
        final(aug_matrix).rows == old(aug_matrix).rows,
        final(aug_matrix).cols == old(aug_matrix).cols,
        final(aug_matrix).wf(),
        solution@ == solution_set(final(aug_matrix)@, old(aug_matrix).cols - 1),
        is_field::<T>() && regular(old(aug_matrix)@, old(aug_matrix).cols as int)
            ==> describes_solutions(old(aug_matrix)@, old(aug_matrix).cols - 1, solution@),
{
    let rows = aug_matrix.rows;
    let cols = aug_matrix.cols;
    u_isolve_linear_system_basis_rref(aug_matrix, rows, cols)
}

/// The columns of a list, as integers.
spec fn as_ints(list: Seq<usize>) -> Seq<int> {
    Seq::new(list.len(), |k: int| list[k] as int)
}

/// What the walk has noted when its cursor stands at `cur`: which columns
/// before the cursor are free, their list, a unit vector for each of them,
/// and the right-hand sides of the pivot columns before the cursor.
spec fn noted<T: Number>(
    m: Seq<Seq<T>>,
    pivots: Seq<int>,
    last: int,
    cur: int,
    free_lookup: Seq<bool>,
    free_list: Seq<usize>,
    basis_vecs: Seq<Vec<T>>,
    answer: Seq<T>,
) -> bool {
    &&& free_lookup.len() == last
    &&& forall|c: int|
        0 <= c < last ==> #[trigger] free_lookup[c] == (c < cur && !pivots.contains(c))
    &&& as_ints(free_list) == free_columns(pivots, cur)
    &&& basis_vecs.len() == free_list.len()
    &&& forall|k: int|
        0 <= k < basis_vecs.len() ==> (#[trigger] basis_vecs[k])@ == unit_vector::<T>(
            last,
            free_list[k] as int,
        )
    &&& answer.len() == last
    &&& forall|c: int|
        0 <= c < last ==> #[trigger] answer[c] == (if c < cur && pivots.contains(c) {
            m[pivots.index_of(c)][last]
        } else {
            T::zero_spec()
        })
}

/// Noting a free column at the cursor moves the cursor on by one.
proof fn lemma_note_free<T: Number>(
    m: Seq<Seq<T>>,
    pivots: Seq<int>,
    last: int,
    cur: usize,
    free_lookup: Seq<bool>,
    free_list: Seq<usize>,
    basis_vecs: Seq<Vec<T>>,
    answer: Seq<T>,
    unit: Vec<T>,
)
    requires
        noted(m, pivots, last, cur as int, free_lookup, free_list, basis_vecs, answer),
        0 <= cur < last,
        !pivots.contains(cur as int),
        unit@ == unit_vector::<T>(last, cur as int),
    ensures
        noted(
            m,
            pivots,
            last,
            cur + 1,
            free_lookup.update(cur as int, true),
            free_list.push(cur),
            basis_vecs.push(unit),
            answer,
        ),
{
    assert(as_ints(free_list.push(cur)) =~= free_columns(pivots, cur + 1));
}

/// Noting the right-hand side of a pivot column at the cursor moves the
/// cursor on by one.
proof fn lemma_note_pivot<T: Number>(
    m: Seq<Seq<T>>,
    pivots: Seq<int>,
    last: int,
    cur: int,
    row: int,
    free_lookup: Seq<bool>,
    free_list: Seq<usize>,
    basis_vecs: Seq<Vec<T>>,
    answer: Seq<T>,
)
    requires
        noted(m, pivots, last, cur, free_lookup, free_list, basis_vecs, answer),
        0 <= cur < last,
        pivots.contains(cur),
        pivots.index_of(cur) == row,
    ensures
        noted(
            m,
            pivots,
            last,
            cur + 1,
            free_lookup,
            free_list,
            basis_vecs,
            answer.update(cur, m[row][last]),
        ),
{
}

/// Solves for its whole solution set the system of an augmented matrix that
/// is known to be well formed and to have `rows` rows and `cols` columns. The
/// matrix is reduced in place.
pub fn u_isolve_linear_system_basis_rref<T: Number>(
    aug_matrix: &mut Matrix<T>,
    rows: usize,
    cols: usize,
) -> (solution: LinearSystemSolution<T>)
    requires
        old(aug_matrix).wf(),
        rows == old(aug_matrix).rows,
        cols == old(aug_matrix).cols,
        cols >= 1,
    ensures
        final(aug_matrix)@ == reduced_form(old(aug_matrix)@, cols as int),
        final(aug_matrix).rows == old(aug_matrix).rows,
        final(aug_matrix).cols == old(aug_matrix).cols,
        final(aug_matrix).wf(),
        solution@ == solution_set(final(aug_matrix)@, cols - 1),
        is_field::<T>() && regular(old(aug_matrix)@, cols as int) ==> describes_solutions(
            old(aug_matrix)@,
            cols - 1,
            solution@,
        ),
{
    proof {
        if is_field::<T>() && regular(old(aug_matrix)@, cols as int) {
            lemma_solution_set_describes_solutions(old(aug_matrix)@, rows as int, cols as int);
        }
    }
    aug_matrix.u_reduced_row_echelon_form(rows, cols);
    let last_col = cols - 1;
    let ghost reduced = aug_matrix@;
    let ghost last = last_col as int;
    let ghost pivots = pivot_columns(reduced, last);
    proof {
        lemma_pivots_rising(reduced, last, 0, 0);
        assert(pivots.skip(0) =~= pivots);
    }
    let mut current_col: usize = 0;
    let mut answer_vec: Vec<T> = filled(T::zero(), last_col);
    let mut basis_vecs: Vec<Vec<T>> = Vec::new();
    let mut infinite_solutions = false;
    let mut free_lookup: Vec<bool> = filled(false, last_col);
    let mut free_list: Vec<usize> = Vec::with_capacity(last_col);
    let mut homogeneous = true;
    let mut row: usize = 0;
    proof {
        assert(as_ints(free_list@) =~= free_columns(pivots, 0));
    }
    while row < rows
        invariant
            aug_matrix.wf(),
            rows == aug_matrix.rows,
            cols == aug_matrix.cols,
            rows == old(aug_matrix).rows,
            cols == old(aug_matrix).cols,
            last_col == cols - 1,
            last == last_col,
            aug_matrix@ == reduced,
            reduced == reduced_form(old(aug_matrix)@, cols as int),
            pivots == pivot_columns(reduced, last),
            is_field::<T>() && regular(old(aug_matrix)@, cols as int) ==> describes_solutions(
                old(aug_matrix)@,
                last,
                solution_set(reduced, last),
            ),
            rising(pivots, 0, last),
            pivots.len() <= rows,
            row <= rows,
            current_col <= last_col,
            row <= pivots.len(),
            forall|j: int| 0 <= j < row ==> #[trigger] pivots[j] < current_col,
            pivots_from(reduced, last, row as int, current_col as int) == pivots.skip(row as int),
            inconsistent_from(reduced, last, row as int, current_col as int) == inconsistent(
                reduced,
                last,
            ),
            noted(
                reduced,
                pivots,
                last,
                current_col as int,
                free_lookup@,
                free_list@,
                basis_vecs@,
                answer_vec@,
            ),
            homogeneous == (forall|j: int|
                0 <= j < row ==> (#[trigger] reduced[j])[last].eq_spec(&T::zero_spec())),
            infinite_solutions == (free_list@.len() > 0),
        ensures
            pivots.len() == row,
            !inconsistent(reduced, last),
        decreases rows - row,
    {
        proof {
            T::operators_are_total();
            lemma_next_one(reduced[row as int], current_col as int, last);
        }
        let ghost pivot_col = next_one(reduced[row as int], current_col as int, last);
        proof {
            if pivot_col < last {
                assert(pivots.skip(row as int)[0] == pivot_col);
                assert(pivots.skip(row as int + 1) =~= pivots.skip(row as int).skip(1));
                assert((seq![pivot_col] + pivots_from(reduced, last, row + 1, pivot_col + 1)).skip(
                    1,
                ) =~= pivots_from(reduced, last, row + 1, pivot_col + 1));
            } else {
                assert(pivots.skip(row as int).len() == 0);
            }
        }
        while current_col < last_col && *aug_matrix.get_loc(row, current_col) != T::one()
            invariant
                aug_matrix.wf(),
                rows == aug_matrix.rows,
                cols == aug_matrix.cols,
                last_col == cols - 1,
                last == last_col,
                aug_matrix@ == reduced,
                rising(pivots, 0, last),
                row < rows,
                row <= pivots.len(),
                current_col <= last_col,
                current_col <= pivot_col <= last,
                pivot_col == next_one(reduced[row as int], current_col as int, last),
                forall|j: int| 0 <= j < row ==> #[trigger] pivots[j] < current_col,
                pivot_col < last ==> row < pivots.len() && pivots[row as int] == pivot_col,
                pivot_col == last ==> pivots.len() == row,
                noted(
                    reduced,
                    pivots,
                    last,
                    current_col as int,
                    free_lookup@,
                    free_list@,
                    basis_vecs@,
                    answer_vec@,
                ),
                infinite_solutions == (free_list@.len() > 0),
            decreases last_col - current_col,
        {
            proof {
                T::operators_are_total();
                lemma_next_one(reduced[row as int], current_col + 1, last);
                assert(pivot_col > current_col);
                assert(!pivots.contains(current_col as int)) by {
                    if pivots.contains(current_col as int) {
                        let j = pivots.index_of(current_col as int);
                        assert(pivots[j] == current_col);
                        if j < row {
                            assert(pivots[j] < current_col);
                        } else if j > row {
                            assert(pivots[row as int] < pivots[j]);
                        }
                    }
                }
            }
            let ghost lookup = free_lookup@;
            infinite_solutions = true;
            free_lookup[current_col] = true;
            let mut basis_vec = filled(T::zero(), last_col);
            basis_vec[current_col] = T::one();
            proof {
                assert(basis_vec@ =~= unit_vector::<T>(last, current_col as int));
                lemma_note_free(
                    reduced,
                    pivots,
                    last,
                    current_col,
                    lookup,
                    free_list@,
                    basis_vecs@,
                    answer_vec@,
                    basis_vec,
                );
            }
            basis_vecs.push(basis_vec);
            free_list.push(current_col);
            current_col += 1;
        }
        if current_col == last_col {
            if *aug_matrix.get_loc(row, current_col) != T::zero() {
                return LinearSystemSolution::NoSolution;
            }
            proof {
                assert(pivots.skip(row as int) =~= Seq::<int>::empty());
            }
            break ;
        }
        let temp = *aug_matrix.get_loc(row, last_col);
        proof {
            lemma_index_of_rising(pivots, 0, last, row as int);
            lemma_note_pivot(
                reduced,
                pivots,
                last,
                current_col as int,
                row as int,
                free_lookup@,
                free_list@,
                basis_vecs@,
                answer_vec@,
            );
            assert(as_ints(free_list@) =~= free_columns(pivots, current_col + 1));
        }
        answer_vec[current_col] = temp;
        if temp != T::zero() {
            homogeneous = false;
        }
        current_col += 1;
        row += 1;
    }
    let mut col = current_col;
    while col < last_col
        invariant
            last_col == cols - 1,
            last == last_col,
            current_col <= col <= last_col,
            forall|j: int| 0 <= j < pivots.len() ==> #[trigger] pivots[j] < current_col,
            noted(
                reduced,
                pivots,
                last,
                col as int,
                free_lookup@,
                free_list@,
                basis_vecs@,
                answer_vec@,
            ),
            infinite_solutions == (free_list@.len() > 0),
        decreases last_col - col,
    {
        proof {
            assert(!pivots.contains(col as int)) by {
                if pivots.contains(col as int) {
                    assert(pivots[pivots.index_of(col as int)] < current_col);
                }
            }
        }
        let ghost lookup = free_lookup@;
        infinite_solutions = true;
        free_lookup[col] = true;
        let mut basis_vec = filled(T::zero(), last_col);
        basis_vec[col] = T::one();
        proof {
            assert(basis_vec@ =~= unit_vector::<T>(last, col as int));
            lemma_note_free(
                reduced,
                pivots,
                last,
                col,
                lookup,
                free_list@,
                basis_vecs@,
                answer_vec@,
                basis_vec,
            );
        }
        basis_vecs.push(basis_vec);
        free_list.push(col);
        col += 1;
    }
    proof {
        lemma_free_columns(pivots, last);
        assert(answer_vec@ =~= particular(reduced, pivots, last));
    }
    if !infinite_solutions {
        LinearSystemSolution::Solution(answer_vec)
    } else {
        let free_count = basis_vecs.len();
        let mut k: usize = 0;
        while k < free_count
            invariant
                aug_matrix.wf(),
                rows == aug_matrix.rows,
                cols == aug_matrix.cols,
                last_col == cols - 1,
                last == last_col,
                aug_matrix@ == reduced,
                rising(pivots, 0, last),
                pivots.len() <= rows,
                free_lookup@.len() == last,
                forall|c: int| 0 <= c < last ==> #[trigger] free_lookup@[c] == !pivots.contains(c),
                as_ints(free_list@) == free_columns(pivots, last),
                free_count == free_list@.len(),
                basis_vecs@.len() == free_count,
                k <= free_count,
                forall|n: int|
                    0 <= n < k ==> (#[trigger] basis_vecs@[n])@ == basis_vector(
                        reduced,
                        pivots,
                        last,
                        free_list@[n] as int,
                    ),
                forall|n: int|
                    k <= n < free_count ==> (#[trigger] basis_vecs@[n])@ == unit_vector::<T>(
                        last,
                        free_list@[n] as int,
                    ),
            decreases free_count - k,
        {
            let free_col = free_list[k];
            proof {
                lemma_free_columns(pivots, last);
                assert(as_ints(free_list@)[k as int] == free_col);
            }
            let mut pivot_row: usize = 0;
            let mut i: usize = 0;
            while i < last_col
                invariant
                    aug_matrix.wf(),
                    rows == aug_matrix.rows,
                    cols == aug_matrix.cols,
                    last_col == cols - 1,
                    last == last_col,
                    aug_matrix@ == reduced,
                    rising(pivots, 0, last),
                    pivots.len() <= rows,
                    free_lookup@.len() == last,
                    forall|c: int|
                        0 <= c < last ==> #[trigger] free_lookup@[c] == !pivots.contains(c),
                    free_count == free_list@.len(),
                    basis_vecs@.len() == free_count,
                    k < free_count,
                    free_col == free_list@[k as int],
                    free_col < last_col,
                    !pivots.contains(free_col as int),
                    i <= last_col,
                    pivot_row <= pivots.len(),
                    forall|j: int| 0 <= j < pivot_row ==> #[trigger] pivots[j] < i,
                    forall|j: int| pivot_row <= j < pivots.len() ==> #[trigger] pivots[j] >= i,
                    forall|n: int|
                        0 <= n < k ==> (#[trigger] basis_vecs@[n])@ == basis_vector(
                            reduced,
                            pivots,
                            last,
                            free_list@[n] as int,
                        ),
                    forall|n: int|
                        k < n < free_count ==> (#[trigger] basis_vecs@[n])@ == unit_vector::<T>(
                            last,
                            free_list@[n] as int,
                        ),
                    basis_vecs@[k as int]@.len() == last,
                    forall|c: int|
                        0 <= c < last ==> #[trigger] basis_vecs@[k as int]@[c] == (if c < i {
                            basis_vector(reduced, pivots, last, free_col as int)[c]
                        } else {
                            unit_vector::<T>(last, free_col as int)[c]
                        }),
                decreases last_col - i,
            {
                proof {
                    T::operators_are_total();
                }
                if !free_lookup[i] {
                    proof {
                        let j = pivots.index_of(i as int);
                        assert(0 <= j < pivots.len() && pivots[j] == i);
                        if j < pivot_row {
                            assert(pivots[j] < i);
                        } else if j > pivot_row {
                            assert(pivots[pivot_row as int] < pivots[j]);
                            assert(pivots[pivot_row as int] >= i);
                        }
                        assert(j == pivot_row);
                    }
                    let entry = aug_matrix.get_loc(pivot_row, free_col).neg();
                    basis_vecs[k][i] = entry;
                    pivot_row += 1;
                } else {
                    proof {
                        assert forall|j: int| pivot_row <= j < pivots.len() implies #[trigger] pivots[j]
                            >= i + 1 by {
                            if pivots[j] == i {
                                assert(pivots.contains(i as int));
                            }
                        }
                    }
                }
                i += 1;
            }
            proof {
                assert(basis_vecs@[k as int]@ =~= basis_vector(
                    reduced,
                    pivots,
                    last,
                    free_col as int,
                ));
            }
            k += 1;
        }
        proof {
            assert(vectors(basis_vecs@) =~= basis(reduced, pivots, last)) by {
                assert forall|n: int| 0 <= n < free_count implies vectors(basis_vecs@)[n] == basis(
                    reduced,
                    pivots,
                    last,
                )[n] by {
                    assert(as_ints(free_list@)[n] == free_list@[n]);
                }
            }
        }
        if homogeneous {
            LinearSystemSolution::HomogenousBasis(basis_vecs)
        } else {
            LinearSystemSolution::AffineBasis(answer_vec, basis_vecs)
        }
    }
}

} // verus!
