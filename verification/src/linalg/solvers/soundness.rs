//! The solution sets that the solver returns solve the system.
//!
//! All of this is over a field and for a regular reduction (see
//! `reduced_shape`). The system is `A x = b`, where `A` is the augmented
//! matrix without its last column and `b` is that column.

use crate::linalg::matrix::reduced_shape::{
    annihilates, lemma_reduced_form_is_reduced, lemma_reduced_form_keeps_kernel, reduced_with,
    regular,
};
use crate::linalg::matrix::matrix_mult::column;
use crate::linalg::matrix::matrix_transpose::transposed;
use crate::linalg::matrix::reduction::{is_matrix, reduced_form};
use crate::linalg::solvers::linear_system_solution::SolutionSet;
use crate::linalg::solvers::pivot_walk::{
    basis, basis_vector, direct_from, free_columns, inconsistent, inconsistent_from,
    lemma_free_column_listed, lemma_free_columns, lemma_free_columns_prefix, lemma_index_of_rising, next_one, particular, pivot_columns, pivots_from, single_solution,
    solution_set,
};
use crate::linalg::vector::dot::{
    dot, dot_upto, lemma_dot_upto_no_term, lemma_dot_upto_one_term, lemma_dot_upto_prefix,
    lemma_dot_upto_two_terms, mat_vec,
};
use crate::linalg::vector::util::zeros;
use crate::linalg::vector::vector_add::vector_sum;
use crate::scalar::field::{
    is_field, lemma_add_assoc, lemma_add_comm, lemma_add_interchange, lemma_add_neg,
    lemma_add_negated, lemma_add_zero, lemma_difference_zero, lemma_distributive, lemma_eq,
    lemma_mul_one, lemma_mul_zero, lemma_zero_is_not_one,
};
use crate::scalar::number::Number;
use vstd::prelude::*;
use vstd::std_specs::cmp::PartialEqSpec;
use vstd::std_specs::ops::{AddSpec, MulSpec, NegSpec};

verus! {

/// The coefficient matrix `A` of the augmented matrix `m`, whose right-hand
/// side is column `last`.
pub open spec fn coefficients<T>(m: Seq<Seq<T>>, last: int) -> Seq<Seq<T>> {
    Seq::new(m.len(), |r: int| m[r].take(last))
}

/// The right-hand side `b` of the augmented matrix `m`: its column `last`.
pub open spec fn right_hand_side<T>(m: Seq<Seq<T>>, last: int) -> Seq<T> {
    Seq::new(m.len(), |r: int| m[r][last])
}

/// How many of the pivot columns are columns of coefficients: all, or all
/// but the last where that one is the right-hand side.
pub open spec fn coefficient_pivots(pivots: Seq<int>, last: int) -> int {
    if pivots.len() > 0 && pivots.last() == last {
        pivots.len() - 1
    } else {
        pivots.len() as int
    }
}

/// The first one of a row is where a one stands with no one before it.
proof fn lemma_next_one_found<T: Number>(row: Seq<T>, from: int, last: int, at: int)
    requires
        from <= at <= last,
        at < last ==> row[at].eq_spec(&T::one_spec()),
        forall|c: int| from <= c < at ==> !(#[trigger] row[c]).eq_spec(&T::one_spec()),
    ensures
        next_one(row, from, last) == at,
    decreases at - from,
{
    if from < at {
        lemma_next_one_found(row, from + 1, last, at);
    }
}

/// On a matrix in reduced row echelon form the walk finds the pivot columns
/// that are columns of coefficients, and it finds the system to have no
/// solution just when the right-hand side is a pivot column.
proof fn lemma_walk_finds_pivots<T: Number>(
    m: Seq<Seq<T>>,
    rows: int,
    cols: int,
    pivots: Seq<int>,
    r: int,
    cur: int,
)
    requires
        is_field::<T>(),
        cols >= 1,
        reduced_with(m, rows, cols, pivots),
        0 <= r <= coefficient_pivots(pivots, cols - 1),
        0 <= cur <= cols - 1,
        forall|j: int| 0 <= j < r ==> #[trigger] pivots[j] < cur,
        r < pivots.len() ==> cur <= pivots[r],
    ensures
        pivots_from(m, cols - 1, r, cur) == pivots.subrange(
            r,
            coefficient_pivots(pivots, cols - 1),
        ),
        inconsistent_from(m, cols - 1, r, cur) == (coefficient_pivots(pivots, cols - 1)
            < pivots.len()),
    decreases rows - r,
{
    let last = cols - 1;
    let k = coefficient_pivots(pivots, last);
    let zero = T::zero_spec();
    let one = T::one_spec();
    lemma_zero_is_not_one::<T>();
    if r >= rows {
        assert(pivots.subrange(r, k) =~= Seq::<int>::empty());
    } else if r < k {
        let at = pivots[r];
        assert(m[r][pivots[r]] == one);
        lemma_eq(m[r][at], one);
        assert(at < last) by {
            if k < pivots.len() {
                assert(pivots[r] < pivots[pivots.len() - 1]);
            }
        }
        assert forall|c: int| cur <= c < at implies !(#[trigger] m[r][c]).eq_spec(&one) by {
            assert(m[r][c] == zero);
        }
        lemma_next_one_found(m[r], cur, last, at);
        assert forall|j: int| 0 <= j < r + 1 implies #[trigger] pivots[j] < at + 1 by {
            if j < r {
                assert(pivots[j] < pivots[r]);
            }
        }
        if r + 1 < pivots.len() {
            assert(pivots[r] < pivots[r + 1]);
        }
        lemma_walk_finds_pivots(m, rows, cols, pivots, r + 1, at + 1);
        assert(seq![at] + pivots.subrange(r + 1, k) =~= pivots.subrange(r, k));
    } else {
        // Row `r` has no pivot among the coefficients.
        assert forall|c: int| cur <= c < last implies !(#[trigger] m[r][c]).eq_spec(&one) by {
            assert(m[r][c] == zero) by {
                if r < pivots.len() {
                    assert(pivots[r] == last);
                }
            }
        }
        lemma_next_one_found(m[r], cur, last, last);
        assert(pivots.subrange(r, k) =~= Seq::<int>::empty());
        if r < pivots.len() {
            assert(m[r][pivots[r]] == one);
            lemma_eq(m[r][last], zero);
        } else {
            assert(m[r][last] == zero);
            lemma_eq(m[r][last], zero);
        }
    }
}

/// Over a field, the rows of a consistent matrix in reduced row echelon form
/// annihilate the particular solution, extended by minus one.
proof fn lemma_particular_annihilated<T: Number>(
    m: Seq<Seq<T>>,
    rows: int,
    cols: int,
    pivots: Seq<int>,
)
    requires
        is_field::<T>(),
        cols >= 1,
        reduced_with(m, rows, cols, pivots),
        coefficient_pivots(pivots, cols - 1) == pivots.len(),
    ensures
        annihilates(m, particular(m, pivots, cols - 1).push(T::one_spec().neg_spec())),
{
    let last = cols - 1;
    let zero = T::zero_spec();
    let one = T::one_spec();
    let y = particular(m, pivots, last).push(one.neg_spec());
    assert forall|i: int| 0 <= i < m.len() implies dot(#[trigger] m[i], y) == zero by {
        if i < pivots.len() {
            let at = pivots[i];
            lemma_index_of_rising(pivots, 0, cols, i);
            assert forall|j: int| 0 <= j < cols && j != at && j != last implies m[i][j].mul_spec(
                y[j],
            ) == zero by {
                if pivots.contains(j) {
                    let n = pivots.index_of(j);
                    assert(pivots[n] == j);
                    assert(m[i][pivots[n]] == zero);
                    lemma_mul_zero(y[j]);
                } else {
                    lemma_mul_zero(m[i][j]);
                }
            }
            lemma_dot_upto_two_terms(m[i], y, cols, at, last);
            assert(m[i][pivots[i]] == one);
            assert(y[at] == m[i][last]);
            lemma_mul_one(m[i][last]);
            lemma_add_negated(m[i][last]);
        } else {
            assert forall|j: int| 0 <= j < cols implies m[i][j].mul_spec(y[j]) == zero by {
                assert(m[i][j] == zero);
                lemma_mul_zero(y[j]);
            }
            lemma_dot_upto_no_term(m[i], y, cols);
        }
    }
}

/// Over a field, the rows of a consistent matrix in reduced row echelon form
/// annihilate the basis vector of each free column, extended by zero.
proof fn lemma_basis_vector_annihilated<T: Number>(
    m: Seq<Seq<T>>,
    rows: int,
    cols: int,
    pivots: Seq<int>,
    f: int,
)
    requires
        is_field::<T>(),
        cols >= 1,
        reduced_with(m, rows, cols, pivots),
        coefficient_pivots(pivots, cols - 1) == pivots.len(),
        0 <= f < cols - 1,
        !pivots.contains(f),
    ensures
        annihilates(m, basis_vector(m, pivots, cols - 1, f).push(T::zero_spec())),
{
    let last = cols - 1;
    let zero = T::zero_spec();
    let one = T::one_spec();
    let y = basis_vector(m, pivots, last, f).push(zero);
    assert forall|i: int| 0 <= i < m.len() implies dot(#[trigger] m[i], y) == zero by {
        if i < pivots.len() {
            let at = pivots[i];
            lemma_index_of_rising(pivots, 0, cols, i);
            assert(at != f);
            assert(at < last);
            assert forall|j: int| 0 <= j < cols && j != at && j != f implies m[i][j].mul_spec(
                y[j],
            ) == zero by {
                if j < last && pivots.contains(j) {
                    let n = pivots.index_of(j);
                    assert(pivots[n] == j);
                    assert(m[i][pivots[n]] == zero);
                    lemma_mul_zero(y[j]);
                } else {
                    lemma_mul_zero(m[i][j]);
                }
            }
            lemma_dot_upto_two_terms(m[i], y, cols, at, f);
            assert(m[i][pivots[i]] == one);
            assert(y[at] == m[i][f].neg_spec());
            assert(y[f] == one);
            lemma_mul_one(m[i][f].neg_spec());
            lemma_mul_one(m[i][f]);
            lemma_add_neg(m[i][f]);
        } else {
            assert forall|j: int| 0 <= j < cols implies m[i][j].mul_spec(y[j]) == zero by {
                assert(m[i][j] == zero);
                lemma_mul_zero(y[j]);
            }
            lemma_dot_upto_no_term(m[i], y, cols);
        }
    }
}

/// What the walk finds on the reduced form of a matrix whose reduction is
/// regular: the pivot columns of a matrix in reduced row echelon form, which
/// are returned.
proof fn lemma_walk_on_reduced_form<T: Number>(m: Seq<Seq<T>>, rows: int, cols: int) -> (pivots:
    Seq<int>)
    requires
        is_field::<T>(),
        cols >= 1,
        is_matrix(m, rows, cols),
        regular(m, cols),
    ensures
        reduced_with(reduced_form(m, cols), rows, cols, pivots),
        inconsistent(reduced_form(m, cols), cols - 1) == (coefficient_pivots(pivots, cols - 1)
            < pivots.len()),
        !inconsistent(reduced_form(m, cols), cols - 1) ==> pivot_columns(
            reduced_form(m, cols),
            cols - 1,
        ) == pivots,
{
    let reduced = reduced_form(m, cols);
    lemma_reduced_form_is_reduced(m, rows, cols);
    let pivots = choose|pivots: Seq<int>| reduced_with(reduced, rows, cols, pivots);
    lemma_walk_finds_pivots(reduced, rows, cols, pivots, 0, 0);
    assert(pivots.subrange(0, pivots.len() as int) =~= pivots);
    pivots
}

/// Over a field and for a regular reduction, a vector that the rows of the
/// reduced augmented matrix annihilate when it is extended by `t` satisfies
/// `A x + t * b = 0` for the system that was given.
proof fn lemma_back_to_system<T: Number>(
    m: Seq<Seq<T>>,
    rows: int,
    cols: int,
    x: Seq<T>,
    t: T,
    r: int,
)
    requires
        is_field::<T>(),
        cols >= 1,
        is_matrix(m, rows, cols),
        regular(m, cols),
        x.len() == cols - 1,
        annihilates(reduced_form(m, cols), x.push(t)),
        0 <= r < rows,
    ensures
        dot(m[r].take(cols - 1), x).add_spec(m[r][cols - 1].mul_spec(t)) == T::zero_spec(),
{
    let last = cols - 1;
    lemma_reduced_form_keeps_kernel(m, rows, cols, x.push(t));
    assert(dot(m[r], x.push(t)) == T::zero_spec());
    lemma_dot_upto_prefix(m[r], x.push(t), m[r].take(last), x, last);
}

/// Over a field and for a regular reduction, a unique solution that the
/// solver returns solves the system: `A x = b`.
pub proof fn lemma_solution_solves_system<T: Number>(
    m: Seq<Seq<T>>,
    rows: int,
    cols: int,
    x: Seq<T>,
)
    requires
        is_field::<T>(),
        cols >= 1,
        is_matrix(m, rows, cols),
        regular(m, cols),
        solution_set(reduced_form(m, cols), cols - 1) == SolutionSet::Solution(x),
    ensures
        mat_vec(coefficients(m, cols - 1), x) == right_hand_side(m, cols - 1),
{
    lemma_particular_solves_system(m, rows, cols);
}

/// Over a field and for a regular reduction of a system that the walk finds
/// consistent, the particular solution solves the system.
proof fn lemma_particular_solves_system<T: Number>(m: Seq<Seq<T>>, rows: int, cols: int)
    requires
        is_field::<T>(),
        cols >= 1,
        is_matrix(m, rows, cols),
        regular(m, cols),
        !inconsistent(reduced_form(m, cols), cols - 1),
    ensures
        mat_vec(
            coefficients(m, cols - 1),
            particular(
                reduced_form(m, cols),
                pivot_columns(reduced_form(m, cols), cols - 1),
                cols - 1,
            ),
        ) == right_hand_side(m, cols - 1),
{
    let last = cols - 1;
    let reduced = reduced_form(m, cols);
    let pivots = lemma_walk_on_reduced_form(m, rows, cols);
    let x = particular(reduced, pivots, last);
    let minus_one = T::one_spec().neg_spec();
    lemma_particular_annihilated(reduced, rows, cols, pivots);
    assert forall|r: int| 0 <= r < rows implies dot(#[trigger] m[r].take(last), x)
        == m[r][last] by {
        lemma_back_to_system(m, rows, cols, x, minus_one, r);
        lemma_difference_zero(dot(m[r].take(last), x), m[r][last]);
    }
    assert(mat_vec(coefficients(m, last), x) =~= right_hand_side(m, last));
}

/// Over a field and for a regular reduction of a system that the walk finds
/// consistent, each basis vector solves the homogeneous system.
proof fn lemma_basis_solves_homogeneous<T: Number>(m: Seq<Seq<T>>, rows: int, cols: int, k: int)
    requires
        is_field::<T>(),
        cols >= 1,
        is_matrix(m, rows, cols),
        regular(m, cols),
        !inconsistent(reduced_form(m, cols), cols - 1),
        0 <= k < basis(
            reduced_form(m, cols),
            pivot_columns(reduced_form(m, cols), cols - 1),
            cols - 1,
        ).len(),
    ensures
        mat_vec(
            coefficients(m, cols - 1),
            basis(
                reduced_form(m, cols),
                pivot_columns(reduced_form(m, cols), cols - 1),
                cols - 1,
            )[k],
        ) == zeros::<T>(rows as nat),
{
    let last = cols - 1;
    let zero = T::zero_spec();
    let reduced = reduced_form(m, cols);
    let pivots = lemma_walk_on_reduced_form(m, rows, cols);
    lemma_free_columns(pivots, last);
    let f = free_columns(pivots, last)[k];
    let v = basis_vector(reduced, pivots, last, f);
    assert(basis(reduced, pivots, last)[k] == v);
    lemma_basis_vector_annihilated(reduced, rows, cols, pivots, f);
    assert forall|r: int| 0 <= r < rows implies dot(#[trigger] m[r].take(last), v) == zero by {
        lemma_back_to_system(m, rows, cols, v, zero, r);
        lemma_mul_zero(m[r][last]);
        lemma_add_zero(dot(m[r].take(last), v));
    }
    assert(mat_vec(coefficients(m, last), v) =~= zeros::<T>(rows as nat));
}

/// Over a field and for a regular reduction, each vector of a homogeneous
/// basis that the solver returns solves the homogeneous system: `A v = 0`.
pub proof fn lemma_homogeneous_basis_solves_system<T: Number>(
    m: Seq<Seq<T>>,
    rows: int,
    cols: int,
    vs: Seq<Seq<T>>,
    k: int,
)
    requires
        is_field::<T>(),
        cols >= 1,
        is_matrix(m, rows, cols),
        regular(m, cols),
        solution_set(reduced_form(m, cols), cols - 1) == SolutionSet::HomogenousBasis(vs),
        0 <= k < vs.len(),
    ensures
        mat_vec(coefficients(m, cols - 1), vs[k]) == zeros::<T>(rows as nat),
{
    lemma_basis_solves_homogeneous(m, rows, cols, k);
}

/// Over a field and for a regular reduction, the particular solution of an
/// affine basis that the solver returns solves the system, `A p = b`, and
/// each of its basis vectors solves the homogeneous system, `A v = 0`.
pub proof fn lemma_affine_basis_solves_system<T: Number>(
    m: Seq<Seq<T>>,
    rows: int,
    cols: int,
    p: Seq<T>,
    vs: Seq<Seq<T>>,
    k: int,
)
    requires
        is_field::<T>(),
        cols >= 1,
        is_matrix(m, rows, cols),
        regular(m, cols),
        solution_set(reduced_form(m, cols), cols - 1) == SolutionSet::AffineBasis(p, vs),
        0 <= k < vs.len(),
    ensures
        mat_vec(coefficients(m, cols - 1), p) == right_hand_side(m, cols - 1),
        mat_vec(coefficients(m, cols - 1), vs[k]) == zeros::<T>(rows as nat),
{
    lemma_particular_solves_system(m, rows, cols);
    lemma_basis_solves_homogeneous(m, rows, cols, k);
}

/// How many rows the walk for one solution passes from row `r` on: those
/// that have a one right at the cursor.
pub open spec fn direct_rows<T: Number>(m: Seq<Seq<T>>, last: int, r: int) -> int
    decreases m.len() - r,
{
    if r >= m.len() || r >= last || !m[r][r].eq_spec(&T::one_spec()) {
        0
    } else {
        1 + direct_rows(m, last, r + 1)
    }
}

/// Where the walk for one solution succeeds from row `r` on, with the cursor
/// in column `r`, the walk for the whole solution set finds the system
/// consistent, with its pivots in the columns from `r` on, one after the
/// other; and the answer has the right-hand sides of these rows.
proof fn lemma_direct_walk<T: Number>(m: Seq<Seq<T>>, last: int, r: int, answer: Seq<T>)
    requires
        0 <= r,
        0 <= last <= answer.len(),
        direct_from(m, last, r, answer).0,
    ensures
        !inconsistent_from(m, last, r, r),
        0 <= direct_rows(m, last, r),
        r + direct_rows(m, last, r) <= last || direct_rows(m, last, r) == 0,
        r + direct_rows(m, last, r) <= m.len() || direct_rows(m, last, r) == 0,
        pivots_from(m, last, r, r) == Seq::new(
            direct_rows(m, last, r) as nat,
            |j: int| r + j,
        ),
        direct_from(m, last, r, answer).1 == Seq::new(
            answer.len(),
            |c: int|
                if r <= c < r + direct_rows(m, last, r) {
                    m[c][last]
                } else {
                    answer[c]
                },
        ),
    decreases m.len() - r,
{
    let count = direct_rows(m, last, r);
    let steps = Seq::new(count as nat, |j: int| r + j);
    let written = Seq::new(
        answer.len(),
        |c: int|
            if r <= c < r + count {
                m[c][last]
            } else {
                answer[c]
            },
    );
    if r >= m.len() {
        assert(pivots_from(m, last, r, r) =~= steps);
        assert(direct_from(m, last, r, answer).1 =~= written);
    } else if r >= last {
        assert(next_one(m[r], r, last) == last);
        assert(pivots_from(m, last, r, r) =~= steps);
        assert(direct_from(m, last, r, answer).1 =~= written);
    } else {
        assert(m[r][r].eq_spec(&T::one_spec()));
        assert(next_one(m[r], r, last) == r);
        let next = answer.update(r, m[r][last]);
        lemma_direct_walk(m, last, r + 1, next);
        let rest = direct_rows(m, last, r + 1);
        assert(count == 1 + rest);
        assert(seq![r] + Seq::new(rest as nat, |j: int| r + 1 + j) =~= steps);
        assert(direct_from(m, last, r, answer).1 =~= written);
    }
}

/// Where the walk for one solution succeeds on an answer that starts as
/// zero, the walk for the whole solution set finds the system consistent,
/// and the answer is its particular solution.
pub proof fn lemma_direct_answer_is_particular<T: Number>(m: Seq<Seq<T>>, last: int)
    requires
        0 <= last,
        direct_from(m, last, 0, zeros::<T>(last as nat)).0,
    ensures
        !inconsistent(m, last),
        direct_from(m, last, 0, zeros::<T>(last as nat)).1 == particular(
            m,
            pivot_columns(m, last),
            last,
        ),
{
    let answer = zeros::<T>(last as nat);
    lemma_direct_walk(m, last, 0, answer);
    let count = direct_rows(m, last, 0);
    let pivots = pivot_columns(m, last);
    let out = direct_from(m, last, 0, answer).1;
    assert forall|c: int| 0 <= c < last implies out[c] == particular(m, pivots, last)[c] by {
        if 0 <= c < count {
            assert(pivots[c] == c);
            assert(pivots.contains(c));
            let n = pivots.index_of(c);
            assert(pivots[n] == n);
        } else if pivots.contains(c) {
            let n = pivots.index_of(c);
            assert(pivots[n] == n);
        }
    }
    assert(out =~= particular(m, pivots, last));
}

/// Over a field and for a regular reduction, the one solution that the
/// solver returns where it looks for no more solves the system: `A x = b`.
pub proof fn lemma_single_solution_solves_system<T: Number>(
    m: Seq<Seq<T>>,
    rows: int,
    cols: int,
    x: Seq<T>,
)
    requires
        is_field::<T>(),
        cols >= 1,
        is_matrix(m, rows, cols),
        regular(m, cols),
        single_solution(reduced_form(m, cols), cols - 1) == Some(x),
    ensures
        solves(m, cols - 1, x),
{
    lemma_direct_answer_is_particular(reduced_form(m, cols), cols - 1);
    lemma_particular_solves_system(m, rows, cols);
}

/// `x` solves the system of the augmented matrix `m`: `A x = b`.
pub open spec fn solves<T: Number>(m: Seq<Seq<T>>, last: int, x: Seq<T>) -> bool {
    &&& x.len() == last
    &&& mat_vec(coefficients(m, last), x) == right_hand_side(m, last)
}

/// Over a field, `x` solves the system just when the rows of the augmented
/// matrix annihilate `x` extended by minus one.
pub proof fn lemma_solves_is_annihilated<T: Number>(m: Seq<Seq<T>>, rows: int, cols: int, x: Seq<T>)
    requires
        is_field::<T>(),
        cols >= 1,
        is_matrix(m, rows, cols),
        x.len() == cols - 1,
    ensures
        solves(m, cols - 1, x) <==> annihilates(m, x.push(T::one_spec().neg_spec())),
{
    let last = cols - 1;
    let minus_one = T::one_spec().neg_spec();
    let y = x.push(minus_one);
    assert forall|r: int| 0 <= r < rows implies dot(#[trigger] m[r], y) == dot(
        m[r].take(last),
        x,
    ).add_spec(m[r][last].mul_spec(minus_one)) by {
        lemma_dot_upto_prefix(m[r], y, m[r].take(last), x, last);
    }
    if solves(m, last, x) {
        assert forall|r: int| 0 <= r < m.len() implies dot(#[trigger] m[r], y)
            == T::zero_spec() by {
            assert(mat_vec(coefficients(m, last), x)[r] == right_hand_side(m, last)[r]);
            lemma_add_negated(m[r][last]);
        }
    }
    if annihilates(m, y) {
        assert forall|r: int| 0 <= r < rows implies dot(#[trigger] m[r].take(last), x)
            == m[r][last] by {
            assert(dot(m[r], y) == T::zero_spec());
            lemma_difference_zero(dot(m[r].take(last), x), m[r][last]);
        }
        assert(mat_vec(coefficients(m, last), x) =~= right_hand_side(m, last));
    }
}

/// Over a field and for a regular reduction, a system for which the solver
/// returns no solution has none.
pub proof fn lemma_no_solution_exists<T: Number>(m: Seq<Seq<T>>, rows: int, cols: int, x: Seq<T>)
    requires
        is_field::<T>(),
        cols >= 1,
        is_matrix(m, rows, cols),
        regular(m, cols),
        solution_set(reduced_form(m, cols), cols - 1) == SolutionSet::<T>::NoSolution,
    ensures
        !solves(m, cols - 1, x),
{
    let last = cols - 1;
    let zero = T::zero_spec();
    let one = T::one_spec();
    let reduced = reduced_form(m, cols);
    if solves(m, last, x) {
        let y = x.push(one.neg_spec());
        lemma_solves_is_annihilated(m, rows, cols, x);
        lemma_reduced_form_keeps_kernel(m, rows, cols, y);
        let pivots = lemma_walk_on_reduced_form(m, rows, cols);
        // The last pivot is in the column of the right-hand side.
        let at = pivots.len() - 1;
        assert(pivots[at] == last);
        assert(reduced[at][pivots[at]] == one);
        assert forall|c: int| 0 <= c < cols && c != last implies reduced[at][c].mul_spec(y[c])
            == zero by {
            assert(reduced[at][c] == zero);
            lemma_mul_zero(y[c]);
        }
        lemma_dot_upto_one_term(reduced[at], y, cols, last);
        assert(dot(reduced[at], y) == zero);
        lemma_mul_one(one.neg_spec());
        assert(one.neg_spec() == zero);
        lemma_add_neg(one);
        lemma_add_zero(one);
        lemma_zero_is_not_one::<T>();
    }
}

/// Where no column is free, every column is a pivot column.
proof fn lemma_no_free_column(pivots: Seq<int>, n: int, c: int)
    requires
        free_columns(pivots, n).len() == 0,
        0 <= c < n,
    ensures
        pivots.contains(c),
    decreases n,
{
    if c < n - 1 {
        lemma_no_free_column(pivots, n - 1, c);
    }
}

/// Over a field and for a regular reduction, the solution that the solver
/// returns as the one solution is the only one.
pub proof fn lemma_solution_is_unique<T: Number>(
    m: Seq<Seq<T>>,
    rows: int,
    cols: int,
    x: Seq<T>,
    other: Seq<T>,
)
    requires
        is_field::<T>(),
        cols >= 1,
        is_matrix(m, rows, cols),
        regular(m, cols),
        solution_set(reduced_form(m, cols), cols - 1) == SolutionSet::Solution(x),
        solves(m, cols - 1, other),
    ensures
        other == x,
{
    let last = cols - 1;
    let zero = T::zero_spec();
    let one = T::one_spec();
    let reduced = reduced_form(m, cols);
    let y = other.push(one.neg_spec());
    lemma_solves_is_annihilated(m, rows, cols, other);
    lemma_reduced_form_keeps_kernel(m, rows, cols, y);
    let pivots = lemma_walk_on_reduced_form(m, rows, cols);
    assert forall|c: int| 0 <= c < last implies other[c] == x[c] by {
        lemma_no_free_column(pivots, last, c);
        let i = pivots.index_of(c);
        assert(pivots[i] == c);
        assert forall|j: int| 0 <= j < cols && j != c && j != last implies reduced[i][j].mul_spec(
            y[j],
        ) == zero by {
            lemma_no_free_column(pivots, last, j);
            let n = pivots.index_of(j);
            assert(pivots[n] == j);
            assert(reduced[i][pivots[n]] == zero);
            lemma_mul_zero(y[j]);
        }
        lemma_dot_upto_two_terms(reduced[i], y, cols, c, last);
        assert(dot(reduced[i], y) == zero);
        assert(reduced[i][pivots[i]] == one);
        lemma_mul_one(other[c]);
        lemma_difference_zero(other[c], reduced[i][last]);
    }
    assert(other =~= x);
}

/// The entries of `z` in the columns `columns`.
pub open spec fn coordinates<T>(z: Seq<T>, columns: Seq<int>) -> Seq<T> {
    Seq::new(columns.len(), |k: int| z[columns[k]])
}

/// The vector of length `n` that is made of the vectors `vs`, each taken as
/// many times as `weights` says: entry `c` is the dot product of the entries
/// `c` of the vectors with the weights.
pub open spec fn combination<T: Number>(weights: Seq<T>, vs: Seq<Seq<T>>, n: int) -> Seq<T> {
    mat_vec(transposed(vs, n), weights)
}

/// Over a field, two sums of products whose terms cancel each other add up
/// to zero.
proof fn lemma_dot_upto_cancels<T: Number>(a: Seq<T>, b: Seq<T>, c: Seq<T>, d: Seq<T>, n: int)
    requires
        is_field::<T>(),
        forall|k: int|
            0 <= k < n ==> (#[trigger] a[k]).mul_spec(b[k]).add_spec(c[k].mul_spec(d[k]))
                == T::zero_spec(),
    ensures
        dot_upto(a, b, n).add_spec(dot_upto(c, d, n)) == T::zero_spec(),
    decreases n,
{
    if n <= 0 {
        lemma_add_zero(T::zero_spec());
    } else {
        lemma_dot_upto_cancels(a, b, c, d, n - 1);
        assert(a[n - 1].mul_spec(b[n - 1]).add_spec(c[n - 1].mul_spec(d[n - 1]))
            == T::zero_spec());
        lemma_add_interchange(
            dot_upto(a, b, n - 1),
            a[n - 1].mul_spec(b[n - 1]),
            dot_upto(c, d, n - 1),
            c[n - 1].mul_spec(d[n - 1]),
        );
        lemma_add_zero(T::zero_spec());
    }
}

/// Over a field, the dot product of a pivot row of a matrix in reduced row
/// echelon form with a vector, taken over the columns before `n`, is the
/// vector's entry in the pivot column, if that is before `n`, plus the dot
/// product over the free columns before `n`.
proof fn lemma_row_sum_over_free_columns<T: Number>(
    m: Seq<Seq<T>>,
    rows: int,
    cols: int,
    pivots: Seq<int>,
    i: int,
    y: Seq<T>,
    n: int,
)
    requires
        is_field::<T>(),
        cols >= 1,
        reduced_with(m, rows, cols, pivots),
        coefficient_pivots(pivots, cols - 1) == pivots.len(),
        0 <= i < pivots.len(),
        0 <= n <= cols - 1,
    ensures
        dot_upto(m[i], y, n) == (if pivots[i] < n {
            y[pivots[i]]
        } else {
            T::zero_spec()
        }).add_spec(
            dot_upto(
                coordinates(m[i], free_columns(pivots, cols - 1)),
                coordinates(y, free_columns(pivots, cols - 1)),
                free_columns(pivots, n).len() as int,
            ),
        ),
    decreases n,
{
    let last = cols - 1;
    let zero = T::zero_spec();
    let free = free_columns(pivots, last);
    let row_free = coordinates(m[i], free);
    let y_free = coordinates(y, free);
    if n <= 0 {
        lemma_add_zero(zero);
    } else {
        let c = n - 1;
        lemma_row_sum_over_free_columns(m, rows, cols, pivots, i, y, c);
        let head = if pivots[i] < c {
            y[pivots[i]]
        } else {
            zero
        };
        let count = free_columns(pivots, c).len() as int;
        let sum = dot_upto(row_free, y_free, count);
        let term = m[i][c].mul_spec(y[c]);
        assert(dot_upto(m[i], y, n) == head.add_spec(sum).add_spec(term));
        if pivots.contains(c) {
            let j = pivots.index_of(c);
            assert(pivots[j] == c);
            if j == i {
                assert(m[i][pivots[i]] == T::one_spec());
                lemma_mul_one(y[c]);
                lemma_add_zero(sum);
                lemma_add_comm(sum, y[c]);
            } else {
                assert(m[i][pivots[j]] == zero);
                lemma_mul_zero(y[c]);
                lemma_add_zero(head.add_spec(sum));
            }
        } else {
            lemma_free_columns_prefix(pivots, n, last);
            assert(free_columns(pivots, n) == free_columns(pivots, c).push(c));
            assert(free_columns(pivots, n)[count] == c);
            assert(free[count] == c);
            assert(row_free[count] == m[i][c]);
            assert(y_free[count] == y[c]);
            lemma_add_assoc(head, sum, term);
        }
    }
}

/// Over a field and for a regular reduction of a system that the walk finds
/// consistent, every solution is the particular solution plus the
/// combination of the basis vectors that takes each as many times as the
/// solution's entry in the free column of that vector says.
proof fn lemma_solution_is_particular_plus_combination<T: Number>(
    m: Seq<Seq<T>>,
    rows: int,
    cols: int,
    z: Seq<T>,
)
    requires
        is_field::<T>(),
        cols >= 1,
        is_matrix(m, rows, cols),
        regular(m, cols),
        !inconsistent(reduced_form(m, cols), cols - 1),
        solves(m, cols - 1, z),
    ensures
        ({
            let reduced = reduced_form(m, cols);
            let pivots = pivot_columns(reduced, cols - 1);
            z == vector_sum(
                particular(reduced, pivots, cols - 1),
                combination(
                    coordinates(z, free_columns(pivots, cols - 1)),
                    basis(reduced, pivots, cols - 1),
                    cols - 1,
                ),
                cols - 1,
            )
        }),
{
    let last = cols - 1;
    let zero = T::zero_spec();
    let one = T::one_spec();
    let reduced = reduced_form(m, cols);
    let y = z.push(one.neg_spec());
    lemma_solves_is_annihilated(m, rows, cols, z);
    lemma_reduced_form_keeps_kernel(m, rows, cols, y);
    let pivots = lemma_walk_on_reduced_form(m, rows, cols);
    let free = free_columns(pivots, last);
    let vs = basis(reduced, pivots, last);
    let weights = coordinates(z, free);
    let p = particular(reduced, pivots, last);
    let total = vector_sum(p, combination(weights, vs, last), last);
    lemma_free_columns(pivots, last);
    assert forall|c: int| 0 <= c < last implies z[c] == total[c] by {
        let entries = column(vs, c);
        let mixed = dot_upto(entries, weights, free.len() as int);
        assert(combination(weights, vs, last)[c] == mixed);
        assert(total[c] == p[c].add_spec(mixed));
        if pivots.contains(c) {
            let i = pivots.index_of(c);
            assert(pivots[i] == c);
            lemma_index_of_rising(pivots, 0, cols, i);
            let row_free = coordinates(reduced[i], free);
            let y_free = coordinates(y, free);
            let sum = dot_upto(row_free, y_free, free.len() as int);
            // The row annihilates the solution, extended by minus one.
            lemma_row_sum_over_free_columns(reduced, rows, cols, pivots, i, y, last);
            assert(dot(reduced[i], y) == zero);
            assert(dot_upto(reduced[i], y, cols) == z[c].add_spec(sum).add_spec(
                reduced[i][last].mul_spec(one.neg_spec()),
            ));
            lemma_difference_zero(z[c].add_spec(sum), reduced[i][last]);
            // The combination takes the free part off again.
            assert forall|k: int| 0 <= k < free.len() implies (#[trigger] entries[k]).mul_spec(
                weights[k],
            ).add_spec(row_free[k].mul_spec(y_free[k])) == zero by {
                let r = reduced[i][free[k]];
                assert(vs[k] == basis_vector(reduced, pivots, last, free[k]));
                assert(entries[k] == r.neg_spec());
                assert(weights[k] == z[free[k]]);
                assert(y_free[k] == z[free[k]]);
                lemma_distributive(z[free[k]], r.neg_spec(), r);
                lemma_add_neg(r);
                lemma_mul_zero(z[free[k]]);
            }
            lemma_dot_upto_cancels(entries, weights, row_free, y_free, free.len() as int);
            assert(mixed.add_spec(sum) == zero);
            assert(p[c] == reduced[i][last]);
            // p[c] + mixed == (z[c] + sum) + mixed == z[c] + (sum + mixed) == z[c]
            lemma_add_assoc(z[c], sum, mixed);
            lemma_add_comm(sum, mixed);
            lemma_add_zero(z[c]);
        } else {
            let k0 = lemma_free_column_listed(pivots, last, c);
            assert forall|k: int| 0 <= k < free.len() && k != k0 implies entries[k].mul_spec(
                weights[k],
            ) == zero by {
                assert(vs[k] == basis_vector(reduced, pivots, last, free[k]));
                assert(free[k] != c);
                assert(entries[k] == zero);
                lemma_mul_zero(weights[k]);
            }
            lemma_dot_upto_one_term(entries, weights, free.len() as int, k0);
            assert(vs[k0] == basis_vector(reduced, pivots, last, free[k0]));
            assert(entries[k0] == one);
            lemma_mul_one(weights[k0]);
            assert(p[c] == zero);
            lemma_add_zero(z[c]);
        }
    }
    assert(z =~= total);
}

/// Over a field and for a regular reduction, the affine basis that the
/// solver returns gives every solution of the system: each is the
/// particular solution plus a combination of the basis vectors.
pub proof fn lemma_affine_basis_spans_solutions<T: Number>(
    m: Seq<Seq<T>>,
    rows: int,
    cols: int,
    p: Seq<T>,
    vs: Seq<Seq<T>>,
    z: Seq<T>,
)
    requires
        is_field::<T>(),
        cols >= 1,
        is_matrix(m, rows, cols),
        regular(m, cols),
        solution_set(reduced_form(m, cols), cols - 1) == SolutionSet::AffineBasis(p, vs),
        solves(m, cols - 1, z),
    ensures
        is_spanned(z, p, vs),
{
    lemma_solution_is_particular_plus_combination(m, rows, cols, z);
    let reduced = reduced_form(m, cols);
    let pivots = pivot_columns(reduced, cols - 1);
    let weights = coordinates(z, free_columns(pivots, cols - 1));
    assert(weights.len() == vs.len());
    assert(p.len() == cols - 1);
    assert(z == vector_sum(p, combination(weights, vs, p.len() as int), p.len() as int));
}

/// Over a field and for a regular reduction, the homogeneous basis that the
/// solver returns gives every solution of the system: each is a combination
/// of the basis vectors.
pub proof fn lemma_homogeneous_basis_spans_solutions<T: Number>(
    m: Seq<Seq<T>>,
    rows: int,
    cols: int,
    vs: Seq<Seq<T>>,
    z: Seq<T>,
)
    requires
        is_field::<T>(),
        cols >= 1,
        is_matrix(m, rows, cols),
        regular(m, cols),
        solution_set(reduced_form(m, cols), cols - 1) == SolutionSet::HomogenousBasis(vs),
        solves(m, cols - 1, z),
    ensures
        is_spanned(z, zeros::<T>((cols - 1) as nat), vs),
{
    let last = cols - 1;
    lemma_solution_is_particular_plus_combination(m, rows, cols, z);
    let reduced = reduced_form(m, cols);
    let pivots = pivot_columns(reduced, last);
    let weights = coordinates(z, free_columns(pivots, last));
    let mixed = combination(weights, vs, last);
    let p = particular(reduced, pivots, last);
    assert forall|c: int| 0 <= c < last implies z[c] == mixed[c] by {
        if pivots.contains(c) {
            let i = pivots.index_of(c);
            assert(reduced[i][last].eq_spec(&T::zero_spec()));
            lemma_eq(reduced[i][last], T::zero_spec());
        }
        assert(p[c] == T::zero_spec());
        lemma_add_zero(mixed[c]);
    }
    assert(weights.len() == vs.len());
    let none = zeros::<T>(last as nat);
    assert forall|c: int| 0 <= c < last implies z[c] == vector_sum(none, mixed, last)[c] by {
        lemma_add_zero(mixed[c]);
    }
    assert(z =~= vector_sum(none, combination(weights, vs, none.len() as int), none.len() as int));
}

/// `v` solves the homogeneous system of the augmented matrix `m`: `A v = 0`.
pub open spec fn solves_homogeneous<T: Number>(m: Seq<Seq<T>>, last: int, v: Seq<T>) -> bool {
    mat_vec(coefficients(m, last), v) == zeros::<T>(m.len())
}

/// `z` is `p` plus a combination of the vectors `vs`.
pub open spec fn is_spanned<T: Number>(z: Seq<T>, p: Seq<T>, vs: Seq<Seq<T>>) -> bool {
    exists|weights: Seq<T>|
        weights.len() == vs.len() && z == vector_sum(
            p,
            #[trigger] combination(weights, vs, p.len() as int),
            p.len() as int,
        )
}

/// The solution set `set` is right for the system of the augmented matrix
/// `m`. A unique solution solves the system, and nothing else does. A
/// particular solution solves it, each basis vector solves the homogeneous
/// system, and every solution is the particular solution, or zero where
/// there is none, plus a combination of the basis vectors. Where `set` holds
/// no solution, the system has none.
pub open spec fn describes_solutions<T: Number>(m: Seq<Seq<T>>, last: int, set: SolutionSet<T>) -> bool {
    match set {
        SolutionSet::Solution(x) => {
            &&& solves(m, last, x)
            &&& forall|z: Seq<T>| #[trigger] solves(m, last, z) ==> z == x
        },
        SolutionSet::HomogenousBasis(vs) => {
            &&& forall|k: int| 0 <= k < vs.len() ==> solves_homogeneous(m, last, #[trigger] vs[k])
            &&& forall|z: Seq<T>|
                #[trigger] solves(m, last, z) ==> is_spanned(z, zeros::<T>(last as nat), vs)
        },
        SolutionSet::AffineBasis(p, vs) => {
            &&& solves(m, last, p)
            &&& forall|k: int| 0 <= k < vs.len() ==> solves_homogeneous(m, last, #[trigger] vs[k])
            &&& forall|z: Seq<T>| #[trigger] solves(m, last, z) ==> is_spanned(z, p, vs)
        },
        SolutionSet::NoSolution => forall|z: Seq<T>| !#[trigger] solves(m, last, z),
    }
}

/// Over a field and for a regular reduction, the solution set that is read
/// off the reduced augmented matrix is right for the system that was given.
pub proof fn lemma_solution_set_describes_solutions<T: Number>(m: Seq<Seq<T>>, rows: int, cols: int)
    requires
        is_field::<T>(),
        cols >= 1,
        is_matrix(m, rows, cols),
        regular(m, cols),
    ensures
        describes_solutions(m, cols - 1, solution_set(reduced_form(m, cols), cols - 1)),
{
    let last = cols - 1;
    let set = solution_set(reduced_form(m, cols), last);
    match set {
        SolutionSet::Solution(x) => {
            lemma_solution_solves_system(m, rows, cols, x);
            assert forall|z: Seq<T>| #[trigger] solves(m, last, z) implies z == x by {
                lemma_solution_is_unique(m, rows, cols, x, z);
            }
        },
        SolutionSet::HomogenousBasis(vs) => {
            assert forall|k: int| 0 <= k < vs.len() implies solves_homogeneous(
                m,
                last,
                #[trigger] vs[k],
            ) by {
                lemma_homogeneous_basis_solves_system(m, rows, cols, vs, k);
            }
            assert forall|z: Seq<T>| #[trigger] solves(m, last, z) implies is_spanned(
                z,
                zeros::<T>(last as nat),
                vs,
            ) by {
                lemma_homogeneous_basis_spans_solutions(m, rows, cols, vs, z);
            }
        },
        SolutionSet::AffineBasis(p, vs) => {
            lemma_particular_solves_system(m, rows, cols);
            assert forall|k: int| 0 <= k < vs.len() implies solves_homogeneous(
                m,
                last,
                #[trigger] vs[k],
            ) by {
                lemma_affine_basis_solves_system(m, rows, cols, p, vs, k);
            }
            assert forall|z: Seq<T>| #[trigger] solves(m, last, z) implies is_spanned(z, p, vs) by {
                lemma_affine_basis_spans_solutions(m, rows, cols, p, vs, z);
            }
        },
        SolutionSet::NoSolution => {
            assert forall|z: Seq<T>| !#[trigger] solves(m, last, z) by {
                lemma_no_solution_exists(m, rows, cols, z);
            }
        },
    }
}

/// Over a field, the basis vectors that are read off a reduced augmented
/// matrix are independent: a combination of them is zero only if every
/// weight is zero. The combination has, in the free column of each vector,
/// the weight of that vector.
pub proof fn lemma_basis_is_independent<T: Number>(m: Seq<Seq<T>>, last: int, weights: Seq<T>, k: int)
    requires
        is_field::<T>(),
        0 <= last,
        weights.len() == basis(m, pivot_columns(m, last), last).len(),
        0 <= k < weights.len(),
    ensures
        combination(weights, basis(m, pivot_columns(m, last), last), last)[free_columns(
            pivot_columns(m, last),
            last,
        )[k]] == weights[k],
        combination(weights, basis(m, pivot_columns(m, last), last), last) == zeros::<T>(
            last as nat,
        ) ==> weights[k] == T::zero_spec(),
{
    let pivots = pivot_columns(m, last);
    let free = free_columns(pivots, last);
    let vs = basis(m, pivots, last);
    lemma_free_columns(pivots, last);
    let c = free[k];
    let at = lemma_free_column_listed(pivots, last, c);
    assert(at == k);
    let entries = column(vs, c);
    assert forall|j: int| 0 <= j < free.len() && j != k implies entries[j].mul_spec(weights[j])
        == T::zero_spec() by {
        assert(vs[j] == basis_vector(m, pivots, last, free[j]));
        assert(entries[j] == T::zero_spec());
        lemma_mul_zero(weights[j]);
    }
    lemma_dot_upto_one_term(entries, weights, free.len() as int, k);
    assert(vs[k] == basis_vector(m, pivots, last, free[k]));
    assert(entries[k] == T::one_spec());
    lemma_mul_one(weights[k]);
    assert(combination(weights, vs, last)[c] == dot_upto(entries, weights, free.len() as int));
}

} // verus!
