//! How a solution set is read off a reduced augmented matrix.
//!
//! The rows are walked from the top with a column cursor. In each row the
//! cursor moves right to the first entry that is one: that column is the
//! row's pivot column, and the columns passed over are free. A row in which
//! the cursor reaches the right-hand side ends the walk.

use crate::linalg::matrix::reduced_shape::rising;
use crate::linalg::vector::util::zeros;
use crate::scalar::number::Number;
use vstd::prelude::*;
use vstd::std_specs::cmp::PartialEqSpec;
use vstd::std_specs::ops::NegSpec;
use crate::linalg::solvers::linear_system_solution::SolutionSet;

verus! {

/// The first column from `from` on, and before `last`, in which `row` holds a
/// one; `last` where there is none.
pub open spec fn next_one<T: Number>(row: Seq<T>, from: int, last: int) -> int
    decreases last - from,
{
    if from >= last {
        last
    } else if row[from].eq_spec(&T::one_spec()) {
        from
    } else {
        next_one(row, from + 1, last)
    }
}

/// The pivot columns of the rows from `r` on, when the cursor stands at
/// `cur`: one for each row, up to the first row that has none.
pub open spec fn pivots_from<T: Number>(m: Seq<Seq<T>>, last: int, r: int, cur: int) -> Seq<int>
    decreases m.len() - r,
{
    if r >= m.len() {
        Seq::empty()
    } else {
        let p = next_one(m[r], cur, last);
        if p >= last {
            Seq::empty()
        } else {
            seq![p] + pivots_from(m, last, r + 1, p + 1)
        }
    }
}

/// Whether the walk from row `r` and cursor `cur` ends in a row that has no
/// pivot and a right-hand side that is not zero.
pub open spec fn inconsistent_from<T: Number>(m: Seq<Seq<T>>, last: int, r: int, cur: int) -> bool
    decreases m.len() - r,
{
    if r >= m.len() {
        false
    } else {
        let p = next_one(m[r], cur, last);
        if p >= last {
            !m[r][last].eq_spec(&T::zero_spec())
        } else {
            inconsistent_from(m, last, r + 1, p + 1)
        }
    }
}

/// The pivot columns of the augmented matrix `m`, whose right-hand side is
/// column `last`. The pivot of row `j` is in column `pivot_columns(m, last)[j]`.
pub open spec fn pivot_columns<T: Number>(m: Seq<Seq<T>>, last: int) -> Seq<int> {
    pivots_from(m, last, 0, 0)
}

/// Whether the walk finds the system to have no solution.
pub open spec fn inconsistent<T: Number>(m: Seq<Seq<T>>, last: int) -> bool {
    inconsistent_from(m, last, 0, 0)
}

/// The columns below `n` that are no pivot columns, in rising order.
pub open spec fn free_columns(pivots: Seq<int>, n: int) -> Seq<int>
    decreases n,
{
    if n <= 0 {
        Seq::empty()
    } else if pivots.contains(n - 1) {
        free_columns(pivots, n - 1)
    } else {
        free_columns(pivots, n - 1).push(n - 1)
    }
}

/// The vector of length `n` that is one at `at` and zero elsewhere.
pub open spec fn unit_vector<T: Number>(n: int, at: int) -> Seq<T> {
    Seq::new(
        n as nat,
        |c: int|
            if c == at {
                T::one_spec()
            } else {
                T::zero_spec()
            },
    )
}

/// The particular solution: each pivot variable has the right-hand side of
/// its row, each free variable is zero.
pub open spec fn particular<T: Number>(m: Seq<Seq<T>>, pivots: Seq<int>, last: int) -> Seq<T> {
    Seq::new(
        last as nat,
        |c: int|
            if pivots.contains(c) {
                m[pivots.index_of(c)][last]
            } else {
                T::zero_spec()
            },
    )
}

/// The basis vector of the free column `f`: one at `f`, zero at the other
/// free columns, and at each pivot column the negated entry that the pivot's
/// row has in column `f`.
pub open spec fn basis_vector<T: Number>(m: Seq<Seq<T>>, pivots: Seq<int>, last: int, f: int) -> Seq<
    T,
> {
    Seq::new(
        last as nat,
        |c: int|
            if c == f {
                T::one_spec()
            } else if pivots.contains(c) {
                m[pivots.index_of(c)][f].neg_spec()
            } else {
                T::zero_spec()
            },
    )
}

/// The basis vectors of all free columns, in the order of the columns.
pub open spec fn basis<T: Number>(m: Seq<Seq<T>>, pivots: Seq<int>, last: int) -> Seq<Seq<T>> {
    let free = free_columns(pivots, last);
    Seq::new(free.len(), |k: int| basis_vector(m, pivots, last, free[k]))
}

/// Whether the right-hand side of every pivot row is zero.
pub open spec fn homogeneous<T: Number>(m: Seq<Seq<T>>, pivots: Seq<int>, last: int) -> bool {
    forall|j: int| 0 <= j < pivots.len() ==> (#[trigger] m[j])[last].eq_spec(&T::zero_spec())
}

/// The solution set that is read off the reduced augmented matrix `m`, whose
/// right-hand side is column `last`.
pub open spec fn solution_set<T: Number>(m: Seq<Seq<T>>, last: int) -> SolutionSet<T> {
    let pivots = pivot_columns(m, last);
    if inconsistent(m, last) {
        SolutionSet::NoSolution
    } else if free_columns(pivots, last).len() == 0 {
        SolutionSet::Solution(particular(m, pivots, last))
    } else if homogeneous(m, pivots, last) {
        SolutionSet::HomogenousBasis(basis(m, pivots, last))
    } else {
        SolutionSet::AffineBasis(particular(m, pivots, last), basis(m, pivots, last))
    }
}

/// The walk that looks for one solution only, from row `r` on: it succeeds as
/// long as each row has its pivot right at the cursor, which then stands in
/// column `r`, and writes the row's right-hand side to `answer[r]`. It fails
/// at a row whose entry at the cursor is not one, and at a row without
/// unknowns left whose right-hand side is not zero. Returns whether it
/// succeeded, and the answer as far as it was written.
pub open spec fn direct_from<T: Number>(m: Seq<Seq<T>>, last: int, r: int, answer: Seq<T>) -> (
    bool,
    Seq<T>,
)
    decreases m.len() - r,
{
    if r >= m.len() {
        (true, answer)
    } else if r >= last {
        (m[r][last].eq_spec(&T::zero_spec()), answer)
    } else if m[r][r].eq_spec(&T::one_spec()) {
        direct_from(m, last, r + 1, answer.update(r, m[r][last]))
    } else {
        (false, answer)
    }
}

/// The one solution that the walk for one solution reads off the reduced
/// augmented matrix `m`, whose right-hand side is column `last`, if it
/// succeeds. The unknowns that the walk does not reach are zero.
pub open spec fn single_solution<T: Number>(m: Seq<Seq<T>>, last: int) -> Option<Seq<T>> {
    let walk = direct_from(m, last, 0, zeros::<T>(last as nat));
    if walk.0 {
        Some(walk.1)
    } else {
        None
    }
}

/// The first one of a row lies between the cursor and the right-hand side,
/// and no column before it holds a one.
pub proof fn lemma_next_one<T: Number>(row: Seq<T>, from: int, last: int)
    requires
        from <= last,
    ensures
        from <= next_one(row, from, last) <= last,
        next_one(row, from, last) < last ==> row[next_one(row, from, last)].eq_spec(
            &T::one_spec(),
        ),
        forall|c: int|
            from <= c < next_one(row, from, last) ==> !(#[trigger] row[c]).eq_spec(&T::one_spec()),
    decreases last - from,
{
    if from < last && !row[from].eq_spec(&T::one_spec()) {
        lemma_next_one(row, from + 1, last);
    }
}

/// The pivot columns that the walk finds rise strictly, lie between the
/// cursor and the right-hand side, and are no more than the rows walked.
pub proof fn lemma_pivots_rising<T: Number>(m: Seq<Seq<T>>, last: int, r: int, cur: int)
    requires
        0 <= r,
        cur <= last,
    ensures
        rising(pivots_from(m, last, r, cur), cur, last),
        r <= m.len() ==> pivots_from(m, last, r, cur).len() <= m.len() - r,
        r > m.len() ==> pivots_from(m, last, r, cur).len() == 0,
    decreases m.len() - r,
{
    if r < m.len() {
        lemma_next_one(m[r], cur, last);
        let p = next_one(m[r], cur, last);
        if p < last {
            lemma_pivots_rising(m, last, r + 1, p + 1);
            let rest = pivots_from(m, last, r + 1, p + 1);
            let all = seq![p] + rest;
            assert forall|j: int| 0 <= j < all.len() implies cur <= #[trigger] all[j] < last by {
                if j > 0 {
                    assert(all[j] == rest[j - 1]);
                }
            }
            assert forall|i: int, j: int| 0 <= i < j < all.len() implies all[i] < all[j] by {
                assert(all[j] == rest[j - 1]);
                if i > 0 {
                    assert(all[i] == rest[i - 1]);
                }
            }
        }
    }
}

/// In a strictly rising sequence an entry is found at its own index only.
pub proof fn lemma_index_of_rising(pivots: Seq<int>, from: int, last: int, j: int)
    requires
        rising(pivots, from, last),
        0 <= j < pivots.len(),
    ensures
        pivots.contains(pivots[j]),
        pivots.index_of(pivots[j]) == j,
{
    let i = pivots.index_of(pivots[j]);
    assert(0 <= i < pivots.len() && pivots[i] == pivots[j]);
    if i < j {
        assert(pivots[i] < pivots[j]);
    } else if j < i {
        assert(pivots[j] < pivots[i]);
    }
}

/// The free columns below `n` are columns below `n`, and none of them is a
/// pivot column.
pub proof fn lemma_free_columns(pivots: Seq<int>, n: int)
    ensures
        free_columns(pivots, n).len() <= (if n < 0 { 0 } else { n }),
        forall|k: int|
            0 <= k < free_columns(pivots, n).len() ==> 0 <= #[trigger] free_columns(pivots, n)[k]
                < n && !pivots.contains(free_columns(pivots, n)[k]),
    decreases n,
{
    if n > 0 {
        lemma_free_columns(pivots, n - 1);
    }
}

/// The free columns below `n` are the first of the free columns below any
/// greater bound.
pub proof fn lemma_free_columns_prefix(pivots: Seq<int>, n: int, bound: int)
    requires
        n <= bound,
    ensures
        free_columns(pivots, n).len() <= free_columns(pivots, bound).len(),
        forall|k: int|
            0 <= k < free_columns(pivots, n).len() ==> #[trigger] free_columns(pivots, n)[k]
                == free_columns(pivots, bound)[k],
    decreases bound - n,
{
    if n < bound {
        lemma_free_columns_prefix(pivots, n, bound - 1);
    }
}

/// A column below `n` that is no pivot column is among the free columns
/// below `n`, at one place only.
pub proof fn lemma_free_column_listed(pivots: Seq<int>, n: int, c: int) -> (k: int)
    requires
        0 <= c < n,
        !pivots.contains(c),
    ensures
        0 <= k < free_columns(pivots, n).len(),
        free_columns(pivots, n)[k] == c,
        forall|j: int|
            0 <= j < free_columns(pivots, n).len() && j != k ==> #[trigger] free_columns(
                pivots,
                n,
            )[j] != c,
    decreases n,
{
    lemma_free_columns(pivots, n - 1);
    if c == n - 1 {
        free_columns(pivots, n - 1).len() as int
    } else {
        let k = lemma_free_column_listed(pivots, n - 1, c);
        k
    }
}

} // verus!
