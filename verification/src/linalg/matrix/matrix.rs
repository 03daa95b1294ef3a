//! A dense matrix in row-major order.

use crate::linalg::matrix::reduction::{is_matrix, swap_rows};
use crate::scalar::number::Number;
use std::ops::{Index, IndexMut};
use vstd::prelude::*;

verus! {

/// A `rows` by `cols` matrix whose entries lie row after row in `data`.
pub struct Matrix<T: Number> {
    pub rows: usize,
    pub cols: usize,
    pub data: Vec<T>,
}

/// The rows of a `rows` by `cols` matrix that is stored row after row in
/// `data`.
pub open spec fn grid<T>(data: Seq<T>, rows: int, cols: int) -> Seq<Seq<T>> {
    Seq::new(rows as nat, |r: int| Seq::new(cols as nat, |c: int| data[r * cols + c]))
}

/// Every cell of a `rows` by `cols` matrix has a place of its own in the flat
/// storage, below `rows * cols`.
pub proof fn lemma_cell_index(rows: int, cols: int, r: int, c: int)
    requires
        0 <= r < rows,
        0 <= c < cols,
    ensures
        0 <= r * cols + c < rows * cols,
        (r * cols + c) / cols == r,
        (r * cols + c) % cols == c,
{
    assert(r * cols >= 0) by (nonlinear_arith)
        requires
            r >= 0,
            cols > 0,
    ;
    assert(r * cols + cols <= rows * cols) by (nonlinear_arith)
        requires
            r + 1 <= rows,
            cols > 0,
    ;
    vstd::arithmetic::div_mod::lemma_fundamental_div_mod_converse(r * cols + c, cols, r, c);
}

/// Two different cells never share a place in the flat storage.
pub proof fn lemma_cell_index_injective(cols: int, r1: int, c1: int, r2: int, c2: int)
    requires
        0 <= c1 < cols,
        0 <= c2 < cols,
        0 <= r1,
        0 <= r2,
        r1 * cols + c1 == r2 * cols + c2,
    ensures
        r1 == r2,
        c1 == c2,
{
    lemma_cell_index(r1 + 1, cols, r1, c1);
    lemma_cell_index(r2 + 1, cols, r2, c2);
}

/// Writing one cell of the flat storage changes that cell of the grid and no
/// other.
pub proof fn lemma_grid_update<T>(data: Seq<T>, rows: int, cols: int, r: int, c: int, v: T)
    requires
        0 <= r < rows,
        0 <= c < cols,
        rows * cols <= data.len(),
    ensures
        grid(data.update(r * cols + c, v), rows, cols) == grid(data, rows, cols).update(
            r,
            grid(data, rows, cols)[r].update(c, v),
        ),
{
    let g = grid(data, rows, cols);
    let h = grid(data.update(r * cols + c, v), rows, cols);
    let want = g.update(r, g[r].update(c, v));
    lemma_cell_index(rows, cols, r, c);
    assert forall|i: int, j: int| 0 <= i < rows && 0 <= j < cols implies h[i][j] == want[i][j] by {
        lemma_cell_index(rows, cols, i, j);
        if i * cols + j == r * cols + c {
            lemma_cell_index_injective(cols, i, j, r, c);
        }
    }
    assert(h =~~= want);
}

/// A vector's length is a machine word.
pub proof fn lemma_len_fits<T>(v: &Vec<T>)
    ensures
        v@.len() <= usize::MAX,
{
    assert(v.len() == v@.len());
}

impl<T: Number> View for Matrix<T> {
    type V = Seq<Seq<T>>;

    open spec fn view(&self) -> Seq<Seq<T>> {
        grid(self.data@, self.rows as int, self.cols as int)
    }
}

impl<T: Number> Clone for Matrix<T> {
    /// A matrix of its own with the same entries.
    fn clone(&self) -> (m: Self)
        ensures
            m.rows == self.rows,
            m.cols == self.cols,
            m.data@ == self.data@,
    {
        let mut data: Vec<T> = Vec::with_capacity(self.data.len());
        for i in 0..self.data.len()
            invariant
                data@ == self.data@.take(i as int),
        {
            data.push(self.data[i]);
            assert(data@ =~= self.data@.take(i + 1));
        }
        assert(data@ =~= self.data@);
        Self { rows: self.rows, cols: self.cols, data: data }
    }
}

impl<T: Number> Matrix<T> {
    /// The flat storage holds exactly `rows * cols` entries.
    pub open spec fn wf(&self) -> bool {
        self.rows * self.cols == self.data@.len()
    }

    /// The `rows` by `cols` matrix with the entries `data`, given row after
    /// row.
    pub fn new(rows: usize, cols: usize, data: Vec<T>) -> (m: Self)
        requires
            rows * cols == data@.len(),
        ensures
            m.rows == rows,
            m.cols == cols,
            m.data == data,
            m.wf(),
    {
        Self { rows: rows, cols: cols, data: data }
    }

    /// The entry at a place of the flat storage.
    pub fn get(&self, index: usize) -> (r: &T)
        requires
            index < self.data@.len(),
        ensures
            *r == self.data@[index as int],
    {
        &self.data[index]
    }

    /// The entry at a place of the flat storage, to be written.
    pub fn get_mut(&mut self, index: usize) -> (r: &mut T)
        requires
            index < old(self).data@.len(),
        ensures
            *r == old(self).data@[index as int],
            final(self).data@ == old(self).data@.update(index as int, *final(r)),
            final(self).rows == old(self).rows,
            final(self).cols == old(self).cols,
    {
        &mut self.data[index]
    }

    /// The entry in row `row` and column `col`.
    pub fn get_loc(&self, row: usize, col: usize) -> (r: &T)
        requires
            self.wf(),
            row < self.rows,
            col < self.cols,
        ensures
            *r == self@[row as int][col as int],
    {
        proof {
            lemma_len_fits(&self.data);
            lemma_cell_index(self.rows as int, self.cols as int, row as int, col as int);
        }
        &self.data[row * self.cols + col]
    }

    /// The entry in row `row` and column `col`, to be written.
    pub fn get_mut_loc(&mut self, row: usize, col: usize) -> (r: &mut T)
        requires
            old(self).wf(),
            row < old(self).rows,
            col < old(self).cols,
        ensures
            *r == old(self)@[row as int][col as int],
            final(self)@ == old(self)@.update(
                row as int,
                old(self)@[row as int].update(col as int, *final(r)),
            ),
            final(self).rows == old(self).rows,
            final(self).cols == old(self).cols,
            final(self).wf(),
    {
        proof {
            lemma_len_fits(&self.data);
            lemma_cell_index(self.rows as int, self.cols as int, row as int, col as int);
            assert forall|v: T|
                #[trigger] grid(
                    self.data@.update(row * self.cols + col, v),
                    self.rows as int,
                    self.cols as int,
                ) == self@.update(row as int, self@[row as int].update(col as int, v)) by {
                lemma_grid_update(
                    self.data@,
                    self.rows as int,
                    self.cols as int,
                    row as int,
                    col as int,
                    v,
                );
            }
        }
        &mut self.data[row * self.cols + col]
    }

    /// Exchanges two rows.
    pub fn swap_rows(&mut self, row1: usize, row2: usize)
        requires
            old(self).wf(),
            row1 < old(self).rows,
            row2 < old(self).rows,
        ensures
            final(self)@ == swap_rows(old(self)@, row1 as int, row2 as int),
            final(self).rows == old(self).rows,
            final(self).cols == old(self).cols,
            final(self).wf(),
    {
        let cols = self.cols;
        self.u_swap_rows(row1, row2, cols);
    }

    /// Exchanges two rows of a matrix that is known to be well formed and to
    /// have `cols` columns.
    pub fn u_swap_rows(&mut self, row1: usize, row2: usize, cols: usize)
        requires
            old(self).wf(),
            cols == old(self).cols,
            row1 < old(self).rows,
            row2 < old(self).rows,
        ensures
            final(self)@ == swap_rows(old(self)@, row1 as int, row2 as int),
            final(self).rows == old(self).rows,
            final(self).cols == old(self).cols,
            final(self).wf(),
    {
        let ghost before = self@;
        for col in 0..cols
            invariant
                self.wf(),
                self.rows == old(self).rows,
                self.cols == old(self).cols,
                cols == self.cols,
                row1 < self.rows,
                row2 < self.rows,
                before == old(self)@,
                is_matrix(self@, self.rows as int, cols as int),
                forall|r: int|
                    0 <= r < self.rows && r != row1 && r != row2 ==> #[trigger] self@[r]
                        == before[r],
                forall|c: int|
                    0 <= c < cols ==> #[trigger] self@[row1 as int][c] == (if c < col {
                        before[row2 as int][c]
                    } else {
                        before[row1 as int][c]
                    }),
                forall|c: int|
                    0 <= c < cols ==> #[trigger] self@[row2 as int][c] == (if c < col {
                        before[row1 as int][c]
                    } else {
                        before[row2 as int][c]
                    }),
        {
            let a = *self.get_loc(row1, col);
            let b = *self.get_loc(row2, col);
            *self.get_mut_loc(row1, col) = b;
            *self.get_mut_loc(row2, col) = a;
        }
        assert(self@ =~~= swap_rows(before, row1 as int, row2 as int));
    }

    /// The number of entries.
    pub fn size(&self) -> (n: usize)
        requires
            self.rows * self.cols <= usize::MAX,
        ensures
            n == self.rows * self.cols,
    {
        self.rows * self.cols
    }

    /// The numbers of rows and columns.
    pub fn shape(&self) -> (s: (usize, usize))
        ensures
            s == (self.rows, self.cols),
    {
        (self.rows, self.cols)
    }

    /// Whether the matrix has as many rows as columns.
    pub fn square(&self) -> (b: bool)
        ensures
            b == (self.rows == self.cols),
    {
        self.rows == self.cols
    }

    /// Whether the flat storage holds exactly `rows * cols` entries.
    pub fn well_formed(&self) -> (b: bool)
        ensures
            b == self.wf(),
    {
        proof {
            lemma_len_fits(&self.data);
        }
        match self.rows.checked_mul(self.cols) {
            Some(n) => n == self.data.len(),
            None => false,
        }
    }

    /// The row and column of a place of the flat storage.
    pub fn index_to_location(&self, index: usize) -> (loc: (usize, usize))
        requires
            self.cols != 0,
        ensures
            loc.0 == index as int / self.cols as int,
            loc.1 == index as int % self.cols as int,
    {
        (index / self.cols, index % self.cols)
    }
}

impl<T: Number> Index<(usize, usize)> for Matrix<T> {
    type Output = T;

    /// The entry in row `index.0` and column `index.1`.
    fn index(&self, index: (usize, usize)) -> (r: &T)
        ensures
            *r == self@[index.0 as int][index.1 as int],
    {
        self.get_loc(index.0, index.1)
    }
}

impl<T: Number> vstd::std_specs::core::IndexSpecImpl<(usize, usize)> for Matrix<T> {
    open spec fn index_req(&self, index: &(usize, usize)) -> bool {
        &&& self.wf()
        &&& index.0 < self.rows
        &&& index.1 < self.cols
    }
}

impl<T: Number> IndexMut<(usize, usize)> for Matrix<T> {
    /// The entry in row `index.0` and column `index.1`, to be written.
    fn index_mut(&mut self, index: (usize, usize)) -> (r: &mut T)
        requires
            old(self).wf(),
            index.0 < old(self).rows,
            index.1 < old(self).cols,
        ensures
            *r == old(self)@[index.0 as int][index.1 as int],
            final(self)@ == old(self)@.update(
                index.0 as int,
                old(self)@[index.0 as int].update(index.1 as int, *final(r)),
            ),
            final(self).rows == old(self).rows,
            final(self).cols == old(self).cols,
            final(self).wf(),
    {
        self.get_mut_loc(index.0, index.1)
    }
}

impl<T: Number> Index<usize> for Matrix<T> {
    type Output = T;

    /// The entry at a place of the flat storage.
    fn index(&self, index: usize) -> (r: &T)
        ensures
            *r == self.data@[index as int],
    {
        self.get(index)
    }
}

impl<T: Number> vstd::std_specs::core::IndexSpecImpl<usize> for Matrix<T> {
    open spec fn index_req(&self, index: &usize) -> bool {
        *index < self.data@.len()
    }
}

impl<T: Number> IndexMut<usize> for Matrix<T> {
    /// The entry at a place of the flat storage, to be written.
    fn index_mut(&mut self, index: usize) -> (r: &mut T)
        requires
            index < old(self).data@.len(),
        ensures
            *r == old(self).data@[index as int],
            final(self).data@ == old(self).data@.update(index as int, *final(r)),
            final(self).rows == old(self).rows,
            final(self).cols == old(self).cols,
    {
        self.get_mut(index)
    }
}

} // verus!
