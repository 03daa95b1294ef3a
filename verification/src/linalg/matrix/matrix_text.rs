//! A matrix as text: one line for each row, the row in square brackets, its
//! entries separated by a comma and a space.

use crate::linalg::matrix::matrix::{lemma_cell_index, lemma_len_fits, Matrix};
use crate::scalar::number::Number;
use std::fmt::Display;
use vstd::prelude::*;
use vstd::string::to_string_from_display_ensures;

verus! {

/// The text of each cell, as characters.
pub open spec fn cell_texts(cells: Seq<String>) -> Seq<Seq<char>> {
    Seq::new(cells.len(), |i: int| cells[i]@)
}

/// The first `count` cells of the row of `cols` cells that starts at
/// `first`, each but the last of the row followed by a comma and a space.
pub open spec fn cells_text(cells: Seq<Seq<char>>, first: int, cols: int, count: int) -> Seq<char>
    decreases count,
{
    if count <= 0 {
        Seq::empty()
    } else {
        cells_text(cells, first, cols, count - 1) + cells[first + count - 1] + (if count < cols {
            seq![',', ' ']
        } else {
            Seq::empty()
        })
    }
}

/// The row of `cols` cells that starts at `first`, in square brackets.
pub open spec fn row_text(cells: Seq<Seq<char>>, first: int, cols: int) -> Seq<char> {
    seq!['['] + cells_text(cells, first, cols, cols) + seq![']']
}

/// The first `count` rows of a matrix of `rows` rows and `cols` columns,
/// each but the last of the matrix followed by a line break.
pub open spec fn rows_text(cells: Seq<Seq<char>>, rows: int, cols: int, count: int) -> Seq<char>
    decreases count,
{
    if count <= 0 {
        Seq::empty()
    } else {
        rows_text(cells, rows, cols, count - 1) + row_text(cells, (count - 1) * cols, cols) + (
        if count < rows {
            seq!['\n']
        } else {
            Seq::empty()
        })
    }
}

/// The text of a matrix of `rows` rows and `cols` columns whose cells have
/// the texts `cells`, row after row.
pub open spec fn matrix_text(cells: Seq<Seq<char>>, rows: int, cols: int) -> Seq<char> {
    rows_text(cells, rows, cols, rows)
}

/// Appends `tail` to `text`. This is `String::push_str` of the standard
/// library, which appends a string slice onto the end of a string.
#[verifier::external_body]
fn append(text: &mut String, tail: &str)
    ensures
        final(text)@ == old(text)@ + tail@,
{
    text.push_str(tail);
}

/// Lays out the texts of the cells of a matrix of `rows` rows and `cols`
/// columns, given row after row.
pub fn layout(rows: usize, cols: usize, cells: &Vec<String>) -> (text: String)
    requires
        rows * cols == cells@.len(),
    ensures
        text@ == matrix_text(cell_texts(cells@), rows as int, cols as int),
{
    let ghost texts = cell_texts(cells@);
    let mut out = String::new();
    proof {
        reveal_strlit("[");
        reveal_strlit("]");
        reveal_strlit(", ");
        reveal_strlit("\n");
        assert("["@ =~= seq!['[']);
        assert("]"@ =~= seq![']']);
        assert(", "@ =~= seq![',', ' ']);
        assert("\n"@ =~= seq!['\n']);
    }
    for i in 0..rows
        invariant
            rows * cols == cells@.len(),
            texts == cell_texts(cells@),
            "["@ == seq!['['],
            "]"@ == seq![']'],
            ", "@ == seq![',', ' '],
            "\n"@ == seq!['\n'],
            out@ == rows_text(texts, rows as int, cols as int, i as int),
    {
        let ghost before = out@;
        append(&mut out, "[");
        for j in 0..cols
            invariant
                rows * cols == cells@.len(),
                texts == cell_texts(cells@),
                i < rows,
                ", "@ == seq![',', ' '],
                out@ == before + seq!['['] + cells_text(texts, i * cols, cols as int, j as int),
        {
            proof {
                lemma_len_fits(cells);
                lemma_cell_index(rows as int, cols as int, i as int, j as int);
            }
            append(&mut out, cells[i * cols + j].as_str());
            if j < cols - 1 {
                append(&mut out, ", ");
            }
            assert(out@ =~= before + seq!['['] + cells_text(texts, i * cols, cols as int, j + 1));
        }
        append(&mut out, "]");
        if i < rows - 1 {
            append(&mut out, "\n");
        }
        assert(out@ =~= rows_text(texts, rows as int, cols as int, i + 1));
    }
    out
}

impl<T: Number + Display> Matrix<T> {
    /// The matrix as text. Each entry is written as its type displays it.
    pub fn to_text(&self) -> (text: String)
        requires
            self.wf(),
        ensures
            exists|cells: Seq<String>|
                {
                    &&& cells.len() == self.data@.len()
                    &&& forall|i: int|
                        0 <= i < cells.len() ==> to_string_from_display_ensures::<T>(
                            &self.data@[i],
                            #[trigger] cells[i],
                        )
                    &&& text@ == matrix_text(cell_texts(cells), self.rows as int, self.cols as int)
                },
    {
        let mut cells: Vec<String> = Vec::with_capacity(self.data.len());
        for i in 0..self.data.len()
            invariant
                cells@.len() == i,
                forall|k: int|
                    0 <= k < i ==> to_string_from_display_ensures::<T>(
                        &self.data@[k],
                        #[trigger] cells@[k],
                    ),
        {
            cells.push(self.data[i].to_string());
        }
        layout(self.rows, self.cols, &cells)
    }
}

} // verus!
