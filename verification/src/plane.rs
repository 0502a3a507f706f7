//! The editing plane: rows of characters and a cursor.

use vstd::prelude::*;
use crate::model::{is_seam_row, next_seam_row, seam_height, PlaneView};
use crate::row::{grid_of, Row};
use crate::text::{join_rows, parse_rows, rendered, table_rows, to_text, trim};

verus! {

/// Plane containing rows of characters.
pub struct Plane {
    /// Rows in plane.
    pub(crate) rows: Vec<Row>,
    /// Current vertical cursor position (row index).
    pub(crate) row: usize,
    /// Current horizontal cursor position (column index).
    pub(crate) col: usize,
    /// Information item height (0 when not present).
    pub(crate) iih: usize,
}

impl Plane {
    /// The grid, the cursor and the seam of the plane.
    pub open(crate) spec fn view(&self) -> PlaneView {
        PlaneView {
            rows: grid_of(self.rows@),
            row: self.row as int,
            col: self.col as int,
            seam: self.iih as int,
        }
    }

    /// No row, and no number of rows, is beyond the range of an index.
    pub(crate) proof fn lemma_within_index_range(&self)
        ensures
            self@.rows.len() <= usize::MAX,
            forall|i: int| 0 <= i < self@.rows.len() ==> (#[trigger] self@.rows[i]).len() <= usize::MAX,
    {
        assert(self.rows.len() <= usize::MAX);
        assert forall|i: int| 0 <= i < self@.rows.len() implies (#[trigger] self@.rows[i]).len()
            <= usize::MAX by {
            assert(self.rows[i].columns.len() <= usize::MAX);
        }
    }

    /// Creates a plane from text. The cursor starts in the second row and
    /// the second column, whatever stands there.
    pub fn new(content: &str) -> (plane: Self)
        ensures
            plane@.rows == table_rows(content@),
            plane@.row == 1,
            plane@.col == 1,
            plane@.seam == seam_height(plane@.rows),
    {
        let rows = parse_rows(content);
        let iih = information_item_height(rows.as_slice());
        Self { rows, row: 1, col: 1, iih }
    }

    /// Returns a reference to rows.
    pub fn rows(&self) -> (rows: &[Row])
        ensures
            grid_of(rows@) == self@.rows,
    {
        self.rows.as_slice()
    }

    /// Returns the vertical position of the cursor in screen coordinates.
    pub fn cursor_row(&self) -> (row: i32)
        ensures
            row == self@.row as i32,
            self@.row <= i32::MAX ==> row == self@.row,
    {
        #[verifier::truncate]
        (self.row as i32)
    }

    /// Returns the horizontal position of the cursor in screen coordinates.
    pub fn cursor_col(&self) -> (col: i32)
        ensures
            col == self@.col as i32,
            self@.col <= i32::MAX ==> col == self@.col,
    {
        #[verifier::truncate]
        (self.col as i32)
    }

    /// Returns `true` if the current cursor position is valid.
    pub fn is_valid_cursor_pos(&self) -> (valid: bool)
        ensures
            valid == self@.valid_cursor(),
    {
        1 <= self.row && self.row < self.rows.len() && self.row < self.rows.len() - 1 && 1
            <= self.col && self.col < self.rows[self.row].columns.len() && self.col
            < self.rows[self.row].columns.len() - 1
    }

    /// Converts the plane into its string representation: the rows, each on
    /// a line of its own, trimmed as a whole.
    pub fn to_string(&self) -> (text: String)
        ensures
            text@ == rendered(self@.rows),
    {
        let all = join_rows(self.rows.as_slice());
        let kept = trim(&all);
        to_text(&kept)
    }
}

/// Calculates the height of the information item cell at the beginning of the
/// decision table: the index of the first row that begins with `┌` or `├`
/// and holds `╥`, or 0.
pub fn information_item_height(rows: &[Row]) -> (height: usize)
    ensures
        height == seam_height(grid_of(rows@)),
{
    let mut row_index: usize = 0;
    while row_index < rows.len()
        invariant
            row_index <= rows.len(),
            next_seam_row(grid_of(rows@), 0) == next_seam_row(grid_of(rows@), row_index as int),
        decreases rows.len() - row_index,
    {
        let row = &rows[row_index];
        if row.columns.len() > 0 && (row.columns[0] == '┌' || row.columns[0] == '├') {
            let mut col_index: usize = 0;
            while col_index < row.columns.len()
                invariant
                    col_index <= row.columns.len(),
                    row_index < rows.len(),
                    next_seam_row(grid_of(rows@), 0) == next_seam_row(
                        grid_of(rows@),
                        row_index as int,
                    ),
                    row@ == grid_of(rows@)[row_index as int],
                    row@.len() > 0 && (row@[0] == '┌' || row@[0] == '├'),
                    forall|k: int| 0 <= k < col_index ==> row@[k] != '╥',
                decreases row.columns.len() - col_index,
            {
                if row.columns[col_index] == '╥' {
                    assert(row@.contains('╥'));
                    assert(is_seam_row(grid_of(rows@)[row_index as int]));
                    return row_index;
                }
                col_index += 1;
            }
            assert(!row@.contains('╥'));
        }
        assert(!is_seam_row(grid_of(rows@)[row_index as int]));
        row_index += 1;
    }
    0
}

} // verus!
