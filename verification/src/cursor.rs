//! Moving the cursor over the content of the cells.

use vstd::prelude::*;
use crate::glyph::{is_box_drawing_character, is_horizontal_line, is_vertical_line};
use crate::plane::Plane;
use crate::scan::{
    find_left_facing, find_right_facing, lemma_next_left_facing, lemma_prev_right_facing,
};

verus! {

/// The index `at` moved by the offset `by`, kept within the range of an
/// index.
pub open spec fn shifted(at: int, by: int) -> int {
    if at + by < 0 {
        0
    } else if at + by > usize::MAX {
        usize::MAX as int
    } else {
        at + by
    }
}

/// Moves an index by a signed offset, saturating at both ends.
pub fn offset_index(at: usize, by: i32) -> (to: usize)
    ensures
        to == shifted(at as int, by as int),
{
    if by >= 0 {
        at.saturating_add(by as usize)
    } else if by == i32::MIN {
        at.saturating_sub(2147483648usize)
    } else {
        at.saturating_sub((-by) as usize)
    }
}

impl Plane {
    /// Calculates a new position according the specified row and column offset.
    pub(crate) fn adjusted_position(&self, row_offset: i32, col_offset: i32) -> (pos: (
        usize,
        usize,
    ))
        ensures
            pos.0 == shifted(self@.row, row_offset as int),
            pos.1 == shifted(self@.col, col_offset as int),
    {
        (offset_index(self.row, row_offset), offset_index(self.col, col_offset))
    }

    /// Returns `true` when the position is inside the outer border and holds
    /// no box-drawing character.
    pub(crate) fn is_allowed_at(&self, r: usize, c: usize) -> (allowed: bool)
        ensures
            allowed == self@.allowed(r as int, c as int),
    {
        if r > 0 && r < self.rows.len() && r < self.rows.len() - 1 && c > 0 && c
            < self.rows[r].columns.len() && c < self.rows[r].columns.len() - 1 {
            !is_box_drawing_character(self.rows[r].columns[c])
        } else {
            false
        }
    }

    /// Returns `true` when the cursor position is allowed according to horizontal and vertical offset.
    pub(crate) fn is_allowed_position(&self, row_offset: i32, col_offset: i32) -> (allowed: bool)
        ensures
            allowed == self@.allowed(self@.row + row_offset, self@.col + col_offset),
    {
        let (r, c) = self.adjusted_position(row_offset, col_offset);
        proof {
            self.lemma_within_index_range();
        }
        self.is_allowed_at(r, c)
    }

    /// Returns `true` when the character at the specified position is a horizontal line.
    pub(crate) fn is_horz_line(&self, row_offset: i32, col_offset: i32) -> (found: bool)
        ensures
            found == self@.horizontal_at(
                shifted(self@.row, row_offset as int),
                shifted(self@.col, col_offset as int),
            ),
    {
        let (r, c) = self.adjusted_position(row_offset, col_offset);
        if r < self.rows.len() && c < self.rows[r].columns.len() {
            is_horizontal_line(self.rows[r].columns[c])
        } else {
            false
        }
    }

    /// Returns `true` when the character at the specified position is a vertical line.
    pub(crate) fn is_vert_line(&self, row_offset: i32, col_offset: i32) -> (found: bool)
        ensures
            found == self@.vertical_at(
                shifted(self@.row, row_offset as int),
                shifted(self@.col, col_offset as int),
            ),
    {
        let (r, c) = self.adjusted_position(row_offset, col_offset);
        if r < self.rows.len() && c < self.rows[r].columns.len() {
            is_vertical_line(self.rows[r].columns[c])
        } else {
            false
        }
    }

    /// Places the cursor at the position when it is allowed.
    pub(crate) fn cursor_place(&mut self, r: usize, c: usize)
        ensures
            final(self)@ == old(self)@.placed(r as int, c as int),
    {
        if self.is_allowed_at(r, c) {
            self.row = r;
            self.col = c;
        }
    }

    /// Moves the cursor by the given offsets when the position reached is
    /// inside the outer border and holds no box-drawing character.
    pub fn cursor_move(&mut self, row_offset: i32, col_offset: i32)
        ensures
            final(self)@ == old(self)@.stepped(row_offset as int, col_offset as int),
            final(self)@ == old(self)@ || final(self)@.confined(),
    {
        let (r, c) = self.adjusted_position(row_offset, col_offset);
        proof {
            self.lemma_within_index_range();
        }
        self.cursor_place(r, c);
    }

    /// Returns the offset of the vertical line to the right from current cursor position.
    pub(crate) fn get_vert_line_offset_right(&self) -> (offset: Option<usize>)
        ensures
            offset is Some <==> self@.valid_cursor() && self@.right_edge() < self@.line().len(),
            offset is Some ==> self@.col + offset->0 == self@.right_edge(),
    {
        if self.is_valid_cursor_pos() {
            let at = find_left_facing(&self.rows[self.row].columns, self.col);
            if at < self.rows[self.row].columns.len() {
                return Some(at - self.col);
            }
        }
        None
    }

    /// Returns the offset of the vertical line to the left from current cursor position.
    pub(crate) fn get_vert_line_offset_left(&self) -> (offset: Option<usize>)
        ensures
            offset is Some <==> self@.valid_cursor() && self@.left_edge() >= 0,
            offset is Some ==> self@.col - offset->0 == self@.left_edge(),
    {
        if self.is_valid_cursor_pos() {
            proof {
                lemma_prev_right_facing(self@.line(), self@.col);
            }
            if let Some(at) = find_right_facing(&self.rows[self.row].columns, self.col) {
                return Some(self.col - at);
            }
        }
        None
    }

    /// Moves cursor up.
    pub fn cursor_move_up(&mut self) -> (moved: bool)
        ensures
            final(self)@ == old(self)@.moved_up(),
            moved == (final(self)@ != old(self)@),
            moved ==> final(self)@.confined(),
    {
        if self.is_allowed_position(-1, 0) {
            self.cursor_move(-1, 0);
            return true;
        }
        if self.is_horz_line(-1, 0) && self.is_allowed_position(-2, 0) {
            self.cursor_move(-2, 0);
            return true;
        }
        false
    }

    /// Moves cursor down.
    pub fn cursor_move_down(&mut self) -> (moved: bool)
        ensures
            final(self)@ == old(self)@.moved_down(),
            moved == (final(self)@ != old(self)@),
            moved ==> final(self)@.confined(),
    {
        proof {
            self.lemma_within_index_range();
        }
        if self.is_allowed_position(1, 0) {
            self.cursor_move(1, 0);
            return true;
        }
        if self.is_horz_line(1, 0) && self.is_allowed_position(2, 0) {
            self.cursor_move(2, 0);
            return true;
        }
        false
    }

    /// Moves cursor left.
    pub fn cursor_move_left(&mut self) -> (moved: bool)
        ensures
            final(self)@ == old(self)@.moved_left(),
            moved == (final(self)@ != old(self)@),
            moved ==> final(self)@.confined(),
    {
        if self.is_allowed_position(0, -1) {
            self.cursor_move(0, -1);
            return true;
        }
        if self.is_vert_line(0, -1) && self.is_allowed_position(0, -2) {
            self.cursor_move(0, -2);
            return true;
        }
        false
    }

    /// Moves cursor right.
    pub fn cursor_move_right(&mut self) -> (moved: bool)
        ensures
            final(self)@ == old(self)@.moved_right(),
            moved == (final(self)@ != old(self)@),
            moved ==> final(self)@.confined(),
    {
        proof {
            self.lemma_within_index_range();
        }
        if self.is_allowed_position(0, 1) {
            self.cursor_move(0, 1);
            return true;
        }
        if self.is_vert_line(0, 1) && self.is_allowed_position(0, 2) {
            self.cursor_move(0, 2);
            return true;
        }
        false
    }

    /// Places cursor at the first character in the cell (same row).
    pub fn cursor_move_cell_start(&mut self) -> (moved: bool)
        ensures
            final(self)@ == old(self)@.moved_cell_start(),
            moved == (final(self)@ != old(self)@),
            moved ==> final(self)@.confined(),
    {
        let before = self.col;
        if let Some(offset) = self.get_vert_line_offset_left() {
            proof {
                self.lemma_within_index_range();
            }
            self.cursor_place(self.row, self.col - offset + 1);
        }
        self.col != before
    }

    /// Places cursor at the last character in the cell (same row).
    pub fn cursor_move_cell_end(&mut self) -> (moved: bool)
        ensures
            final(self)@ == old(self)@.moved_cell_end(),
            moved == (final(self)@ != old(self)@),
            moved ==> final(self)@.confined(),
    {
        let before = self.col;
        if let Some(offset) = self.get_vert_line_offset_right() {
            proof {
                self.lemma_within_index_range();
                lemma_next_left_facing(self@.line(), self@.col);
            }
            if self.col + offset >= 1 {
                self.cursor_place(self.row, self.col + offset - 1);
            }
        }
        self.col != before
    }

    /// Places cursor at the first character in the decision table (same row).
    pub fn cursor_move_table_start(&mut self) -> (moved: bool)
        ensures
            final(self)@ == old(self)@.moved_table_start(),
            moved == (final(self)@ != old(self)@),
            moved ==> final(self)@.confined(),
    {
        if self.is_allowed_at(self.row, 1) {
            let before = self.col;
            self.col = 1;
            before != 1
        } else {
            self.cursor_move_cell_start()
        }
    }

    /// Places cursor at the last character in the decision table (same row).
    pub fn cursor_move_table_end(&mut self) -> (moved: bool)
        ensures
            final(self)@ == old(self)@.moved_table_end(),
            moved == (final(self)@ != old(self)@),
            moved ==> final(self)@.confined(),
    {
        if self.row < self.rows.len() && self.rows[self.row].columns.len() >= 2 {
            let index = self.rows[self.row].columns.len() - 2;
            if self.is_allowed_at(self.row, index) {
                let before = self.col;
                self.col = index;
                return before != index;
            }
        }
        self.cursor_move_cell_end()
    }

    /// Places cursor at the first character in the next cell to the right.
    pub fn cursor_move_cell_right(&mut self) -> (moved: bool)
        ensures
            final(self)@ == old(self)@.moved_cell_right(),
            moved == (final(self)@ != old(self)@),
            moved ==> final(self)@.confined(),
    {
        let before = self.col;
        if let Some(offset) = self.get_vert_line_offset_right() {
            proof {
                self.lemma_within_index_range();
                lemma_next_left_facing(self@.line(), self@.col);
            }
            let edge = self.col + offset;
            if self.is_allowed_at(self.row, edge + 1) {
                self.col = edge + 1;
            } else if edge >= 1 {
                self.cursor_place(self.row, edge - 1);
            }
        }
        self.col != before
    }

    /// Places cursor at the last character in the next cell to the left.
    pub fn cursor_move_cell_left(&mut self) -> (moved: bool)
        ensures
            final(self)@ == old(self)@.moved_cell_left(),
            moved == (final(self)@ != old(self)@),
            moved ==> final(self)@.confined(),
    {
        let before = self.col;
        if let Some(offset) = self.get_vert_line_offset_left() {
            proof {
                self.lemma_within_index_range();
            }
            let edge = self.col - offset;
            if edge >= 1 && self.is_allowed_at(self.row, edge - 1) {
                self.col = edge - 1;
            } else {
                self.cursor_place(self.row, edge + 1);
            }
        }
        self.col != before
    }
}

} // verus!
