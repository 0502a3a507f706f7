//! Inserting and deleting characters while the columns stay aligned.

use vstd::prelude::*;
use crate::glyph::{
    filler, is_box_drawing_character, is_divider, is_vertical_line_left, loosen, tighten, CH_WS,
};
use crate::confinement::{
    law_delete_before_keeps_cursor_confined, law_delete_before_steps_left,
    law_delete_keeps_cursor_confined, law_delete_takes_the_character_under_the_cursor,
    law_insert_keeps_cursor_confined, law_insert_steps_right, plain_delete, plain_delete_before,
    plain_insert, safe_to_delete, safe_to_delete_before,
};
use crate::laws::{law_edits_keep_the_rows, law_insert_with_slack_keeps_columns};
use crate::model::{insert_each, narrow_row, remove_each, row_has_spare, widen_row};
use crate::plane::Plane;
use crate::rectangle::{
    law_delete_before_keeps_region_rectangular, law_delete_keeps_region_rectangular,
    law_insert_keeps_region_rectangular, narrows, narrows_before, rectangular, region_has_length,
};
use crate::scan::{
    find_crossing, find_left_facing, lemma_next_left_facing, next_left_facing, padding_before,
};

verus! {

/// Returns `true` when the row can give up one character of its column at
/// `pos`.
pub fn has_spare_before_vert_line(row: &Vec<char>, pos: usize) -> (spare: bool)
    ensures
        spare == row_has_spare(row@, pos as int),
{
    if 1 <= pos && pos < row.len() && pos < row.len() - 1 && !is_box_drawing_character(row[pos]) {
        let end = find_left_facing(row, pos + 1);
        if end < row.len() {
            return row[end - 1] == CH_WS && !is_box_drawing_character(row[end - 2]);
        }
    }
    true
}

impl Plane {
    /// Puts a character into a row, before the given column.
    pub(crate) fn insert_at(&mut self, r: usize, c: usize, ch: char)
        requires
            r < old(self)@.rows.len(),
            c <= old(self)@.rows[r as int].len(),
        ensures
            final(self)@ == old(self)@.with_row(r as int, old(self)@.rows[r as int].insert(c as int, ch)),
    {
        self.rows[r].columns.insert(c, ch);
        assert(self@.rows =~= old(self)@.rows.update(
            r as int,
            old(self)@.rows[r as int].insert(c as int, ch),
        ));
    }

    /// Takes the character at the given column out of a row.
    pub(crate) fn remove_at(&mut self, r: usize, c: usize)
        requires
            r < old(self)@.rows.len(),
            c < old(self)@.rows[r as int].len(),
        ensures
            final(self)@ == old(self)@.with_row(r as int, old(self)@.rows[r as int].remove(c as int)),
    {
        self.rows[r].columns.remove(c);
        assert(self@.rows =~= old(self)@.rows.update(
            r as int,
            old(self)@.rows[r as int].remove(c as int),
        ));
    }

    /// Replaces the character at the given column of a row.
    pub(crate) fn set_at(&mut self, r: usize, c: usize, ch: char)
        requires
            r < old(self)@.rows.len(),
            c < old(self)@.rows[r as int].len(),
        ensures
            final(self)@ == old(self)@.with_row(r as int, old(self)@.rows[r as int].update(c as int, ch)),
    {
        self.rows[r].columns[c] = ch;
        assert(self@.rows =~= old(self)@.rows.update(
            r as int,
            old(self)@.rows[r as int].update(c as int, ch),
        ));
    }

    /// Returns the character at the given column of a row.
    pub(crate) fn char_at(&self, r: usize, c: usize) -> (ch: char)
        requires
            r < self@.rows.len(),
            c < self@.rows[r as int].len(),
        ensures
            ch == self@.rows[r as int][c as int],
    {
        self.rows[r].columns[c]
    }

    /// Returns the length of a row.
    pub(crate) fn len_of(&self, r: usize) -> (len: usize)
        requires
            r < self@.rows.len(),
        ensures
            len == self@.rows[r as int].len(),
    {
        self.rows[r].columns.len()
    }

    /// Returns the rows of the alignment region of the cursor, as the index
    /// of the first and their number.
    pub(crate) fn rows_skip_and_take(&self) -> (range: (usize, usize))
        ensures
            range.0 + range.1 <= self@.rows.len(),
            forall|i: int| self@.in_region(i) <==> range.0 <= i < range.0 + range.1,
    {
        let len = self.rows.len();
        if self.row < self.iih {
            (0, if self.iih < len { self.iih } else { len })
        } else if self.iih < len {
            (self.iih, len - self.iih)
        } else {
            (len, 0)
        }
    }

    /// Puts the character `ch` before column `at` into each of the rows from
    /// `from` up to `to` that reaches that column.
    pub(crate) fn insert_in_rows(&mut self, from: usize, to: usize, at: usize, ch: char)
        requires
            from <= to <= old(self)@.rows.len(),
        ensures
            final(self)@ == old(self)@.with_rows(
                insert_each(old(self)@.rows, from as int, to as int, at as int, ch),
            ),
    {
        let ghost before = self@;
        let mut i: usize = from;
        while i < to
            invariant
                from <= i <= to <= before.rows.len(),
                self@ == before.with_rows(self@.rows),
                self@.rows.len() == before.rows.len(),
                forall|k: int|
                    0 <= k < before.rows.len() ==> #[trigger] self@.rows[k] == if from <= k < i && at
                        <= before.rows[k].len() {
                        before.rows[k].insert(at as int, ch)
                    } else {
                        before.rows[k]
                    },
            decreases to - i,
        {
            if at <= self.len_of(i) {
                self.insert_at(i, at, ch);
            }
            i += 1;
        }
        assert(self@.rows =~= insert_each(before.rows, from as int, to as int, at as int, ch));
    }

    /// Takes the character at column `at` out of each of the rows from `from`
    /// up to `to` that holds that column.
    pub(crate) fn remove_in_rows(&mut self, from: usize, to: usize, at: usize)
        requires
            from <= to <= old(self)@.rows.len(),
        ensures
            final(self)@ == old(self)@.with_rows(
                remove_each(old(self)@.rows, from as int, to as int, at as int),
            ),
    {
        let ghost before = self@;
        let mut i: usize = from;
        while i < to
            invariant
                from <= i <= to <= before.rows.len(),
                self@ == before.with_rows(self@.rows),
                self@.rows.len() == before.rows.len(),
                forall|k: int|
                    0 <= k < before.rows.len() ==> #[trigger] self@.rows[k] == if from <= k < i && at
                        < before.rows[k].len() {
                        before.rows[k].remove(at as int)
                    } else {
                        before.rows[k]
                    },
            decreases to - i,
        {
            if at < self.len_of(i) {
                self.remove_at(i, at);
            }
            i += 1;
        }
        assert(self@.rows =~= remove_each(before.rows, from as int, to as int, at as int));
    }

    /// Takes the upward stroke from the connector below the right border of
    /// the header, so that a search for crossings passes over it.
    pub(crate) fn disconnect_header(&mut self)
        ensures
            final(self)@ == old(self)@.disconnected(),
    {
        let i = self.iih;
        if i > 0 && i < self.rows.len() && self.len_of(0) > 0 {
            let pos = self.len_of(0) - 1;
            if pos < self.len_of(i) {
                let ch = loosen(self.char_at(i, pos));
                self.set_at(i, pos, ch);
            }
        }
    }

    /// Gives the character below the right border of the header its upward
    /// stroke. Where the junction of the body has come to stand there, the
    /// border moves on instead: the header gets wider by one column when the
    /// border met the junction from the left (`from_left`), and narrower
    /// otherwise. A cursor in the header that stands behind the column that
    /// leaves keeps to its character.
    pub(crate) fn connect_header(&mut self, from_left: bool)
        ensures
            final(self)@ == old(self)@.connected(from_left),
    {
        let i = self.iih;
        if i > 0 && i < self.rows.len() && self.len_of(0) > 0 {
            let pos = self.len_of(0) - 1;
            if pos < self.len_of(i) {
                let ch = self.char_at(i, pos);
                if ch == '╥' {
                    if from_left {
                        if pos + 1 < self.len_of(i) {
                            self.set_at(i, pos + 1, '┴');
                            self.insert_at(0, pos, '─');
                            self.insert_in_rows(1, i, pos, CH_WS);
                        }
                    } else if pos >= 1 {
                        let follows = 1 <= self.row && self.row < i && pos - 1 < self.col && pos - 1
                            < self.len_of(self.row);
                        self.set_at(i, pos - 1, '┴');
                        self.remove_at(0, pos - 1);
                        self.remove_in_rows(1, i, pos - 1);
                        if follows {
                            self.col = self.col - 1;
                        }
                    }
                } else {
                    self.set_at(i, pos, tighten(ch));
                }
            }
        }
    }

    /// Returns the position of the last character before the vertical line.
    pub(crate) fn last_position_before_vert_line(&self) -> (pos: usize)
        requires
            self@.row < self@.rows.len(),
            1 <= self@.col <= self@.line().len(),
        ensures
            pos == self@.last_column(),
    {
        let at = find_left_facing(&self.rows[self.row].columns, self.col);
        if at < self.len_of(self.row) {
            at - 1
        } else {
            self.col
        }
    }

    /// Inserts whitespace character before the next vertical line to the right from the cursor.
    pub(crate) fn insert_whitespace_before_vert_line(&mut self)
        ensures
            final(self)@ == old(self)@.padded(),
    {
        if 1 <= self.row && self.row < self.rows.len() {
            let len = self.len_of(self.row);
            if 1 <= self.col && self.col < len && self.col < len - 1 {
                let at = find_left_facing(&self.rows[self.row].columns, self.col);
                if at < len {
                    self.insert_at(self.row, at, CH_WS);
                }
            }
        }
    }

    /// Counts the padding that stands directly before the next vertical line
    /// to the right of the cursor, and the characters between the cursor and
    /// that line.
    pub(crate) fn whitespace_before_vert_line(&self) -> (found: (usize, usize))
        requires
            self@.valid_cursor(),
        ensures
            found.0 == padding_before(self@.line(), self@.col + 1, self@.slack_end()),
            self@.col + 1 + found.1 == self@.slack_end(),
            found.0 > 0 <==> self@.has_slack(),
    {
        proof {
            self.lemma_within_index_range();
        }
        let row = &self.rows[self.row].columns;
        let mut count: usize = 0;
        let mut at: usize = self.col + 1;
        while at < row.len() && !is_vertical_line_left(row[at])
            invariant
                self.col + 1 <= at <= row.len(),
                count <= at,
                count == padding_before(row@, self.col + 1, at as int),
                next_left_facing(row@, self.col + 1) == next_left_facing(row@, at as int),
            decreases row.len() - at,
        {
            if row[at] == CH_WS {
                count += 1;
            } else {
                count = 0;
            }
            at += 1;
        }
        (count, at - (self.col + 1))
    }

    /// Makes the column of the cursor one character wider in every other row
    /// of the region.
    pub(crate) fn insert_column_before_vert_line_crossing(&mut self)
        ensures
            final(self)@ == old(self)@.widened(),
    {
        let ghost before = self@;
        let (skip, take) = self.rows_skip_and_take();
        proof {
            self.lemma_within_index_range();
        }
        let end = skip + take;
        let mut row_index: usize = skip;
        while row_index < end
            invariant
                end == skip + take,
                skip <= row_index <= end <= before.rows.len(),
                self@ == before.with_rows(self@.rows),
                self@.rows.len() == before.rows.len(),
                forall|i: int| before.in_region(i) <==> skip <= i < skip + take,
                forall|k: int|
                    0 <= k < before.rows.len() ==> #[trigger] self@.rows[k] == if skip <= k
                        < row_index && k != before.row {
                        widen_row(before.rows[k], before.col)
                    } else {
                        before.rows[k]
                    },
            decreases end - row_index,
        {
            let len = self.len_of(row_index);
            if row_index != self.row && self.col < len && self.col < len - 1 {
                let found_index = find_crossing(&self.rows[row_index].columns, self.col);
                if found_index < len {
                    let found_char = self.char_at(row_index, found_index);
                    self.insert_at(row_index, found_index, filler(found_char));
                }
            }
            row_index += 1;
        }
        assert(self@.rows =~= before.widened().rows);
    }

    /// Returns `true` if there is a whitespace is before the next vertical line
    /// to the right from the specified position in each checked row.
    pub(crate) fn whitespaces_before_vert_line(&self, pos: usize) -> (spare: bool)
        ensures
            spare == self@.has_spare(pos as int),
    {
        let (skip, take) = self.rows_skip_and_take();
        proof {
            self.lemma_within_index_range();
        }
        let end = skip + take;
        let mut row_index: usize = skip;
        while row_index < end
            invariant
                end == skip + take,
                skip <= row_index <= end <= self@.rows.len(),
                forall|i: int| self@.in_region(i) <==> skip <= i < skip + take,
                forall|i: int| skip <= i < row_index ==> row_has_spare(#[trigger] self@.rows[i], pos as int),
            decreases end - row_index,
        {
            if !has_spare_before_vert_line(&self.rows[row_index].columns, pos) {
                assert(!row_has_spare(self@.rows[row_index as int], pos as int));
                return false;
            }
            row_index += 1;
        }
        true
    }

    /// Deletes a single character before the next vertical line to the right
    /// from the specified position.
    pub(crate) fn delete_character_before_vert_line(&mut self, pos: usize)
        ensures
            final(self)@ == old(self)@.narrowed(pos as int),
    {
        let ghost before = self@;
        let (skip, take) = self.rows_skip_and_take();
        proof {
            self.lemma_within_index_range();
        }
        let end = skip + take;
        let mut row_index: usize = skip;
        while row_index < end
            invariant
                end == skip + take,
                skip <= row_index <= end <= before.rows.len(),
                self@ == before.with_rows(self@.rows),
                self@.rows.len() == before.rows.len(),
                forall|i: int| before.in_region(i) <==> skip <= i < skip + take,
                forall|k: int|
                    0 <= k < before.rows.len() ==> #[trigger] self@.rows[k] == if skip <= k
                        < row_index && k != before.row {
                        narrow_row(before.rows[k], pos as int)
                    } else {
                        before.rows[k]
                    },
            decreases end - row_index,
        {
            let len = self.len_of(row_index);
            if row_index != self.row && pos < len && pos < len - 1 {
                let found_index = find_crossing(&self.rows[row_index].columns, pos);
                if 0 < found_index && found_index < len {
                    self.remove_at(row_index, found_index - 1);
                }
            }
            row_index += 1;
        }
        assert(self@.rows =~= before.narrowed(pos as int).rows);
    }

    /// Steps the cursor back one column where a box-drawing character stands
    /// under it.
    pub(crate) fn settle(&mut self)
        ensures
            final(self)@ == old(self)@.settled(),
    {
        if self.row < self.rows.len() && self.col < self.len_of(self.row)
            && is_box_drawing_character(self.char_at(self.row, self.col)) {
            self.cursor_move(0, -1);
        }
    }

    /// Adjusts the column of the cursor to a row of the cursor that is one
    /// character shorter: makes the column one character narrower in every
    /// other row of the region when each row can spare one, and pads the row
    /// of the cursor to its old width otherwise.
    pub(crate) fn rebalance(&mut self)
        requires
            old(self)@.row < old(self)@.rows.len(),
            1 <= old(self)@.col <= old(self)@.line().len(),
        ensures
            final(self)@ == old(self)@.rebalanced(),
    {
        let pos = self.last_position_before_vert_line();
        if self.whitespaces_before_vert_line(pos) {
            self.disconnect_header();
            self.delete_character_before_vert_line(pos);
            self.connect_header(self.row > self.iih);
        } else {
            self.insert_whitespace_before_vert_line();
        }
    }

    /// Inserts a character at the current position, and moves the cursor one
    /// column to the right.
    ///
    /// One character of padding before the divider that closes the cell is
    /// enough to take the new character in: that padding leaves, and no other
    /// row changes. Only without any does the column get wider: every other
    /// row of the region gets, before its first crossing at or after the
    /// column of the cursor, a character that continues its line. Nothing
    /// happens when the cursor position is not valid.
    pub fn insert_char(&mut self, ch: char)
        ensures
            final(self)@ == old(self)@.inserted(ch),
            final(self)@.rows.len() == old(self)@.rows.len(),
            final(self)@.seam == old(self)@.seam,
            final(self)@.row == old(self)@.row,
            old(self)@.confined() && !is_divider(ch) ==> final(self)@.confined(),
            plain_insert(old(self)@, ch) ==> final(self)@.row == old(self)@.row && final(self)@.col
                == old(self)@.col + 1 && final(self)@.line()[old(self)@.col] == ch,
            old(self)@.valid_cursor() && rectangular(old(self)@, old(self)@.width())
                ==> if old(self)@.has_slack() {
                region_has_length(final(self)@, old(self)@.width())
            } else {
                region_has_length(final(self)@, old(self)@.width() + 1) || (old(self)@.row
                    < old(self)@.seam && region_has_length(
                    final(self)@,
                    old(self)@.width() + 2,
                ))
            },
            old(self)@.valid_cursor() && old(self)@.has_slack() ==> final(self)@.line().len()
                == old(self)@.line().len() && forall|i: int|
                0 <= i < old(self)@.rows.len() && i != old(self)@.row ==> final(self)@.rows[i]
                    == old(self)@.rows[i],
    {
        proof {
            law_edits_keep_the_rows(self@, ch);
            if self@.confined() && !is_divider(ch) {
                law_insert_keeps_cursor_confined(self@, ch);
            }
            if plain_insert(self@, ch) {
                law_insert_steps_right(self@, ch);
            }
            if self@.valid_cursor() && rectangular(self@, self@.width()) {
                law_insert_keeps_region_rectangular(self@, ch, self@.width());
            }
            if self@.valid_cursor() && self@.has_slack() {
                law_insert_with_slack_keeps_columns(self@, ch);
            }
        }
        if self.is_valid_cursor_pos() {
            proof {
                lemma_next_left_facing(self@.line(), self@.col + 1);
            }
            let (count, offset) = self.whitespace_before_vert_line();
            self.insert_at(self.row, self.col, ch);
            proof {
                self.lemma_within_index_range();
                assert(self@.rows[self@.row].len() <= usize::MAX);
            }
            if count > 0 {
                self.remove_at(self.row, self.col + offset + 1);
            } else {
                self.disconnect_header();
                self.insert_column_before_vert_line_crossing();
                self.connect_header(self.row < self.iih);
            }
            self.cursor_move(0, 1);
        }
    }

    /// Deletes a character placed *before* the cursor, and moves the cursor
    /// one column to the left, and one more where a box-drawing character has
    /// come to stand under it.
    ///
    /// Where every row of the region holds padding to spare before the
    /// divider that closes the column, the column gets narrower in every
    /// other row; otherwise the row of the cursor is padded to its old
    /// width. Nothing happens when the position before the cursor is not
    /// inside the outer border or holds a box-drawing character.
    pub fn delete_char_before(&mut self)
        ensures
            final(self)@ == old(self)@.deleted_before(),
            final(self)@.rows.len() == old(self)@.rows.len(),
            final(self)@.seam == old(self)@.seam,
            final(self)@.row == old(self)@.row,
            safe_to_delete_before(old(self)@) ==> final(self)@.confined(),
            plain_delete_before(old(self)@) ==> final(self)@.row == old(self)@.row && (
            final(self)@.col == old(self)@.col - 1 || (final(self)@.col == old(self)@.col - 2
                && is_divider(final(self)@.line()[old(self)@.col - 1]))) && forall|k: int|
                0 <= k < old(self)@.col - 1 ==> final(self)@.line()[k] == old(self)@.line()[k],
            old(self)@.confined() && rectangular(old(self)@, old(self)@.width())
                && old(self)@.right_edge() < old(self)@.line().len() ==> if narrows_before(
                old(self)@,
            ) {
                region_has_length(final(self)@, old(self)@.width() - 1) || (old(self)@.row
                    < old(self)@.seam && region_has_length(
                    final(self)@,
                    old(self)@.width() - 2,
                ))
            } else {
                region_has_length(final(self)@, old(self)@.width())
            },
    {
        proof {
            law_edits_keep_the_rows(self@, ' ');
            if safe_to_delete_before(self@) {
                law_delete_before_keeps_cursor_confined(self@);
            }
            if plain_delete_before(self@) {
                law_delete_before_steps_left(self@);
            }
            if self@.confined() && rectangular(self@, self@.width())
                && self@.right_edge() < self@.line().len() {
                law_delete_before_keeps_region_rectangular(self@, self@.width());
            }
        }
        if self.is_allowed_position(0, -1) {
            self.remove_at(self.row, self.col - 1);
            self.cursor_move(0, -1);
            self.rebalance();
            self.settle();
        }
    }

    /// Deletes a character placed *under* the cursor. The cursor steps back
    /// when a box-drawing character comes to stand under it.
    ///
    /// Where every row of the region holds padding to spare before the
    /// divider that closes the column, the column gets narrower in every
    /// other row; otherwise the row of the cursor is padded to its old
    /// width. Nothing happens when the cursor position is not valid.
    pub fn delete_char(&mut self)
        ensures
            final(self)@ == old(self)@.deleted(),
            final(self)@.rows.len() == old(self)@.rows.len(),
            final(self)@.seam == old(self)@.seam,
            final(self)@.row == old(self)@.row,
            safe_to_delete(old(self)@) ==> final(self)@.confined(),
            plain_delete(old(self)@) ==> final(self)@.row == old(self)@.row && (final(self)@.col
                == old(self)@.col || (final(self)@.col == old(self)@.col - 1 && is_divider(
                final(self)@.line()[old(self)@.col],
            ))) && (final(self)@.line()[old(self)@.col] == old(self)@.line()[old(self)@.col + 1]
                || final(self)@.line()[old(self)@.col] == ' ') && forall|k: int|
                0 <= k < old(self)@.col ==> final(self)@.line()[k] == old(self)@.line()[k],
            old(self)@.confined() && rectangular(old(self)@, old(self)@.width())
                && old(self)@.right_edge() < old(self)@.line().len() ==> if narrows(old(self)@) {
                region_has_length(final(self)@, old(self)@.width() - 1) || (old(self)@.row
                    < old(self)@.seam && region_has_length(
                    final(self)@,
                    old(self)@.width() - 2,
                ))
            } else {
                region_has_length(final(self)@, old(self)@.width())
            },
    {
        proof {
            law_edits_keep_the_rows(self@, ' ');
            if safe_to_delete(self@) {
                law_delete_keeps_cursor_confined(self@);
            }
            if plain_delete(self@) {
                law_delete_takes_the_character_under_the_cursor(self@);
            }
            if self@.confined() && rectangular(self@, self@.width())
                && self@.right_edge() < self@.line().len() {
                law_delete_keeps_region_rectangular(self@, self@.width());
            }
        }
        if self.is_valid_cursor_pos() {
            self.rebalance();
            if self.row < self.rows.len() && self.col < self.len_of(self.row) && self.col
                < self.len_of(self.row) - 1 {
                self.remove_at(self.row, self.col);
                self.settle();
            }
        }
    }
}

} // verus!
