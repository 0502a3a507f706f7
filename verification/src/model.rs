//! The mathematical model of the editing plane.
//!
//! A plane is a grid of characters, a cursor and the index of the seam row.
//! Each operation of the plane is defined here as a function from one such
//! value to the next; the executable operations are proved against them.

use vstd::prelude::*;
use crate::glyph::{filler_of, is_divider, is_horizontal, is_vertical, loosened, tightened};
use crate::scan::{next_crossing, next_left_facing, prev_right_facing};

verus! {

/// The row with its column made one character wider: the filler goes
/// directly before the first crossing at or after `col`. A row that ends at
/// `col` or has no such crossing stays as it is.
pub open spec fn widen_row(row: Seq<char>, col: int) -> Seq<char> {
    let at = next_crossing(row, col);
    if col + 1 < row.len() && at < row.len() {
        row.insert(at, filler_of(row[at]))
    } else {
        row
    }
}

/// The row with its column made one character narrower: the character
/// directly before the first crossing at or after `pos` leaves. A row that
/// ends at `pos`, has no such crossing or has it in its first column stays as
/// it is.
pub open spec fn narrow_row(row: Seq<char>, pos: int) -> Seq<char> {
    let at = next_crossing(row, pos);
    if pos + 1 < row.len() && 0 < at < row.len() {
        row.remove(at - 1)
    } else {
        row
    }
}

/// Whether the row can give up one character of its column at `pos`. A row
/// that has a divider at `pos`, or no content there, or no vertical line to
/// the right of it, never objects. Any other row must hold padding directly
/// before that vertical line, and no divider directly before the padding.
pub open spec fn row_has_spare(row: Seq<char>, pos: int) -> bool {
    let end = next_left_facing(row, pos + 1);
    (1 <= pos && pos + 1 < row.len() && !is_divider(row[pos]) && end < row.len()) ==> (row[end
        - 1] == ' ' && !is_divider(row[end - 2]))
}

/// The rows from `from` up to `to`, as far as they reach column `at`, get
/// the character `ch` there.
pub open spec fn insert_each(rows: Seq<Seq<char>>, from: int, to: int, at: int, ch: char) -> Seq<
    Seq<char>,
> {
    Seq::new(
        rows.len(),
        |i: int|
            if from <= i < to && 0 <= at <= rows[i].len() {
                rows[i].insert(at, ch)
            } else {
                rows[i]
            },
    )
}

/// The rows from `from` up to `to`, as far as they hold a column `at`, lose
/// the character there.
pub open spec fn remove_each(rows: Seq<Seq<char>>, from: int, to: int, at: int) -> Seq<Seq<char>> {
    Seq::new(
        rows.len(),
        |i: int|
            if from <= i < to && 0 <= at < rows[i].len() {
                rows[i].remove(at)
            } else {
                rows[i]
            },
    )
}

/// Index of the first row that begins with a corner of the seam and holds the
/// junction under which the body of the table splits from its header, at or
/// after `from`; the number of rows when there is none.
pub open spec fn next_seam_row(rows: Seq<Seq<char>>, from: int) -> int
    decreases rows.len() - from,
{
    if from < 0 || from >= rows.len() {
        rows.len() as int
    } else if is_seam_row(rows[from]) {
        from
    } else {
        next_seam_row(rows, from + 1)
    }
}

/// A row that begins with `┌` or `├` and holds `╥`.
pub open spec fn is_seam_row(row: Seq<char>) -> bool {
    row.len() > 0 && (row[0] == '┌' || row[0] == '├') && row.contains('╥')
}

/// Height of the header: the index of the first seam row, 0 when the table
/// has none.
pub open spec fn seam_height(rows: Seq<Seq<char>>) -> int {
    let at = next_seam_row(rows, 0);
    if at < rows.len() {
        at
    } else {
        0
    }
}

/// A grid of characters with a cursor.
pub struct PlaneView {
    /// The characters, row by row.
    pub rows: Seq<Seq<char>>,
    /// Row of the cursor.
    pub row: int,
    /// Column of the cursor.
    pub col: int,
    /// Index of the seam row, the first row of the body; 0 when the table has
    /// no header above its body.
    pub seam: int,
}

impl PlaneView {
    /// The cursor is inside the outer border of the table.
    pub open spec fn valid_cursor(self) -> bool {
        1 <= self.row < self.rows.len() - 1 && 1 <= self.col < self.rows[self.row].len() - 1
    }

    /// The position is inside the outer border and holds no divider.
    pub open spec fn allowed(self, r: int, c: int) -> bool {
        0 < r < self.rows.len() - 1 && 0 < c < self.rows[r].len() - 1 && !is_divider(
            self.rows[r][c],
        )
    }

    /// The cursor rests on the content of a cell.
    pub open spec fn confined(self) -> bool {
        self.allowed(self.row, self.col)
    }

    /// The same plane with other characters.
    pub open spec fn with_rows(self, rows: Seq<Seq<char>>) -> PlaneView {
        PlaneView { rows, ..self }
    }

    /// The same plane with one row replaced.
    pub open spec fn with_row(self, r: int, row: Seq<char>) -> PlaneView {
        PlaneView { rows: self.rows.update(r, row), ..self }
    }

    /// The same plane with the cursor at the given position.
    pub open spec fn at(self, r: int, c: int) -> PlaneView {
        PlaneView { row: r, col: c, ..self }
    }

    /// The cursor goes to the position when it is allowed, and stays
    /// otherwise.
    pub open spec fn placed(self, r: int, c: int) -> PlaneView {
        if self.allowed(r, c) {
            self.at(r, c)
        } else {
            self
        }
    }

    /// The cursor goes by the given offsets when the position reached is
    /// allowed, and stays otherwise.
    pub open spec fn stepped(self, dr: int, dc: int) -> PlaneView {
        self.placed(self.row + dr, self.col + dc)
    }

    /// The position is in the grid and holds a horizontal line.
    pub open spec fn horizontal_at(self, r: int, c: int) -> bool {
        0 <= r < self.rows.len() && 0 <= c < self.rows[r].len() && is_horizontal(self.rows[r][c])
    }

    /// The position is in the grid and holds a vertical line.
    pub open spec fn vertical_at(self, r: int, c: int) -> bool {
        0 <= r < self.rows.len() && 0 <= c < self.rows[r].len() && is_vertical(self.rows[r][c])
    }

    /// The row of the cursor.
    pub open spec fn line(self) -> Seq<char> {
        self.rows[self.row]
    }

    /// Length of the row of the cursor.
    pub open spec fn width(self) -> int {
        self.line().len() as int
    }

    /// One row up, across a horizontal line when one is in the way.
    pub open spec fn moved_up(self) -> PlaneView {
        if self.allowed(self.row - 1, self.col) {
            self.at(self.row - 1, self.col)
        } else if self.horizontal_at(self.row - 1, self.col) && self.allowed(
            self.row - 2,
            self.col,
        ) {
            self.at(self.row - 2, self.col)
        } else {
            self
        }
    }

    /// One row down, across a horizontal line when one is in the way.
    pub open spec fn moved_down(self) -> PlaneView {
        if self.allowed(self.row + 1, self.col) {
            self.at(self.row + 1, self.col)
        } else if self.horizontal_at(self.row + 1, self.col) && self.allowed(
            self.row + 2,
            self.col,
        ) {
            self.at(self.row + 2, self.col)
        } else {
            self
        }
    }

    /// One column left, across a vertical line when one is in the way.
    pub open spec fn moved_left(self) -> PlaneView {
        if self.allowed(self.row, self.col - 1) {
            self.at(self.row, self.col - 1)
        } else if self.vertical_at(self.row, self.col - 1) && self.allowed(
            self.row,
            self.col - 2,
        ) {
            self.at(self.row, self.col - 2)
        } else {
            self
        }
    }

    /// One column right, across a vertical line when one is in the way.
    pub open spec fn moved_right(self) -> PlaneView {
        if self.allowed(self.row, self.col + 1) {
            self.at(self.row, self.col + 1)
        } else if self.vertical_at(self.row, self.col + 1) && self.allowed(
            self.row,
            self.col + 2,
        ) {
            self.at(self.row, self.col + 2)
        } else {
            self
        }
    }

    /// Column of the divider that closes the cell of the cursor on the left:
    /// the nearest vertical line seen from the right at or before the cursor,
    /// or -1.
    pub open spec fn left_edge(self) -> int {
        prev_right_facing(self.line(), self.col)
    }

    /// Column of the divider that closes the cell of the cursor on the right:
    /// the nearest vertical line seen from the left at or after the cursor, or
    /// the length of the row.
    pub open spec fn right_edge(self) -> int {
        next_left_facing(self.line(), self.col)
    }

    /// To the first character of the cell.
    pub open spec fn moved_cell_start(self) -> PlaneView {
        if self.valid_cursor() && self.left_edge() >= 0 {
            self.placed(self.row, self.left_edge() + 1)
        } else {
            self
        }
    }

    /// To the last character of the cell.
    pub open spec fn moved_cell_end(self) -> PlaneView {
        if self.valid_cursor() && self.right_edge() < self.line().len() {
            self.placed(self.row, self.right_edge() - 1)
        } else {
            self
        }
    }

    /// To the first character of the row inside the border; where a divider
    /// stands there, to the first character of the cell.
    pub open spec fn moved_table_start(self) -> PlaneView {
        if self.allowed(self.row, 1) {
            self.at(self.row, 1)
        } else {
            self.moved_cell_start()
        }
    }

    /// To the last character of the row inside the border; where a divider
    /// stands there, to the last character of the cell.
    pub open spec fn moved_table_end(self) -> PlaneView {
        if self.allowed(self.row, self.line().len() - 2) {
            self.at(self.row, self.line().len() - 2)
        } else {
            self.moved_cell_end()
        }
    }

    /// To the first character of the next cell to the right; to the last
    /// character of this cell when nothing allowed lies beyond its divider.
    pub open spec fn moved_cell_right(self) -> PlaneView {
        if self.valid_cursor() && self.right_edge() < self.line().len() {
            if self.allowed(self.row, self.right_edge() + 1) {
                self.at(self.row, self.right_edge() + 1)
            } else {
                self.placed(self.row, self.right_edge() - 1)
            }
        } else {
            self
        }
    }

    /// To the last character of the next cell to the left; to the first
    /// character of this cell when nothing allowed lies beyond its divider.
    pub open spec fn moved_cell_left(self) -> PlaneView {
        if self.valid_cursor() && self.left_edge() >= 0 {
            if self.allowed(self.row, self.left_edge() - 1) {
                self.at(self.row, self.left_edge() - 1)
            } else {
                self.placed(self.row, self.left_edge() + 1)
            }
        } else {
            self
        }
    }

    /// Row `i` belongs to the alignment region of the cursor: the header,
    /// rows above the seam, when the cursor is above the seam, the body
    /// otherwise.
    pub open spec fn in_region(self, i: int) -> bool {
        0 <= i < self.rows.len() && if self.row < self.seam {
            i < self.seam
        } else {
            self.seam <= i
        }
    }

    /// Column of the right border of the header: the last column of the
    /// first row.
    pub open spec fn header_edge(self) -> int {
        self.rows[0].len() - 1
    }

    /// The table has a header above a seam row that reaches below the right
    /// border of the header.
    pub open spec fn has_connector(self) -> bool {
        0 < self.seam < self.rows.len() && self.rows[0].len() > 0 && self.header_edge()
            < self.rows[self.seam].len()
    }

    /// The character of the seam row below the right border of the header.
    pub open spec fn connector(self) -> char {
        self.rows[self.seam][self.header_edge()]
    }

    /// The connector loses its upward stroke.
    pub open spec fn disconnected(self) -> PlaneView {
        if self.has_connector() {
            self.with_row(
                self.seam,
                self.rows[self.seam].update(self.header_edge(), loosened(self.connector())),
            )
        } else {
            self
        }
    }

    /// The header gets one column wider at its right border, and the seam row
    /// gets a connector behind the junction that stood below that border.
    /// Nothing happens where the seam row ends with that junction.
    pub open spec fn header_widened(self) -> PlaneView {
        let edge = self.header_edge();
        if edge + 1 < self.rows[self.seam].len() {
            let marked = self.with_row(self.seam, self.rows[self.seam].update(edge + 1, '┴'));
            let topped = marked.with_row(0, marked.rows[0].insert(edge, '─'));
            topped.with_rows(insert_each(topped.rows, 1, self.seam, edge, ' '))
        } else {
            self
        }
    }

    /// The header gets one column narrower at its right border, and the seam
    /// row gets a connector before the junction that stood below that border.
    /// A cursor that stands in a row of the header, behind the column that
    /// leaves, keeps to its character: it is one column further left, as its
    /// character is. Nothing happens where the header is a single column.
    pub open spec fn header_narrowed(self) -> PlaneView {
        let edge = self.header_edge();
        if edge >= 1 {
            let marked = self.with_row(self.seam, self.rows[self.seam].update(edge - 1, '┴'));
            let topped = marked.with_row(0, marked.rows[0].remove(edge - 1));
            let cut = topped.with_rows(remove_each(topped.rows, 1, self.seam, edge - 1));
            if 1 <= self.row < self.seam && edge - 1 < self.col && edge - 1 < self.line().len() {
                cut.at(self.row, self.col - 1)
            } else {
                cut
            }
        } else {
            self
        }
    }

    /// The connector gets its upward stroke back. Where the junction of the
    /// body has come to stand below the right border of the header, the
    /// border moves on instead: to the right of the junction, the header
    /// getting wider, when it met the junction from the left, and to the left
    /// of it, the header getting narrower, otherwise.
    pub open spec fn connected(self, from_left: bool) -> PlaneView {
        if !self.has_connector() {
            self
        } else if self.connector() == '╥' {
            if from_left {
                self.header_widened()
            } else {
                self.header_narrowed()
            }
        } else {
            self.with_row(
                self.seam,
                self.rows[self.seam].update(self.header_edge(), tightened(self.connector())),
            )
        }
    }

    /// Column of the first vertical line seen from the left after the cursor,
    /// or the length of the row.
    pub open spec fn slack_end(self) -> int {
        next_left_facing(self.line(), self.col + 1)
    }

    /// The cell holds padding directly before the divider that closes it, to
    /// the right of the cursor: one character of padding is enough.
    pub open spec fn has_slack(self) -> bool {
        self.slack_end() > self.col + 1 && self.line()[self.slack_end() - 1] == ' '
    }

    /// Every other row of the region gets its column one character wider.
    pub open spec fn widened(self) -> PlaneView {
        self.with_rows(
            Seq::new(
                self.rows.len(),
                |i: int|
                    if self.in_region(i) && i != self.row {
                        widen_row(self.rows[i], self.col)
                    } else {
                        self.rows[i]
                    },
            ),
        )
    }

    /// Every other row of the region gets its column one character narrower.
    pub open spec fn narrowed(self, pos: int) -> PlaneView {
        self.with_rows(
            Seq::new(
                self.rows.len(),
                |i: int|
                    if self.in_region(i) && i != self.row {
                        narrow_row(self.rows[i], pos)
                    } else {
                        self.rows[i]
                    },
            ),
        )
    }

    /// Column of the last character of the cell: the one before the first
    /// vertical line seen from the left at or after the cursor; the column of
    /// the cursor when the row has no such line.
    pub open spec fn last_column(self) -> int {
        if self.right_edge() < self.line().len() {
            self.right_edge() - 1
        } else {
            self.col
        }
    }

    /// Every row of the region can give up one character at `pos`.
    pub open spec fn has_spare(self, pos: int) -> bool {
        forall|i: int| self.in_region(i) ==> row_has_spare(#[trigger] self.rows[i], pos)
    }

    /// The row of the cursor gets padding directly before the divider that
    /// closes the cell.
    pub open spec fn padded(self) -> PlaneView {
        if self.valid_column() && self.right_edge() < self.line().len() {
            self.with_row(self.row, self.line().insert(self.right_edge(), ' '))
        } else {
            self
        }
    }

    /// The cursor is in a row below the first and, in that row, inside the
    /// outer border.
    pub open spec fn valid_column(self) -> bool {
        1 <= self.row < self.rows.len() && 1 <= self.col < self.line().len() - 1
    }

    /// The column of the cursor adjusts to a row of the cursor that is one
    /// character shorter: where every row of the region, that of the cursor
    /// among them, can spare a character, the column gets narrower in every
    /// other row; otherwise the row of the cursor is padded to its old width.
    pub open spec fn rebalanced(self) -> PlaneView {
        let pos = self.last_column();
        if self.has_spare(pos) {
            self.disconnected().narrowed(pos).connected(self.row > self.seam)
        } else {
            self.padded()
        }
    }

    /// The character `ch` enters at the cursor, which then steps right. With
    /// slack in the cell the padding before the divider gives way; without,
    /// the column gets wider in every other row of the region, and the
    /// connector below the header stays where the border of the header is.
    /// Nothing happens when the cursor is not valid.
    pub open spec fn inserted(self, ch: char) -> PlaneView {
        if !self.valid_cursor() {
            self
        } else {
            let typed = self.with_row(self.row, self.line().insert(self.col, ch));
            let settled = if self.has_slack() {
                typed.with_row(self.row, typed.line().remove(self.slack_end()))
            } else {
                typed.disconnected().widened().connected(self.row < self.seam)
            };
            settled.stepped(0, 1)
        }
    }

    /// The cursor steps back one column where a divider stands under it.
    pub open spec fn settled(self) -> PlaneView {
        if 0 <= self.row < self.rows.len() && 0 <= self.col < self.line().len() && is_divider(
            self.line()[self.col],
        ) {
            self.stepped(0, -1)
        } else {
            self
        }
    }

    /// The character before the cursor leaves, the cursor steps left, and
    /// the column is rebalanced. The cursor steps left once more when a
    /// divider has come to stand under it. Nothing happens when the position
    /// before the cursor is not allowed.
    pub open spec fn deleted_before(self) -> PlaneView {
        if !self.allowed(self.row, self.col - 1) {
            self
        } else {
            self.with_row(self.row, self.line().remove(self.col - 1)).stepped(
                0,
                -1,
            ).rebalanced().settled()
        }
    }

    /// The column is rebalanced and the character under the cursor leaves.
    /// The cursor steps left when a divider comes to stand under it. Nothing
    /// happens when the cursor is not valid, and no character leaves when
    /// rebalancing has left the cursor on the last character of its row.
    pub open spec fn deleted(self) -> PlaneView {
        if !self.valid_cursor() {
            self
        } else {
            let s = self.rebalanced();
            if s.col + 1 < s.line().len() {
                s.with_row(s.row, s.line().remove(s.col)).settled()
            } else {
                s
            }
        }
    }
}

} // verus!
