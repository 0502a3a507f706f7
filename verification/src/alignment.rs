//! The columns of the rows of a region stay aligned under every edit.

use vstd::prelude::*;
use crate::glyph::{filler_of, is_crossing, is_left_facing, lemma_classes_are_dividers};
use crate::confinement::{junction_clear_of_edge, lemma_rebalance_keeps_row};
use crate::laws::law_edits_keep_the_rows;
use crate::model::{narrow_row, widen_row, PlaneView};
use crate::scan::{
    lemma_next_crossing, lemma_next_crossing_is, lemma_next_left_facing, lemma_next_left_facing_is,
    next_crossing,
};

verus! {

/// The columns of a row in which a crossing with a vertical line stands.
pub open spec fn crossings(row: Seq<char>) -> Set<int> {
    Set::new(|k: int| 0 <= k < row.len() && is_crossing(row[k]))
}

/// Two rows have their crossings in the same columns.
pub open spec fn aligned(a: Seq<char>, b: Seq<char>) -> bool {
    crossings(a) =~= crossings(b)
}

/// The row ends in column `col`, with a crossing.
pub open spec fn ends_with_crossing_at(row: Seq<char>, col: int) -> bool {
    row.len() == col + 1 && is_crossing(row[col])
}

/// Rows `i` and `j` lie on the same side of the seam, and neither is the
/// seam row of a table with a header.
pub open spec fn comparable(p: PlaneView, i: int, j: int) -> bool {
    &&& 0 <= i < p.rows.len()
    &&& 0 <= j < p.rows.len()
    &&& (i < p.seam <==> j < p.seam)
    &&& p.seam > 0 ==> i != p.seam && j != p.seam
}

/// No crossing stands between the cursor and the vertical line that closes
/// its cell on the right.
pub open spec fn cell_free_of_crossings(p: PlaneView) -> bool {
    forall|k: int| p.col <= k < p.right_edge() ==> !is_crossing(#[trigger] p.line()[k])
}

/// Columns of a set after one column was put in at `at`.
pub open spec fn after_insert(s: Set<int>, at: int) -> Set<int> {
    Set::new(|k: int| (k < at && s.contains(k)) || (k > at && s.contains(k - 1)))
}

/// Columns of a set after the column `at` was taken out.
pub open spec fn after_remove(s: Set<int>, at: int) -> Set<int> {
    Set::new(|k: int| (k < at && s.contains(k)) || (k >= at && s.contains(k + 1)))
}

/// A row that gets a character that is no crossing has its crossings where
/// the new column moves them; a column beyond the end of the row moves none.
proof fn lemma_crossings_insert(row: Seq<char>, at: int, ch: char)
    requires
        !is_crossing(ch),
    ensures
        0 <= at <= row.len() ==> crossings(row.insert(at, ch)) =~= after_insert(crossings(row), at),
        at > row.len() ==> after_insert(crossings(row), at) =~= crossings(row),
{
    if 0 <= at <= row.len() {
        let wide = row.insert(at, ch);
        assert forall|k: int| crossings(wide).contains(k) <==> after_insert(
            crossings(row),
            at,
        ).contains(k) by {
            if 0 <= k < wide.len() {
                if k < at {
                    assert(wide[k] == row[k]);
                } else if k > at {
                    assert(wide[k] == row[k - 1]);
                }
            }
        }
    }
}

/// A row that loses a character has its crossings where the lost column
/// leaves them; a column beyond the end of the row changes none.
proof fn lemma_crossings_remove(row: Seq<char>, at: int)
    ensures
        0 <= at < row.len() ==> crossings(row.remove(at)) =~= after_remove(crossings(row), at),
        at >= row.len() ==> after_remove(crossings(row), at) =~= crossings(row),
{
    if 0 <= at < row.len() {
        let short = row.remove(at);
        assert forall|k: int| crossings(short).contains(k) <==> after_remove(
            crossings(row),
            at,
        ).contains(k) by {
            if 0 <= k < short.len() {
                if k < at {
                    assert(short[k] == row[k]);
                } else {
                    assert(short[k] == row[k + 1]);
                }
            }
        }
    }
}

/// Taking out either of two columns gives the same set, when it holds none
/// of the columns from the one to the other.
proof fn lemma_after_remove_same(s: Set<int>, a: int, b: int)
    requires
        a <= b,
        forall|k: int| a <= k <= b ==> !s.contains(k),
    ensures
        after_remove(s, a) =~= after_remove(s, b),
{
}

/// A widened row has its crossings where a column put in at `col` moves
/// them.
proof fn lemma_crossings_widen(row: Seq<char>, col: int)
    requires
        0 <= col,
        !ends_with_crossing_at(row, col),
    ensures
        crossings(widen_row(row, col)) =~= after_insert(crossings(row), col),
{
    let s = crossings(row);
    if col <= row.len() {
        lemma_next_crossing(row, col);
    }
    let at = next_crossing(row, col);
    if col + 1 < row.len() && at < row.len() {
        lemma_crossings_insert(row, at, filler_of(row[at]));
        assert forall|k: int| after_insert(s, at).contains(k) <==> after_insert(s, col).contains(
            k,
        ) by {
            if col <= k < at {
                assert(!is_crossing(row[k]));
            }
            if col <= k - 1 < at {
                assert(!is_crossing(row[k - 1]));
            }
        }
    } else {
        assert forall|k: int| s.contains(k) <==> after_insert(s, col).contains(k) by {
            if col <= k < row.len() {
                assert(!is_crossing(row[k]));
            }
            if col <= k - 1 < row.len() {
                assert(!is_crossing(row[k - 1]));
            }
        }
    }
}

/// Two aligned rows find their first crossing at or after `from` in the
/// same column, or both find none.
proof fn lemma_aligned_next_crossing(a: Seq<char>, b: Seq<char>, from: int)
    requires
        0 <= from,
        aligned(a, b),
    ensures
        next_crossing(a, from) < a.len() <==> next_crossing(b, from) < b.len(),
        next_crossing(a, from) < a.len() ==> next_crossing(a, from) == next_crossing(b, from),
{
    if from <= a.len() {
        lemma_next_crossing(a, from);
    }
    if from <= b.len() {
        lemma_next_crossing(b, from);
    }
    let ka = next_crossing(a, from);
    let kb = next_crossing(b, from);
    if ka < a.len() {
        assert(crossings(a).contains(ka));
        assert(crossings(b).contains(ka));
        if kb < ka {
            assert(crossings(b).contains(kb));
            assert(crossings(a).contains(kb));
        }
    }
    if kb < b.len() {
        assert(crossings(b).contains(kb));
        assert(crossings(a).contains(kb));
        if ka < kb {
            assert(crossings(a).contains(ka));
            assert(crossings(b).contains(ka));
        }
    }
}

/// Two aligned rows are aligned when both are narrowed.
proof fn lemma_aligned_narrow(a: Seq<char>, b: Seq<char>, pos: int)
    requires
        0 <= pos,
        aligned(a, b),
        !ends_with_crossing_at(a, pos),
        !ends_with_crossing_at(b, pos),
    ensures
        aligned(narrow_row(a, pos), narrow_row(b, pos)),
{
    lemma_aligned_next_crossing(a, b, pos);
    if pos <= a.len() {
        lemma_next_crossing(a, pos);
    }
    if pos <= b.len() {
        lemma_next_crossing(b, pos);
    }
    let k = next_crossing(a, pos);
    if k < a.len() && k > 0 {
        lemma_crossings_remove(a, k - 1);
        lemma_crossings_remove(b, k - 1);
    }
}

/// Rows on one side of the seam that are aligned stay so when the connector
/// gets its upward stroke back, whatever the header does to make room.
proof fn lemma_connected_keeps_aligned(s: PlaneView, from_left: bool, i: int, j: int)
    requires
        comparable(s, i, j),
        aligned(s.rows[i], s.rows[j]),
    ensures
        s.connected(from_left).rows.len() == s.rows.len(),
        s.connected(from_left).seam == s.seam,
        s.connected(from_left).row == s.row,
        aligned(s.connected(from_left).rows[i], s.connected(from_left).rows[j]),
{
    let c = s.connected(from_left);
    let edge = s.header_edge();
    if s.has_connector() && s.connector() == '╥' {
        if from_left {
            if edge + 1 < s.rows[s.seam].len() {
                lemma_crossings_insert(s.rows[i], edge, ' ');
                lemma_crossings_insert(s.rows[j], edge, ' ');
                lemma_crossings_insert(s.rows[i], edge, '─');
                lemma_crossings_insert(s.rows[j], edge, '─');
                if i < s.seam {
                    assert(crossings(c.rows[i]) =~= after_insert(crossings(s.rows[i]), edge));
                    assert(crossings(c.rows[j]) =~= after_insert(crossings(s.rows[j]), edge));
                }
            }
        } else {
            if edge >= 1 {
                lemma_crossings_remove(s.rows[i], edge - 1);
                lemma_crossings_remove(s.rows[j], edge - 1);
                if i < s.seam {
                    assert(crossings(c.rows[i]) =~= after_remove(crossings(s.rows[i]), edge - 1));
                    assert(crossings(c.rows[j]) =~= after_remove(crossings(s.rows[j]), edge - 1));
                }
            }
        }
    }
}

/// Rows of a region that are aligned stay aligned when a character is
/// inserted.
///
/// The two rows lie on the same side of the seam and neither is the seam row
/// of a table with a header, whose connector follows the header and not the
/// body. The cursor rests on content and the character is no crossing. In a
/// cell with slack no crossing stands between the cursor and the vertical
/// line that closes the cell, and neither row of the region of the cursor
/// ends in the column of the cursor with a crossing.
pub proof fn law_insert_keeps_rows_aligned(p: PlaneView, ch: char, i: int, j: int)
    requires
        p.confined(),
        !is_crossing(ch),
        p.has_slack() ==> cell_free_of_crossings(p),
        comparable(p, i, j),
        p.in_region(i) ==> !ends_with_crossing_at(p.rows[i], p.col),
        p.in_region(j) ==> !ends_with_crossing_at(p.rows[j], p.col),
        aligned(p.rows[i], p.rows[j]),
    ensures
        p.inserted(ch).rows.len() == p.rows.len(),
        aligned(p.inserted(ch).rows[i], p.inserted(ch).rows[j]),
{
    let line = p.line();
    lemma_classes_are_dividers(line[p.col]);
    lemma_next_left_facing(line, p.col + 1);
    lemma_next_left_facing(line, p.col);
    let typed = p.with_row(p.row, line.insert(p.col, ch));
    if p.has_slack() {
        let end = p.slack_end();
        assert(p.right_edge() == end);
        let filled = line.insert(p.col, ch).remove(end);
        assert(p.inserted(ch).rows =~= p.rows.update(p.row, filled));
        assert forall|k: int| crossings(filled).contains(k) <==> crossings(line).contains(k) by {
            if 0 <= k < line.len() {
                if k < p.col {
                    assert(filled[k] == line[k]);
                } else if k == p.col {
                    assert(filled[k] == ch);
                } else if k < end {
                    assert(filled[k] == line[k - 1]);
                    assert(!is_crossing(line[k - 1]));
                    assert(!is_crossing(line[k]));
                } else {
                    assert(filled[k] == line[k]);
                }
            }
        }
        assert(aligned(filled, line));
    } else {
        let a = typed.disconnected();
        let b = a.widened();
        assert(a.rows.len() == p.rows.len());
        assert(comparable(b, i, j));
        lemma_crossings_insert(line, p.col, ch);
        assert forall|k: int| (k == i || k == j) implies crossings(#[trigger] b.rows[k])
            =~= if p.in_region(k) {
            after_insert(crossings(p.rows[k]), p.col)
        } else {
            crossings(p.rows[k])
        } by {
            assert(a.rows[k] == typed.rows[k]);
            if k == p.row {
                assert(b.rows[k] == line.insert(p.col, ch));
            } else if p.in_region(k) {
                assert(a.in_region(k));
                assert(b.rows[k] == widen_row(p.rows[k], p.col));
                lemma_crossings_widen(p.rows[k], p.col);
            } else {
                assert(!a.in_region(k));
                assert(b.rows[k] == p.rows[k]);
            }
        }
        assert(p.in_region(i) <==> p.in_region(j));
        assert(aligned(b.rows[i], b.rows[j]));
        lemma_connected_keeps_aligned(b, p.row < p.seam, i, j);
    }
}

/// The column in which a deletion before the cursor looks for room: the last
/// of the cell once the character is gone.
pub open spec fn column_narrowed_before(p: PlaneView) -> int {
    if p.right_edge() < p.line().len() {
        p.right_edge() - 2
    } else {
        p.col - 1
    }
}

/// A row that loses the character at `at` stays aligned with a row that is
/// narrowed at `pos`, when the two were aligned, the next crossing stands at
/// `end`, after `pos`, and none stands from `at` up to `end`.
proof fn lemma_aligned_remove_narrow(line: Seq<char>, other: Seq<char>, at: int, pos: int, end: int)
    requires
        aligned(line, other),
        0 <= at <= pos < end <= line.len(),
        at < line.len(),
        end < line.len() ==> is_crossing(line[end]),
        forall|k: int| at <= k < end ==> !is_crossing(#[trigger] line[k]),
    ensures
        aligned(line.remove(at), narrow_row(other, pos)),
{
    let s = crossings(line);
    lemma_crossings_remove(line, at);
    assert forall|k: int| at <= k < other.len() && (k < end || end == line.len())
        implies !is_crossing(#[trigger] other[k]) by {
        if is_crossing(other[k]) {
            assert(crossings(other).contains(k));
            assert(s.contains(k));
        }
    }
    if end < line.len() {
        assert(s.contains(end));
        assert(crossings(other).contains(end));
        lemma_next_crossing_is(other, pos, end);
        lemma_crossings_remove(other, end - 1);
        assert forall|k: int| at <= k <= end - 1 implies !s.contains(k) by {}
        lemma_after_remove_same(s, at, end - 1);
    } else {
        if pos <= other.len() {
            lemma_next_crossing(other, pos);
        }
        assert(next_crossing(other, pos) >= other.len());
        assert forall|k: int| s.contains(k) <==> after_remove(s, at).contains(k) by {
            if s.contains(k) {
                assert(crossings(other).contains(k));
            }
            if s.contains(k + 1) {
                assert(crossings(other).contains(k + 1));
            }
        }
    }
}

/// Rows of a region that are aligned stay aligned when the character before
/// the cursor is deleted.
///
/// The two rows lie on the same side of the seam and neither is the seam row
/// of a table with a header. The cursor rests on content, no crossing stands
/// between the cursor and the vertical line that closes the cell, and
/// neither row of the region of the cursor ends with a crossing in the column
/// in which the deletion looks for room.
pub proof fn law_delete_before_keeps_rows_aligned(p: PlaneView, i: int, j: int)
    requires
        p.confined(),
        cell_free_of_crossings(p),
        comparable(p, i, j),
        p.in_region(i) ==> !ends_with_crossing_at(p.rows[i], column_narrowed_before(p)),
        p.in_region(j) ==> !ends_with_crossing_at(p.rows[j], column_narrowed_before(p)),
        aligned(p.rows[i], p.rows[j]),
    ensures
        p.deleted_before().rows.len() == p.rows.len(),
        aligned(p.deleted_before().rows[i], p.deleted_before().rows[j]),
{
    if p.allowed(p.row, p.col - 1) {
        let line = p.line();
        let end = p.right_edge();
        lemma_next_left_facing(line, p.col);
        lemma_classes_are_dividers(line[p.col - 1]);
        lemma_classes_are_dividers(line[p.col]);
        if end < line.len() {
            lemma_classes_are_dividers(line[end]);
        }
        let short = line.remove(p.col - 1);
        let d = p.with_row(p.row, short).stepped(0, -1);
        assert(d.row == p.row && d.col == p.col - 1);
        assert(d.rows =~= p.rows.update(p.row, short));
        assert forall|k: int| p.col - 1 <= k < end - 1 implies !is_left_facing(
            #[trigger] short[k],
        ) by {
            assert(short[k] == line[k + 1]);
        }
        if end < line.len() {
            assert(short[end - 1] == line[end]);
        }
        lemma_next_left_facing_is(short, p.col - 1, end - 1);
        let pos = d.last_column();
        assert(pos == column_narrowed_before(p));
        lemma_crossings_remove(line, p.col - 1);
        let s = crossings(line);
        if d.has_spare(pos) {
            let a = d.disconnected();
            let b = a.narrowed(pos);
            assert(comparable(b, i, j));
            assert(d.in_region(i) <==> d.in_region(j));
            assert forall|k: int| (k == i || k == j) implies #[trigger] b.rows[k] == if k == p.row {
                short
            } else if p.in_region(k) {
                narrow_row(p.rows[k], pos)
            } else {
                p.rows[k]
            } by {
                assert(a.rows[k] == d.rows[k]);
                assert(a.in_region(k) == p.in_region(k));
            }
            if i == j {
            } else if i == p.row {
                lemma_aligned_remove_narrow(line, p.rows[j], p.col - 1, pos, end);
            } else if j == p.row {
                lemma_aligned_remove_narrow(line, p.rows[i], p.col - 1, pos, end);
            } else if p.in_region(i) {
                lemma_aligned_narrow(p.rows[i], p.rows[j], pos);
            }
            assert(aligned(b.rows[i], b.rows[j]));
            lemma_connected_keeps_aligned(b, p.row > p.seam, i, j);
        } else {
            let padded = d.padded().line();
            assert(d.padded().rows =~= p.rows.update(p.row, padded));
            assert forall|k: int| crossings(padded).contains(k) <==> s.contains(k) by {
                if end < line.len() {
                    assert(padded == short.insert(end - 1, ' '));
                    if 0 <= k < line.len() {
                        if k < p.col - 1 {
                            assert(padded[k] == line[k]);
                        } else if k < end - 1 {
                            assert(padded[k] == line[k + 1]);
                        } else if k == end - 1 {
                            assert(padded[k] == ' ');
                        } else {
                            assert(padded[k] == line[k]);
                        }
                    }
                } else {
                    assert(padded == short);
                    if 0 <= k < short.len() && k >= p.col - 1 {
                        assert(short[k] == line[k + 1]);
                    }
                }
            }
            assert(aligned(padded, line));
        }
    }
}

/// Rows of a region that are aligned stay aligned when the character under
/// the cursor is deleted.
///
/// The two rows lie on the same side of the seam and neither is the seam row
/// of a table with a header. The cursor rests on content, no crossing stands
/// between the cursor and the vertical line that closes the cell, and
/// neither row of the region of the cursor ends with a crossing in the last
/// column of the cell. For a cursor in the header the junction of the body is
/// clear of the right border of the header.
pub proof fn law_delete_keeps_rows_aligned(p: PlaneView, i: int, j: int)
    requires
        p.confined(),
        cell_free_of_crossings(p),
        comparable(p, i, j),
        p.in_region(i) ==> !ends_with_crossing_at(p.rows[i], p.last_column()),
        p.in_region(j) ==> !ends_with_crossing_at(p.rows[j], p.last_column()),
        p.row < p.seam ==> junction_clear_of_edge(p),
        aligned(p.rows[i], p.rows[j]),
    ensures
        p.deleted().rows.len() == p.rows.len(),
        aligned(p.deleted().rows[i], p.deleted().rows[j]),
{
    let line = p.line();
    let end = p.right_edge();
    let pos = p.last_column();
    lemma_next_left_facing(line, p.col);
    lemma_classes_are_dividers(line[p.col]);
    if end < line.len() {
        lemma_classes_are_dividers(line[end]);
    }
    let s = p.rebalanced();
    let set = crossings(line);
    if i != p.row && j != p.row {
        if p.has_spare(pos) {
            let a = p.disconnected();
            let b = a.narrowed(pos);
            assert(comparable(b, i, j));
            assert forall|k: int| (k == i || k == j) implies #[trigger] b.rows[k] == if p.in_region(
                k,
            ) {
                narrow_row(p.rows[k], pos)
            } else {
                p.rows[k]
            } by {
                assert(a.rows[k] == p.rows[k]);
                assert(a.in_region(k) == p.in_region(k));
            }
            if p.in_region(i) {
                assert(p.in_region(j));
                lemma_aligned_narrow(p.rows[i], p.rows[j], pos);
            }
            assert(aligned(b.rows[i], b.rows[j]));
            lemma_connected_keeps_aligned(b, p.row > p.seam, i, j);
        } else {
            assert(s.rows[i] == p.rows[i]);
            assert(s.rows[j] == p.rows[j]);
        }
        assert(s.row == p.row);
        assert(p.deleted().rows[i] == s.rows[i]);
        assert(p.deleted().rows[j] == s.rows[j]);
    } else if i == j {
    } else {
        let other = if i == p.row {
            j
        } else {
            i
        };
        lemma_rebalance_keeps_row(p);
        assert(p.in_region(other));
        if p.has_spare(pos) {
            assert(s.rows[other] == narrow_row(p.rows[other], pos));
            assert(p.deleted().rows[p.row] == line.remove(p.col));
            assert(p.deleted().rows[other] == s.rows[other]);
            lemma_aligned_remove_narrow(line, p.rows[other], p.col, pos, end);
        } else {
            let padded = p.padded().line();
            let cut = padded.remove(p.col);
            assert(p.deleted().rows[other] == p.rows[other]);
            assert(p.deleted().rows[p.row] == cut);
            assert forall|k: int| crossings(cut).contains(k) <==> set.contains(k) by {
                if end < line.len() {
                    assert(padded == line.insert(end, ' '));
                    if 0 <= k < line.len() {
                        if k < p.col {
                            assert(cut[k] == line[k]);
                        } else if k < end - 1 {
                            assert(cut[k] == line[k + 1]);
                        } else if k == end - 1 {
                            assert(cut[k] == ' ');
                        } else {
                            assert(cut[k] == line[k]);
                        }
                    }
                } else {
                    assert(padded == line);
                    if 0 <= k < cut.len() && k >= p.col {
                        assert(cut[k] == line[k + 1]);
                    }
                }
            }
            assert(aligned(cut, line));
        }
    }
}

/// Every two rows that lie on the same side of the seam, the seam row of a
/// table with a header left out, have their crossings in the same columns.
pub open spec fn all_aligned(p: PlaneView) -> bool {
    forall|i: int, j: int| comparable(p, i, j) ==> aligned(#[trigger] p.rows[i], #[trigger] p.rows[j])
}

/// No row of the region of the cursor ends in column `col` with a crossing.
pub open spec fn none_ends_with_crossing_at(p: PlaneView, col: int) -> bool {
    forall|i: int| p.in_region(i) ==> !ends_with_crossing_at(#[trigger] p.rows[i], col)
}

/// A table in which all rows are aligned stays one under an insertion, for
/// a cursor on content and a character that is no crossing, with no crossing
/// between the cursor and the end of a cell with slack, and no row of the
/// region ending in the column of the cursor.
pub proof fn law_insert_keeps_all_aligned(p: PlaneView, ch: char)
    requires
        p.confined(),
        !is_crossing(ch),
        p.has_slack() ==> cell_free_of_crossings(p),
        none_ends_with_crossing_at(p, p.col),
        all_aligned(p),
    ensures
        all_aligned(p.inserted(ch)),
{
    let q = p.inserted(ch);
    law_edits_keep_the_rows(p, ch);
    assert forall|i: int, j: int| comparable(q, i, j) implies aligned(
        #[trigger] q.rows[i],
        #[trigger] q.rows[j],
    ) by {
        assert(comparable(p, i, j));
        assert(aligned(p.rows[i], p.rows[j]));
        law_insert_keeps_rows_aligned(p, ch, i, j);
    }
}

/// A table in which all rows are aligned stays one under a deletion before
/// the cursor, for a cursor on content with no crossing between it and the
/// end of its cell, and no row of the region ending in the column in which
/// the deletion looks for room.
pub proof fn law_delete_before_keeps_all_aligned(p: PlaneView)
    requires
        p.confined(),
        cell_free_of_crossings(p),
        none_ends_with_crossing_at(p, column_narrowed_before(p)),
        all_aligned(p),
    ensures
        all_aligned(p.deleted_before()),
{
    let q = p.deleted_before();
    law_edits_keep_the_rows(p, ' ');
    assert forall|i: int, j: int| comparable(q, i, j) implies aligned(
        #[trigger] q.rows[i],
        #[trigger] q.rows[j],
    ) by {
        assert(comparable(p, i, j));
        assert(aligned(p.rows[i], p.rows[j]));
        law_delete_before_keeps_rows_aligned(p, i, j);
    }
}

/// A table in which all rows are aligned stays one under a deletion under
/// the cursor, for a cursor on content with no crossing between it and the
/// end of its cell, no row of the region ending in the last column of the
/// cell and, for a cursor in the header, the junction of the body clear of
/// the right border of the header.
pub proof fn law_delete_keeps_all_aligned(p: PlaneView)
    requires
        p.confined(),
        cell_free_of_crossings(p),
        none_ends_with_crossing_at(p, p.last_column()),
        p.row < p.seam ==> junction_clear_of_edge(p),
        all_aligned(p),
    ensures
        all_aligned(p.deleted()),
{
    let q = p.deleted();
    law_edits_keep_the_rows(p, ' ');
    assert forall|i: int, j: int| comparable(q, i, j) implies aligned(
        #[trigger] q.rows[i],
        #[trigger] q.rows[j],
    ) by {
        assert(comparable(p, i, j));
        assert(aligned(p.rows[i], p.rows[j]));
        law_delete_keeps_rows_aligned(p, i, j);
    }
}

} // verus!
