//! Deleting before the cursor undoes an insertion.

use vstd::prelude::*;
use crate::glyph::{
    filler_of, is_crossing, is_divider, is_left_facing, lemma_classes_are_dividers, lemma_strokes,
    loosened, tightened,
};
use crate::model::{narrow_row, row_has_spare, widen_row, PlaneView};
use crate::scan::{
    lemma_next_crossing, lemma_next_crossing_is, lemma_next_left_facing, lemma_next_left_facing_is,
    next_crossing, next_left_facing,
};

verus! {

/// After an insertion that used up padding, the column under the cursor is
/// tight when some row of the region cannot give up a character there.
pub open spec fn tight_after_insert(p: PlaneView) -> bool {
    !p.with_row(p.row, p.line().remove(p.slack_end() - 1)).has_spare(p.slack_end() - 2)
}

/// Deleting before the cursor undoes an insertion that used up padding,
/// so that the characters and the cursor are as they were before, exactly
/// when the column is tight once the padding is used. In a column that is
/// not, the deletion goes on to narrow the column, and the row of the cursor
/// stays one character shorter.
///
/// This holds with the cursor on content, for a character that is no
/// divider, in a cell closed by a vertical line.
pub proof fn law_delete_undoes_insert_with_slack(p: PlaneView, ch: char)
    requires
        p.confined(),
        !is_divider(ch),
        p.has_slack(),
        p.slack_end() < p.line().len(),
    ensures
        p.inserted(ch).deleted_before() == p <==> tight_after_insert(p),
{
    let line = p.line();
    let end = p.slack_end();
    lemma_next_left_facing(line, p.col + 1);
    let q = p.inserted(ch);
    let filled = line.insert(p.col, ch).remove(end);
    assert(q.rows =~= p.rows.update(p.row, filled));
    assert(q.row == p.row && q.col == p.col + 1);
    let shorter = line.remove(end - 1);
    assert(filled.remove(p.col) =~= shorter);
    let d = q.with_row(q.row, q.line().remove(q.col - 1)).stepped(0, -1);
    assert(d.rows =~= p.rows.update(p.row, shorter));
    assert(d.row == p.row && d.col == p.col);
    assert(d =~= p.with_row(p.row, shorter));
    assert forall|k: int| p.col <= k < end - 1 implies !is_left_facing(#[trigger] shorter[k]) by {
        assert(shorter[k] == line[k]);
    }
    lemma_next_left_facing_is(shorter, p.col, end - 1);
    assert(d.last_column() == end - 2);
    if tight_after_insert(p) {
        assert(shorter.insert(end - 1, ' ') =~= line);
        assert(d.padded().rows =~= p.rows);
    } else {
        let b = d.disconnected().narrowed(end - 2);
        assert(b.rows[p.row].len() == shorter.len());
        let c = b.connected(p.row > p.seam);
        assert(c.rows[p.row].len() <= shorter.len());
        assert(c.rows[p.row] != line);
    }
}

/// The cursor stands on padding directly before the vertical line that
/// closes its cell, with something other than a divider before it.
pub open spec fn at_end_of_cell(p: PlaneView) -> bool {
    &&& p.confined()
    &&& p.right_edge() == p.col + 1
    &&& p.col + 1 < p.line().len()
    &&& p.line()[p.col] == ' '
    &&& !is_divider(p.line()[p.col - 1])
}

/// At column `col` the row is a line of the table, or a row of cells: it
/// holds a divider other than a vertical line seen from the left there, or
/// its first crossing from there on is such a vertical line, with something
/// other than a divider before it. A row that ends at `col` is neither and
/// counts as regular.
pub open spec fn regular_at(row: Seq<char>, col: int) -> bool {
    col + 1 < row.len() ==> (is_divider(row[col]) && !is_left_facing(row[col])) || ({
        let at = next_crossing(row, col);
        at < row.len() ==> is_left_facing(row[at]) && at >= 1 && !is_divider(row[at - 1])
    })
}

/// Narrowing a row at the column at which it was widened gives the row back.
pub proof fn lemma_narrow_undoes_widen(row: Seq<char>, col: int)
    requires
        0 <= col,
    ensures
        narrow_row(widen_row(row, col), col) == row,
{
    if col <= row.len() {
        lemma_next_crossing(row, col);
    }
    let at = next_crossing(row, col);
    if col + 1 < row.len() && at < row.len() {
        let fill = filler_of(row[at]);
        let wide = row.insert(at, fill);
        assert forall|k: int| col <= k < at + 1 implies !is_crossing(#[trigger] wide[k]) by {
            if k < at {
                assert(wide[k] == row[k]);
            }
        }
        assert(wide[at + 1] == row[at]);
        lemma_next_crossing_is(wide, col, at + 1);
        assert(wide.remove(at) =~= row);
    }
}

/// A regular row, once widened, can give up a character again.
pub proof fn lemma_widened_has_spare(row: Seq<char>, col: int)
    requires
        1 <= col,
        regular_at(row, col),
    ensures
        row_has_spare(widen_row(row, col), col),
{
    if col <= row.len() {
        lemma_next_crossing(row, col);
    }
    let at = next_crossing(row, col);
    let wide = widen_row(row, col);
    if col + 1 < row.len() {
        if is_divider(row[col]) && !is_left_facing(row[col]) {
            if at < row.len() {
                if col < at {
                    assert(wide[col] == row[col]);
                } else {
                    assert(wide[col] == filler_of(row[col]));
                }
            }
        } else if at < row.len() {
            assert(wide == row.insert(at, ' '));
            assert forall|k: int| col + 1 <= k < at + 1 implies !is_left_facing(
                #[trigger] wide[k],
            ) by {
                if k < at {
                    assert(wide[k] == row[k]);
                    lemma_classes_are_dividers(row[k]);
                }
            }
            assert(wide[at + 1] == row[at]);
            lemma_next_left_facing_is(wide, col + 1, at + 1);
            assert(wide[at] == ' ');
            assert(wide[at - 1] == row[at - 1]);
        } else {
            assert(wide == row);
            lemma_next_left_facing(row, col + 1);
            let end = next_left_facing(row, col + 1);
            if end < row.len() {
                lemma_classes_are_dividers(row[end]);
            }
        }
    }
}

/// Below the right border of the header the seam row holds a connector with
/// its upward stroke, or a character that takes none; beside it, on either
/// side, it holds neither the junction of the body nor a character with an
/// upward stroke.
pub open spec fn connector_stands_alone(p: PlaneView) -> bool {
    0 < p.seam < p.rows.len() && p.rows[0].len() > 0 ==> stands_alone(
        p.rows[p.seam],
        p.header_edge(),
    )
}

/// The character of the row at `edge` is a connector with its upward stroke
/// or takes none, and its two neighbours have no upward stroke; none of the
/// three is the junction of the body.
pub open spec fn stands_alone(row: Seq<char>, edge: int) -> bool {
    forall|k: int|
        edge - 1 <= k <= edge + 1 && 0 <= k < row.len() ==> (#[trigger] row[k]) != '╥' && if k
            == edge {
            tightened(loosened(row[k])) == row[k]
        } else {
            loosened(row[k]) == row[k]
        }
}

/// The row with the character at `edge` replaced by what `loosened` makes of
/// it, where the row reaches that far.
pub open spec fn loosened_at(row: Seq<char>, edge: int) -> Seq<char> {
    if 0 <= edge < row.len() {
        row.update(edge, loosened(row[edge]))
    } else {
        row
    }
}

/// The row with the character at `edge` replaced by what `tightened` makes
/// of it, where the row reaches that far.
pub open spec fn tightened_at(row: Seq<char>, edge: int) -> Seq<char> {
    if 0 <= edge < row.len() {
        row.update(edge, tightened(row[edge]))
    } else {
        row
    }
}

/// Two rows that differ by strokes only find their vertical lines seen from
/// the left in the same columns.
proof fn lemma_next_left_facing_strokes(a: Seq<char>, b: Seq<char>, from: int)
    requires
        a.len() == b.len(),
        forall|k: int| 0 <= k < a.len() ==> is_left_facing(#[trigger] a[k]) == is_left_facing(b[k]),
    ensures
        next_left_facing(a, from) == next_left_facing(b, from),
    decreases a.len() - from,
{
    if 0 <= from < a.len() && !is_left_facing(a[from]) {
        lemma_next_left_facing_strokes(a, b, from + 1);
    }
}

/// A row can give up a character whether or not the character at `edge`
/// carries its upward stroke.
proof fn lemma_spare_with_stroke(row: Seq<char>, edge: int, pos: int)
    requires
        1 <= pos,
        row_has_spare(row, pos),
    ensures
        row_has_spare(tightened_at(row, edge), pos),
{
    let other = tightened_at(row, edge);
    assert forall|k: int| 0 <= k < row.len() implies is_left_facing(#[trigger] row[k])
        == is_left_facing(other[k]) && is_divider(row[k]) == is_divider(other[k]) && (row[k] == ' ')
        == (other[k] == ' ') by {
        lemma_strokes(row[k]);
    }
    lemma_next_left_facing_strokes(row, other, pos + 1);
    if pos + 1 <= row.len() {
        lemma_next_left_facing(row, pos + 1);
    }
}

/// A regular row is regular without the upward stroke of the character at
/// `edge`.
proof fn lemma_regular_without_stroke(row: Seq<char>, edge: int, col: int)
    requires
        0 <= col,
        regular_at(row, col),
    ensures
        regular_at(loosened_at(row, edge), col),
{
    let other = loosened_at(row, edge);
    if col + 1 < row.len() {
        lemma_strokes(row[col]);
        assert forall|k: int| 0 <= k < row.len() implies (is_crossing(#[trigger] other[k])
            ==> is_crossing(row[k])) && is_divider(other[k]) == is_divider(row[k]) && (is_left_facing(
            row[k],
        ) ==> other[k] == row[k]) by {
            lemma_strokes(row[k]);
        }
        if !(is_divider(row[col]) && !is_left_facing(row[col])) {
            lemma_next_crossing(row, col);
            let at = next_crossing(row, col);
            assert forall|k: int| col <= k < at implies !is_crossing(#[trigger] other[k]) by {
                assert(!is_crossing(row[k]));
            }
            if at < row.len() {
                lemma_classes_are_dividers(row[at]);
            }
            lemma_next_crossing_is(other, col, at);
        }
    }
}

/// The seam row of the body, through an insertion that widens the column
/// and the deletion that follows: without the stroke of its connector it is
/// widened and gets a stroke below the border of the header; the deletion
/// takes that stroke, narrows the row and gives the connector its stroke
/// back. What comes out is the row as it was.
proof fn lemma_seam_row_there_and_back(row: Seq<char>, edge: int, col: int)
    requires
        1 <= col,
        0 <= edge,
        regular_at(row, col),
        stands_alone(row, edge),
    ensures
        ({
            let wide = widen_row(loosened_at(row, edge), col);
            &&& edge < wide.len() ==> wide[edge] != '╥'
            &&& row_has_spare(tightened_at(wide, edge), col)
            &&& loosened_at(tightened_at(wide, edge), edge) == wide
            &&& narrow_row(wide, col) == loosened_at(row, edge)
            &&& edge < row.len() ==> loosened(row[edge]) != '╥'
            &&& tightened_at(loosened_at(row, edge), edge) == row
        }),
{
    let loose = loosened_at(row, edge);
    let wide = widen_row(loose, col);
    lemma_regular_without_stroke(row, edge, col);
    lemma_widened_has_spare(loose, col);
    lemma_spare_with_stroke(wide, edge, col);
    lemma_narrow_undoes_widen(loose, col);
    if edge < row.len() {
        lemma_strokes(row[edge]);
        assert(tightened_at(loose, edge) =~= row);
    }
    if col <= loose.len() {
        lemma_next_crossing(loose, col);
    }
    if edge < wide.len() {
        let at = next_crossing(loose, col);
        if col + 1 < loose.len() && at < loose.len() {
            lemma_strokes(loose[at]);
            if edge < at {
                assert(wide[edge] == loose[edge]);
            } else if edge == at {
                assert(wide[edge] == filler_of(loose[at]));
            } else {
                assert(wide[edge] == loose[edge - 1]);
                assert(loose[edge - 1] == row[edge - 1]);
                lemma_strokes(row[edge - 1]);
            }
        }
        assert(loosened(wide[edge]) == wide[edge]);
        lemma_strokes(wide[edge]);
        assert(loosened_at(tightened_at(wide, edge), edge) =~= wide);
    }
}

/// The cursor at the end of its cell has no slack, and its row can give up
/// the padding under the cursor.
proof fn lemma_end_of_cell(p: PlaneView)
    requires
        at_end_of_cell(p),
    ensures
        !p.has_slack(),
        p.slack_end() == p.col + 1,
        row_has_spare(p.line(), p.col),
        p.last_column() == p.col,
{
    lemma_next_left_facing(p.line(), p.col);
    lemma_next_left_facing_is(p.line(), p.col + 1, p.col + 1);
}

/// Deleting before the cursor undoes an insertion that made the column
/// wider: the characters and the cursor are as they were before.
///
/// This holds for a character that is no divider, with the cursor at the
/// end of its cell and not in the seam row, every other row of the region
/// regular at the column of the cursor, and the connector below the header
/// standing alone. With the cursor on anything but padding the column stays
/// wide, and the row of the cursor is padded instead.
pub proof fn law_delete_undoes_insert_without_slack(p: PlaneView, ch: char)
    requires
        at_end_of_cell(p),
        !is_divider(ch),
        p.row != p.seam,
        connector_stands_alone(p),
        forall|i: int| p.in_region(i) && i != p.row ==> regular_at(#[trigger] p.rows[i], p.col),
    ensures
        !p.has_slack(),
        p.inserted(ch).deleted_before() == p,
{
    lemma_end_of_cell(p);
    if p.row > p.seam {
        lemma_undone_in_body(p, ch);
    } else {
        lemma_undone_in_header(p, ch);
    }
}

/// The law for a cursor in the body, below the seam row.
proof fn lemma_undone_in_body(p: PlaneView, ch: char)
    requires
        at_end_of_cell(p),
        !is_divider(ch),
        p.row > p.seam,
        connector_stands_alone(p),
        forall|i: int| p.in_region(i) && i != p.row ==> regular_at(#[trigger] p.rows[i], p.col),
    ensures
        p.inserted(ch).deleted_before() == p,
{
    lemma_end_of_cell(p);
    let line = p.line();
    let edge = p.header_edge();
    let linked = 0 < p.seam < p.rows.len() && p.rows[0].len() > 0;
    let seam_row = p.rows[p.seam];
    let typed = p.with_row(p.row, line.insert(p.col, ch));
    let a = typed.disconnected();
    let b = a.widened();
    let c = b.connected(false);
    let q = p.inserted(ch);
    if linked {
        lemma_seam_row_there_and_back(seam_row, edge, p.col);
        assert(regular_at(seam_row, p.col));
    }
    let wide_seam = widen_row(loosened_at(seam_row, edge), p.col);
    assert(a.rows.len() == p.rows.len() && a.row == p.row && a.col == p.col && a.seam == p.seam);
    assert forall|k: int| 0 <= k < p.rows.len() implies #[trigger] b.rows[k] == if k == p.row {
        line.insert(p.col, ch)
    } else if linked && k == p.seam {
        wide_seam
    } else if k >= p.seam {
        widen_row(p.rows[k], p.col)
    } else {
        p.rows[k]
    } by {
        assert(a.in_region(k) == p.in_region(k));
    }
    assert(linked ==> b.rows[0] == p.rows[0]);
    assert forall|k: int| 0 <= k < p.rows.len() implies #[trigger] c.rows[k] == if linked && k
        == p.seam {
        tightened_at(wide_seam, edge)
    } else {
        b.rows[k]
    } by {}
    assert(c.row == p.row && c.col == p.col && c.seam == p.seam);
    assert(q.rows == c.rows && q.row == p.row && q.col == p.col + 1);
    assert(q.line().remove(p.col) =~= line);
    let d = q.with_row(q.row, q.line().remove(q.col - 1)).stepped(0, -1);
    assert(d.row == p.row && d.col == p.col && d.seam == p.seam);
    assert(d.line() == line);
    assert(linked ==> d.rows[0] == p.rows[0]);
    assert forall|i: int| d.in_region(i) implies row_has_spare(#[trigger] d.rows[i], p.col) by {
        if i != p.row && !(linked && i == p.seam) {
            assert(d.rows[i] == widen_row(p.rows[i], p.col));
            lemma_widened_has_spare(p.rows[i], p.col);
        }
    }
    let a2 = d.disconnected();
    assert forall|k: int| 0 <= k < p.rows.len() implies #[trigger] a2.rows[k] == if linked && k
        == p.seam {
        wide_seam
    } else {
        d.rows[k]
    } by {}
    let b2 = a2.narrowed(p.col);
    assert forall|k: int| 0 <= k < p.rows.len() implies #[trigger] b2.rows[k] == if linked && k
        == p.seam {
        loosened_at(seam_row, edge)
    } else {
        p.rows[k]
    } by {
        assert(a2.in_region(k) == p.in_region(k));
        if k != p.row && k >= p.seam {
            lemma_narrow_undoes_widen(p.rows[k], p.col);
        }
    }
    let c2 = b2.connected(true);
    assert(c2.rows =~= p.rows);
}

/// The law for a cursor in the header, above the seam row.
proof fn lemma_undone_in_header(p: PlaneView, ch: char)
    requires
        at_end_of_cell(p),
        !is_divider(ch),
        p.row < p.seam,
        connector_stands_alone(p),
        forall|i: int| p.in_region(i) && i != p.row ==> regular_at(#[trigger] p.rows[i], p.col),
    ensures
        p.inserted(ch).deleted_before() == p,
{
    lemma_end_of_cell(p);
    let line = p.line();
    let edge = p.header_edge();
    let linked = 0 < p.seam < p.rows.len() && p.rows[0].len() > 0;
    let seam_row = p.rows[p.seam];
    let typed = p.with_row(p.row, line.insert(p.col, ch));
    let a = typed.disconnected();
    let b = a.widened();
    let c = b.connected(true);
    let q = p.inserted(ch);
    let loose = loosened_at(seam_row, edge);
    let top = widen_row(p.rows[0], p.col);
    let moved = top.len() - 1;
    assert(p.in_region(0));
    lemma_narrow_undoes_widen(p.rows[0], p.col);
    assert(a.rows.len() == p.rows.len() && a.row == p.row && a.col == p.col && a.seam == p.seam);
    assert forall|k: int| 0 <= k < p.rows.len() implies #[trigger] b.rows[k] == if k == p.row {
        line.insert(p.col, ch)
    } else if linked && k == p.seam {
        loose
    } else if k < p.seam {
        widen_row(p.rows[k], p.col)
    } else {
        p.rows[k]
    } by {
        assert(a.in_region(k) == p.in_region(k));
    }
    assert(b.rows[0] == top);
    assert(moved == edge || moved == edge + 1);
    if linked {
        if moved < seam_row.len() {
            lemma_strokes(seam_row[moved]);
        }
        if edge < seam_row.len() {
            lemma_strokes(seam_row[edge]);
            assert(tightened_at(loose, edge) =~= seam_row);
        }
        assert(loosened_at(tightened_at(loose, moved), moved) =~= loose);
    }
    assert forall|k: int| 0 <= k < p.rows.len() implies #[trigger] c.rows[k] == if linked && k
        == p.seam {
        tightened_at(loose, moved)
    } else {
        b.rows[k]
    } by {}
    assert(c.row == p.row && c.col == p.col && c.seam == p.seam);
    assert(q.rows == c.rows && q.row == p.row && q.col == p.col + 1);
    assert(q.line().remove(p.col) =~= line);
    let d = q.with_row(q.row, q.line().remove(q.col - 1)).stepped(0, -1);
    assert(d.row == p.row && d.col == p.col && d.seam == p.seam);
    assert(d.line() == line);
    assert(d.rows[0] == top);
    assert forall|i: int| d.in_region(i) implies row_has_spare(#[trigger] d.rows[i], p.col) by {
        if i != p.row {
            assert(d.rows[i] == widen_row(p.rows[i], p.col));
            lemma_widened_has_spare(p.rows[i], p.col);
        }
    }
    let a2 = d.disconnected();
    assert forall|k: int| 0 <= k < p.rows.len() implies #[trigger] a2.rows[k] == if linked && k
        == p.seam {
        loose
    } else {
        d.rows[k]
    } by {}
    let b2 = a2.narrowed(p.col);
    assert forall|k: int| 0 <= k < p.rows.len() implies #[trigger] b2.rows[k] == if linked && k
        == p.seam {
        loose
    } else {
        p.rows[k]
    } by {
        assert(a2.in_region(k) == p.in_region(k));
        if k != p.row && k < p.seam {
            lemma_narrow_undoes_widen(p.rows[k], p.col);
        }
    }
    let c2 = b2.connected(false);
    assert(c2.rows =~= p.rows);
}

} // verus!
