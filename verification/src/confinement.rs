//! The cursor under the edits: where it comes to stand, and that it stays on
//! the content of the cells.
//!
//! The movements of the cursor say as much of themselves: each one leaves
//! the cursor where it is or takes it to an allowed position.

use vstd::prelude::*;
use crate::glyph::{
    is_crossing, is_divider, is_left_facing, lemma_classes_are_dividers, lemma_strokes, loosened,
};
use crate::model::{narrow_row, remove_each, row_has_spare, widen_row, PlaneView};
use crate::scan::{lemma_next_crossing, lemma_next_left_facing, lemma_next_left_facing_is};

verus! {

/// After an insertion the cursor rests on content, when it did before and
/// the character is no divider.
pub proof fn law_insert_keeps_cursor_confined(p: PlaneView, ch: char)
    requires
        p.confined(),
        !is_divider(ch),
    ensures
        p.inserted(ch).confined(),
{
    let line = p.line();
    lemma_next_left_facing(line, p.col + 1);
    let typed = p.with_row(p.row, line.insert(p.col, ch));
    if !p.has_slack() {
        let a = typed.disconnected();
        let b = a.widened();
        let c = b.connected(p.row < p.seam);
        let seen = b.rows[p.row];
        assert(seen == a.rows[p.row]);
        assert(seen.len() == line.len() + 1 && !is_divider(seen[p.col]) && !is_divider(
            seen[p.col + 1],
        )) by {
            lemma_strokes(typed.line()[p.col]);
            lemma_strokes(typed.line()[p.col + 1]);
        }
        if b.has_connector() && b.connector() == '╥' {
            let edge = b.header_edge();
            if p.row < p.seam {
                assert(c.row == p.row && c.col == p.col);
                assert(c.rows[p.row] == if edge + 1 < b.rows[b.seam].len() && edge <= seen.len() {
                    seen.insert(edge, ' ')
                } else {
                    seen
                });
            } else if edge >= 1 {
                let marked = b.with_row(b.seam, b.rows[b.seam].update(edge - 1, '┴'));
                let topped = marked.with_row(0, marked.rows[0].remove(edge - 1));
                let cut = topped.with_rows(remove_each(topped.rows, 1, b.seam, edge - 1));
                assert(c == cut);
                assert(cut.rows[p.row] == marked.rows[p.row]);
                assert(cut.rows[p.row].len() == seen.len());
                assert forall|k: int| 0 <= k < seen.len() && !(p.row == p.seam && k == edge - 1)
                    implies cut.rows[p.row][k] == seen[k] by {}
            }
        } else {
            assert(c.row == p.row && c.col == p.col);
            assert(c.rows[p.row].len() == seen.len() && !is_divider(c.rows[p.row][p.col + 1])) by {
                lemma_strokes(seen[p.col + 1]);
            }
        }
    }
}

/// The junction of the body stands neither below the right border of the
/// header nor directly before it.
pub open spec fn junction_clear_of_edge(p: PlaneView) -> bool {
    0 < p.seam < p.rows.len() ==> forall|k: int|
        p.header_edge() - 1 <= k <= p.header_edge() && 0 <= k < p.rows[p.seam].len()
            ==> #[trigger] p.rows[p.seam][k] != '╥'
}

/// The cell of the cursor is closed on the right by a vertical line, with
/// nothing but content between the cursor and that line.
pub open spec fn closed_on_the_right(p: PlaneView) -> bool {
    p.right_edge() < p.line().len() && forall|k: int|
        p.col <= k < p.right_edge() ==> !is_divider(#[trigger] p.line()[k])
}

/// In the header the row of the cursor is as long as the first row, and the
/// first row ends with a crossing.
pub open spec fn header_is_regular(p: PlaneView) -> bool {
    p.line().len() == p.rows[0].len() && is_crossing(p.rows[0].last())
}

/// The cursor rests on content outside the seam row. For a cursor in the
/// header, either the junction of the body is clear of the right border of
/// the header, or the header is regular and the row of the cursor begins with
/// a divider and has its cell closed by a vertical line.
pub open spec fn safe_to_delete_before(p: PlaneView) -> bool {
    &&& p.confined()
    &&& p.row != p.seam
    &&& p.row < p.seam ==> junction_clear_of_edge(p) || (header_is_regular(p) && is_divider(
        p.line()[0],
    ) && p.right_edge() < p.line().len())
}

/// The cursor rests on content outside the seam row, in a cell closed on the
/// right and in a row that begins with a divider. For a cursor in the
/// header, either the junction of the body is clear of the right border of
/// the header, or the header has room.
pub open spec fn safe_to_delete(p: PlaneView) -> bool {
    &&& p.confined()
    &&& closed_on_the_right(p)
    &&& is_divider(p.line()[0])
    &&& p.row != p.seam
    &&& p.row < p.seam ==> junction_clear_of_edge(p) || header_has_room(p)
}

/// The cursor rests on content outside the seam row, and the character is no
/// divider. A cell with slack is closed by a vertical line, and a cursor in
/// the header stands before the border of the header.
pub open spec fn plain_insert(p: PlaneView, ch: char) -> bool {
    &&& p.confined()
    &&& !is_divider(ch)
    &&& p.has_slack() ==> p.slack_end() < p.line().len()
    &&& p.row != p.seam
    &&& p.row < p.seam ==> p.col < p.header_edge()
}

/// The cursor rests on content outside the seam row, behind a position that
/// is allowed. For a cursor in the header, either the junction of the body
/// is clear of the right border of the header, or the header is regular.
pub open spec fn plain_delete_before(p: PlaneView) -> bool {
    &&& p.confined()
    &&& p.allowed(p.row, p.col - 1)
    &&& p.row != p.seam
    &&& p.row < p.seam ==> junction_clear_of_edge(p) || header_is_regular(p)
}

/// The cursor rests on content outside the seam row. For a cursor in the
/// header, either the junction of the body is clear of the right border of
/// the header, or the header is regular and the cursor stands before the
/// columns that the header loses when it gives way to the junction.
pub open spec fn plain_delete(p: PlaneView) -> bool {
    &&& p.confined()
    &&& p.row != p.seam
    &&& p.row < p.seam ==> junction_clear_of_edge(p) || (header_is_regular(p) && p.col + 4
        < p.line().len())
}

/// After a deletion before the cursor the cursor rests on content, where it
/// is safe to delete before the cursor.
pub proof fn law_delete_before_keeps_cursor_confined(p: PlaneView)
    requires
        safe_to_delete_before(p),
    ensures
        p.deleted_before().confined(),
{
    if p.allowed(p.row, p.col - 1) {
        let line = p.line();
        let short = line.remove(p.col - 1);
        let d = p.with_row(p.row, short).stepped(0, -1);
        assert(d.row == p.row && d.col == p.col - 1);
        assert(d.rows[0] == p.rows[0]);
        assert(d.line() == short);
        lemma_next_left_facing(short, d.col);
        let r = d.rebalanced();
        if p.row > p.seam || junction_clear_of_edge(p) {
            assert(0 < p.seam < p.rows.len() ==> d.rows[d.seam] == p.rows[p.seam]);
            lemma_rebalance_keeps_row(d);
        } else {
            lemma_rebalanced_in_header(d);
            lemma_next_left_facing(line, p.col);
            let pos = d.last_column();
            assert forall|k: int| p.col - 1 <= k < p.right_edge() - 1 implies !is_left_facing(
                #[trigger] short[k],
            ) by {
                assert(short[k] == line[k + 1]);
            }
            assert(short[p.right_edge() - 1] == line[p.right_edge()]);
            lemma_next_left_facing_is(short, p.col - 1, p.right_edge() - 1);
            lemma_first_row_shortens(p.rows[0], pos);
            if d.has_spare(pos) {
                assert(d.in_region(d.row));
                assert(row_has_spare(d.rows[d.row], pos));
                if d.col == short.len() - 2 {
                    lemma_next_left_facing_is(short, pos + 1, short.len() - 1);
                }
            }
        }
    }
}

/// The header is regular, and the row of the cursor holds no divider in the
/// three columns before its border: where the header gives way to the
/// junction it loses two columns, and one is left.
pub open spec fn header_has_room(p: PlaneView) -> bool {
    &&& header_is_regular(p)
    &&& p.line().len() >= 5
    &&& forall|k: int|
        p.line().len() - 4 <= k <= p.line().len() - 2 ==> !is_divider(#[trigger] p.line()[k])
}

/// After a deletion under the cursor the cursor rests on content, where it
/// is safe to delete.
pub proof fn law_delete_keeps_cursor_confined(p: PlaneView)
    requires
        safe_to_delete(p),
    ensures
        p.deleted().confined(),
{
    let line = p.line();
    let edge = p.right_edge();
    lemma_next_left_facing(line, p.col);
    let s = p.rebalanced();
    if p.row > p.seam || junction_clear_of_edge(p) {
        lemma_rebalance_keeps_row(p);
        if p.has_spare(p.last_column()) {
            assert(s.line() == line);
            assert(p.in_region(p.row));
            assert(row_has_spare(p.rows[p.row], p.last_column()));
            if p.col + 1 == edge {
                lemma_next_left_facing_is(line, p.col + 1, edge);
            }
        } else {
            assert(s.line() == line.insert(edge, ' '));
        }
    } else {
        lemma_rebalanced_in_header(p);
        let pos = p.last_column();
        lemma_first_row_shortens(p.rows[0], pos);
        if p.has_spare(pos) {
            assert(p.in_region(p.row));
            assert(row_has_spare(p.rows[p.row], pos));
            if p.col + 1 == edge {
                lemma_next_left_facing_is(line, p.col + 1, edge);
            }
            let cut = line.len() - 3;
            let b = p.disconnected().narrowed(pos);
            if b.has_connector() && b.connector() == '╥' {
                assert(b.header_edge() - 1 == cut);
                let once = line.remove(cut);
                assert(s.line() == once);
                let twice = once.remove(s.col);
                assert(p.deleted() == s.with_row(s.row, twice).settled());
                assert forall|k: int| 0 <= k < s.col implies twice[k] == line[k] by {}
                assert(!is_divider(line[line.len() - 2]) && !is_divider(line[line.len() - 3])
                    && !is_divider(line[line.len() - 4]));
                lemma_classes_are_dividers(line[edge]);
                assert(edge == line.len() - 1 || edge < line.len() - 4);
                if s.col + 1 < cut {
                    assert(twice[s.col] == line[s.col + 1]);
                } else if p.col < cut {
                    assert(twice[s.col] == line[cut + 1]);
                } else {
                    assert(twice[s.col] == line[line.len() - 1]);
                    assert(twice[s.col - 1] == line[line.len() - 4]);
                }
                } else {
                }
        } else {
            assert(s.line() == line.insert(edge, ' '));
        }
    }
}

/// An insertion puts the character where the cursor stood and takes the
/// cursor one column to the right, onto the character it stood on.
///
/// This holds for a plain insertion, whether or not the header gives way to
/// the junction of the body.
pub proof fn law_insert_steps_right(p: PlaneView, ch: char)
    requires
        plain_insert(p, ch),
    ensures
        p.inserted(ch).row == p.row,
        p.inserted(ch).col == p.col + 1,
        p.inserted(ch).line()[p.col] == ch,
        forall|k: int| 0 <= k < p.col ==> p.inserted(ch).line()[k] == p.line()[k],
        p.inserted(ch).confined(),
{
    let line = p.line();
    lemma_next_left_facing(line, p.col + 1);
    let typed = p.with_row(p.row, line.insert(p.col, ch));
    if !p.has_slack() {
        let a = typed.disconnected();
        let b = a.widened();
        let c = b.connected(p.row < p.seam);
        assert(a.rows[p.row] == typed.line());
        assert(b.rows[p.row] == typed.line());
        if p.row < p.seam {
            assert(a.in_region(0));
            assert(a.rows[0] == p.rows[0]);
            assert(b.rows[0] == widen_row(p.rows[0], p.col));
            if p.col <= p.rows[0].len() {
                lemma_next_crossing(p.rows[0], p.col);
            }
            assert(widen_row(p.rows[0], p.col).len() >= p.rows[0].len());
        }
    }
}

/// A deletion before the cursor takes the cursor one column to the left,
/// and one more only where a divider has come to stand under it; the
/// characters before the one that leaves stay.
///
/// This holds for a plain deletion before the cursor, whether or not the
/// header gives way to the junction of the body.
pub proof fn law_delete_before_steps_left(p: PlaneView)
    requires
        plain_delete_before(p),
    ensures
        p.deleted_before().row == p.row,
        p.deleted_before().col == p.col - 1 || (p.deleted_before().col == p.col - 2 && is_divider(
            p.deleted_before().line()[p.col - 1],
        )),
        forall|k: int| 0 <= k < p.col - 1 ==> p.deleted_before().line()[k] == p.line()[k],
{
    let line = p.line();
    let short = line.remove(p.col - 1);
    let d = p.with_row(p.row, short).stepped(0, -1);
    assert(d.row == p.row && d.col == p.col - 1);
    assert(d.rows[0] == p.rows[0]);
    assert(d.line() == short);
    lemma_next_left_facing(short, d.col);
    let r = d.rebalanced();
    if p.row > p.seam || junction_clear_of_edge(p) {
        assert(0 < p.seam < p.rows.len() ==> d.rows[d.seam] == p.rows[p.seam]);
        lemma_rebalance_keeps_row(d);
    } else {
        lemma_rebalanced_in_header(d);
        lemma_first_row_shortens(p.rows[0], d.last_column());
    }
    assert forall|k: int| 0 <= k < p.col - 1 implies r.line()[k] == line[k] by {
        assert(short[k] == line[k]);
    }
}

/// A deletion under the cursor takes away the character under the cursor:
/// the characters before it stay, the one behind it, or padding, comes to
/// stand in its place, and the cursor stays, or steps back one column from a
/// divider that has come to stand under it.
///
/// This holds for a plain deletion, whether or not the header gives way to
/// the junction of the body.
pub proof fn law_delete_takes_the_character_under_the_cursor(p: PlaneView)
    requires
        plain_delete(p),
    ensures
        p.deleted().row == p.row,
        p.deleted().col == p.col || (p.deleted().col == p.col - 1 && is_divider(
            p.deleted().line()[p.col],
        )),
        forall|k: int| 0 <= k < p.col ==> p.deleted().line()[k] == p.line()[k],
        p.deleted().line()[p.col] == p.line()[p.col + 1] || p.deleted().line()[p.col] == ' ',
{
    let line = p.line();
    lemma_next_left_facing(line, p.col);
    let s = p.rebalanced();
    if p.row > p.seam || junction_clear_of_edge(p) {
        lemma_rebalance_keeps_row(p);
    } else {
        lemma_rebalanced_in_header(p);
        lemma_first_row_shortens(p.rows[0], p.last_column());
    }
}

/// A row that ends with a crossing gets shorter when it is narrowed at a
/// column before its end.
proof fn lemma_first_row_shortens(row: Seq<char>, pos: int)
    requires
        1 <= pos,
        pos + 1 < row.len(),
        is_crossing(row.last()),
    ensures
        narrow_row(row, pos).len() == row.len() - 1,
{
    lemma_next_crossing(row, pos);
}

/// Rebalancing for a cursor in the header: the row of the cursor is padded,
/// or stays as it is, or loses, where the header gives way to the junction,
/// the column before the border of the narrowed header; the cursor keeps to
/// its character.
pub(crate) proof fn lemma_rebalanced_in_header(s: PlaneView)
    requires
        s.valid_cursor(),
        s.row < s.seam,
    ensures
        ({
            let r = s.rebalanced();
            let pos = s.last_column();
            let b = s.disconnected().narrowed(pos);
            let cut = b.header_edge() - 1;
            &&& r.row == s.row
            &&& r.seam == s.seam
            &&& r.rows.len() == s.rows.len()
            &&& b.rows[0] == narrow_row(s.rows[0], pos)
            &&& !s.has_spare(pos) ==> r == s.padded()
            &&& s.has_spare(pos) ==> if b.has_connector() && b.connector() == '╥' && cut >= 0 {
                &&& r.line() == if cut < s.line().len() {
                    s.line().remove(cut)
                } else {
                    s.line()
                }
                &&& r.col == if cut < s.col && cut < s.line().len() {
                    s.col - 1
                } else {
                    s.col
                }
            } else {
                r.line() == s.line() && r.col == s.col
            }
        }),
{
    let pos = s.last_column();
    if s.has_spare(pos) {
        let a = s.disconnected();
        let b = a.narrowed(pos);
        assert(a.rows[0] == s.rows[0]);
        assert(a.in_region(0));
        assert(b.rows[s.row] == s.line());
    }
}

/// Rebalancing leaves the cursor where it is, and changes the row of the
/// cursor by padding at most, when the cursor is not in the seam row and, for
/// a cursor in the header, the junction of the body is clear of the right
/// border of the header. The other rows on the side of the cursor are
/// narrowed, or stay as they are.
pub(crate) proof fn lemma_rebalance_keeps_row(s: PlaneView)
    requires
        s.valid_cursor(),
        s.row != s.seam,
        s.row < s.seam ==> junction_clear_of_edge(s),
    ensures
        s.rebalanced().row == s.row,
        s.rebalanced().col == s.col,
        s.rebalanced().seam == s.seam,
        s.rebalanced().rows.len() == s.rows.len(),
        s.has_spare(s.last_column()) ==> s.rebalanced().line() == s.line(),
        s.has_spare(s.last_column()) ==> forall|k: int|
            s.in_region(k) && k != s.row && k != s.seam ==> #[trigger] s.rebalanced().rows[k]
                == narrow_row(s.rows[k], s.last_column()),
        !s.has_spare(s.last_column()) ==> s.rebalanced() == s.padded(),
{
    let pos = s.last_column();
    if s.has_spare(pos) {
        let a = s.disconnected();
        let b = a.narrowed(pos);
        assert(b.rows[s.row] == s.line());
        assert forall|k: int| s.in_region(k) && k != s.row && k != s.seam implies #[trigger] b.rows[k]
            == narrow_row(s.rows[k], pos) by {
            assert(a.in_region(k));
            assert(a.rows[k] == s.rows[k]);
        }
        if b.has_connector() {
            if s.row > s.seam {
                if b.connector() == '╥' {
                    let c = b.header_widened();
                    assert(c.rows[s.row] == s.line());
                    assert forall|k: int|
                        s.in_region(k) && k != s.row && k != s.seam implies #[trigger] c.rows[k]
                        == b.rows[k] by {}
                }
            } else {
                assert(b.rows[s.seam] == a.rows[s.seam]);
                assert(b.rows[0] == narrow_row(s.rows[0], pos));
                assert(b.connector() == loosened(s.rows[s.seam][b.header_edge()])
                    || b.connector() == s.rows[s.seam][b.header_edge()]);
                lemma_strokes(s.rows[s.seam][b.header_edge()]);
                assert(b.connector() != '╥');
            }
        }
    }
}

} // verus!
