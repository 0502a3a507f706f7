//! The rows of a region keep one length under every edit, and their
//! dividers move together.

use vstd::prelude::*;
use crate::glyph::{is_crossing, is_left_facing, lemma_strokes, loosened};
use crate::confinement::{junction_clear_of_edge, lemma_rebalance_keeps_row};
use crate::model::{narrow_row, widen_row, PlaneView};
use crate::scan::{
    lemma_next_crossing, lemma_next_left_facing, lemma_next_left_facing_is, next_crossing,
};

verus! {

/// The row ends with a character through which a vertical line passes, and
/// that is no connector to a header above.
pub open spec fn ends_with_border(row: Seq<char>) -> bool {
    row.len() > 0 && is_crossing(row.last()) && row.last() != '┴'
}

/// Every row of the region of the cursor has the length `n`.
pub open spec fn region_has_length(p: PlaneView, n: int) -> bool {
    forall|i: int| p.in_region(i) ==> (#[trigger] p.rows[i]).len() == n
}

/// The region of the cursor is a rectangle: each of its rows has the length
/// `n` and ends with a border.
pub open spec fn rectangular(p: PlaneView, n: int) -> bool {
    forall|i: int|
        p.in_region(i) ==> (#[trigger] p.rows[i]).len() == n && ends_with_border(p.rows[i])
}

/// A row that ends with a border gets one character longer when it is
/// widened at a column before its end, with or without the upward stroke of
/// one of its characters.
proof fn lemma_widen_lengthens(row: Seq<char>, col: int, edge: int)
    requires
        0 <= col,
        col + 1 < row.len(),
        ends_with_border(row),
    ensures
        widen_row(row, col).len() == row.len() + 1,
        0 <= edge < row.len() ==> widen_row(row.update(edge, loosened(row[edge])), col).len()
            == row.len() + 1,
{
    lemma_next_crossing(row, col);
    if 0 <= edge < row.len() {
        let loose = row.update(edge, loosened(row[edge]));
        lemma_strokes(row[edge]);
        assert(is_crossing(loose.last()));
        lemma_next_crossing(loose, col);
    }
}

/// A row that ends with a border gets one character shorter when it is
/// narrowed at a column before its end, with or without the upward stroke of
/// one of its characters.
proof fn lemma_narrow_shortens(row: Seq<char>, pos: int, edge: int)
    requires
        1 <= pos,
        pos + 1 < row.len(),
        ends_with_border(row),
    ensures
        narrow_row(row, pos).len() == row.len() - 1,
        0 <= edge < row.len() ==> narrow_row(row.update(edge, loosened(row[edge])), pos).len()
            == row.len() - 1,
{
    lemma_next_crossing(row, pos);
    if 0 <= edge < row.len() {
        let loose = row.update(edge, loosened(row[edge]));
        lemma_strokes(row[edge]);
        assert(is_crossing(loose.last()));
        lemma_next_crossing(loose, pos);
    }
}

/// A region that is a rectangle stays one under an insertion: with slack in
/// the cell its rows keep their length; without, each of them gets one
/// character longer, and one more in a header that moves on across the
/// junction of the body.
pub proof fn law_insert_keeps_region_rectangular(p: PlaneView, ch: char, n: int)
    requires
        p.valid_cursor(),
        rectangular(p, n),
    ensures
        forall|i: int| p.inserted(ch).in_region(i) <==> p.in_region(i),
        p.has_slack() ==> region_has_length(p.inserted(ch), n),
        !p.has_slack() ==> region_has_length(p.inserted(ch), n + 1) || (p.row < p.seam
            && region_has_length(p.inserted(ch), n + 2)),
{
    let line = p.line();
    let q = p.inserted(ch);
    assert(p.in_region(p.row));
    assert(line.len() == n);
    lemma_next_left_facing(line, p.col + 1);
    let typed = p.with_row(p.row, line.insert(p.col, ch));
    if p.has_slack() {
        assert(q.rows =~= p.rows.update(p.row, line.insert(p.col, ch).remove(p.slack_end())));
        assert forall|i: int| q.in_region(i) implies (#[trigger] q.rows[i]).len() == n by {
            assert(p.in_region(i));
        }
    } else {
        let a = typed.disconnected();
        let b = a.widened();
        let c = b.connected(p.row < p.seam);
        let edge = p.header_edge();
        assert forall|i: int| p.in_region(i) implies (#[trigger] b.rows[i]).len() == n + 1 by {
            assert(a.in_region(i));
            if i != p.row {
                assert(typed.rows[i] == p.rows[i]);
                lemma_widen_lengthens(p.rows[i], p.col, edge);
            }
        }
        assert(q.rows == c.rows);
        if b.has_connector() && b.connector() == '╥' {
            if p.row < p.seam {
                assert(b.in_region(0));
                assert(b.header_edge() == n);
                if n + 1 < b.rows[b.seam].len() {
                    assert forall|i: int| q.in_region(i) implies (#[trigger] q.rows[i]).len() == n
                        + 2 by {
                        assert(p.in_region(i));
                        assert(b.rows[i].len() == n + 1);
                    }
                } else {
                    assert forall|i: int| q.in_region(i) implies (#[trigger] q.rows[i]).len() == n
                        + 1 by {
                        assert(p.in_region(i));
                        assert(b.rows[i].len() == n + 1);
                    }
                }
            } else {
                assert forall|i: int| q.in_region(i) implies (#[trigger] q.rows[i]).len() == n
                    + 1 by {
                    assert(p.in_region(i));
                    assert(b.rows[i].len() == n + 1);
                }
            }
        } else {
            assert forall|i: int| q.in_region(i) implies (#[trigger] q.rows[i]).len() == n + 1 by {
                assert(p.in_region(i));
                assert(b.rows[i].len() == n + 1);
            }
        }
    }
}

/// A deletion before the cursor finds every row of the region with a
/// character to spare, and narrows the column.
pub open spec fn narrows_before(p: PlaneView) -> bool {
    p.allowed(p.row, p.col - 1) && ({
        let d = p.with_row(p.row, p.line().remove(p.col - 1)).stepped(0, -1);
        d.has_spare(d.last_column())
    })
}

/// A deletion under the cursor finds every row of the region with a
/// character to spare, and narrows the column.
pub open spec fn narrows(p: PlaneView) -> bool {
    p.valid_cursor() && p.has_spare(p.last_column())
}

/// After rebalancing every row of a region that was a rectangle but for the
/// row of the cursor, which `short` characters were missing from, has one
/// length again: that of the rectangle where the row of the cursor was
/// padded, one less where the column was narrowed, and two less in a header
/// that moved on across the junction of the body.
proof fn lemma_rebalanced_lengths(s: PlaneView, n: int, short: int)
    requires
        s.confined(),
        0 <= short <= 1,
        s.line().len() == n - short,
        s.col + short + 1 < n,
        s.right_edge() < s.line().len(),
        forall|i: int|
            s.in_region(i) && i != s.row ==> (#[trigger] s.rows[i]).len() == n && ends_with_border(
                s.rows[i],
            ),
    ensures
        s.rebalanced().row == s.row,
        s.rebalanced().seam == s.seam,
        s.rebalanced().rows.len() == s.rows.len(),
        s.rebalanced().col == s.col || s.rebalanced().col == s.col - 1,
        short == 0 ==> s.rebalanced().col + 1 < s.rebalanced().line().len(),
        !s.has_spare(s.last_column()) ==> s.rebalanced().line().len() == n + 1 - short
            && forall|i: int|
            s.in_region(i) && i != s.row ==> (#[trigger] s.rebalanced().rows[i]).len() == n,
        s.has_spare(s.last_column()) ==> (s.rebalanced().line().len() == n - short && forall|i: int|
            s.in_region(i) && i != s.row ==> (#[trigger] s.rebalanced().rows[i]).len() == n - 1)
            || (s.row < s.seam && s.rebalanced().line().len() == n - short - 1 && forall|i: int|
            s.in_region(i) && i != s.row ==> (#[trigger] s.rebalanced().rows[i]).len() == n - 2),
{
    let pos = s.last_column();
    let line = s.line();
    lemma_next_left_facing(line, s.col);
    let r = s.rebalanced();
    if s.has_spare(pos) {
        let a = s.disconnected();
        let b = a.narrowed(pos);
        let edge = s.header_edge();
        assert(b.rows[s.row] == a.rows[s.row]);
        assert(a.rows[s.row].len() == line.len());
        assert forall|i: int| s.in_region(i) && i != s.row implies (#[trigger] b.rows[i]).len() == n
            - 1 by {
            assert(a.in_region(i));
            lemma_narrow_shortens(s.rows[i], pos, edge);
        }
        if b.has_connector() && b.connector() == '╥' {
            if s.row > s.seam {
                assert forall|i: int| s.in_region(i) implies (#[trigger] r.rows[i]).len()
                    == b.rows[i].len() by {}
            } else if s.row < s.seam {
                assert(b.in_region(0));
                assert(b.header_edge() == n - 2);
                assert forall|i: int| s.in_region(i) && i != s.row implies (#[trigger] r.rows[i]).len()
                    == n - 2 by {
                    assert(b.rows[i].len() == n - 1);
                }
                assert(r.rows[s.row] == line.remove(n - 3));
                assert(r.col == if n - 3 < s.col {
                    s.col - 1
                } else {
                    s.col
                });
            } else {
                assert forall|i: int| s.in_region(i) implies (#[trigger] r.rows[i]).len()
                    == b.rows[i].len() by {}
            }
        } else {
            assert forall|i: int| s.in_region(i) implies (#[trigger] r.rows[i]).len()
                == b.rows[i].len() by {}
        }
    } else {
        assert(r.rows =~= s.rows.update(s.row, line.insert(s.right_edge(), ' ')));
    }
}

/// A region that is a rectangle stays one under a deletion before the
/// cursor, for a cursor on content in a cell closed by a vertical line: its
/// rows keep their length where the row of the cursor is padded, and each of
/// them gets one character shorter where the column is narrowed, and one
/// more in a header that moves on across the junction of the body.
pub proof fn law_delete_before_keeps_region_rectangular(p: PlaneView, n: int)
    requires
        p.confined(),
        rectangular(p, n),
        p.right_edge() < n,
    ensures
        forall|i: int| p.deleted_before().in_region(i) <==> p.in_region(i),
        !narrows_before(p) ==> region_has_length(p.deleted_before(), n),
        narrows_before(p) ==> region_has_length(p.deleted_before(), n - 1) || (p.row < p.seam
            && region_has_length(p.deleted_before(), n - 2)),
{
    let line = p.line();
    let q = p.deleted_before();
    assert(p.in_region(p.row));
    if p.allowed(p.row, p.col - 1) {
        let short = line.remove(p.col - 1);
        let d = p.with_row(p.row, short).stepped(0, -1);
        assert(d.row == p.row && d.col == p.col - 1 && d.seam == p.seam);
        assert(d.line() == short);
        lemma_next_left_facing(line, p.col);
        assert forall|k: int| p.col - 1 <= k < p.right_edge() - 1 implies !is_left_facing(
            #[trigger] short[k],
        ) by {
            assert(short[k] == line[k + 1]);
        }
        assert(short[p.right_edge() - 1] == line[p.right_edge()]);
        lemma_next_left_facing_is(short, p.col - 1, p.right_edge() - 1);
        assert forall|i: int| d.in_region(i) && i != d.row implies (#[trigger] d.rows[i]).len() == n
            && ends_with_border(d.rows[i]) by {
            assert(p.in_region(i));
            assert(d.rows[i] == p.rows[i]);
        }
        lemma_rebalanced_lengths(d, n, 1);
        let r = d.rebalanced();
        assert(q.rows == r.rows);
        assert forall|i: int| q.in_region(i) <==> p.in_region(i) by {}
        if d.has_spare(d.last_column()) {
            if r.line().len() == n - 1 {
                assert forall|i: int| q.in_region(i) implies (#[trigger] q.rows[i]).len() == n
                    - 1 by {
                    assert(d.in_region(i));
                }
            } else {
                assert forall|i: int| q.in_region(i) implies (#[trigger] q.rows[i]).len() == n
                    - 2 by {
                    assert(d.in_region(i));
                }
            }
        } else {
            assert forall|i: int| q.in_region(i) implies (#[trigger] q.rows[i]).len() == n by {
                assert(d.in_region(i));
            }
        }
    }
}

/// A region that is a rectangle stays one under a deletion under the
/// cursor, for a cursor on content in a cell closed by a vertical line: its rows keep
/// their length where the row of the cursor is padded, and each of them gets
/// one character shorter where the column is narrowed, and one more in a
/// header that moves on across the junction of the body.
pub proof fn law_delete_keeps_region_rectangular(p: PlaneView, n: int)
    requires
        p.confined(),
        rectangular(p, n),
        p.right_edge() < n,
    ensures
        forall|i: int| p.deleted().in_region(i) <==> p.in_region(i),
        !narrows(p) ==> region_has_length(p.deleted(), n),
        narrows(p) ==> region_has_length(p.deleted(), n - 1) || (p.row < p.seam
            && region_has_length(p.deleted(), n - 2)),
{
    let line = p.line();
    let q = p.deleted();
    assert(p.in_region(p.row));
    assert forall|i: int| p.in_region(i) && i != p.row implies (#[trigger] p.rows[i]).len() == n
        && ends_with_border(p.rows[i]) by {}
    lemma_rebalanced_lengths(p, n, 0);
    let r = p.rebalanced();
    let cut = r.with_row(r.row, r.line().remove(r.col));
    assert(q.rows == cut.rows);
    assert forall|i: int| q.in_region(i) <==> p.in_region(i) by {}
    assert forall|i: int| p.in_region(i) implies (#[trigger] q.rows[i]).len() == (if i == p.row {
        r.line().len() - 1
    } else {
        r.rows[i].len() as int
    }) by {}
    if p.has_spare(p.last_column()) {
        if r.line().len() == n {
            assert forall|i: int| q.in_region(i) implies (#[trigger] q.rows[i]).len() == n - 1 by {
                assert(p.in_region(i));
            }
        } else {
            assert forall|i: int| q.in_region(i) implies (#[trigger] q.rows[i]).len() == n - 2 by {
                assert(p.in_region(i));
            }
        }
    } else {
        assert forall|i: int| q.in_region(i) implies (#[trigger] q.rows[i]).len() == n by {
            assert(p.in_region(i));
        }
    }
}

/// In a row that is widened every crossing at or after the column stands
/// one column further right, and nothing before the new character moves.
pub proof fn law_widen_moves_the_crossings(row: Seq<char>, col: int)
    requires
        0 <= col,
        col + 1 < row.len(),
        next_crossing(row, col) < row.len(),
    ensures
        widen_row(row, col).len() == row.len() + 1,
        forall|k: int| 0 <= k < next_crossing(row, col) ==> widen_row(row, col)[k] == row[k],
        !is_crossing(widen_row(row, col)[next_crossing(row, col)]),
        forall|k: int| col <= k < row.len() ==> widen_row(row, col)[k + 1] == row[k] || !is_crossing(
            row[k],
        ),
{
    lemma_next_crossing(row, col);
}

/// In a row that is narrowed every crossing at or after the column stands
/// one column further left, and nothing before the character that leaves
/// moves.
pub proof fn law_narrow_moves_the_crossings(row: Seq<char>, pos: int)
    requires
        1 <= pos,
        pos + 1 < row.len(),
        next_crossing(row, pos) < row.len(),
    ensures
        narrow_row(row, pos).len() == row.len() - 1,
        forall|k: int| 0 <= k < next_crossing(row, pos) - 1 ==> narrow_row(row, pos)[k] == row[k],
        forall|k: int| pos <= k < row.len() ==> narrow_row(row, pos)[k - 1] == row[k] || !is_crossing(
            row[k],
        ),
{
    lemma_next_crossing(row, pos);
}

/// An insertion without slack widens every other row of the region, for a
/// cursor below the seam row: nothing else happens to these rows, but to the
/// seam row, whose connector stays below the border of the header.
pub proof fn law_insert_widens_every_other_row(p: PlaneView, ch: char)
    requires
        p.valid_cursor(),
        !p.has_slack(),
        p.row > p.seam,
    ensures
        forall|i: int|
            p.in_region(i) && i != p.row && (i != p.seam || p.seam == 0) ==> p.inserted(ch).rows[i]
                == widen_row(p.rows[i], p.col),
{
    let typed = p.with_row(p.row, p.line().insert(p.col, ch));
    let a = typed.disconnected();
    let b = a.widened();
    let c = b.connected(false);
    assert forall|i: int| p.in_region(i) && i != p.row && (i != p.seam || p.seam == 0) implies c.rows[i]
        == widen_row(p.rows[i], p.col) by {
        assert(a.in_region(i));
        assert(a.rows[i] == p.rows[i]);
        assert(b.rows[i] == widen_row(p.rows[i], p.col));
    }
}

/// A deletion under the cursor that narrows the column narrows every other
/// row of the region, for a cursor outside the seam row and, in the header,
/// with the junction of the body clear of the border of the header: nothing
/// else happens to these rows, but to the seam row, whose connector stays
/// below the border of the header.
pub proof fn law_delete_narrows_every_other_row(p: PlaneView)
    requires
        narrows(p),
        p.row != p.seam,
        p.row < p.seam ==> junction_clear_of_edge(p),
    ensures
        forall|i: int|
            p.in_region(i) && i != p.row && i != p.seam ==> #[trigger] p.deleted().rows[i]
                == narrow_row(p.rows[i], p.last_column()),
{
    lemma_rebalance_keeps_row(p);
    let r = p.rebalanced();
    assert forall|i: int| p.in_region(i) && i != p.row && i != p.seam implies #[trigger] p.deleted().rows[i]
        == narrow_row(p.rows[i], p.last_column()) by {
        assert(r.rows[i] == narrow_row(p.rows[i], p.last_column()));
    }
}

/// A deletion before the cursor that narrows the column narrows every other
/// row of the region, at the last column of the cell once the character is
/// gone; for which cursors, and with what exception, as for a deletion under
/// the cursor.
pub proof fn law_delete_before_narrows_every_other_row(p: PlaneView)
    requires
        narrows_before(p),
        p.confined(),
        p.row != p.seam,
        p.row < p.seam ==> junction_clear_of_edge(p),
    ensures
        ({
            let d = p.with_row(p.row, p.line().remove(p.col - 1)).stepped(0, -1);
            forall|i: int|
                p.in_region(i) && i != p.row && i != p.seam ==> #[trigger] p.deleted_before().rows[i]
                    == narrow_row(p.rows[i], d.last_column())
        }),
{
    let d = p.with_row(p.row, p.line().remove(p.col - 1)).stepped(0, -1);
    assert(d.row == p.row && d.col == p.col - 1);
    assert(d.rows[0] == p.rows[0]);
    assert(0 < p.seam < p.rows.len() ==> d.rows[d.seam] == p.rows[p.seam]);
    lemma_rebalance_keeps_row(d);
    let r = d.rebalanced();
    assert forall|i: int| p.in_region(i) && i != p.row && i != p.seam implies #[trigger] p.deleted_before().rows[i]
        == narrow_row(p.rows[i], d.last_column()) by {
        assert(d.in_region(i));
        assert(d.rows[i] == p.rows[i]);
        assert(r.rows[i] == narrow_row(d.rows[i], d.last_column()));
    }
}

} // verus!
