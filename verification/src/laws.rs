//! What holds of reading, writing and editing a table, whatever the table.

use vstd::prelude::*;
use crate::model::PlaneView;
use crate::scan::lemma_next_left_facing;
use crate::text::{
    joined, kept, lemma_joined_lines, lemma_kept_all, lemma_skip_blank_back_is, lemma_skip_blank_is,
    lemma_table_rows_of_trimmed, lemma_trimmed_fixed, lines, rendered, table_rows, trimmed,
};

verus! {

/// A text in which every line holds something and has no white space at its
/// ends.
pub open spec fn clean(text: Seq<char>) -> bool {
    forall|i: int|
        0 <= i < lines(text).len() ==> (#[trigger] lines(text)[i]).len() > 0 && trimmed(
            lines(text)[i],
        ) == lines(text)[i]
}

/// Reading a table and writing it again gives the trimmed text back, for a
/// text that, once trimmed, is empty or clean.
pub proof fn law_round_trip(text: Seq<char>)
    requires
        trimmed(text).len() > 0 ==> clean(trimmed(text)),
    ensures
        rendered(table_rows(text)) == trimmed(text),
{
    let t = trimmed(text);
    lemma_table_rows_of_trimmed(text);
    if t.len() == 0 {
        assert(t =~= Seq::<char>::empty());
        assert(lines(t) == seq![Seq::<char>::empty()]);
        assert(lines(t).drop_last() =~= Seq::<Seq<char>>::empty());
        assert(trimmed(Seq::<char>::empty()) =~= Seq::<char>::empty());
        assert(kept(Seq::<Seq<char>>::empty()) =~= Seq::<Seq<char>>::empty());
        assert(lines(t).last() == Seq::<char>::empty());
        assert(table_rows(t) =~= Seq::<Seq<char>>::empty());
        assert(joined(table_rows(t)) =~= Seq::<char>::empty());
    } else {
        lemma_kept_all(lines(t));
        lemma_joined_lines(t);
        lemma_trimmed_fixed(text);
        let u = seq!['\n'] + t;
        assert(u[1] == t[0]);
        assert(u.last() == t.last());
        lemma_skip_blank_is(u, 0, 1);
        lemma_skip_blank_back_is(u, u.len() as int, u.len() as int);
        assert(u.subrange(1, u.len() as int) =~= t);
    }
}

/// Inserting into a cell that holds padding before the divider that closes
/// it leaves every other row as it is, and leaves the row of the cursor its
/// length and every character from that divider on.
pub proof fn law_insert_with_slack_keeps_columns(p: PlaneView, ch: char)
    requires
        p.valid_cursor(),
        p.has_slack(),
    ensures
        p.inserted(ch).rows.len() == p.rows.len(),
        forall|i: int| 0 <= i < p.rows.len() && i != p.row ==> p.inserted(ch).rows[i] == p.rows[i],
        p.inserted(ch).rows[p.row].len() == p.line().len(),
        forall|k: int|
            p.slack_end() <= k < p.line().len() ==> p.inserted(ch).rows[p.row][k] == p.line()[k],
        forall|k: int| 0 <= k < p.col ==> p.inserted(ch).rows[p.row][k] == p.line()[k],
        p.inserted(ch).rows[p.row][p.col] == ch,
{
    lemma_next_left_facing(p.line(), p.col + 1);
}

/// No edit changes the number of rows or the index of the seam row, or takes
/// the cursor to another row.
pub proof fn law_edits_keep_the_rows(p: PlaneView, ch: char)
    ensures
        p.inserted(ch).rows.len() == p.rows.len(),
        p.inserted(ch).seam == p.seam,
        p.inserted(ch).row == p.row,
        p.deleted_before().rows.len() == p.rows.len(),
        p.deleted_before().seam == p.seam,
        p.deleted_before().row == p.row,
        p.deleted().rows.len() == p.rows.len(),
        p.deleted().seam == p.seam,
        p.deleted().row == p.row,
{
    lemma_connected_keeps_the_rows(
        p.with_row(p.row, p.line().insert(p.col, ch)).disconnected().widened(),
        p.row < p.seam,
    );
    let d = p.with_row(p.row, p.line().remove(p.col - 1)).stepped(0, -1);
    lemma_connected_keeps_the_rows(d.disconnected().narrowed(d.last_column()), d.row > d.seam);
    lemma_connected_keeps_the_rows(p.disconnected().narrowed(p.last_column()), p.row > p.seam);
}

/// Giving the connector its stroke changes neither the number of rows nor
/// the index of the seam row, whatever the header does to make room.
proof fn lemma_connected_keeps_the_rows(s: PlaneView, from_left: bool)
    ensures
        s.connected(from_left).rows.len() == s.rows.len(),
        s.connected(from_left).seam == s.seam,
        s.connected(from_left).row == s.row,
{
}

} // verus!
