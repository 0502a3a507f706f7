//! The text of a table: its lines, their trimming, and the rendering of rows.

use vstd::prelude::*;
use crate::row::{grid_of, Row};

verus! {

/// White space: the characters that trimming takes away.
pub open spec fn is_blank(ch: char) -> bool {
    let c = ch as u32;
    (0x09 <= c <= 0x0d) || c == 0x20 || c == 0x85 || c == 0xa0 || c == 0x1680 || (0x2000 <= c
        <= 0x200a) || c == 0x2028 || c == 0x2029 || c == 0x202f || c == 0x205f || c == 0x3000
}

/// Index of the first character at or after `from` that is not white space,
/// or the length of the text.
pub open spec fn skip_blank(s: Seq<char>, from: int) -> int
    decreases s.len() - from,
{
    if from < 0 || from >= s.len() {
        s.len() as int
    } else if !is_blank(s[from]) {
        from
    } else {
        skip_blank(s, from + 1)
    }
}

/// End of the last character before `to` that is not white space, or 0.
pub open spec fn skip_blank_back(s: Seq<char>, to: int) -> int
    decreases to,
{
    if to <= 0 || to > s.len() {
        0
    } else if !is_blank(s[to - 1]) {
        to
    } else {
        skip_blank_back(s, to - 1)
    }
}

/// The text without the white space at its two ends.
pub open spec fn trimmed(s: Seq<char>) -> Seq<char> {
    let from = skip_blank(s, 0);
    let to = skip_blank_back(s, s.len() as int);
    if from < to {
        s.subrange(from, to)
    } else {
        Seq::empty()
    }
}

/// The lines of a text: what stands between its line feeds.
pub open spec fn lines(s: Seq<char>) -> Seq<Seq<char>>
    decreases s.len(),
{
    if s.len() == 0 {
        seq![Seq::<char>::empty()]
    } else {
        let before = lines(s.drop_last());
        if s.last() == '\n' {
            before.push(Seq::empty())
        } else {
            before.drop_last().push(before.last().push(s.last()))
        }
    }
}

/// The lines trimmed, without those that trimming leaves empty.
pub open spec fn kept(ls: Seq<Seq<char>>) -> Seq<Seq<char>>
    decreases ls.len(),
{
    if ls.len() == 0 {
        Seq::empty()
    } else if trimmed(ls.last()).len() > 0 {
        kept(ls.drop_last()).push(trimmed(ls.last()))
    } else {
        kept(ls.drop_last())
    }
}

/// The rows of the table that a text holds: its lines, trimmed, without the
/// empty ones.
pub open spec fn table_rows(text: Seq<char>) -> Seq<Seq<char>> {
    kept(lines(text))
}

/// The rows one after the other, a line feed before each.
pub open spec fn joined(rows: Seq<Seq<char>>) -> Seq<char>
    decreases rows.len(),
{
    if rows.len() == 0 {
        Seq::empty()
    } else {
        joined(rows.drop_last()).push('\n') + rows.last()
    }
}

/// The text of a table: its rows, separated by line feeds, trimmed as a
/// whole.
pub open spec fn rendered(rows: Seq<Seq<char>>) -> Seq<char> {
    trimmed(joined(rows))
}

/// `String::push` appends the character to the end of the string.
pub assume_specification[ String::push ](s: &mut String, ch: char)
    ensures
        final(s)@ == old(s)@.push(ch),
;

/// Returns `true` when the character is white space.
pub fn is_whitespace(ch: char) -> (b: bool)
    ensures
        b == is_blank(ch),
{
    let c: u32 = ch as u32;
    (0x09 <= c && c <= 0x0d) || c == 0x20 || c == 0x85 || c == 0xa0 || c == 0x1680 || (0x2000 <= c
        && c <= 0x200a) || c == 0x2028 || c == 0x2029 || c == 0x202f || c == 0x205f || c == 0x3000
}

/// Returns the characters without the white space at their two ends.
pub fn trim(chars: &Vec<char>) -> (out: Vec<char>)
    ensures
        out@ == trimmed(chars@),
{
    let mut from: usize = 0;
    while from < chars.len() && is_whitespace(chars[from])
        invariant
            from <= chars.len(),
            skip_blank(chars@, 0) == skip_blank(chars@, from as int),
        decreases chars.len() - from,
    {
        from += 1;
    }
    let mut to: usize = chars.len();
    while to > 0 && is_whitespace(chars[to - 1])
        invariant
            to <= chars.len(),
            skip_blank_back(chars@, chars.len() as int) == skip_blank_back(chars@, to as int),
        decreases to,
    {
        to -= 1;
    }
    let mut out: Vec<char> = Vec::new();
    let mut i: usize = from;
    while i < to
        invariant
            from <= i,
            to <= chars.len(),
            from < to ==> i <= to,
            from < to ==> out@ == chars@.subrange(from as int, i as int),
            from >= to ==> out@ == Seq::<char>::empty(),
        decreases to - i,
    {
        out.push(chars[i]);
        i += 1;
    }
    out
}

/// Returns the characters as a string.
pub fn to_text(chars: &Vec<char>) -> (text: String)
    ensures
        text@ == chars@,
{
    let mut text = String::new();
    let mut i: usize = 0;
    while i < chars.len()
        invariant
            i <= chars.len(),
            text@ == chars@.take(i as int),
        decreases chars.len() - i,
    {
        text.push(chars[i]);
        i += 1;
    }
    text
}

/// Ends a line of the text: the line is trimmed, and becomes the next row
/// unless nothing is left of it.
fn keep_line(rows: &mut Vec<Row>, line: &Vec<char>)
    ensures
        grid_of(final(rows)@) == if trimmed(line@).len() > 0 {
            grid_of(old(rows)@).push(trimmed(line@))
        } else {
            grid_of(old(rows)@)
        },
{
    let columns = trim(line);
    if columns.len() > 0 {
        rows.push(Row::new(columns));
        assert(grid_of(rows@) =~= grid_of(old(rows)@).push(trimmed(line@)));
    }
}

/// Splits a text into the rows of the table it holds.
pub fn parse_rows(content: &str) -> (rows: Vec<Row>)
    ensures
        grid_of(rows@) == table_rows(content@),
{
    let mut rows: Vec<Row> = Vec::new();
    let mut line: Vec<char> = Vec::new();
    let ghost mut seen: Seq<char> = Seq::empty();
    assert(grid_of(rows@) =~= kept(lines(seen).drop_last()));
    for ch in it: content.chars()
        invariant
            seen == it.seq().take(it.index()),
            grid_of(rows@) == kept(lines(seen).drop_last()),
            line@ == lines(seen).last(),
            lines(seen).len() > 0,
    {
        let ghost before = seen;
        proof {
            seen = seen.push(ch);
            assert(seen =~= it.seq().take(it.index() + 1));
            assert(seen.drop_last() =~= before);
        }
        if ch == '\n' {
            keep_line(&mut rows, &line);
            line = Vec::new();
            assert(lines(seen).drop_last() =~= lines(before));
            assert(lines(before).drop_last().push(lines(before).last()) =~= lines(before));
        } else {
            line.push(ch);
            assert(lines(seen).drop_last() =~= lines(before).drop_last());
        }
    }
    assert(seen =~= content@);
    let ghost all = lines(content@);
    assert(all.drop_last().push(all.last()) =~= all);
    keep_line(&mut rows, &line);
    rows
}

/// Writes the rows one after the other, a line feed before each.
pub fn join_rows(rows: &[Row]) -> (out: Vec<char>)
    ensures
        out@ == joined(grid_of(rows@)),
{
    let mut out: Vec<char> = Vec::new();
    let mut i: usize = 0;
    while i < rows.len()
        invariant
            i <= rows.len(),
            out@ == joined(grid_of(rows@).take(i as int)),
        decreases rows.len() - i,
    {
        let ghost done = out@;
        out.push('\n');
        let row = &rows[i];
        let mut j: usize = 0;
        while j < row.columns.len()
            invariant
                j <= row.columns.len(),
                out@ == done.push('\n') + row@.take(j as int),
            decreases row.columns.len() - j,
        {
            out.push(row.columns[j]);
            j += 1;
        }
        assert(row@.take(j as int) =~= row@);
        assert(grid_of(rows@).take(i + 1).drop_last() =~= grid_of(rows@).take(i as int));
        i += 1;
    }
    assert(grid_of(rows@).take(i as int) =~= grid_of(rows@));
    out
}

/// What `skip_blank` passes over is white space, and where it stops no white
/// space stands.
pub proof fn lemma_skip_blank(s: Seq<char>, from: int)
    requires
        0 <= from <= s.len(),
    ensures
        from <= skip_blank(s, from) <= s.len(),
        skip_blank(s, from) < s.len() ==> !is_blank(s[skip_blank(s, from)]),
        forall|k: int| from <= k < skip_blank(s, from) ==> is_blank(#[trigger] s[k]),
    decreases s.len() - from,
{
    if from < s.len() && is_blank(s[from]) {
        lemma_skip_blank(s, from + 1);
    }
}

/// What `skip_blank_back` passes over is white space, and before the place
/// where it stops no white space stands.
pub proof fn lemma_skip_blank_back(s: Seq<char>, to: int)
    requires
        0 <= to <= s.len(),
    ensures
        0 <= skip_blank_back(s, to) <= to,
        skip_blank_back(s, to) > 0 ==> !is_blank(s[skip_blank_back(s, to) - 1]),
        forall|k: int| skip_blank_back(s, to) <= k < to ==> is_blank(#[trigger] s[k]),
    decreases to,
{
    if to > 0 && is_blank(s[to - 1]) {
        lemma_skip_blank_back(s, to - 1);
    }
}

/// Where the first character that is no white space stands at `at`,
/// `skip_blank` stops there.
pub proof fn lemma_skip_blank_is(s: Seq<char>, from: int, at: int)
    requires
        0 <= from <= at <= s.len(),
        at < s.len() ==> !is_blank(s[at]),
        forall|k: int| from <= k < at ==> is_blank(#[trigger] s[k]),
    ensures
        skip_blank(s, from) == at,
    decreases at - from,
{
    if from < at {
        lemma_skip_blank_is(s, from + 1, at);
    }
}

/// Where the last character that is no white space ends at `at`,
/// `skip_blank_back` stops there.
pub proof fn lemma_skip_blank_back_is(s: Seq<char>, to: int, at: int)
    requires
        0 <= at <= to <= s.len(),
        at > 0 ==> !is_blank(s[at - 1]),
        forall|k: int| at <= k < to ==> is_blank(#[trigger] s[k]),
    ensures
        skip_blank_back(s, to) == at,
    decreases to - at,
{
    if at < to {
        lemma_skip_blank_back_is(s, to - 1, at);
    }
}

/// A text that is not empty and has no white space at its two ends is its
/// own trimming, and the other way round.
pub proof fn lemma_trimmed_fixed(s: Seq<char>)
    ensures
        (s.len() > 0 && trimmed(s) == s) <==> (s.len() > 0 && !is_blank(s[0]) && !is_blank(
            s.last(),
        )),
        trimmed(s).len() > 0 ==> !is_blank(trimmed(s)[0]) && !is_blank(trimmed(s).last()),
        trimmed(s).len() <= s.len(),
{
    lemma_skip_blank(s, 0);
    lemma_skip_blank_back(s, s.len() as int);
    let from = skip_blank(s, 0);
    let to = skip_blank_back(s, s.len() as int);
    if s.len() > 0 && !is_blank(s[0]) && !is_blank(s.last()) {
        assert(s.subrange(0, s.len() as int) =~= s);
    }
    if s.len() > 0 && trimmed(s) == s {
        assert(trimmed(s).len() == s.len());
    }
}

/// White space at the end of a text does not show in its trimming.
pub proof fn lemma_trimmed_push_blank(s: Seq<char>, ch: char)
    requires
        is_blank(ch),
    ensures
        trimmed(s.push(ch)) == trimmed(s),
{
    let t = s.push(ch);
    lemma_skip_blank(s, 0);
    lemma_skip_blank_back(s, s.len() as int);
    let from = skip_blank(s, 0);
    let to = skip_blank_back(s, s.len() as int);
    assert forall|k: int| to <= k < t.len() implies is_blank(#[trigger] t[k]) by {
        if k < s.len() {
            assert(t[k] == s[k]);
        }
    }
    if to > 0 {
        assert(t[to - 1] == s[to - 1]);
    }
    lemma_skip_blank_back_is(t, t.len() as int, to);
    if from < s.len() {
        assert(t[from] == s[from]);
        assert forall|k: int| 0 <= k < from implies is_blank(#[trigger] t[k]) by {
            assert(t[k] == s[k]);
        }
        lemma_skip_blank_is(t, 0, from);
        assert(from < to);
        assert(t.subrange(from, to) =~= s.subrange(from, to));
    } else {
        assert(to == 0);
        lemma_skip_blank(t, 0);
    }
}

/// White space at the start of a text does not show in its trimming.
pub proof fn lemma_trimmed_prepend_blank(ch: char, s: Seq<char>)
    requires
        is_blank(ch),
    ensures
        trimmed(seq![ch] + s) == trimmed(s),
{
    let t = seq![ch] + s;
    lemma_skip_blank(s, 0);
    lemma_skip_blank_back(s, s.len() as int);
    let from = skip_blank(s, 0);
    let to = skip_blank_back(s, s.len() as int);
    assert forall|k: int| 0 <= k < from + 1 implies is_blank(#[trigger] t[k]) by {
        if k > 0 {
            assert(t[k] == s[k - 1]);
        }
    }
    if from < s.len() {
        assert(t[from + 1] == s[from]);
    }
    lemma_skip_blank_is(t, 0, from + 1);
    if to > 0 {
        assert(t[to] == s[to - 1]);
        assert forall|k: int| to + 1 <= k < t.len() implies is_blank(#[trigger] t[k]) by {
            assert(t[k] == s[k - 1]);
        }
        lemma_skip_blank_back_is(t, t.len() as int, to + 1);
        if from < to {
            assert(t.subrange(from + 1, to + 1) =~= s.subrange(from, to));
        }
    } else {
        assert(from == s.len());
        lemma_skip_blank_back(t, t.len() as int);
    }
}

/// The kept rows of two runs of lines, one after the other.
pub proof fn lemma_kept_concat(a: Seq<Seq<char>>, b: Seq<Seq<char>>)
    ensures
        kept(a + b) == kept(a) + kept(b),
    decreases b.len(),
{
    if b.len() == 0 {
        assert(a + b =~= a);
        assert(kept(a) + kept(b) =~= kept(a));
    } else {
        assert((a + b).drop_last() =~= a + b.drop_last());
        assert((a + b).last() == b.last());
        lemma_kept_concat(a, b.drop_last());
        if trimmed(b.last()).len() > 0 {
            assert(kept(a + b) =~= kept(a) + kept(b));
        }
    }
}

/// The lines of a text with one more character in front: a line feed opens
/// a line of its own, any other character joins the first line.
pub proof fn lemma_lines_prepend(ch: char, s: Seq<char>)
    ensures
        lines(s).len() > 0,
        ch == '\n' ==> lines(seq![ch] + s) == seq![Seq::<char>::empty()] + lines(s),
        ch != '\n' ==> lines(seq![ch] + s) == seq![seq![ch] + lines(s)[0]] + lines(s).drop_first(),
    decreases s.len(),
{
    let t = seq![ch] + s;
    if s.len() == 0 {
        assert(t.drop_last() =~= Seq::<char>::empty());
        assert(t.last() == ch);
        assert(lines(t.drop_last()) == seq![Seq::<char>::empty()]);
        if ch == '\n' {
            assert(lines(t) =~= seq![Seq::<char>::empty()] + lines(s));
        } else {
            assert(lines(t) =~= seq![seq![ch] + lines(s)[0]] + lines(s).drop_first());
        }
    } else {
        lemma_lines_prepend(ch, s.drop_last());
        assert(t.drop_last() =~= seq![ch] + s.drop_last());
        assert(t.last() == s.last());
        let before = lines(s.drop_last());
        let shifted = lines(t.drop_last());
        if ch == '\n' {
            if s.last() == '\n' {
                assert(lines(t) =~= seq![Seq::<char>::empty()] + lines(s));
            } else {
                assert(shifted.last() == before.last());
                assert(shifted.drop_last() =~= seq![Seq::<char>::empty()] + before.drop_last());
                assert(lines(t) =~= seq![Seq::<char>::empty()] + lines(s));
            }
        } else {
            if s.last() == '\n' {
                assert(lines(t) =~= seq![seq![ch] + lines(s)[0]] + lines(s).drop_first());
            } else if before.len() == 1 {
                assert(shifted.last() == seq![ch] + before[0]);
                assert((seq![ch] + before[0]).push(s.last()) =~= seq![ch] + before[0].push(
                    s.last(),
                ));
                assert(lines(t) =~= seq![seq![ch] + lines(s)[0]] + lines(s).drop_first());
            } else {
                assert(shifted.last() == before.last());
                assert(lines(t) =~= seq![seq![ch] + lines(s)[0]] + lines(s).drop_first());
            }
        }
    }
}

/// White space at the end of a text adds no row to its table.
pub proof fn lemma_table_rows_push_blank(s: Seq<char>, ch: char)
    requires
        is_blank(ch),
    ensures
        table_rows(s.push(ch)) == table_rows(s),
{
    let t = s.push(ch);
    assert(t.drop_last() =~= s);
    lemma_lines_prepend(ch, s);
    let before = lines(s);
    if ch == '\n' {
        assert(lines(t).drop_last() =~= before);
        assert(trimmed(Seq::<char>::empty()) =~= Seq::<char>::empty());
    } else {
        lemma_trimmed_push_blank(before.last(), ch);
        assert(lines(t).drop_last() =~= before.drop_last());
    }
}

/// White space at the start of a text adds no row to its table.
pub proof fn lemma_table_rows_prepend_blank(ch: char, s: Seq<char>)
    requires
        is_blank(ch),
    ensures
        table_rows(seq![ch] + s) == table_rows(s),
{
    lemma_lines_prepend(ch, s);
    let ls = lines(s);
    assert(seq![ls[0]] + ls.drop_first() =~= ls);
    lemma_kept_concat(seq![ls[0]], ls.drop_first());
    assert(seq![ls[0]].drop_last() =~= Seq::<Seq<char>>::empty());
    if ch == '\n' {
        let blank = seq![Seq::<char>::empty()];
        lemma_kept_concat(blank, ls);
        assert(blank.drop_last() =~= Seq::<Seq<char>>::empty());
        assert(trimmed(Seq::<char>::empty()) =~= Seq::<char>::empty());
        assert(kept(Seq::<Seq<char>>::empty()) =~= Seq::<Seq<char>>::empty());
        assert(blank.last() == Seq::<char>::empty());
        assert(kept(blank) =~= Seq::<Seq<char>>::empty());
        assert(kept(blank) + kept(ls) =~= kept(ls));
    } else {
        let first = seq![seq![ch] + ls[0]];
        lemma_kept_concat(first, ls.drop_first());
        lemma_trimmed_prepend_blank(ch, ls[0]);
        assert(first.drop_last() =~= Seq::<Seq<char>>::empty());
        assert(kept(first) =~= kept(seq![ls[0]]));
    }
}

/// The table of a text is the table of its trimming.
pub proof fn lemma_table_rows_of_trimmed(text: Seq<char>)
    ensures
        table_rows(text) == table_rows(trimmed(text)),
{
    lemma_skip_blank(text, 0);
    lemma_skip_blank_back(text, text.len() as int);
    let from = skip_blank(text, 0);
    let to = skip_blank_back(text, text.len() as int);
    lemma_table_rows_drop_blank_end(text, to, text.len() as int);
    assert(text.subrange(0, text.len() as int) =~= text);
    if from < to {
        let head = text.subrange(0, to);
        assert forall|k: int| 0 <= k < from implies is_blank(#[trigger] head[k]) by {
            assert(head[k] == text[k]);
        }
        lemma_table_rows_drop_blank_start(head, from);
        assert(head.subrange(from, to) =~= text.subrange(from, to));
        assert(head.subrange(0, to) =~= head);
    } else {
        assert(to == 0);
        assert(text.subrange(0, 0) =~= Seq::<char>::empty());
    }
}

/// White space from `to` up to `end` adds no row to the table of the text
/// before `end`.
proof fn lemma_table_rows_drop_blank_end(text: Seq<char>, to: int, end: int)
    requires
        0 <= to <= end <= text.len(),
        forall|k: int| to <= k < end ==> is_blank(#[trigger] text[k]),
    ensures
        table_rows(text.subrange(0, end)) == table_rows(text.subrange(0, to)),
    decreases end - to,
{
    if to < end {
        lemma_table_rows_drop_blank_end(text, to, end - 1);
        assert(text.subrange(0, end) =~= text.subrange(0, end - 1).push(text[end - 1]));
        lemma_table_rows_push_blank(text.subrange(0, end - 1), text[end - 1]);
    }
}

/// White space before `from` adds no row to the table of the text.
proof fn lemma_table_rows_drop_blank_start(text: Seq<char>, from: int)
    requires
        0 <= from <= text.len(),
        forall|k: int| 0 <= k < from ==> is_blank(#[trigger] text[k]),
    ensures
        table_rows(text) == table_rows(text.subrange(from, text.len() as int)),
    decreases from,
{
    if from == 0 {
        assert(text.subrange(0, text.len() as int) =~= text);
    } else {
        lemma_table_rows_drop_blank_start(text, from - 1);
        let rest = text.subrange(from, text.len() as int);
        assert(text.subrange(from - 1, text.len() as int) =~= seq![text[from - 1]] + rest);
        lemma_table_rows_prepend_blank(text[from - 1], rest);
    }
}

/// Lines that are not empty and have no white space at their ends are all
/// kept as they are.
pub proof fn lemma_kept_all(ls: Seq<Seq<char>>)
    requires
        forall|i: int| 0 <= i < ls.len() ==> (#[trigger] ls[i]).len() > 0 && trimmed(ls[i]) == ls[i],
    ensures
        kept(ls) == ls,
    decreases ls.len(),
{
    if ls.len() > 0 {
        lemma_kept_all(ls.drop_last());
        assert(ls.drop_last().push(ls.last()) =~= ls);
    }
}

/// The lines of a text, joined, are the text after a line feed.
pub proof fn lemma_joined_lines(s: Seq<char>)
    ensures
        lines(s).len() > 0,
        joined(lines(s)) == seq!['\n'] + s,
    decreases s.len(),
{
    if s.len() == 0 {
        let one = seq![Seq::<char>::empty()];
        assert(one.drop_last() =~= Seq::<Seq<char>>::empty());
        assert(joined(Seq::<Seq<char>>::empty()) =~= Seq::<char>::empty());
        assert(one.last() == Seq::<char>::empty());
        assert(joined(one) =~= seq!['\n'] + s);
    } else {
        lemma_joined_lines(s.drop_last());
        let before = lines(s.drop_last());
        assert(s.drop_last().push(s.last()) =~= s);
        if s.last() == '\n' {
            assert(lines(s) == before.push(Seq::<char>::empty()));
            assert(lines(s).drop_last() =~= before);
            assert(lines(s).last() == Seq::<char>::empty());
            assert(joined(lines(s)) == joined(before).push('\n') + Seq::<char>::empty());
            assert(joined(lines(s)) =~= seq!['\n'] + s);
        } else {
            assert(lines(s).drop_last() =~= before.drop_last());
            assert(lines(s).last() == before.last().push(s.last()));
            assert(joined(before) == joined(before.drop_last()).push('\n') + before.last());
            assert(joined(lines(s)) == joined(before.drop_last()).push('\n') + before.last().push(
                s.last(),
            ));
            assert(joined(lines(s)) =~= joined(before).push(s.last()));
            assert(joined(lines(s)) =~= seq!['\n'] + s);
        }
    }
}

} // verus!
