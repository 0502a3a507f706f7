//! Searching a row for the dividers that bound a cell.

use vstd::prelude::*;
use crate::glyph::{
    is_crossing, is_left_facing, is_right_facing, is_vertical_line_crossing, is_vertical_line_left,
    is_vertical_line_right,
};

verus! {

/// Index of the first vertical line seen from the left at or after `from`,
/// or the length of the row when there is none.
pub open spec fn next_left_facing(row: Seq<char>, from: int) -> int
    decreases row.len() - from,
{
    if from < 0 || from >= row.len() {
        row.len() as int
    } else if is_left_facing(row[from]) {
        from
    } else {
        next_left_facing(row, from + 1)
    }
}

/// Index of the first crossing with a vertical line at or after `from`, or
/// the length of the row when there is none.
pub open spec fn next_crossing(row: Seq<char>, from: int) -> int
    decreases row.len() - from,
{
    if from < 0 || from >= row.len() {
        row.len() as int
    } else if is_crossing(row[from]) {
        from
    } else {
        next_crossing(row, from + 1)
    }
}

/// Index of the last vertical line seen from the right at or before `from`,
/// or -1 when there is none.
pub open spec fn prev_right_facing(row: Seq<char>, from: int) -> int
    decreases from + 1,
{
    if from < 0 || from >= row.len() {
        -1
    } else if is_right_facing(row[from]) {
        from
    } else {
        prev_right_facing(row, from - 1)
    }
}

/// Number of padding characters that stand in a run directly before `to`,
/// without going below `from`.
pub open spec fn padding_before(row: Seq<char>, from: int, to: int) -> nat
    decreases to - from,
{
    if from < to <= row.len() && 0 <= from && row[to - 1] == ' ' {
        1 + padding_before(row, from, to - 1)
    } else {
        0
    }
}

/// What `next_left_facing` finds is the first such character.
pub proof fn lemma_next_left_facing(row: Seq<char>, from: int)
    requires
        0 <= from <= row.len(),
    ensures
        from <= next_left_facing(row, from) <= row.len(),
        next_left_facing(row, from) < row.len() ==> is_left_facing(
            row[next_left_facing(row, from)],
        ),
        forall|k: int| from <= k < next_left_facing(row, from) ==> !is_left_facing(#[trigger] row[k]),
    decreases row.len() - from,
{
    if from < row.len() && !is_left_facing(row[from]) {
        lemma_next_left_facing(row, from + 1);
    }
}

/// The first character of a kind at or after `from`, once found, is what
/// `next_left_facing` returns.
pub proof fn lemma_next_left_facing_is(row: Seq<char>, from: int, at: int)
    requires
        0 <= from <= at <= row.len(),
        at < row.len() ==> is_left_facing(row[at]),
        forall|k: int| from <= k < at ==> !is_left_facing(#[trigger] row[k]),
    ensures
        next_left_facing(row, from) == at,
    decreases at - from,
{
    if from < at {
        lemma_next_left_facing_is(row, from + 1, at);
    }
}

/// What `next_crossing` finds is the first such character.
pub proof fn lemma_next_crossing(row: Seq<char>, from: int)
    requires
        0 <= from <= row.len(),
    ensures
        from <= next_crossing(row, from) <= row.len(),
        next_crossing(row, from) < row.len() ==> is_crossing(row[next_crossing(row, from)]),
        forall|k: int| from <= k < next_crossing(row, from) ==> !is_crossing(#[trigger] row[k]),
    decreases row.len() - from,
{
    if from < row.len() && !is_crossing(row[from]) {
        lemma_next_crossing(row, from + 1);
    }
}

/// The first crossing at or after `from`, once found, is what
/// `next_crossing` returns.
pub proof fn lemma_next_crossing_is(row: Seq<char>, from: int, at: int)
    requires
        0 <= from <= at <= row.len(),
        at < row.len() ==> is_crossing(row[at]),
        forall|k: int| from <= k < at ==> !is_crossing(#[trigger] row[k]),
    ensures
        next_crossing(row, from) == at,
    decreases at - from,
{
    if from < at {
        lemma_next_crossing_is(row, from + 1, at);
    }
}

/// What `prev_right_facing` finds is the nearest such character.
pub proof fn lemma_prev_right_facing(row: Seq<char>, from: int)
    requires
        -1 <= from < row.len(),
    ensures
        -1 <= prev_right_facing(row, from) <= from,
        prev_right_facing(row, from) >= 0 ==> is_right_facing(row[prev_right_facing(row, from)]),
        forall|k: int|
            prev_right_facing(row, from) < k <= from ==> !is_right_facing(#[trigger] row[k]),
    decreases from + 1,
{
    if from >= 0 && !is_right_facing(row[from]) {
        lemma_prev_right_facing(row, from - 1);
    }
}

/// Finds the first vertical line seen from the left at or after `from`;
/// gives the length of the row when there is none.
pub fn find_left_facing(row: &Vec<char>, from: usize) -> (at: usize)
    ensures
        at == next_left_facing(row@, from as int),
        at <= row.len(),
        from <= row.len() ==> from <= at,
{
    if from >= row.len() {
        return row.len();
    }
    let mut at: usize = from;
    while at < row.len() && !is_vertical_line_left(row[at])
        invariant
            from <= at <= row.len(),
            next_left_facing(row@, from as int) == next_left_facing(row@, at as int),
        decreases row.len() - at,
    {
        at += 1;
    }
    at
}

/// Finds the first crossing with a vertical line at or after `from`; gives
/// the length of the row when there is none.
pub fn find_crossing(row: &Vec<char>, from: usize) -> (at: usize)
    ensures
        at == next_crossing(row@, from as int),
        at <= row.len(),
        from <= row.len() ==> from <= at,
{
    if from >= row.len() {
        return row.len();
    }
    let mut at: usize = from;
    while at < row.len() && !is_vertical_line_crossing(row[at])
        invariant
            from <= at <= row.len(),
            next_crossing(row@, from as int) == next_crossing(row@, at as int),
        decreases row.len() - at,
    {
        at += 1;
    }
    at
}

/// Finds the last vertical line seen from the right at or before `from`.
pub fn find_right_facing(row: &Vec<char>, from: usize) -> (at: Option<usize>)
    ensures
        match at {
            Some(i) => i == prev_right_facing(row@, from as int) && i <= from,
            None => prev_right_facing(row@, from as int) == -1,
        },
{
    if from >= row.len() {
        return None;
    }
    let mut at: usize = from;
    loop
        invariant
            at <= from < row.len(),
            prev_right_facing(row@, from as int) == prev_right_facing(row@, at as int),
        decreases at,
    {
        if is_vertical_line_right(row[at]) {
            return Some(at);
        }
        if at == 0 {
            assert(prev_right_facing(row@, -1) == -1);
            return None;
        }
        at -= 1;
    }
}

} // verus!
