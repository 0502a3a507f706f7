//! Classification of the characters a table is drawn with.
//!
//! Every structural decision of the editing plane depends on the exact
//! identity of a character, so each class below is a closed set.

use vstd::prelude::*;

verus! {

/// The padding character of a cell.
pub const CH_WS: char = ' ';

/// Any character used to draw borders, lines and junctions.
pub open spec fn is_divider(ch: char) -> bool {
    ch == '┌' || ch == '┐' || ch == '└' || ch == '┘' || ch == '─' || ch == '│' || ch == '├'
        || ch == '┤' || ch == '┴' || ch == '┬' || ch == '┼' || ch == '╪' || ch == '╫' || ch == '╬'
        || ch == '╞' || ch == '╡' || ch == '╥' || ch == '╨' || ch == '═' || ch == '║' || ch == '╟'
        || ch == '╢'
}

/// A purely horizontal line segment.
pub open spec fn is_horizontal(ch: char) -> bool {
    ch == '─' || ch == '═'
}

/// A purely vertical line segment.
pub open spec fn is_vertical(ch: char) -> bool {
    ch == '│' || ch == '║'
}

/// A vertical line as seen from its left side: scanning a row from left to
/// right, such a character closes the current cell.
pub open spec fn is_left_facing(ch: char) -> bool {
    ch == '│' || ch == '├' || ch == '║' || ch == '╟'
}

/// A vertical line as seen from its right side: scanning a row from right to
/// left, such a character closes the current cell.
pub open spec fn is_right_facing(ch: char) -> bool {
    ch == '│' || ch == '┤' || ch == '║' || ch == '╢'
}

/// Any character through which a vertical line passes, plain or junction.
pub open spec fn is_crossing(ch: char) -> bool {
    ch == '│' || ch == '┼' || ch == '┬' || ch == '┴' || ch == '╪' || ch == '┐' || ch == '┘'
        || ch == '├' || ch == '║' || ch == '╟' || ch == '╬' || ch == '╥' || ch == '╨' || ch == '╫'
        || ch == '╢' || ch == '┤' || ch == '╡'
}

/// The character that continues, one column to the left, the line passing
/// through the crossing `ch`: padding beside a vertical line seen from the
/// left, a double line beside a double horizontal junction, a single line
/// beside every other junction.
pub open spec fn filler_of(ch: char) -> char {
    if is_left_facing(ch) {
        ' '
    } else if ch == '╪' || ch == '╬' || ch == '╡' {
        '═'
    } else {
        '─'
    }
}

/// The connector below the right border of the header, with its upward
/// stroke taken away.
pub open spec fn loosened(ch: char) -> char {
    if ch == '┴' {
        '─'
    } else if ch == '┼' {
        '┬'
    } else if ch == '┤' {
        '┐'
    } else {
        ch
    }
}

/// The connector below the right border of the header, with an upward
/// stroke added.
pub open spec fn tightened(ch: char) -> char {
    if ch == '─' {
        '┴'
    } else if ch == '┬' {
        '┼'
    } else if ch == '┐' {
        '┤'
    } else {
        ch
    }
}

/// Returns `true` when the character is a box-drawing character.
pub fn is_box_drawing_character(ch: char) -> (b: bool)
    ensures
        b == is_divider(ch),
{
    match ch {
        '┌' | '┐' | '└' | '┘' | '─' | '│' | '├' | '┤' | '┴' | '┬' | '┼' | '╪' | '╫' | '╬' | '╞'
        | '╡' | '╥' | '╨' | '═' | '║' | '╟' | '╢' => true,
        _ => false,
    }
}

/// Returns `true` when the character is a horizontal line.
pub fn is_horizontal_line(ch: char) -> (b: bool)
    ensures
        b == is_horizontal(ch),
{
    ch == '─' || ch == '═'
}

/// Returns `true` when the character is a vertical line.
pub fn is_vertical_line(ch: char) -> (b: bool)
    ensures
        b == is_vertical(ch),
{
    ch == '│' || ch == '║'
}

/// Returns `true` when the character is a vertical line seen from the left side.
pub fn is_vertical_line_left(ch: char) -> (b: bool)
    ensures
        b == is_left_facing(ch),
{
    match ch {
        '│' | '├' | '║' | '╟' => true,
        _ => false,
    }
}

/// Returns `true` when the character is a vertical line seen from the right side.
pub fn is_vertical_line_right(ch: char) -> (b: bool)
    ensures
        b == is_right_facing(ch),
{
    match ch {
        '│' | '┤' | '║' | '╢' => true,
        _ => false,
    }
}

/// Returns `true` when the character is a crossing with a vertical line.
pub fn is_vertical_line_crossing(ch: char) -> (b: bool)
    ensures
        b == is_crossing(ch),
{
    match ch {
        '│' | '┼' | '┬' | '┴' | '╪' | '┐' | '┘' | '├' | '║' | '╟' | '╬' | '╥' | '╨' | '╫' | '╢'
        | '┤' | '╡' => true,
        _ => false,
    }
}

/// Returns the character to place before the crossing `ch` when its column
/// gets one character wider.
pub fn filler(ch: char) -> (f: char)
    ensures
        f == filler_of(ch),
{
    match ch {
        '│' | '├' | '║' | '╟' => CH_WS,
        '╪' | '╬' | '╡' => '═',
        _ => '─',
    }
}

/// Returns the connector `ch` without its upward stroke.
pub fn loosen(ch: char) -> (g: char)
    ensures
        g == loosened(ch),
{
    match ch {
        '┴' => '─',
        '┼' => '┬',
        '┤' => '┐',
        _ => ch,
    }
}

/// Returns the connector `ch` with an upward stroke.
pub fn tighten(ch: char) -> (g: char)
    ensures
        g == tightened(ch),
{
    match ch {
        '─' => '┴',
        '┬' => '┼',
        '┐' => '┤',
        _ => ch,
    }
}

/// Every crossing, and every line, is a divider.
pub proof fn lemma_classes_are_dividers(ch: char)
    ensures
        is_crossing(ch) ==> is_divider(ch),
        is_left_facing(ch) ==> is_crossing(ch),
        is_right_facing(ch) ==> is_crossing(ch),
        is_horizontal(ch) ==> is_divider(ch) && !is_crossing(ch),
        is_vertical(ch) ==> is_left_facing(ch) && is_right_facing(ch),
        ch == ' ' ==> !is_divider(ch),
{
}

/// Taking a stroke away or adding one changes neither what is a divider, nor
/// what is a vertical line seen from the left, nor what is padding.
pub proof fn lemma_strokes(ch: char)
    ensures
        is_divider(loosened(ch)) == is_divider(ch),
        is_divider(tightened(ch)) == is_divider(ch),
        is_left_facing(loosened(ch)) == is_left_facing(ch),
        is_left_facing(tightened(ch)) == is_left_facing(ch),
        (loosened(ch) == ' ') == (ch == ' '),
        (tightened(ch) == ' ') == (ch == ' '),
        (loosened(ch) == '╥') == (ch == '╥'),
        (tightened(ch) == '╥') == (ch == '╥'),
        loosened(loosened(ch)) == loosened(ch),
        loosened(tightened(loosened(ch))) == loosened(ch),
        loosened(ch) == ch ==> loosened(tightened(ch)) == ch,
        is_crossing(loosened(ch)) ==> is_crossing(ch),
        is_left_facing(ch) ==> loosened(ch) == ch && tightened(ch) == ch,
        loosened(filler_of(ch)) == filler_of(ch),
        filler_of(ch) != '╥',
{
}

} // verus!
