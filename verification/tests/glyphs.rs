use table_plane::glyph::{
    filler, is_box_drawing_character, is_horizontal_line, is_vertical_line,
    is_vertical_line_crossing, is_vertical_line_left, is_vertical_line_right, loosen, tighten,
};

const BOX_DRAWING: &str = "┌┐└┘─│├┤┴┬┼╪╫╬╞╡╥╨═║╟╢";
const CONTENT: &str = " aZ09\"-,.<>=|+_\t╔╗╚╝╠╣╦╩╧╤";

/// Checks that `class` holds of the characters of `members` and of no other
/// character of the table alphabet.
fn check_class(class: fn(char) -> bool, members: &str) {
    for ch in BOX_DRAWING.chars().chain(CONTENT.chars()) {
        assert_eq!(members.contains(ch), class(ch), "character {:?}", ch);
    }
}

#[test]
fn box_drawing_characters_are_the_twenty_two_of_the_table() {
    assert_eq!(22, BOX_DRAWING.chars().count());
    check_class(is_box_drawing_character, BOX_DRAWING);
}

#[test]
fn horizontal_lines() {
    check_class(is_horizontal_line, "─═");
}

#[test]
fn vertical_lines() {
    check_class(is_vertical_line, "│║");
}

#[test]
fn vertical_lines_seen_from_the_left() {
    check_class(is_vertical_line_left, "│├║╟");
}

#[test]
fn vertical_lines_seen_from_the_right() {
    check_class(is_vertical_line_right, "│┤║╢");
}

#[test]
fn crossings_with_a_vertical_line() {
    check_class(is_vertical_line_crossing, "│┼┬┴╪┐┘├║╟╬╥╨╫╢┤╡");
}

#[test]
fn left_corners_are_no_crossings() {
    for ch in "┌└╞─═".chars() {
        assert!(is_box_drawing_character(ch));
        assert!(!is_vertical_line_crossing(ch));
    }
}

#[test]
fn filler_continues_the_line_through_the_crossing() {
    for ch in "│├║╟".chars() {
        assert_eq!(' ', filler(ch));
    }
    for ch in "┼┬┴┐┘┤╥╨╫╢".chars() {
        assert_eq!('─', filler(ch));
    }
    for ch in "╪╬╡".chars() {
        assert_eq!('═', filler(ch));
    }
}

#[test]
fn loosen_takes_the_upward_stroke() {
    assert_eq!('─', loosen('┴'));
    assert_eq!('┬', loosen('┼'));
    assert_eq!('┐', loosen('┤'));
    for ch in "─┬┐╥│ a".chars() {
        assert_eq!(ch, loosen(ch));
    }
}

#[test]
fn tighten_adds_the_upward_stroke() {
    assert_eq!('┴', tighten('─'));
    assert_eq!('┼', tighten('┬'));
    assert_eq!('┤', tighten('┐'));
    for ch in "┴┼┤╥│ a".chars() {
        assert_eq!(ch, tighten(ch));
    }
}

#[test]
fn tighten_undoes_loosen_on_connectors() {
    for ch in "┴┼┤".chars() {
        assert_eq!(ch, tighten(loosen(ch)));
    }
}
