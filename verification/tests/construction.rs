use table_plane::plane::{information_item_height, Plane};
use table_plane::row::Row;
use table_plane::text::{is_whitespace, join_rows, parse_rows, to_text, trim};

const SMALL: &str = "┌───┐\n│ a │\n└───┘";

fn chars(s: &str) -> Vec<char> {
    s.chars().collect()
}

fn texts(rows: &[Row]) -> Vec<String> {
    rows.iter().map(|row| row.to_string()).collect()
}

#[test]
fn white_space_is_what_std_calls_white_space() {
    for code in 0..=0x10ffffu32 {
        if let Some(ch) = char::from_u32(code) {
            assert_eq!(ch.is_whitespace(), is_whitespace(ch), "U+{:04X}", code);
        }
    }
}

#[test]
fn trim_agrees_with_std() {
    for text in ["", " ", "a", " a", "a ", "  a b  ", "\t\u{a0}x\u{3000}\r\n", " \u{2003} ", "\n\n"] {
        assert_eq!(text.trim(), to_text(&trim(&chars(text))), "{:?}", text);
    }
}

#[test]
fn to_text_keeps_every_character() {
    assert_eq!("│ ä €│", to_text(&chars("│ ä €│")));
    assert_eq!("", to_text(&chars("")));
}

#[test]
fn rows_are_the_trimmed_lines_that_hold_something() {
    let rows = parse_rows("\n\n  ┌───┐  \n\n\t│ a │\n   \n└───┘\n\n");
    assert_eq!(vec!["┌───┐", "│ a │", "└───┘"], texts(&rows));
}

#[test]
fn carriage_returns_end_no_row() {
    let rows = parse_rows("┌───┐\r\n│ a │\r\n└───┘\r\n");
    assert_eq!(vec!["┌───┐", "│ a │", "└───┘"], texts(&rows));
}

#[test]
fn text_without_line_feed_is_one_row() {
    assert_eq!(vec!["abc"], texts(&parse_rows("  abc ")));
}

#[test]
fn empty_text_has_no_rows() {
    assert!(parse_rows("").is_empty());
    assert!(parse_rows(" \n\t\n").is_empty());
}

#[test]
fn join_rows_puts_a_line_feed_before_each_row() {
    let rows = vec![Row::new(chars("ab")), Row::new(chars("")), Row::new(chars("c"))];
    assert_eq!("\nab\n\nc", to_text(&join_rows(&rows)));
    assert_eq!("", to_text(&join_rows(&[])));
}

#[test]
fn plane_starts_with_the_cursor_in_the_second_row_and_column() {
    let plane = Plane::new(SMALL);
    assert_eq!(1, plane.cursor_row());
    assert_eq!(1, plane.cursor_col());
    assert!(plane.is_valid_cursor_pos());
}

#[test]
fn rows_gives_the_rows_of_the_plane() {
    let plane = Plane::new(SMALL);
    assert_eq!(3, plane.rows().len());
    assert_eq!(chars("│ a │"), plane.rows()[1].columns);
}

#[test]
fn rendering_a_fresh_plane_gives_the_trimmed_text() {
    for text in [SMALL, "\n\n┌───┐\n│ a │\n└───┘\n\n", "", "  \n ", "x", "┌─┐\n└─┘"] {
        assert_eq!(text.trim(), Plane::new(text).to_string(), "{:?}", text);
    }
}

#[test]
fn rendering_drops_blank_lines_and_margins_inside_the_text() {
    assert_eq!("┌─┐\n│a│\n└─┘", Plane::new("┌─┐  \n\n  │a│\n\n└─┘").to_string());
}

#[test]
fn empty_plane_has_no_valid_cursor() {
    let mut plane = Plane::new("");
    assert!(!plane.is_valid_cursor_pos());
    assert!(!plane.cursor_move_up());
    assert!(!plane.cursor_move_down());
    assert!(!plane.cursor_move_left());
    assert!(!plane.cursor_move_right());
    assert!(!plane.cursor_move_cell_start());
    assert!(!plane.cursor_move_cell_end());
    assert!(!plane.cursor_move_table_start());
    assert!(!plane.cursor_move_table_end());
    assert!(!plane.cursor_move_cell_right());
    assert!(!plane.cursor_move_cell_left());
    plane.insert_char('x');
    plane.delete_char_before();
    plane.delete_char();
    assert_eq!("", plane.to_string());
    assert_eq!((1, 1), (plane.cursor_row(), plane.cursor_col()));
}

#[test]
fn plane_of_two_rows_has_no_valid_cursor() {
    let mut plane = Plane::new("┌───┐\n└───┘");
    assert!(!plane.is_valid_cursor_pos());
    plane.insert_char('x');
    plane.delete_char();
    plane.delete_char_before();
    assert!(!plane.cursor_move_table_start());
    assert!(!plane.cursor_move_table_end());
    assert_eq!("┌───┐\n└───┘", plane.to_string());
}

#[test]
fn row_of_two_characters_has_no_valid_cursor() {
    let mut plane = Plane::new("┌┐\n││\n└┘");
    assert!(!plane.is_valid_cursor_pos());
    assert!(!plane.cursor_move_table_start());
    assert!(!plane.cursor_move_table_end());
    plane.insert_char('x');
    plane.delete_char();
    assert_eq!("┌┐\n││\n└┘", plane.to_string());
    assert_eq!((1, 1), (plane.cursor_row(), plane.cursor_col()));
}

#[test]
fn height_of_the_header_is_the_index_of_the_first_seam_row() {
    let table = parse_rows("┌──┐\n│ a│\n├─╥┴┐\n│ ║ │\n├─╫─┤\n└─╨─┘");
    assert_eq!(2, information_item_height(&table));
}

#[test]
fn height_of_the_header_is_zero_without_a_seam_row() {
    assert_eq!(0, information_item_height(&parse_rows(SMALL)));
    assert_eq!(0, information_item_height(&parse_rows("")));
    // the junction in a row that begins with a vertical line does not count
    assert_eq!(0, information_item_height(&parse_rows("┌───┐\n│ ╥ │\n└───┘")));
    // nor in a row that begins with another corner
    assert_eq!(0, information_item_height(&parse_rows("┌───┐\n╞═╥═╡\n└─╨─┘")));
    // a seam in the first row gives no header
    assert_eq!(0, information_item_height(&parse_rows("┌─╥─┐\n│ ║ │\n└─╨─┘")));
}

#[test]
fn row_keeps_its_characters() {
    let row = Row::new(vec!['│', ' ', 'ä', '│']);
    assert_eq!(vec!['│', ' ', 'ä', '│'], row.columns);
    assert_eq!("│ ä│", row.to_string());
}
