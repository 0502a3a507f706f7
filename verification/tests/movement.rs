use table_plane::cursor::offset_index;
use table_plane::glyph::is_box_drawing_character;
use table_plane::plane::Plane;

const GRID: &str = r#"
┌─────┬─────┬─────┐
│ a   │ bb  │ c   │
├─────┼─────┼─────┤
│ dd  │ e   │     │
╞═════╪═════╪═════╡
│ f   │ ggg │ hh  │
└─────┴─────┴─────┘
"#;

const RAGGED: &str = r#"
┌───────────┐
│ ab        │
├───┬───────┴───┐
│ c │ d         │
│ e ║│ f        │
└───┴───────────┘
"#;

/// Creates a plane with the cursor at the given position.
fn plane_at(text: &str, row: i32, col: i32) -> Plane {
    let mut plane = Plane::new(text);
    plane.cursor_move(row - 1, col - 1);
    assert_eq!((row, col), cursor(&plane));
    plane
}

fn cursor(plane: &Plane) -> (i32, i32) {
    (plane.cursor_row(), plane.cursor_col())
}

#[test]
fn offset_index_saturates() {
    assert_eq!(8, offset_index(5, 3));
    assert_eq!(2, offset_index(5, -3));
    assert_eq!(0, offset_index(5, -5));
    assert_eq!(0, offset_index(5, -6));
    assert_eq!(0, offset_index(5, i32::MIN));
    assert_eq!(usize::MAX, offset_index(usize::MAX, 1));
    assert_eq!(usize::MAX, offset_index(usize::MAX - 1, i32::MAX));
    assert_eq!(usize::MAX - 1, offset_index(usize::MAX, -1));
}

#[test]
fn cursor_move_goes_by_offsets_to_an_allowed_position() {
    let mut plane = Plane::new(GRID);
    plane.cursor_move(2, 7);
    assert_eq!((3, 8), cursor(&plane));
    plane.cursor_move(-2, -6);
    assert_eq!((1, 2), cursor(&plane));
}

#[test]
fn cursor_move_refuses_dividers_and_the_border() {
    let mut plane = plane_at(GRID, 3, 8);
    for (row_offset, col_offset) in [
        (-1, 0),
        (1, 0),
        (0, -2),
        (0, 4),
        (-3, 0),
        (3, 0),
        (0, -8),
        (0, 10),
        (0, 11),
        (4, 0),
        (i32::MIN, 0),
        (0, i32::MIN),
        (i32::MAX, 0),
        (0, i32::MAX),
        (i32::MIN, i32::MAX),
    ] {
        plane.cursor_move(row_offset, col_offset);
        assert_eq!((3, 8), cursor(&plane), "offsets {:?}", (row_offset, col_offset));
    }
}

#[test]
fn up_and_down_cross_a_horizontal_line() {
    let mut plane = Plane::new(GRID);
    assert!(!plane.cursor_move_up());
    assert_eq!((1, 1), cursor(&plane));
    assert!(plane.cursor_move_down());
    assert_eq!((3, 1), cursor(&plane));
    assert!(plane.cursor_move_down());
    assert_eq!((5, 1), cursor(&plane));
    assert!(!plane.cursor_move_down());
    assert_eq!((5, 1), cursor(&plane));
    assert!(plane.cursor_move_up());
    assert_eq!((3, 1), cursor(&plane));
    assert!(plane.cursor_move_up());
    assert_eq!((1, 1), cursor(&plane));
}

#[test]
fn up_and_down_step_to_the_next_row_of_a_cell() {
    let mut plane = plane_at(RAGGED, 3, 6);
    assert!(plane.cursor_move_down());
    assert_eq!((4, 6), cursor(&plane));
    assert!(plane.cursor_move_up());
    assert_eq!((3, 6), cursor(&plane));
}

#[test]
fn up_and_down_do_not_cross_a_junction() {
    let text = "┌───┐\n│ a │\n├─┬─┤\n│b│c│\n└─┴─┘";
    let mut plane = plane_at(text, 1, 2);
    assert!(!plane.cursor_move_down());
    assert_eq!((1, 2), cursor(&plane));
    let mut plane = plane_at(text, 3, 1);
    assert!(plane.cursor_move_up());
    assert_eq!((1, 1), cursor(&plane));
}

#[test]
fn down_stops_where_the_row_below_is_shorter() {
    let mut plane = plane_at(RAGGED, 3, 14);
    assert!(plane.cursor_move_down());
    assert_eq!((4, 14), cursor(&plane));
    let mut plane = plane_at(RAGGED, 3, 14);
    // the first row ends before column 14, and a line cannot be crossed into it
    assert!(!plane.cursor_move_up());
    assert_eq!((3, 14), cursor(&plane));
}

#[test]
fn left_and_right_cross_a_vertical_line() {
    let mut plane = plane_at(GRID, 1, 5);
    assert!(plane.cursor_move_right());
    assert_eq!((1, 7), cursor(&plane));
    assert!(plane.cursor_move_right());
    assert_eq!((1, 8), cursor(&plane));
    assert!(plane.cursor_move_left());
    assert!(plane.cursor_move_left());
    assert_eq!((1, 5), cursor(&plane));
}

#[test]
fn left_and_right_stop_at_the_border() {
    let mut plane = Plane::new(GRID);
    assert!(!plane.cursor_move_left());
    assert_eq!((1, 1), cursor(&plane));
    let mut plane = plane_at(GRID, 1, 17);
    assert!(!plane.cursor_move_right());
    assert_eq!((1, 17), cursor(&plane));
}

#[test]
fn left_and_right_do_not_cross_two_dividers() {
    let mut plane = plane_at(RAGGED, 4, 3);
    assert!(!plane.cursor_move_right());
    assert_eq!((4, 3), cursor(&plane));
    let mut plane = plane_at(RAGGED, 4, 6);
    assert!(!plane.cursor_move_left());
    assert_eq!((4, 6), cursor(&plane));
}

#[test]
fn cell_start_and_cell_end() {
    let mut plane = plane_at(GRID, 1, 9);
    assert!(plane.cursor_move_cell_start());
    assert_eq!((1, 7), cursor(&plane));
    assert!(plane.cursor_move_cell_end());
    assert_eq!((1, 11), cursor(&plane));
}

#[test]
fn cell_start_and_cell_end_report_no_move_when_already_there() {
    let mut plane = plane_at(GRID, 1, 7);
    assert!(!plane.cursor_move_cell_start());
    assert_eq!((1, 7), cursor(&plane));
    let mut plane = plane_at(GRID, 1, 11);
    assert!(!plane.cursor_move_cell_end());
    assert_eq!((1, 11), cursor(&plane));
}

#[test]
fn table_start_and_table_end() {
    let mut plane = plane_at(GRID, 3, 9);
    assert!(plane.cursor_move_table_start());
    assert_eq!((3, 1), cursor(&plane));
    assert!(!plane.cursor_move_table_start());
    assert!(plane.cursor_move_table_end());
    assert_eq!((3, 17), cursor(&plane));
    assert!(!plane.cursor_move_table_end());
    assert_eq!((3, 17), cursor(&plane));
}

#[test]
fn table_start_falls_back_to_the_cell_where_a_divider_stands() {
    let text = "┌────┐\n││ab││\n└────┘";
    let mut plane = Plane::new(text);
    plane.cursor_move(0, 2);
    assert_eq!((1, 3), cursor(&plane));
    assert!(plane.cursor_move_table_start());
    assert_eq!((1, 2), cursor(&plane));
    assert!(plane.cursor_move_table_end());
    assert_eq!((1, 3), cursor(&plane));
}

#[test]
fn table_start_and_table_end_stay_off_the_border() {
    let mut plane = Plane::new("┌┐\na│\n└┘");
    assert!(!plane.cursor_move_table_end());
    assert!(!plane.cursor_move_table_start());
    assert_eq!((1, 1), cursor(&plane));
    let mut plane = Plane::new("┌┐\n│a\n└┘");
    assert!(!plane.cursor_move_table_start());
    assert!(!plane.cursor_move_table_end());
    assert_eq!((1, 1), cursor(&plane));
    assert!(!plane.is_valid_cursor_pos());
}

#[test]
fn cell_right_goes_to_the_start_of_the_next_cell() {
    let mut plane = plane_at(GRID, 1, 3);
    assert!(plane.cursor_move_cell_right());
    assert_eq!((1, 7), cursor(&plane));
    assert!(plane.cursor_move_cell_right());
    assert_eq!((1, 13), cursor(&plane));
}

#[test]
fn cell_right_stays_in_the_last_cell() {
    let mut plane = plane_at(GRID, 1, 14);
    assert!(plane.cursor_move_cell_right());
    assert_eq!((1, 17), cursor(&plane));
    assert!(!plane.cursor_move_cell_right());
    assert_eq!((1, 17), cursor(&plane));
}

#[test]
fn cell_left_goes_to_the_end_of_the_next_cell() {
    let mut plane = plane_at(GRID, 1, 15);
    assert!(plane.cursor_move_cell_left());
    assert_eq!((1, 11), cursor(&plane));
    assert!(plane.cursor_move_cell_left());
    assert_eq!((1, 5), cursor(&plane));
}

#[test]
fn cell_left_stays_in_the_first_cell() {
    let mut plane = plane_at(GRID, 1, 3);
    assert!(plane.cursor_move_cell_left());
    assert_eq!((1, 1), cursor(&plane));
    assert!(!plane.cursor_move_cell_left());
    assert_eq!((1, 1), cursor(&plane));
}

#[test]
fn a_walk_never_rests_on_a_divider() {
    let mut plane = Plane::new(GRID);
    let ops: [fn(&mut Plane) -> bool; 10] = [
        Plane::cursor_move_down,
        Plane::cursor_move_right,
        Plane::cursor_move_cell_right,
        Plane::cursor_move_up,
        Plane::cursor_move_table_end,
        Plane::cursor_move_cell_left,
        Plane::cursor_move_left,
        Plane::cursor_move_cell_start,
        Plane::cursor_move_cell_end,
        Plane::cursor_move_table_start,
    ];
    for round in 0..50 {
        let before = cursor(&plane);
        let moved = ops[(round * 7 + round / 3) % ops.len()](&mut plane);
        assert_eq!(moved, before != cursor(&plane));
        assert!(plane.is_valid_cursor_pos());
        let ch = plane.rows()[plane.cursor_row() as usize].columns[plane.cursor_col() as usize];
        assert!(!is_box_drawing_character(ch));
    }
}
