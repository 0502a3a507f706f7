use table_plane::plane::Plane;

const GRID: &str = r#"
┌─────┬─────┬─────┐
│ a   │ bb  │ c   │
├─────┼─────┼─────┤
│ dd  │ e   │     │
╞═════╪═════╪═════╡
│ f   │ ggg │ hh  │
└─────┴─────┴─────┘
"#;

const TIGHT: &str = r#"
┌─────┬─────┐
│ a   │ bb  │
├─────┼─────┤
│ f   │ gggg│
└─────┴─────┘
"#;

const HEADED: &str = r#"
┌──────────────┐
│ Title        │
├───┬──────╥───┴───┬─────┐
│ U │ In   ║ Out   │ Ann │
╞═══╪══════╬═══════╪═════╡
│ 1 │ "a"  ║ 10    │ x   │
└───┴──────╨───────┴─────┘
"#;

const CROWDED: &str = r#"
┌──────────┐
│ Title    │
├───┬──────╥┴──────┬─────┐
│ U │ In   ║ Out   │ Ann │
╞═══╪══════╬═══════╪═════╡
│ 1 │ "a"  ║ 10    │ x   │
├───┼──────╫───────┼─────┤
│ 2 │ "b"  ║ 20    │ y   │
└───┴──────╨───────┴─────┘
"#;

const JUNCTION_BESIDE_THE_BORDER: &str = "┌─────┐\n│abc  │\n├────╥┴─┐\n│abcd║  │\n└────╨──┘";

/// Creates a plane with the cursor at the given position.
fn plane_at(text: &str, row: i32, col: i32) -> Plane {
    let mut plane = Plane::new(text);
    plane.cursor_move(row - 1, col - 1);
    assert_eq!((row, col), cursor(&plane));
    plane
}

fn cursor(plane: &Plane) -> (i32, i32) {
    (plane.cursor_row(), plane.cursor_col())
}

fn eq(plane: &Plane, expected: &str) {
    assert_eq!(expected.trim(), plane.to_string());
}

#[test]
fn insert_uses_the_padding_of_the_cell() {
    let mut plane = plane_at(GRID, 1, 8);
    plane.insert_char('x');
    assert_eq!((1, 9), cursor(&plane));
    eq(
        &plane,
        r#"
┌─────┬─────┬─────┐
│ a   │ xbb │ c   │
├─────┼─────┼─────┤
│ dd  │ e   │     │
╞═════╪═════╪═════╡
│ f   │ ggg │ hh  │
└─────┴─────┴─────┘
"#,
    );
}

#[test]
fn insert_takes_one_character_of_padding_as_enough() {
    let mut plane = plane_at(GRID, 5, 10);
    plane.insert_char('x');
    assert_eq!((5, 11), cursor(&plane));
    eq(
        &plane,
        r#"
┌─────┬─────┬─────┐
│ a   │ bb  │ c   │
├─────┼─────┼─────┤
│ dd  │ e   │     │
╞═════╪═════╪═════╡
│ f   │ ggxg│ hh  │
└─────┴─────┴─────┘
"#,
    );
}

#[test]
fn insert_before_the_divider_widens_the_column_in_every_row() {
    let mut plane = plane_at(GRID, 5, 11);
    plane.insert_char('x');
    assert_eq!((5, 12), cursor(&plane));
    eq(
        &plane,
        r#"
┌─────┬──────┬─────┐
│ a   │ bb   │ c   │
├─────┼──────┼─────┤
│ dd  │ e    │     │
╞═════╪══════╪═════╡
│ f   │ gggx │ hh  │
└─────┴──────┴─────┘
"#,
    );
}

#[test]
fn insert_of_a_space_is_an_insertion_like_any_other() {
    let mut plane = plane_at(GRID, 5, 11);
    plane.insert_char(' ');
    assert_eq!((5, 12), cursor(&plane));
    eq(
        &plane,
        r#"
┌─────┬──────┬─────┐
│ a   │ bb   │ c   │
├─────┼──────┼─────┤
│ dd  │ e    │     │
╞═════╪══════╪═════╡
│ f   │ ggg  │ hh  │
└─────┴──────┴─────┘
"#,
    );
}

#[test]
fn insert_in_the_body_leaves_the_connector_below_the_header() {
    let mut plane = plane_at(HEADED, 3, 10);
    plane.insert_char('x');
    assert_eq!((3, 11), cursor(&plane));
    eq(
        &plane,
        r#"
┌──────────────┐
│ Title        │
├───┬───────╥──┴────┬─────┐
│ U │ In  x ║ Out   │ Ann │
╞═══╪═══════╬═══════╪═════╡
│ 1 │ "a"   ║ 10    │ x   │
└───┴───────╨───────┴─────┘
"#,
    );
}

#[test]
fn insert_in_the_body_right_of_the_connector() {
    let mut plane = plane_at(HEADED, 5, 18);
    plane.insert_char('x');
    assert_eq!((5, 19), cursor(&plane));
    eq(
        &plane,
        r#"
┌──────────────┐
│ Title        │
├───┬──────╥───┴────┬─────┐
│ U │ In   ║ Out    │ Ann │
╞═══╪══════╬════════╪═════╡
│ 1 │ "a"  ║ 10   x │ x   │
└───┴──────╨────────┴─────┘
"#,
    );
}

#[test]
fn insert_in_the_header_moves_the_connector_with_the_border() {
    let mut plane = plane_at(HEADED, 1, 14);
    plane.insert_char('x');
    assert_eq!((1, 15), cursor(&plane));
    eq(
        &plane,
        r#"
┌───────────────┐
│ Title       x │
├───┬──────╥────┴──┬─────┐
│ U │ In   ║ Out   │ Ann │
╞═══╪══════╬═══════╪═════╡
│ 1 │ "a"  ║ 10    │ x   │
└───┴──────╨───────┴─────┘
"#,
    );
}

#[test]
fn delete_before_in_the_header_narrows_the_header() {
    let mut plane = plane_at(HEADED, 1, 7);
    plane.delete_char_before();
    assert_eq!((1, 6), cursor(&plane));
    eq(
        &plane,
        r#"
┌─────────────┐
│ Titl        │
├───┬──────╥──┴────┬─────┐
│ U │ In   ║ Out   │ Ann │
╞═══╪══════╬═══════╪═════╡
│ 1 │ "a"  ║ 10    │ x   │
└───┴──────╨───────┴─────┘
"#,
    );
}

#[test]
fn delete_before_does_nothing_at_the_start_of_a_cell() {
    let mut plane = plane_at(GRID, 3, 7);
    plane.delete_char_before();
    assert_eq!((3, 7), cursor(&plane));
    eq(&plane, GRID);
    let mut plane = plane_at(GRID, 3, 1);
    plane.delete_char_before();
    assert_eq!((3, 1), cursor(&plane));
    eq(&plane, GRID);
}

#[test]
fn delete_pads_the_row_where_another_row_fills_the_column() {
    let mut plane = plane_at(TIGHT, 1, 9);
    for _ in 0..4 {
        plane.delete_char();
        assert_eq!((1, 9), cursor(&plane));
    }
    eq(
        &plane,
        r#"
┌─────┬─────┐
│ a   │ b   │
├─────┼─────┤
│ f   │ gggg│
└─────┴─────┘
"#,
    );
}

#[test]
fn delete_before_pads_the_row_where_another_row_fills_the_column() {
    let mut plane = plane_at(TIGHT, 1, 9);
    plane.delete_char_before();
    assert_eq!((1, 8), cursor(&plane));
    plane.delete_char_before();
    assert_eq!((1, 7), cursor(&plane));
    plane.delete_char_before();
    assert_eq!((1, 7), cursor(&plane));
    eq(
        &plane,
        r#"
┌─────┬─────┐
│ a   │b    │
├─────┼─────┤
│ f   │ gggg│
└─────┴─────┘
"#,
    );
}

#[test]
fn delete_steps_back_when_a_divider_comes_under_the_cursor() {
    let mut plane = plane_at(GRID, 3, 5);
    plane.delete_char();
    assert_eq!((3, 4), cursor(&plane));
    eq(
        &plane,
        r#"
┌────┬─────┬─────┐
│ a  │ bb  │ c   │
├────┼─────┼─────┤
│ dd │ e   │     │
╞════╪═════╪═════╡
│ f  │ ggg │ hh  │
└────┴─────┴─────┘
"#,
    );
}

#[test]
fn delete_narrows_as_long_as_every_row_has_padding() {
    let mut plane = plane_at(GRID, 3, 4);
    plane.delete_char();
    assert_eq!((3, 4), cursor(&plane));
    plane.delete_char();
    assert_eq!((3, 3), cursor(&plane));
    plane.delete_char();
    assert_eq!((3, 3), cursor(&plane));
    plane.delete_char();
    assert_eq!((3, 2), cursor(&plane));
    eq(
        &plane,
        r#"
┌──┬─────┬─────┐
│ a│ bb  │ c   │
├──┼─────┼─────┤
│ d│ e   │     │
╞══╪═════╪═════╡
│ f│ ggg │ hh  │
└──┴─────┴─────┘
"#,
    );
}

#[test]
fn delete_in_the_body_makes_the_header_give_way_to_the_junction() {
    let mut plane = plane_at(CROWDED, 3, 9);
    plane.delete_char();
    assert_eq!((3, 9), cursor(&plane));
    eq(
        &plane,
        r#"
┌──────────┐
│ Title    │
├───┬─────╥┴──────┬─────┐
│ U │ In  ║ Out   │ Ann │
╞═══╪═════╬═══════╪═════╡
│ 1 │ "a" ║ 10    │ x   │
├───┼─────╫───────┼─────┤
│ 2 │ "b" ║ 20    │ y   │
└───┴─────╨───────┴─────┘
"#,
    );
    plane.delete_char();
    assert_eq!((3, 8), cursor(&plane));
    eq(
        &plane,
        r#"
┌──────────┐
│ Title    │
├───┬────╥─┴─────┬─────┐
│ U │ In ║ Out   │ Ann │
╞═══╪════╬═══════╪═════╡
│ 1 │ "a"║ 10    │ x   │
├───┼────╫───────┼─────┤
│ 2 │ "b"║ 20    │ y   │
└───┴────╨───────┴─────┘
"#,
    );
}

#[test]
fn insert_in_the_body_makes_the_header_give_way_to_the_junction() {
    let mut plane = plane_at(CROWDED, 3, 9);
    plane.delete_char();
    plane.delete_char();
    assert_eq!((3, 8), cursor(&plane));
    plane.insert_char('1');
    assert_eq!((3, 9), cursor(&plane));
    plane.insert_char('2');
    assert_eq!((3, 10), cursor(&plane));
    plane.insert_char('3');
    assert_eq!((3, 11), cursor(&plane));
    eq(
        &plane,
        r#"
┌─────────┐
│ Title   │
├───┬─────┴─╥───────┬─────┐
│ U │ In123 ║ Out   │ Ann │
╞═══╪═══════╬═══════╪═════╡
│ 1 │ "a"   ║ 10    │ x   │
├───┼───────╫───────┼─────┤
│ 2 │ "b"   ║ 20    │ y   │
└───┴───────╨───────┴─────┘
"#,
    );
}

#[test]
fn delete_in_the_header_above_the_junction() {
    let mut plane = plane_at(CROWDED, 1, 9);
    plane.delete_char();
    assert_eq!((1, 9), cursor(&plane));
    eq(
        &plane,
        r#"
┌─────────┐
│ Title   │
├───┬─────┴╥┴──────┬─────┐
│ U │ In   ║ Out   │ Ann │
╞═══╪══════╬═══════╪═════╡
│ 1 │ "a"  ║ 10    │ x   │
├───┼──────╫───────┼─────┤
│ 2 │ "b"  ║ 20    │ y   │
└───┴──────╨───────┴─────┘
"#,
    );
}

#[test]
fn insert_of_a_divider_keeps_the_cursor_off_it() {
    let mut plane = plane_at(GRID, 1, 8);
    plane.insert_char('│');
    assert_eq!((1, 9), cursor(&plane));
    eq(
        &plane,
        r#"
┌─────┬─────┬─────┐
│ a   │ │bb │ c   │
├─────┼─────┼─────┤
│ dd  │ e   │     │
╞═════╪═════╪═════╡
│ f   │ ggg │ hh  │
└─────┴─────┴─────┘
"#,
    );
    // the character before the cursor is a divider now, and stays
    plane.delete_char_before();
    assert_eq!((1, 9), cursor(&plane));
}

#[test]
fn insert_steps_right_where_the_header_gives_way() {
    let mut plane = plane_at("┌────┐\n│ab  │\n├───╥┴─┐\n│abc║  │\n└───╨──┘", 3, 3);
    plane.insert_char('1');
    assert_eq!((3, 4), cursor(&plane));
    eq(&plane, "┌───┐\n│ab │\n├───┴╥──┐\n│ab1c║  │\n└────╨──┘");
    plane.insert_char('2');
    assert_eq!((3, 5), cursor(&plane));
    plane.insert_char('3');
    assert_eq!((3, 6), cursor(&plane));
    eq(&plane, "┌───┐\n│ab │\n├───┴──╥──┐\n│ab123c║  │\n└──────╨──┘");
}

#[test]
fn delete_before_steps_left_once_where_the_header_gives_way() {
    let mut plane = plane_at(JUNCTION_BESIDE_THE_BORDER, 1, 3);
    plane.delete_char_before();
    assert_eq!((1, 2), cursor(&plane));
    eq(&plane, "┌───┐\n│ac │\n├───┴╥──┐\n│abcd║  │\n└────╨──┘");
}

#[test]
fn delete_takes_the_character_under_the_cursor_where_the_header_gives_way() {
    let mut plane = plane_at(JUNCTION_BESIDE_THE_BORDER, 1, 2);
    plane.delete_char();
    assert_eq!((1, 2), cursor(&plane));
    eq(&plane, "┌───┐\n│ac │\n├───┴╥──┐\n│abcd║  │\n└────╨──┘");
}

#[test]
fn the_cursor_keeps_inside_a_header_that_gets_two_columns_narrower() {
    for col in [4, 5] {
        let mut plane = plane_at(JUNCTION_BESIDE_THE_BORDER, 1, col);
        plane.delete_char();
        assert_eq!((1, 3), cursor(&plane));
        eq(&plane, "┌───┐\n│abc│\n├───┴╥──┐\n│abcd║  │\n└────╨──┘");
    }
    let mut plane = plane_at(JUNCTION_BESIDE_THE_BORDER, 1, 5);
    plane.delete_char_before();
    assert_eq!((1, 3), cursor(&plane));
    eq(&plane, "┌───┐\n│abc│\n├───┴╥──┐\n│abcd║  │\n└────╨──┘");
}
