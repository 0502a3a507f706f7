use table_plane::plane::Plane;

const TEST_INPUT_001: &str = r#"
┌─────────────────────────────────────┐
│ Order options                       │
├───┬───────────┬───────╥─────────────┴───────╥─────────────┬───────────┐
│ U │           │       ║    Order options    ║             │           │
│   │ Customer  │ Order ╟──────────┬──────────╢ Description │ Reference │
│   │   type    │ size  ║ Discount │ Priority ║             │           │
│   ├───────────┼───────╫──────────┼──────────╫─────────────┼───────────┤
│   │"Business",│  <10, ║   0.10,  │"Normal", ║             │           │
│   │"Private"  │ >=10  ║   0.15,  │ "High",  ║             │           │
│   │           │       ║   0.05   │ "Low"    ║             │           │
╞═══╪═══════════╪═══════╬══════════╪══════════╬═════════════╪═══════════╡
│ 1 │"Business" │  <10  ║   0.10   │ "Normal" ║ Small order │   Ref 1   │
├───┼───────────┼───────╫──────────┼──────────╫─────────────┼───────────┤
│ 2 │"Business" │ >=10  ║   0.15   │ "High"   ║ Large order │   Ref 2   │
├───┼───────────┼───────╫──────────┼──────────╫─────────────┼───────────┤
│ 3 │"Private"  │   -   ║   0.05   │ "Low"    ║ All orders  │   Ref 3   │
└───┴───────────┴───────╨──────────┴──────────╨─────────────┴───────────┘
"#;

/// Compares the cursor position with the expected one.
fn eq_cursor(row: i32, col: i32, plane: &Plane) {
    assert_eq!(row, plane.cursor_row());
    assert_eq!(col, plane.cursor_col());
}

#[test]
fn action_move__0001() {
    let plane = &mut Plane::new(TEST_INPUT_001);
    eq_cursor(1, 1, plane);
    plane.cursor_move_cell_end();
    eq_cursor(1, 37, plane);
}

#[test]
fn action_move__0002() {
    let plane = &mut Plane::new(TEST_INPUT_001);
    eq_cursor(1, 1, plane);
    for _ in 0..1 {
        plane.cursor_move_down();
    }
    eq_cursor(3, 1, plane);
    plane.cursor_move_cell_right();
    eq_cursor(3, 5, plane);
}
