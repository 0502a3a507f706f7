use table_plane::row::Row;

#[test]
fn model_row__0001() {
    let row = Row::new(vec!['a', 'b', 'c']);
    assert_eq!("abc", row.to_string());
    assert_eq!("abc", format!("{}", row.to_string()));
}
