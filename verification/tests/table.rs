use scwx::table::columns;

fn row2(a: &str, b: &str) -> [String; 2] {
    [a.to_owned(), b.to_owned()]
}

#[test]
fn ragged_widths_align_and_trailing_cells_are_trimmed() {
    let lines = columns(&[row2("a", "x"), row2("longer", "y"), row2("b", "")]);
    assert_eq!(lines, ["a       x", "longer  y", "b"]);
}

#[test]
fn widths_count_chars_not_bytes() {
    let lines = columns(&[row2("café", "x"), row2("name", "y")]);
    assert_eq!(lines, ["café  x", "name  y"]);
}

#[test]
fn empty_input_renders_nothing() {
    assert!(columns::<2>(&[]).is_empty());
}

#[test]
fn three_columns_pad_all_but_the_last() {
    let rows = [
        ["id".to_owned(), "name".to_owned(), "zone".to_owned()],
        ["1".to_owned(), "x".to_owned(), "fr-par-1".to_owned()],
    ];
    assert_eq!(columns(&rows), ["id  name  zone", "1   x     fr-par-1"]);
}
