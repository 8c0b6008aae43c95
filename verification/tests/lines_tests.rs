use microgrep::split_lines;

#[test]
fn lines_split_on_line_breaks() {
    assert_eq!(vec!["Rust:", "safe", "Pick three."], split_lines("Rust:\nsafe\nPick three."));
}

#[test]
fn lines_exclude_carriage_return_before_break() {
    assert_eq!(vec!["a", "b"], split_lines("a\r\nb"));
}

#[test]
fn lines_keep_lone_carriage_return() {
    assert_eq!(vec!["a\rb"], split_lines("a\rb"));
}

#[test]
fn empty_text_has_no_lines() {
    assert_eq!(split_lines(""), Vec::<&str>::new());
}

#[test]
fn trailing_break_adds_no_line() {
    assert_eq!(vec!["a"], split_lines("a\n"));
}

#[test]
fn break_alone_is_one_empty_line() {
    assert_eq!(vec![""], split_lines("\n"));
    assert_eq!(vec!["a", "", "b"], split_lines("a\n\nb"));
}
