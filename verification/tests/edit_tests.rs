use ced::edit::getTextAfterCusor;

#[test]
fn text_after_cursor_middle() {
    let lines = vec![String::from("first"), String::from("hello")];
    assert_eq!(getTextAfterCusor(&lines, 2, 1), "llo");
    assert_eq!(getTextAfterCusor(&lines, 0, 0), "first");
}

#[test]
fn text_after_cursor_at_or_past_end() {
    let lines = vec![String::from("hello")];
    assert_eq!(getTextAfterCusor(&lines, 5, 0), "");
    assert_eq!(getTextAfterCusor(&lines, 9, 0), "");
}

#[test]
fn text_after_cursor_empty_line() {
    let lines = vec![String::new()];
    assert_eq!(getTextAfterCusor(&lines, 0, 0), "");
}

#[test]
fn text_after_cursor_counts_bytes() {
    let lines = vec![String::from("héllo")];
    assert_eq!(getTextAfterCusor(&lines, 3, 0), "llo");
    assert_eq!(getTextAfterCusor(&lines, 1, 0), "éllo");
}
