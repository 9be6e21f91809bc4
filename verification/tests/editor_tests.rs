use ced::editor::{Editor, KeyEvent, Mode};
use ced::operation::{Motion, Operation, QuickAction};

fn editor(lines: &[&str]) -> Editor {
    Editor::new(lines.iter().map(|s| String::from(*s)).collect())
}

fn texts(ed: &Editor) -> Vec<&str> {
    ed.lines.iter().map(|s| s.as_str()).collect()
}

#[test]
fn new_editor_on_nothing_has_one_empty_line() {
    let ed = editor(&[]);
    assert_eq!(texts(&ed), vec![""]);
    assert_eq!((ed.row, ed.col), (0, 0));
    assert_eq!(ed.mode, Mode::Normal);
    assert!(ed.ops.is_empty());
}

#[test]
fn moving_keeps_cursor_in_text() {
    let mut ed = editor(&["hello", "hi"]);
    ed.move_cursor(Motion::Endline);
    assert_eq!(ed.col, 5);
    ed.move_cursor(Motion::Down(1));
    assert_eq!((ed.row, ed.col), (1, 2));
    ed.move_cursor(Motion::Down(5));
    assert_eq!(ed.row, 1);
    ed.move_cursor(Motion::Up(3));
    assert_eq!((ed.row, ed.col), (0, 2));
    ed.move_cursor(Motion::Right(10));
    assert_eq!(ed.col, 5);
    ed.move_cursor(Motion::Left(2));
    assert_eq!(ed.col, 3);
    ed.move_cursor(Motion::Left(-4));
    assert_eq!(ed.col, 3);
    ed.move_cursor(Motion::BeginLine);
    assert_eq!(ed.col, 0);
}

#[test]
fn typing_in_insert_mode() {
    let mut ed = editor(&["ac"]);
    assert!(!ed.handle_key(KeyEvent::Char('l')));
    assert!(!ed.handle_key(KeyEvent::Char('i')));
    assert_eq!(ed.mode, Mode::Insert);
    ed.handle_key(KeyEvent::Char('b'));
    assert_eq!(texts(&ed), vec!["abc"]);
    assert_eq!(ed.col, 2);
    ed.handle_key(KeyEvent::Char('\t'));
    assert_eq!(texts(&ed), vec!["ab    c"]);
    assert_eq!(ed.col, 6);
}

#[test]
fn enter_splits_and_backspace_joins() {
    let mut ed = editor(&["héllo"]);
    ed.handle_key(KeyEvent::Char('i'));
    ed.move_cursor(Motion::Right(2));
    ed.handle_key(KeyEvent::Char('\n'));
    assert_eq!(texts(&ed), vec!["hé", "llo"]);
    assert_eq!((ed.row, ed.col), (1, 0));
    ed.handle_key(KeyEvent::Backspace);
    assert_eq!(texts(&ed), vec!["héllo"]);
    assert_eq!((ed.row, ed.col), (0, 2));
    ed.handle_key(KeyEvent::Backspace);
    assert_eq!(texts(&ed), vec!["hllo"]);
    assert_eq!(ed.col, 1);
}

#[test]
fn normal_mode_keys() {
    let mut ed = editor(&["one", "two"]);
    ed.handle_key(KeyEvent::Char('x'));
    assert_eq!(texts(&ed), vec!["ne", "two"]);
    ed.handle_key(KeyEvent::Char('o'));
    assert_eq!(texts(&ed), vec!["ne", "", "two"]);
    assert_eq!((ed.row, ed.col, ed.mode), (1, 0, Mode::Insert));
    ed.handle_key(KeyEvent::Esc);
    assert_eq!(ed.mode, Mode::Normal);
    ed.handle_key(KeyEvent::Char('O'));
    assert_eq!(texts(&ed), vec!["ne", "", "", "two"]);
    assert_eq!(ed.row, 1);
    ed.handle_key(KeyEvent::Esc);
    ed.handle_key(KeyEvent::Backspace);
    assert_eq!(texts(&ed), vec!["ne", "", "two"]);
    ed.handle_key(KeyEvent::Char('A'));
    assert_eq!(ed.mode, Mode::Insert);
    ed.handle_key(KeyEvent::Esc);
    ed.handle_key(KeyEvent::Char(':'));
    assert_eq!(ed.mode, Mode::Cmd);
    assert!(!ed.handle_key(KeyEvent::Esc));
    assert_eq!(ed.mode, Mode::Cmd);
}

#[test]
fn deleting_the_last_line_empties_it() {
    let mut ed = editor(&["only"]);
    ed.move_cursor(Motion::Endline);
    ed.delete_line();
    assert_eq!(texts(&ed), vec![""]);
    assert_eq!((ed.row, ed.col), (0, 0));
}

#[test]
fn esc_in_normal_mode_quits() {
    let mut ed = editor(&["x"]);
    assert!(ed.handle_key(KeyEvent::Esc));
    assert_eq!(texts(&ed), vec!["x"]);
}

#[test]
fn jk_macro_queues_return_to_normal() {
    let mut ed = editor(&[""]);
    ed.handle_key(KeyEvent::Char('i'));
    ed.handle_key(KeyEvent::Char('j'));
    ed.handle_key(KeyEvent::Char('k'));
    assert_eq!(texts(&ed), vec!["jk"]);
    assert_eq!(ed.ops.len(), 1);
    assert!(matches!(ed.ops[0], Operation::ToNormal));
    assert!(ed.macros.currMac.is_empty());
    ed.eval_operations();
    assert_eq!(ed.mode, Mode::Normal);
    assert!(ed.ops.is_empty());
}

#[test]
fn feed_ignores_keys_that_start_no_macro() {
    let mut ed = editor(&[""]);
    assert_eq!(ed.feed_macro('q'), None);
    assert!(ed.macros.currMac.is_empty());
    assert_eq!(ed.feed_macro('j'), None);
    assert_eq!(ed.feed_macro('k'), Some(QuickAction::QuickNormal));
}

#[test]
fn operations_apply_in_order() {
    let mut ed = editor(&["ab"]);
    ed.handle_key(KeyEvent::Char('i'));
    ed.move_cursor(Motion::Endline);
    ed.ops.push(Operation::Insert(String::from("{}")));
    ed.ops.push(Operation::Left);
    ed.ops.push(Operation::NewLine(Motion::Down(1)));
    ed.ops.push(Operation::ToNormal);
    ed.ops.push(Operation::NewLine(Motion::Up(1)));
    ed.ops.push(Operation::Insert(String::from("    ")));
    ed.eval_operations();
    assert_eq!(texts(&ed), vec!["ab{", "    ", "}"]);
    assert_eq!((ed.row, ed.col, ed.mode), (1, 4, Mode::Insert));
}

#[test]
fn typed_macro_survives_other_keys() {
    let mut ed = editor(&["ab"]);
    ed.handle_key(KeyEvent::Char('i'));
    assert_eq!(ed.feed_macro('j'), None);
    assert_eq!(ed.macros.currMac, vec!['j']);
    ed.handle_key(KeyEvent::Up);
    ed.handle_key(KeyEvent::Right);
    assert_eq!(ed.macros.currMac, vec!['j']);
    assert_eq!(ed.macros.macStart, vec!['j', '{']);
}
