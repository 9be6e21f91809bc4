use ced::line::{Line, Token};
use termion::color;

fn word(t: &Token) -> Option<(usize, usize, String)> {
    match t {
        Token::Word { start, len, text } => Some((*start, *len, text.clone())),
        _ => None,
    }
}

fn is_other(t: &Token, at: usize, c: char) -> bool {
    matches!(t, Token::Other(a, ch) if *a == at && *ch == c)
}

fn is_space(t: &Token, at: usize, count: u16) -> bool {
    matches!(t, Token::Space(a, n) if *a == at && *n == count)
}

#[test]
fn tokenize_empty_line() {
    assert!(Line::tokenize("").is_empty());
}

#[test]
fn tokenize_word_space_separator() {
    let ts = Line::tokenize("a ;");
    assert_eq!(ts.len(), 3);
    assert_eq!(word(&ts[0]), Some((0, 1, String::from("a"))));
    assert!(is_space(&ts[1], 1, 1));
    assert!(is_other(&ts[2], 2, ';'));
}

#[test]
fn tokenize_statement() {
    let ts = Line::tokenize("let x = 5;");
    assert_eq!(ts.len(), 8);
    assert_eq!(word(&ts[0]), Some((0, 3, String::from("let"))));
    assert!(is_space(&ts[1], 3, 1));
    assert_eq!(word(&ts[2]), Some((4, 1, String::from("x"))));
    assert!(is_space(&ts[3], 5, 1));
    assert!(is_other(&ts[4], 6, '='));
    assert!(is_space(&ts[5], 7, 1));
    assert_eq!(word(&ts[6]), Some((8, 1, String::from("5"))));
    assert!(is_other(&ts[7], 9, ';'));
}

#[test]
fn tokenize_separators_get_empty_space_between() {
    let ts = Line::tokenize("((");
    assert_eq!(ts.len(), 3);
    assert!(is_other(&ts[0], 0, '('));
    assert!(is_space(&ts[1], 1, 0));
    assert!(is_other(&ts[2], 1, '('));
}

#[test]
fn tokenize_leading_spaces() {
    let ts = Line::tokenize("  f();");
    assert_eq!(ts.len(), 7);
    assert!(is_space(&ts[0], 0, 2));
    assert_eq!(word(&ts[1]), Some((2, 1, String::from("f"))));
    assert!(is_other(&ts[2], 3, '('));
    assert!(is_space(&ts[3], 4, 0));
    assert!(is_other(&ts[4], 4, ')'));
    assert!(is_space(&ts[5], 5, 0));
    assert!(is_other(&ts[6], 5, ';'));
}

#[test]
fn tokenize_multibyte_word_counts_bytes() {
    let ts = Line::tokenize("ab é;");
    assert_eq!(ts.len(), 4);
    assert_eq!(word(&ts[0]), Some((0, 2, String::from("ab"))));
    assert!(is_space(&ts[1], 2, 1));
    assert_eq!(word(&ts[2]), Some((2, 2, String::from("é"))));
    assert!(is_other(&ts[3], 4, ';'));
}

#[test]
fn tokens_spell_the_line_again() {
    let text = "if (a >= b) { c = a - b; }";
    let mut back = String::new();
    let mut width = 0usize;
    for t in Line::tokenize(text).iter() {
        width += t.getLen();
        match t {
            Token::Word { text, .. } => back.push_str(text),
            Token::Other(_, c) => back.push(*c),
            Token::Space(_, n) => back.push_str(&" ".repeat(*n as usize)),
            Token::Empty => {}
        }
    }
    assert_eq!(back, text);
    assert_eq!(width, text.len());
}

#[test]
fn token_lengths() {
    let w = Token::Word { start: 0, len: 4, text: String::from("main") };
    assert_eq!(w.getLen(), 4);
    assert_eq!(Token::Other(3, '(').getLen(), 1);
    assert_eq!(Token::Space(0, 7).getLen(), 7);
    assert_eq!(Token::Space(0, 0).getLen(), 0);
    assert_eq!(Token::Empty.getLen(), 1);
}

#[test]
fn is_other_characters() {
    for c in " ><!;()[]{}=+-*/".chars() {
        assert!(Line::isOther(c), "{:?}", c);
    }
    for c in "aZ0_.,:'\"#\t".chars() {
        assert!(!Line::isOther(c), "{:?}", c);
    }
}

#[test]
fn new_line_is_empty() {
    let l = Line::new();
    assert!(l.tokens.is_empty());
    assert_eq!(l.rawLine, "");
    assert_eq!(l.dispLine, "");
}

#[test]
fn from_keeps_text_and_tokens() {
    let l = Line::from("x = 1;");
    assert_eq!(l.rawLine, "x = 1;");
    assert_eq!(l.dispLine, "x = 1;");
    assert_eq!(l.tokens.len(), 6);
    assert_eq!(word(&l.tokens[0]), Some((0, 1, String::from("x"))));
    assert!(is_other(&l.tokens[5], 5, ';'));
}

#[test]
fn ins_inserts_inside_word() {
    let mut l = Line::from("ab;");
    l.ins(1, 'X');
    assert_eq!(l.rawLine, "aXb;");
    assert_eq!(l.dispLine, "ab;");
    assert_eq!(l.tokens.len(), 2);
    assert_eq!(word(&l.tokens[0]), Some((0, 2, String::from("ab"))));
}

#[test]
fn ins_at_end_of_line() {
    let mut l = Line::from("ab;");
    l.ins(3, 'Z');
    assert_eq!(l.rawLine, "ab;Z");
}

#[test]
fn ins_after_multibyte_char() {
    let mut l = Line::from("é;");
    l.ins(2, 'x');
    assert_eq!(l.rawLine, "éx;");
}

#[test]
fn format_text_draws_indents() {
    let expected = format!("a{}····{}b", color::Fg(color::LightBlack), color::Fg(color::White));
    assert_eq!(Line::formatText("a    b"), expected);
}

#[test]
fn format_text_leaves_short_runs() {
    assert_eq!(Line::formatText("a   b"), "a   b");
    assert_eq!(Line::formatText(""), "");
}

#[test]
fn format_text_with_marks() {
    assert_eq!(Line::formatTextWith("        x", "<", ">"), "<····><····>x");
    assert_eq!(Line::formatTextWith("     ", "<", ">"), "<····> ");
    assert_eq!(Line::formatTextWith("a   b", "<", ">"), "a   b");
    assert_eq!(Line::formatTextWith("  ", "", ""), "  ");
    assert_eq!(Line::formatTextWith("\t    ;", "", ""), "\t····;");
}

#[test]
fn format_text_is_settled() {
    let once = Line::formatTextWith("         y", "[", "]");
    let twice = Line::formatTextWith(&once, "[", "]");
    assert_eq!(once, twice);
    assert!(!once.contains("    "));
}

#[test]
fn ins_reaches_every_offset_of_a_tokenized_line() {
    let text = "fn  main() { x += 1; }";
    for i in 0..=text.len() {
        let mut l = Line::from(text);
        l.ins(i, '#');
        let mut expected = String::from(text);
        expected.insert(i, '#');
        assert_eq!(l.rawLine, expected);
    }
}
