use ced::operation::{Motion, Operation, OperationBuffer, QuickAction};

fn buffer_with(typed: &str) -> OperationBuffer {
    let mut b = OperationBuffer::new();
    b.currMac = typed.chars().collect();
    b
}

#[test]
fn new_buffer_knows_two_macros() {
    let b = OperationBuffer::new();
    assert_eq!(b.imacros.len(), 2);
    assert_eq!(b.imacros[0], (String::from("jk"), QuickAction::QuickNormal));
    assert_eq!(b.imacros[1], (String::from("{\n"), QuickAction::MakeBlock));
    assert_eq!(b.macStart, vec!['j', '{']);
    assert!(b.currMac.is_empty());
    assert!(b.currOp.is_empty());
    assert!(b.lastOp.is_empty());
}

#[test]
fn jk_completes_quick_normal() {
    let mut b = buffer_with("j");
    assert_eq!(b.checkMacroAfter('k', 0), Some(QuickAction::QuickNormal));
    assert_eq!(b.currMac, vec!['j', 'k']);
}

#[test]
fn brace_newline_completes_make_block() {
    let mut b = buffer_with("{");
    assert_eq!(b.checkMacroAfter('\n', 10), Some(QuickAction::MakeBlock));
    assert_eq!(b.currMac, vec!['{', '\n']);
}

#[test]
fn wrong_next_key_is_refused() {
    let mut b = buffer_with("j");
    assert_eq!(b.checkMacroAfter('x', 0), None);
    assert_eq!(b.currMac, vec!['j']);
}

#[test]
fn no_candidate_is_not_a_quick_action() {
    let mut b = buffer_with("x");
    assert_eq!(b.checkMacroAfter('y', 0), Some(QuickAction::NAQA));
    assert_eq!(b.currMac, vec!['x']);
}

#[test]
fn too_slow_is_not_a_quick_action() {
    let mut b = buffer_with("j");
    assert_eq!(b.checkMacroAfter('k', 250), Some(QuickAction::NAQA));
    assert_eq!(b.currMac, vec!['j']);
    assert_eq!(b.checkMacroAfter('k', 249), Some(QuickAction::QuickNormal));
}

#[test]
fn first_key_judged_by_first_macro() {
    let mut b = buffer_with("");
    assert_eq!(b.checkMacroAfter('j', 0), None);
    assert_eq!(b.currMac, vec!['j']);
    let mut c = buffer_with("");
    assert_eq!(c.checkMacroAfter('{', 0), None);
    assert!(c.currMac.is_empty());
}

#[test]
fn finished_macro_answers_again() {
    let mut b = buffer_with("jk");
    assert_eq!(b.checkMacroAfter('x', 0), Some(QuickAction::QuickNormal));
    assert_eq!(b.currMac, vec!['j', 'k']);
}

#[test]
fn typing_jk_quickly() {
    let mut b = OperationBuffer::new();
    assert_eq!(b.startMacro('j'), None);
    assert_eq!(b.currMac, vec!['j']);
    assert_eq!(b.checkMacro('k'), Some(QuickAction::QuickNormal));
    assert_eq!(b.currMac, vec!['j', 'k']);
}

#[test]
fn typing_block_opener_quickly() {
    let mut b = OperationBuffer::new();
    assert_eq!(b.startMacro('{'), None);
    assert_eq!(b.checkMacro('\n'), Some(QuickAction::MakeBlock));
}

#[test]
fn reset_forgets_typed() {
    let mut b = buffer_with("jk");
    b.resetMacro();
    assert!(b.currMac.is_empty());
    assert_eq!(b.macStart, vec!['j', '{']);
}

#[test]
fn execute_quick_normal() {
    let mut b = buffer_with("jk");
    let mut ops = vec![Operation::Up];
    b.executeMaco(&mut ops, QuickAction::QuickNormal);
    assert_eq!(ops.len(), 2);
    assert!(matches!(ops[0], Operation::Up));
    assert!(matches!(ops[1], Operation::ToNormal));
    assert!(b.currMac.is_empty());
}

#[test]
fn execute_make_block() {
    let mut b = buffer_with("{\n");
    let mut ops = Vec::new();
    b.executeMaco(&mut ops, QuickAction::MakeBlock);
    assert_eq!(ops.len(), 6);
    assert!(matches!(&ops[0], Operation::Insert(s) if s == "{}"));
    assert!(matches!(ops[1], Operation::Left));
    assert!(matches!(ops[2], Operation::NewLine(Motion::Down(1))));
    assert!(matches!(ops[3], Operation::ToNormal));
    assert!(matches!(ops[4], Operation::NewLine(Motion::Up(1))));
    assert!(matches!(&ops[5], Operation::Insert(s) if s == "    "));
    assert!(b.currMac.is_empty());
}
