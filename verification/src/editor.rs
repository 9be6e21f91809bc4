//! The editing buffer behind the keys: its lines, the cursor, the mode, the
//! queue of operations, and what each key and operation does to them. The
//! cursor's column counts characters.

use vstd::prelude::*;
use crate::operation::{
    action_ops, macro_result, macro_typed, op_views, Motion, Operation, OperationBuffer, OperationView,
    QuickAction,
};
use crate::text::{chars_of, string_push};

verus! {

/// The editor's modes.
#[derive(Clone, Copy, Debug, PartialEq, Eq, Structural)]
pub enum Mode {
    Normal,
    Insert,
    Cmd,
}

/// A key as the editor tells keys apart.
#[derive(Clone, Copy, Debug, PartialEq, Eq, Structural)]
pub enum KeyEvent {
    Up,
    Down,
    Left,
    Right,
    Esc,
    Backspace,
    Char(char),
    Other,
}

/// The lines, the cursor's row and column, and the mode.
pub struct EditState {
    pub lines: Seq<Seq<char>>,
    pub row: int,
    pub col: int,
    pub mode: Mode,
}

/// The texts of the lines.
pub open spec fn line_views(ls: Seq<String>) -> Seq<Seq<char>> {
    ls.map_values(|s: String| s@)
}

/// There is a line, and the cursor is on a line, at most at its end.
pub open spec fn valid_state(st: EditState) -> bool {
    &&& st.lines.len() > 0
    &&& 0 <= st.row < st.lines.len()
    &&& 0 <= st.col <= st.lines[st.row].len()
}

/// How far a motion goes: a negative count goes nowhere.
pub open spec fn steps(n: i32) -> int {
    if n < 0 {
        0
    } else {
        n as int
    }
}

pub open spec fn min_int(a: int, b: int) -> int {
    if a < b {
        a
    } else {
        b
    }
}

pub open spec fn max_zero(a: int) -> int {
    if a < 0 {
        0
    } else {
        a
    }
}

/// The same lines and mode with the cursor at `row`, `col`.
pub open spec fn at(st: EditState, row: int, col: int) -> EditState {
    EditState { lines: st.lines, row, col, mode: st.mode }
}

/// The same lines and cursor in mode `m`.
pub open spec fn in_mode(st: EditState, m: Mode) -> EditState {
    EditState { lines: st.lines, row: st.row, col: st.col, mode: m }
}

/// The cursor after motion `m`: up and down keep the column where the new
/// line is long enough; left, right and the line ends stay on the line.
pub open spec fn moved(st: EditState, m: Motion) -> EditState {
    let len = st.lines[st.row].len() as int;
    match m {
        Motion::Up(n) => {
            let r = max_zero(st.row - steps(n));
            at(st, r, min_int(st.col, st.lines[r].len() as int))
        },
        Motion::Down(n) => {
            let r = min_int(st.row + steps(n), st.lines.len() - 1);
            at(st, r, min_int(st.col, st.lines[r].len() as int))
        },
        Motion::Left(n) => at(st, st.row, max_zero(st.col - steps(n))),
        Motion::Right(n) => at(st, st.row, min_int(st.col + steps(n), len)),
        Motion::BeginLine => at(st, st.row, 0),
        Motion::Endline => at(st, st.row, len),
    }
}

/// The cursor's line replaced by `line`, the cursor at column `col` of it.
pub open spec fn with_line(st: EditState, line: Seq<char>, col: int) -> EditState {
    EditState { lines: st.lines.update(st.row, line), row: st.row, col, mode: st.mode }
}

/// `t` typed at the cursor, the cursor after it.
pub open spec fn inserted(st: EditState, t: Seq<char>) -> EditState {
    let line = st.lines[st.row];
    with_line(st, line.take(st.col) + t + line.skip(st.col), st.col + t.len())
}

/// A new line opened above (`Up`) or below (any other motion) the cursor's
/// line; with `carry`, the text from the cursor on moves to the new line.
/// The cursor goes to the start of the new line.
pub open spec fn opened(st: EditState, m: Motion, carry: bool) -> EditState {
    let line = st.lines[st.row];
    let rest = if carry {
        line.skip(st.col)
    } else {
        Seq::<char>::empty()
    };
    let base = if carry {
        st.lines.update(st.row, line.take(st.col))
    } else {
        st.lines
    };
    match m {
        Motion::Up(_) => EditState { lines: base.insert(st.row, rest), row: st.row, col: 0, mode: st.mode },
        _ => EditState {
            lines: base.insert(st.row + 1, rest),
            row: st.row + 1,
            col: 0,
            mode: st.mode,
        },
    }
}

/// The character under the cursor removed, if there is one.
pub open spec fn char_deleted(st: EditState) -> EditState {
    let line = st.lines[st.row];
    if st.col < line.len() {
        with_line(st, line.remove(st.col), st.col)
    } else {
        st
    }
}

/// The character before the cursor removed; at the start of a line, the line
/// joined to the end of the one above, the cursor at the join.
pub open spec fn backspaced(st: EditState) -> EditState {
    let line = st.lines[st.row];
    if st.col > 0 {
        with_line(st, line.remove(st.col - 1), st.col - 1)
    } else if st.row > 0 {
        let prev = st.lines[st.row - 1];
        EditState {
            lines: st.lines.remove(st.row).update(st.row - 1, prev + line),
            row: st.row - 1,
            col: prev.len() as int,
            mode: st.mode,
        }
    } else {
        st
    }
}

/// The cursor's line removed; the last line left is emptied instead.
pub open spec fn line_deleted(st: EditState) -> EditState {
    if st.lines.len() > 1 {
        let ls = st.lines.remove(st.row);
        let r = min_int(st.row, ls.len() - 1);
        EditState { lines: ls, row: r, col: min_int(st.col, ls[r].len() as int), mode: st.mode }
    } else {
        EditState { lines: seq![Seq::<char>::empty()], row: 0, col: 0, mode: st.mode }
    }
}

/// One operation carried out.
pub open spec fn applied(st: EditState, op: OperationView) -> EditState {
    match op {
        OperationView::ToInsert => in_mode(st, Mode::Insert),
        OperationView::Insert(t) => inserted(in_mode(st, Mode::Insert), t),
        OperationView::ToNormal => in_mode(st, Mode::Normal),
        OperationView::EnterCmd => in_mode(st, Mode::Cmd),
        OperationView::Delete => char_deleted(st),
        OperationView::NewLine(m) => opened(st, m, st.mode == Mode::Insert),
        OperationView::Up => moved(st, Motion::Up(1)),
        OperationView::Down => moved(st, Motion::Down(1)),
        OperationView::Left => moved(st, Motion::Left(1)),
        OperationView::Right => moved(st, Motion::Right(1)),
    }
}

/// Operations carried out in order.
pub open spec fn applied_all(st: EditState, ops: Seq<OperationView>) -> EditState
    decreases ops.len(),
{
    if ops.len() == 0 {
        st
    } else {
        applied_all(applied(st, ops[0]), ops.drop_first())
    }
}

/// A normal-mode key: `hjkl` move, `i`/`a`/`A`/`I` enter insert mode (after,
/// at the end of, at the start of the line), `o`/`O` open a line below or
/// above and enter insert mode, `x` deletes, newline opens a line below, `:`
/// enters command mode.
pub open spec fn normal_key(st: EditState, c: char) -> EditState {
    if c == 'k' {
        moved(st, Motion::Up(1))
    } else if c == 'j' {
        moved(st, Motion::Down(1))
    } else if c == 'h' {
        moved(st, Motion::Left(1))
    } else if c == 'l' {
        moved(st, Motion::Right(1))
    } else if c == 'i' {
        in_mode(st, Mode::Insert)
    } else if c == 'x' {
        char_deleted(st)
    } else if c == '\n' {
        opened(st, Motion::Down(1), false)
    } else if c == 'o' {
        in_mode(opened(st, Motion::Down(1), false), Mode::Insert)
    } else if c == 'O' {
        in_mode(opened(st, Motion::Up(1), false), Mode::Insert)
    } else if c == 'a' {
        moved(in_mode(st, Mode::Insert), Motion::Right(1))
    } else if c == 'A' {
        moved(in_mode(st, Mode::Insert), Motion::Endline)
    } else if c == 'I' {
        moved(in_mode(st, Mode::Insert), Motion::BeginLine)
    } else if c == ':' {
        in_mode(st, Mode::Cmd)
    } else {
        st
    }
}

/// An insert-mode character: newline splits the line at the cursor, tab
/// types four spaces, anything else types itself.
pub open spec fn insert_key(st: EditState, c: char) -> EditState {
    if c == '\n' {
        opened(st, Motion::Down(1), true)
    } else if c == '\t' {
        inserted(st, seq![' ', ' ', ' ', ' '])
    } else {
        inserted(st, seq![c])
    }
}

/// What a key does to the lines, the cursor and the mode. Arrows move in
/// every mode; Esc leaves insert mode; Backspace deletes the line in normal
/// mode and the character before the cursor in insert mode; command mode
/// takes no other key.
pub open spec fn key_step(st: EditState, key: KeyEvent) -> EditState {
    match key {
        KeyEvent::Up => moved(st, Motion::Up(1)),
        KeyEvent::Down => moved(st, Motion::Down(1)),
        KeyEvent::Left => moved(st, Motion::Left(1)),
        KeyEvent::Right => moved(st, Motion::Right(1)),
        KeyEvent::Esc => if st.mode == Mode::Insert {
            in_mode(st, Mode::Normal)
        } else {
            st
        },
        KeyEvent::Backspace => match st.mode {
            Mode::Normal => line_deleted(st),
            Mode::Insert => backspaced(st),
            Mode::Cmd => st,
        },
        KeyEvent::Char(c) => match st.mode {
            Mode::Normal => normal_key(st, c),
            Mode::Insert => insert_key(st, c),
            Mode::Cmd => st,
        },
        KeyEvent::Other => st,
    }
}

/// Esc in normal mode ends the editing session (after saving).
pub open spec fn key_quits(st: EditState, key: KeyEvent) -> bool {
    key == KeyEvent::Esc && st.mode == Mode::Normal
}

/// The answer finishes a macro (and so queues its operations).
pub open spec fn finishes(r: Option<QuickAction>) -> bool {
    r matches Option::Some(a) && a != QuickAction::NAQA
}

/// The detector `before` given insert-mode character `c` becomes `after`
/// with answer `r`. When no macro is under way and none starts with `c`,
/// nothing happens and the answer is nothing. When none is under way and one
/// starts with `c`, a macro is started with `c`, which is in time. When one
/// is under way, `c` joins it and the clock decides between two outcomes: too
/// late, the answer is `NAQA` and the typed characters stay; in time, the
/// answer and the typed characters are those of `macro_result` and
/// `macro_typed`. A finished macro leaves nothing typed. The macro table, the
/// starts and the operation histories never change.
pub open spec fn macro_fed(
    before: OperationBuffer,
    after: OperationBuffer,
    c: char,
    r: Option<QuickAction>,
) -> bool {
    let entries = before.entries();
    let typed0 = before.currMac@;
    if typed0.len() == 0 && !before.macStart@.contains(c) {
        r == Option::<QuickAction>::None && after == before
    } else {
        let typed = if typed0.len() == 0 {
            seq![c]
        } else {
            typed0
        };
        let in_time = r == macro_result(entries, typed, c) && after.currMac@ == (if finishes(r) {
            Seq::<char>::empty()
        } else {
            macro_typed(entries, typed, c)
        });
        &&& after.imacros == before.imacros
        &&& after.macStart == before.macStart
        &&& after.currOp == before.currOp
        &&& after.lastOp == before.lastOp
        &&& if typed0.len() == 0 {
            in_time
        } else {
            (r == Option::Some(QuickAction::NAQA) && after.currMac@ == typed) || in_time
        }
    }
}

/// The operations queued for a macro answer: those of a finished macro.
pub open spec fn queued(r: Option<QuickAction>) -> Seq<OperationView> {
    match r {
        Option::Some(a) => if a != QuickAction::NAQA {
            action_ops(a)
        } else {
            seq![]
        },
        Option::None => seq![],
    }
}

/// The characters `cs[from..to]` appended to `out`.
fn extend_range(out: &mut Vec<char>, cs: &Vec<char>, from: usize, to: usize)
    requires
        from <= to <= cs@.len(),
    ensures
        final(out)@ == old(out)@ + cs@.subrange(from as int, to as int),
{
    let ghost start = out@;
    let mut i = from;
    while i < to
        invariant
            from <= i <= to,
            to <= cs@.len(),
            out@ == start + cs@.subrange(from as int, i as int),
        decreases to - i,
    {
        out.push(cs[i]);
        i = i + 1;
        assert(out@ =~= start + cs@.subrange(from as int, i as int));
    }
}

/// A string of the characters `cs`.
fn string_of(cs: &Vec<char>) -> (r: String)
    ensures
        r@ == cs@,
{
    let mut r = String::new();
    let mut i: usize = 0;
    while i < cs.len()
        invariant
            i <= cs@.len(),
            r@ == cs@.take(i as int),
        decreases cs@.len() - i,
    {
        string_push(&mut r, cs[i]);
        i = i + 1;
        assert(r@ =~= cs@.take(i as int));
    }
    assert(cs@.take(i as int) =~= cs@);
    r
}

/// Whether `c` is among `cs`.
fn has_char(cs: &Vec<char>, c: char) -> (r: bool)
    ensures
        r == cs@.contains(c),
{
    let mut i: usize = 0;
    while i < cs.len()
        invariant
            i <= cs@.len(),
            forall|j: int| 0 <= j < i ==> cs@[j] != c,
        decreases cs@.len() - i,
    {
        if cs[i] == c {
            assert(cs@[i as int] == c);
            return true;
        }
        i = i + 1;
    }
    false
}

/// The file being edited: its lines, the cursor (row, and column in
/// characters), the mode, the operations waiting to be carried out and the
/// macro detector.
pub struct Editor {
    pub lines: Vec<String>,
    pub row: usize,
    pub col: usize,
    pub mode: Mode,
    pub ops: Vec<Operation>,
    pub macros: OperationBuffer,
}

impl Editor {
    /// The lines, cursor and mode.
    pub open spec fn state(&self) -> EditState {
        EditState { lines: line_views(self.lines@), row: self.row as int, col: self.col as int, mode: self.mode }
    }

    /// There is a line and the cursor is within the text.
    pub open spec fn wf(&self) -> bool {
        valid_state(self.state())
    }

    /// An editor on `lines` (one empty line when there are none), in normal
    /// mode at the start of the first line, with no operations waiting.
    pub fn new(lines: Vec<String>) -> (r: Self)
        ensures
            r.wf(),
            r.state().lines == (if lines@.len() == 0 {
                seq![Seq::<char>::empty()]
            } else {
                line_views(lines@)
            }),
            r.row == 0,
            r.col == 0,
            r.mode == Mode::Normal,
            r.ops@.len() == 0,
            r.macros.entries() == OperationBuffer::new_entries(),
            r.macros.macStart@ == seq!['j', '{'],
            r.macros.wf(),
            r.macros.currMac@.len() == 0,
            r.macros.currOp@.len() == 0,
            r.macros.lastOp@.len() == 0,
    {
        let mut lines = lines;
        if lines.len() == 0 {
            lines.push(String::new());
        }
        let r = Editor {
            lines,
            row: 0,
            col: 0,
            mode: Mode::Normal,
            ops: Vec::new(),
            macros: OperationBuffer::new(),
        };
        assert(r.state().lines.len() > 0);
        r
    }

    /// The number of characters on line `r`.
    fn line_len(&self, r: usize) -> (n: usize)
        requires
            r < self.lines@.len(),
        ensures
            n == self.lines@[r as int]@.len(),
    {
        self.lines[r].as_str().unicode_len()
    }

    /// Moves the cursor by `m`.
    pub fn move_cursor(&mut self, m: Motion)
        requires
            old(self).wf(),
        ensures
            final(self).wf(),
            final(self).state() == moved(old(self).state(), m),
            final(self).ops == old(self).ops,
            final(self).macros == old(self).macros,
    {
        let ghost st = self.state();
        let n = self.lines.len();
        let len = self.line_len(self.row);
        match m {
            Motion::Up(k) => {
                let s: usize = if k < 0 { 0 } else { k as usize };
                let r = if self.row < s { 0 } else { self.row - s };
                let l = self.line_len(r);
                self.row = r;
                if l < self.col {
                    self.col = l;
                }
            },
            Motion::Down(k) => {
                let s: usize = if k < 0 { 0 } else { k as usize };
                let r = if s >= n - 1 - self.row { n - 1 } else { self.row + s };
                let l = self.line_len(r);
                self.row = r;
                if l < self.col {
                    self.col = l;
                }
            },
            Motion::Left(k) => {
                let s: usize = if k < 0 { 0 } else { k as usize };
                self.col = if self.col < s { 0 } else { self.col - s };
            },
            Motion::Right(k) => {
                let s: usize = if k < 0 { 0 } else { k as usize };
                self.col = if s >= len - self.col { len } else { self.col + s };
            },
            Motion::BeginLine => {
                self.col = 0;
            },
            Motion::Endline => {
                self.col = len;
            },
        }
        assert(self.state() == moved(st, m));
    }

    /// Types `t` at the cursor; the cursor moves past it.
    pub fn insert_text(&mut self, t: &str)
        requires
            old(self).wf(),
        ensures
            final(self).wf(),
            final(self).state() == inserted(old(self).state(), t@),
            final(self).ops == old(self).ops,
            final(self).macros == old(self).macros,
    {
        let ghost st = self.state();
        let ghost line = st.lines[st.row];
        let cs = chars_of(self.lines[self.row].as_str());
        let ts = chars_of(t);
        let mut nv: Vec<char> = Vec::new();
        extend_range(&mut nv, &cs, 0, self.col);
        extend_range(&mut nv, &ts, 0, ts.len());
        let newcol = nv.len();
        extend_range(&mut nv, &cs, self.col, cs.len());
        assert(nv@ =~= line.take(st.col) + t@ + line.skip(st.col));
        let text = string_of(&nv);
        self.lines.set(self.row, text);
        self.col = newcol;
        assert(self.state().lines =~= st.lines.update(st.row, nv@));
        assert(self.state() == inserted(st, t@));
    }

    /// Opens a new line above (`Up`) or below the cursor's line; with `carry`
    /// the text from the cursor on moves to it. The cursor goes to its start.
    pub fn new_line(&mut self, m: Motion, carry: bool)
        requires
            old(self).wf(),
        ensures
            final(self).wf(),
            final(self).state() == opened(old(self).state(), m, carry),
            final(self).ops == old(self).ops,
            final(self).macros == old(self).macros,
    {
        let ghost st = self.state();
        let ghost line = st.lines[st.row];
        let cs = chars_of(self.lines[self.row].as_str());
        let mut rest: Vec<char> = Vec::new();
        if carry {
            extend_range(&mut rest, &cs, self.col, cs.len());
            let mut head: Vec<char> = Vec::new();
            extend_range(&mut head, &cs, 0, self.col);
            let h = string_of(&head);
            self.lines.set(self.row, h);
            assert(head@ =~= line.take(st.col));
            assert(rest@ =~= line.skip(st.col));
        } else {
            assert(rest@ =~= Seq::<char>::empty());
        }
        let ghost base = line_views(self.lines@);
        assert(base =~= (if carry {
            st.lines.update(st.row, line.take(st.col))
        } else {
            st.lines
        }));
        let r = string_of(&rest);
        let n = self.lines.len();
        assert(self.row < n);
        match m {
            Motion::Up(_) => {
                self.lines.insert(self.row, r);
                assert(line_views(self.lines@) =~= base.insert(st.row, rest@));
            },
            _ => {
                self.lines.insert(self.row + 1, r);
                self.row = self.row + 1;
                assert(line_views(self.lines@) =~= base.insert(st.row + 1, rest@));
            },
        }
        self.col = 0;
        assert(self.state() == opened(st, m, carry));
    }

    /// Deletes the character under the cursor, if there is one.
    pub fn delete_char(&mut self)
        requires
            old(self).wf(),
        ensures
            final(self).wf(),
            final(self).state() == char_deleted(old(self).state()),
            final(self).ops == old(self).ops,
            final(self).macros == old(self).macros,
    {
        let ghost st = self.state();
        let ghost line = st.lines[st.row];
        let cs = chars_of(self.lines[self.row].as_str());
        if self.col < cs.len() {
            let mut nv: Vec<char> = Vec::new();
            extend_range(&mut nv, &cs, 0, self.col);
            extend_range(&mut nv, &cs, self.col + 1, cs.len());
            assert(nv@ =~= line.remove(st.col));
            let text = string_of(&nv);
            self.lines.set(self.row, text);
            assert(self.state().lines =~= st.lines.update(st.row, nv@));
        }
        assert(self.state() == char_deleted(st));
    }

    /// Deletes the character before the cursor; at the start of a line,
    /// joins the line to the one above.
    pub fn backspace(&mut self)
        requires
            old(self).wf(),
        ensures
            final(self).wf(),
            final(self).state() == backspaced(old(self).state()),
            final(self).ops == old(self).ops,
            final(self).macros == old(self).macros,
    {
        let ghost st = self.state();
        let ghost line = st.lines[st.row];
        if self.col > 0 {
            let cs = chars_of(self.lines[self.row].as_str());
            let mut nv: Vec<char> = Vec::new();
            extend_range(&mut nv, &cs, 0, self.col - 1);
            extend_range(&mut nv, &cs, self.col, cs.len());
            assert(nv@ =~= line.remove(st.col - 1));
            let text = string_of(&nv);
            self.lines.set(self.row, text);
            self.col = self.col - 1;
            assert(self.state().lines =~= st.lines.update(st.row, nv@));
        } else if self.row > 0 {
            let cur = self.lines.remove(self.row);
            let ghost removed = line_views(self.lines@);
            assert(removed =~= st.lines.remove(st.row));
            let prev = chars_of(self.lines[self.row - 1].as_str());
            let tail = chars_of(cur.as_str());
            let mut nv: Vec<char> = Vec::new();
            extend_range(&mut nv, &prev, 0, prev.len());
            let join = nv.len();
            extend_range(&mut nv, &tail, 0, tail.len());
            assert(prev@ =~= st.lines[st.row - 1]);
            assert(nv@ =~= st.lines[st.row - 1] + line);
            let text = string_of(&nv);
            self.lines.set(self.row - 1, text);
            self.row = self.row - 1;
            self.col = join;
            assert(self.state().lines =~= removed.update(st.row - 1, nv@));
        }
        assert(self.state() == backspaced(st));
    }

    /// Deletes the cursor's line; the last line left is emptied instead.
    pub fn delete_line(&mut self)
        requires
            old(self).wf(),
        ensures
            final(self).wf(),
            final(self).state() == line_deleted(old(self).state()),
            final(self).ops == old(self).ops,
            final(self).macros == old(self).macros,
    {
        let ghost st = self.state();
        if self.lines.len() > 1 {
            let _ = self.lines.remove(self.row);
            assert(line_views(self.lines@) =~= st.lines.remove(st.row));
            let last = self.lines.len() - 1;
            if self.row > last {
                self.row = last;
            }
            let l = self.line_len(self.row);
            if l < self.col {
                self.col = l;
            }
        } else {
            self.lines.set(0, String::new());
            self.row = 0;
            self.col = 0;
            assert(line_views(self.lines@) =~= seq![Seq::<char>::empty()]);
        }
        assert(self.state() == line_deleted(st));
    }

    /// Carries out one operation.
    pub fn apply(&mut self, op: Operation)
        requires
            old(self).wf(),
        ensures
            final(self).wf(),
            final(self).state() == applied(old(self).state(), op@),
            final(self).ops == old(self).ops,
            final(self).macros == old(self).macros,
    {
        match op {
            Operation::ToInsert => {
                self.mode = Mode::Insert;
            },
            Operation::Insert(t) => {
                self.mode = Mode::Insert;
                self.insert_text(t.as_str());
            },
            Operation::ToNormal => {
                self.mode = Mode::Normal;
            },
            Operation::EnterCmd => {
                self.mode = Mode::Cmd;
            },
            Operation::Delete => self.delete_char(),
            Operation::NewLine(m) => {
                let carry = self.mode == Mode::Insert;
                self.new_line(m, carry);
            },
            Operation::Up => self.move_cursor(Motion::Up(1)),
            Operation::Down => self.move_cursor(Motion::Down(1)),
            Operation::Left => self.move_cursor(Motion::Left(1)),
            Operation::Right => self.move_cursor(Motion::Right(1)),
        }
    }

    /// Carries out the waiting operations in order, leaving none waiting.
    pub fn eval_operations(&mut self)
        requires
            old(self).wf(),
        ensures
            final(self).wf(),
            final(self).state() == applied_all(old(self).state(), op_views(old(self).ops@)),
            final(self).ops@.len() == 0,
            final(self).macros == old(self).macros,
    {
        let ghost target = applied_all(self.state(), op_views(self.ops@));
        let ghost m0 = self.macros;
        let mut pending: Vec<Operation> = Vec::new();
        std::mem::swap(&mut pending, &mut self.ops);
        while pending.len() > 0
            invariant
                self.wf(),
                applied_all(self.state(), op_views(pending@)) == target,
                self.ops@.len() == 0,
                self.macros == m0,
            decreases pending@.len(),
        {
            let ghost v = op_views(pending@);
            let op = pending.remove(0);
            assert(op_views(pending@) =~= v.drop_first());
            assert(op@ == v[0]);
            self.apply(op);
        }
        assert(op_views(pending@) =~= Seq::<OperationView>::empty());
    }

    /// Passes an insert-mode character to the macro detector; a finished
    /// macro's operations are queued. The text is not touched.
    pub fn feed_macro(&mut self, c: char) -> (r: Option<QuickAction>)
        requires
            old(self).wf(),
        ensures
            final(self).wf(),
            final(self).state() == old(self).state(),
            macro_fed(old(self).macros, final(self).macros, c, r),
            op_views(final(self).ops@) == op_views(old(self).ops@) + queued(r),
    {
        let ghost before = op_views(self.ops@);
        let answer = if self.macros.currMac.len() == 0 {
            if !has_char(&self.macros.macStart, c) {
                assert(op_views(self.ops@) =~= before + queued(None));
                return None;
            }
            assert(self.macros.currMac@.push(c) =~= seq![c]);
            self.macros.startMacro(c)
        } else {
            self.macros.checkMacro(c)
        };
        match answer {
            Some(a) => {
                if a != QuickAction::NAQA {
                    self.macros.executeMaco(&mut self.ops, a);
                }
            },
            None => {},
        }
        assert(op_views(self.ops@) =~= before + queued(answer));
        answer
    }

    /// A normal-mode character.
    fn normal_key(&mut self, c: char)
        requires
            old(self).wf(),
        ensures
            final(self).wf(),
            final(self).state() == normal_key(old(self).state(), c),
            final(self).ops == old(self).ops,
            final(self).macros == old(self).macros,
    {
        if c == 'k' {
            self.move_cursor(Motion::Up(1));
        } else if c == 'j' {
            self.move_cursor(Motion::Down(1));
        } else if c == 'h' {
            self.move_cursor(Motion::Left(1));
        } else if c == 'l' {
            self.move_cursor(Motion::Right(1));
        } else if c == 'i' {
            self.mode = Mode::Insert;
        } else if c == 'x' {
            self.delete_char();
        } else if c == '\n' {
            self.new_line(Motion::Down(1), false);
        } else if c == 'o' {
            self.new_line(Motion::Down(1), false);
            self.mode = Mode::Insert;
        } else if c == 'O' {
            self.new_line(Motion::Up(1), false);
            self.mode = Mode::Insert;
        } else if c == 'a' {
            self.mode = Mode::Insert;
            self.move_cursor(Motion::Right(1));
        } else if c == 'A' {
            self.mode = Mode::Insert;
            self.move_cursor(Motion::Endline);
        } else if c == 'I' {
            self.mode = Mode::Insert;
            self.move_cursor(Motion::BeginLine);
        } else if c == ':' {
            self.mode = Mode::Cmd;
        }
    }

    /// An insert-mode character's effect on the text.
    fn insert_key(&mut self, c: char)
        requires
            old(self).wf(),
        ensures
            final(self).wf(),
            final(self).state() == insert_key(old(self).state(), c),
            final(self).ops == old(self).ops,
            final(self).macros == old(self).macros,
    {
        if c == '\n' {
            self.new_line(Motion::Down(1), true);
        } else if c == '\t' {
            let four = "    ";
            proof {
                reveal_strlit("    ");
            }
            assert(four@ =~= seq![' ', ' ', ' ', ' ']);
            self.insert_text(four);
        } else {
            let ghost st = self.state();
            let ghost line = st.lines[st.row];
            let cs = chars_of(self.lines[self.row].as_str());
            let mut nv: Vec<char> = Vec::new();
            extend_range(&mut nv, &cs, 0, self.col);
            nv.push(c);
            let newcol = nv.len();
            extend_range(&mut nv, &cs, self.col, cs.len());
            assert(nv@ =~= line.take(st.col) + seq![c] + line.skip(st.col));
            let text = string_of(&nv);
            self.lines.set(self.row, text);
            self.col = newcol;
            assert(self.state().lines =~= st.lines.update(st.row, nv@));
            assert(self.state() == inserted(st, seq![c]));
        }
    }

    /// Handles one key. Returns whether the key ends the session, which the
    /// caller does after saving. In insert mode a character first goes to the
    /// macro detector, whose finished macros queue their operations; the
    /// queue is carried out by `eval_operations`.
    pub fn handle_key(&mut self, key: KeyEvent) -> (quit: bool)
        requires
            old(self).wf(),
        ensures
            final(self).wf(),
            quit == key_quits(old(self).state(), key),
            final(self).state() == key_step(old(self).state(), key),
            (match key {
                KeyEvent::Char(c) => if old(self).mode == Mode::Insert {
                    exists|r: Option<QuickAction>|
                        #[trigger] macro_fed(old(self).macros, final(self).macros, c, r) && op_views(
                            final(self).ops@,
                        ) == op_views(old(self).ops@) + queued(r)
                } else {
                    final(self).ops == old(self).ops && final(self).macros == old(self).macros
                },
                _ => final(self).ops == old(self).ops && final(self).macros == old(self).macros,
            }),
    {
        match key {
            KeyEvent::Up => self.move_cursor(Motion::Up(1)),
            KeyEvent::Down => self.move_cursor(Motion::Down(1)),
            KeyEvent::Left => self.move_cursor(Motion::Left(1)),
            KeyEvent::Right => self.move_cursor(Motion::Right(1)),
            KeyEvent::Esc => match self.mode {
                Mode::Normal => {
                    return true;
                },
                Mode::Insert => {
                    self.mode = Mode::Normal;
                },
                Mode::Cmd => {},
            },
            KeyEvent::Backspace => match self.mode {
                Mode::Normal => self.delete_line(),
                Mode::Insert => self.backspace(),
                Mode::Cmd => {},
            },
            KeyEvent::Char(c) => match self.mode {
                Mode::Normal => self.normal_key(c),
                Mode::Insert => {
                    let ghost m = self.macros;
                    let ghost o = op_views(self.ops@);
                    let answer = self.feed_macro(c);
                    self.insert_key(c);
                    assert(macro_fed(m, self.macros, c, answer));
                    assert(op_views(self.ops@) == o + queued(answer));
                },
                Mode::Cmd => {},
            },
            KeyEvent::Other => {},
        }
        false
    }
}

/// Backspace undoes typing a character: the text and cursor are as before.
pub proof fn law_backspace_undoes_typing(st: EditState, c: char)
    requires
        valid_state(st),
    ensures
        backspaced(inserted(st, seq![c])) == st,
{
    let line = st.lines[st.row];
    let typed = line.take(st.col) + seq![c] + line.skip(st.col);
    assert(typed.remove(st.col) =~= line);
    assert(st.lines.update(st.row, typed).update(st.row, line) =~= st.lines);
}

/// Backspace at the start of a line undoes splitting it: the text and cursor
/// are as before the split.
pub proof fn law_backspace_undoes_split(st: EditState)
    requires
        valid_state(st),
    ensures
        backspaced(opened(st, Motion::Down(1), true)) == st,
{
    let line = st.lines[st.row];
    let split = st.lines.update(st.row, line.take(st.col)).insert(st.row + 1, line.skip(st.col));
    assert(split.remove(st.row + 1) =~= st.lines.update(st.row, line.take(st.col)));
    assert(line.take(st.col) + line.skip(st.col) =~= line);
    assert(split.remove(st.row + 1).update(st.row, line.take(st.col) + line.skip(st.col)) =~= st.lines);
}

/// Motion `Down(n)` (n not negative) goes `n` lines down, stopping at the last
/// line; `Up(n)` goes `n` lines up, stopping at the first. The text and mode
/// stay; the column stays where the new line is long enough, else it goes to
/// the end of that line.
pub proof fn law_vertical_motion(st: EditState, n: i32)
    requires
        valid_state(st),
        n >= 0,
    ensures
        ({
            let d = moved(st, Motion::Down(n));
            &&& d.lines == st.lines
            &&& d.mode == st.mode
            &&& d.row == (if st.row + n <= st.lines.len() - 1 {
                st.row + n
            } else {
                st.lines.len() - 1
            })
            &&& valid_state(d)
            &&& (st.col <= d.lines[d.row].len() ==> d.col == st.col)
            &&& (st.col > d.lines[d.row].len() ==> d.col == d.lines[d.row].len())
        }),
        ({
            let u = moved(st, Motion::Up(n));
            &&& u.lines == st.lines
            &&& u.mode == st.mode
            &&& u.row == (if st.row >= n {
                st.row - n
            } else {
                0
            })
            &&& valid_state(u)
            &&& (st.col <= u.lines[u.row].len() ==> u.col == st.col)
            &&& (st.col > u.lines[u.row].len() ==> u.col == u.lines[u.row].len())
        }),
{
}

/// Motion `Left(n)` (n not negative) goes `n` characters left, stopping at
/// the start of the line; `Right(n)` goes `n` right, stopping at its end.
pub proof fn law_horizontal_motion(st: EditState, n: i32)
    requires
        valid_state(st),
        n >= 0,
    ensures
        ({
            let l = moved(st, Motion::Left(n));
            &&& l.lines == st.lines && l.row == st.row && l.mode == st.mode
            &&& l.col == (if st.col >= n {
                st.col - n
            } else {
                0
            })
        }),
        ({
            let r = moved(st, Motion::Right(n));
            &&& r.lines == st.lines && r.row == st.row && r.mode == st.mode
            &&& r.col == (if st.col + n <= st.lines[st.row].len() {
                st.col + n
            } else {
                st.lines[st.row].len() as int
            })
        }),
{
}

/// The arrow keys and, in normal mode, `j` and `k` move one line: down when a
/// line follows, up when one precedes; otherwise the row stays. `h` and `l`
/// move one character within the line. The text and mode stay.
pub proof fn law_line_keys(st: EditState)
    requires
        valid_state(st),
    ensures
        ({
            let d = key_step(st, KeyEvent::Down);
            &&& d.lines == st.lines && d.mode == st.mode
            &&& d.row == (if st.row + 1 < st.lines.len() {
                st.row + 1
            } else {
                st.row
            })
        }),
        ({
            let u = key_step(st, KeyEvent::Up);
            &&& u.lines == st.lines && u.mode == st.mode
            &&& u.row == (if st.row > 0 {
                st.row - 1
            } else {
                0
            })
        }),
        st.mode == Mode::Normal ==> {
            let j = key_step(st, KeyEvent::Char('j'));
            let k = key_step(st, KeyEvent::Char('k'));
            let h = key_step(st, KeyEvent::Char('h'));
            let l = key_step(st, KeyEvent::Char('l'));
            &&& j.lines == st.lines && j.mode == Mode::Normal
            &&& j.row == (if st.row + 1 < st.lines.len() {
                st.row + 1
            } else {
                st.row
            })
            &&& k.lines == st.lines && k.mode == Mode::Normal
            &&& k.row == (if st.row > 0 {
                st.row - 1
            } else {
                0
            })
            &&& h.lines == st.lines && h.row == st.row && h.col == (if st.col > 0 {
                st.col - 1
            } else {
                0
            })
            &&& l.lines == st.lines && l.row == st.row && l.col == (if st.col < st.lines[st.row].len() {
                st.col + 1
            } else {
                st.col
            })
        },
{
    law_vertical_motion(st, 1);
    law_horizontal_motion(st, 1);
}

/// Deleting a line removes exactly the cursor's line: the lines before it
/// stay, those after it move up by one, and the cursor stays on the same row
/// (now the line that followed) unless the last line went, when it goes to
/// the new last line. A lone line is emptied instead. This is what Backspace
/// does in normal mode.
pub proof fn law_delete_line(st: EditState)
    requires
        valid_state(st),
    ensures
        key_step(in_mode(st, Mode::Normal), KeyEvent::Backspace) == line_deleted(in_mode(st, Mode::Normal)),
        ({
            let d = line_deleted(st);
            &&& valid_state(d)
            &&& d.mode == st.mode
            &&& st.lines.len() > 1 ==> {
                &&& d.lines.len() == st.lines.len() - 1
                &&& forall|i: int| 0 <= i < st.row ==> #[trigger] d.lines[i] == st.lines[i]
                &&& forall|i: int| st.row <= i < d.lines.len() ==> #[trigger] d.lines[i] == st.lines[i + 1]
                &&& d.row == (if st.row < st.lines.len() - 1 {
                    st.row
                } else {
                    st.row - 1
                })
            }
            &&& st.lines.len() == 1 ==> d.lines == seq![Seq::<char>::empty()] && d.row == 0 && d.col == 0
        }),
{
}

/// `x` in normal mode deletes exactly the character under the cursor: the
/// characters before it stay, those after it move left by one, the cursor
/// stays, and the other lines stay. At the end of a line nothing changes.
pub proof fn law_x_deletes_under_cursor(st: EditState)
    requires
        valid_state(st),
        st.mode == Mode::Normal,
    ensures
        ({
            let d = key_step(st, KeyEvent::Char('x'));
            let line = st.lines[st.row];
            let nl = d.lines[st.row];
            &&& d.row == st.row && d.col == st.col && d.mode == st.mode
            &&& d.lines.len() == st.lines.len()
            &&& forall|i: int| 0 <= i < st.lines.len() && i != st.row ==> #[trigger] d.lines[i] == st.lines[i]
            &&& st.col < line.len() ==> {
                &&& nl.len() == line.len() - 1
                &&& forall|j: int| 0 <= j < st.col ==> #[trigger] nl[j] == line[j]
                &&& forall|j: int| st.col <= j < nl.len() ==> #[trigger] nl[j] == line[j + 1]
            }
            &&& st.col == line.len() ==> d.lines == st.lines
        }),
{
}

} // verus!
