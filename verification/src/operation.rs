//! Editor operations and the detector for insert-mode quick macros: short key
//! sequences (`jk`, `{` then newline) that, typed quickly enough, trigger an
//! action instead of plain text.

use vstd::prelude::*;
use std::time::Instant;
use crate::clock::{duration_millis, instant_elapsed, instant_now};

verus! {

/// What a completed quick macro asks for; `NAQA` means "not a quick action".
#[derive(Clone, Copy, Debug, PartialEq, Eq, Structural)]
pub enum QuickAction {
    QuickNormal,
    MakeBlock,
    NAQA,
}

/// A cursor movement.
#[derive(Clone, Copy, Debug, PartialEq, Eq, Structural)]
pub enum Motion {
    Up(i32),
    Down(i32),
    Left(i32),
    Right(i32),
    BeginLine,
    Endline,
}

/// A step for the buffer to carry out.
#[derive(Clone, Debug)]
pub enum Operation {
    ToInsert,
    Insert(String),
    ToNormal,
    EnterCmd,
    Delete,
    NewLine(Motion),
    Up,
    Down,
    Left,
    Right,
}

/// An operation, with inserted text as a character sequence.
pub enum OperationView {
    ToInsert,
    Insert(Seq<char>),
    ToNormal,
    EnterCmd,
    Delete,
    NewLine(Motion),
    Up,
    Down,
    Left,
    Right,
}

impl View for Operation {
    type V = OperationView;

    open spec fn view(&self) -> OperationView {
        match self {
            Operation::ToInsert => OperationView::ToInsert,
            Operation::Insert(s) => OperationView::Insert(s@),
            Operation::ToNormal => OperationView::ToNormal,
            Operation::EnterCmd => OperationView::EnterCmd,
            Operation::Delete => OperationView::Delete,
            Operation::NewLine(m) => OperationView::NewLine(*m),
            Operation::Up => OperationView::Up,
            Operation::Down => OperationView::Down,
            Operation::Left => OperationView::Left,
            Operation::Right => OperationView::Right,
        }
    }
}

/// The views of a sequence of operations.
pub open spec fn op_views(ops: Seq<Operation>) -> Seq<OperationView> {
    ops.map_values(|o: Operation| o@)
}

/// The macro table as key characters and actions.
pub open spec fn macro_entries(ms: Seq<(String, QuickAction)>) -> Seq<(Seq<char>, QuickAction)> {
    ms.map_values(|e: (String, QuickAction)| (e.0@, e.1))
}

/// The keys of the macro table, in table order.
pub open spec fn macro_keys(ms: Seq<(String, QuickAction)>) -> Seq<Seq<char>> {
    ms.map_values(|e: (String, QuickAction)| e.0@)
}

/// The `i`-th character of `k`, if it has one.
pub open spec fn key_char(k: Seq<char>, i: int) -> Option<char> {
    if 0 <= i < k.len() {
        Some(k[i])
    } else {
        None
    }
}

/// One narrowing pass at position `i`: scanning the candidates in order, drop
/// those whose `i`-th character is not `target`; the first candidate too short
/// to have an `i`-th character ends the pass, and it and all after it stay.
pub open spec fn narrow_at(keys: Seq<Seq<char>>, i: int, target: char) -> Seq<Seq<char>>
    decreases keys.len(),
{
    if keys.len() == 0 {
        keys
    } else {
        match key_char(keys[0], i) {
            Option::None => keys,
            Option::Some(ch) => if ch == target {
                seq![keys[0]] + narrow_at(keys.drop_first(), i, target)
            } else {
                narrow_at(keys.drop_first(), i, target)
            },
        }
    }
}

/// The candidates left after narrowing by the first `n` typed characters.
pub open spec fn narrow(keys: Seq<Seq<char>>, typed: Seq<char>, n: int) -> Seq<Seq<char>>
    decreases n,
{
    if n <= 0 {
        keys
    } else {
        narrow_at(narrow(keys, typed, n - 1), n - 1, typed[n - 1])
    }
}

/// The first candidate with a character at position `m` decides: `Some(true)`
/// if that character is `c`, `Some(false)` if not; `None` if no candidate is
/// that long.
pub open spec fn next_step(keys: Seq<Seq<char>>, m: int, c: char) -> Option<bool>
    decreases keys.len(),
{
    if keys.len() == 0 {
        Option::None
    } else {
        match key_char(keys[0], m) {
            Option::Some(ch) => Option::Some(ch == c),
            Option::None => next_step(keys.drop_first(), m, c),
        }
    }
}

/// The action of the first entry whose key is `k`.
pub open spec fn lookup(entries: Seq<(Seq<char>, QuickAction)>, k: Seq<char>) -> Option<QuickAction>
    decreases entries.len(),
{
    if entries.len() == 0 {
        Option::None
    } else if entries[0].0 == k {
        Option::Some(entries[0].1)
    } else {
        lookup(entries.drop_first(), k)
    }
}

/// The candidates for the typed characters `typed`.
pub open spec fn candidates(entries: Seq<(Seq<char>, QuickAction)>, typed: Seq<char>) -> Seq<Seq<char>> {
    narrow(entries.map_values(|e: (Seq<char>, QuickAction)| e.0), typed, typed.len() as int)
}

/// The answer to `c` arriving in time after `typed`: `NAQA` when no macro is a
/// candidate; nothing when the candidate's next character differs; otherwise
/// the action whose key is exactly what has then been typed, if any.
pub open spec fn macro_result(entries: Seq<(Seq<char>, QuickAction)>, typed: Seq<char>, c: char) -> Option<QuickAction> {
    let cands = candidates(entries, typed);
    if cands.len() == 0 {
        Option::Some(QuickAction::NAQA)
    } else {
        match next_step(cands, typed.len() as int, c) {
            Option::Some(false) => Option::None,
            Option::Some(true) => lookup(entries, typed.push(c)),
            Option::None => lookup(entries, typed),
        }
    }
}

/// What has been typed after `c` arrives in time: `c` is added only when it is
/// the candidate's next character.
pub open spec fn macro_typed(entries: Seq<(Seq<char>, QuickAction)>, typed: Seq<char>, c: char) -> Seq<char> {
    let cands = candidates(entries, typed);
    if cands.len() > 0 && next_step(cands, typed.len() as int, c) == Option::Some(true) {
        typed.push(c)
    } else {
        typed
    }
}

/// Milliseconds after the last key within which the next key still counts
/// toward a macro.
pub open spec fn macro_window() -> u128 {
    250
}

/// The operations a quick action stands for.
pub open spec fn action_ops(action: QuickAction) -> Seq<OperationView> {
    match action {
        QuickAction::QuickNormal => seq![OperationView::ToNormal],
        QuickAction::MakeBlock => seq![
            OperationView::Insert(seq!['{', '}']),
            OperationView::Left,
            OperationView::NewLine(Motion::Down(1)),
            OperationView::ToNormal,
            OperationView::NewLine(Motion::Up(1)),
            OperationView::Insert(seq![' ', ' ', ' ', ' ']),
        ],
        QuickAction::NAQA => seq![],
    }
}

/// The keys at the given table positions.
pub open spec fn keys_at(ms: Seq<(String, QuickAction)>, idx: Seq<usize>) -> Seq<Seq<char>> {
    idx.map_values(|j: usize| ms[j as int].0@)
}

/// Every position in `idx` is below `n`.
pub open spec fn all_below(idx: Seq<usize>, n: int) -> bool {
    forall|m: int| 0 <= m < idx.len() ==> #[trigger] idx[m] < n
}

/// Whether the key `key` is exactly the characters `typed`.
fn key_equals(key: &str, typed: &Vec<char>) -> (r: bool)
    ensures
        r == (key@ == typed@),
{
    let n = key.unicode_len();
    if n != typed.len() {
        return false;
    }
    let mut i: usize = 0;
    while i < n
        invariant
            n == key@.len(),
            n == typed@.len(),
            i <= n,
            forall|j: int| 0 <= j < i ==> key@[j] == typed@[j],
        decreases n - i,
    {
        if key.get_char(i) != typed[i] {
            return false;
        }
        i = i + 1;
    }
    assert(key@ =~= typed@);
    true
}

/// One narrowing pass over the candidate positions `cands`.
fn narrow_step(ms: &Vec<(String, QuickAction)>, cands: &Vec<usize>, i: usize, target: char) -> (r: Vec<usize>)
    requires
        all_below(cands@, ms@.len() as int),
    ensures
        all_below(r@, ms@.len() as int),
        keys_at(ms@, r@) == narrow_at(keys_at(ms@, cands@), i as int, target),
{
    let ghost whole = narrow_at(keys_at(ms@, cands@), i as int, target);
    let mut out: Vec<usize> = Vec::new();
    let mut m: usize = 0;
    let n = cands.len();
    assert(cands@.skip(0) =~= cands@);
    while m < n
        invariant
            n == cands@.len(),
            m <= n,
            all_below(cands@, ms@.len() as int),
            all_below(out@, ms@.len() as int),
            keys_at(ms@, out@) + narrow_at(keys_at(ms@, cands@.skip(m as int)), i as int, target)
                == whole,
        decreases n - m,
    {
        let j = cands[m];
        let ghost before = keys_at(ms@, out@);
        let ghost rest = keys_at(ms@, cands@.skip(m as int));
        assert(rest[0] == ms@[j as int].0@);
        assert(rest.drop_first() =~= keys_at(ms@, cands@.skip(m + 1)));
        let key = ms[j].0.as_str();
        if i < key.unicode_len() {
            if key.get_char(i) == target {
                out.push(j);
                assert(keys_at(ms@, out@) =~= before + seq![rest[0]]);
            }
            m = m + 1;
        } else {
            assert(narrow_at(rest, i as int, target) == rest);
            while m < n
                invariant
                    n == cands@.len(),
                    m <= n,
                    all_below(cands@, ms@.len() as int),
                    all_below(out@, ms@.len() as int),
                    keys_at(ms@, out@) + keys_at(ms@, cands@.skip(m as int)) == whole,
                decreases n - m,
            {
                let ghost b2 = keys_at(ms@, out@);
                let ghost r2 = keys_at(ms@, cands@.skip(m as int));
                assert(r2.drop_first() =~= keys_at(ms@, cands@.skip(m + 1)));
                out.push(cands[m]);
                assert(keys_at(ms@, out@) =~= b2 + seq![r2[0]]);
                m = m + 1;
            }
        }
    }
    assert(keys_at(ms@, cands@.skip(m as int)) =~= Seq::<Seq<char>>::empty());
    assert(keys_at(ms@, out@) =~= whole);
    out
}

/// What the first candidate long enough says about `c` at position `m`.
fn next_step_of(ms: &Vec<(String, QuickAction)>, cands: &Vec<usize>, m: usize, c: char) -> (r: Option<bool>)
    requires
        all_below(cands@, ms@.len() as int),
    ensures
        r == next_step(keys_at(ms@, cands@), m as int, c),
{
    let n = cands.len();
    let mut k: usize = 0;
    assert(cands@.skip(0) =~= cands@);
    while k < n
        invariant
            n == cands@.len(),
            k <= n,
            all_below(cands@, ms@.len() as int),
            next_step(keys_at(ms@, cands@.skip(k as int)), m as int, c) == next_step(
                keys_at(ms@, cands@),
                m as int,
                c,
            ),
        decreases n - k,
    {
        let j = cands[k];
        let ghost rest = keys_at(ms@, cands@.skip(k as int));
        assert(rest[0] == ms@[j as int].0@);
        assert(rest.drop_first() =~= keys_at(ms@, cands@.skip(k + 1)));
        let key = ms[j].0.as_str();
        if m < key.unicode_len() {
            return Some(key.get_char(m) == c);
        }
        k = k + 1;
    }
    assert(keys_at(ms@, cands@.skip(k as int)) =~= Seq::<Seq<char>>::empty());
    None
}

/// The action of the first macro whose key is exactly `typed`.
fn find_macro(ms: &Vec<(String, QuickAction)>, typed: &Vec<char>) -> (r: Option<QuickAction>)
    ensures
        r == lookup(macro_entries(ms@), typed@),
{
    let n = ms.len();
    let mut k: usize = 0;
    assert(macro_entries(ms@).skip(0) =~= macro_entries(ms@));
    while k < n
        invariant
            n == ms@.len(),
            k <= n,
            lookup(macro_entries(ms@).skip(k as int), typed@) == lookup(macro_entries(ms@), typed@),
        decreases n - k,
    {
        let ghost rest = macro_entries(ms@).skip(k as int);
        assert(rest[0] == (ms@[k as int].0@, ms@[k as int].1));
        assert(rest.drop_first() =~= macro_entries(ms@).skip(k + 1));
        if key_equals(ms[k].0.as_str(), typed) {
            return Some(ms[k].1);
        }
        k = k + 1;
    }
    None
}

/// The macros, the first characters they start with, the macro typed so far,
/// operation histories and the time of the last macro key.
pub struct OperationBuffer {
    pub imacros: Vec<(String, QuickAction)>,
    pub macStart: Vec<char>,
    pub currMac: Vec<char>,
    pub currOp: Vec<Operation>,
    pub lastOp: Vec<Operation>,
    pub lastInp: Instant,
}

impl OperationBuffer {
    /// The macros a new buffer knows: `jk` returns to normal mode, `{` then
    /// newline opens a block.
    pub open spec fn new_entries() -> Seq<(Seq<char>, QuickAction)> {
        seq![(seq!['j', 'k'], QuickAction::QuickNormal), (seq!['{', '\n'], QuickAction::MakeBlock)]
    }

    /// No two macros share a key, and each key has a first character.
    pub open spec fn wf(&self) -> bool {
        let keys = macro_keys(self.imacros@);
        &&& forall|i: int, j: int| 0 <= i < j < keys.len() ==> keys[i] != keys[j]
        &&& forall|i: int| 0 <= i < keys.len() ==> #[trigger] keys[i].len() > 0
    }

    /// The buffer's macro table as key characters and actions.
    pub open spec fn entries(&self) -> Seq<(Seq<char>, QuickAction)> {
        macro_entries(self.imacros@)
    }
}

impl OperationBuffer {
    /// A buffer knowing two macros, `jk` (back to normal mode) and `{` then
    /// newline (open a block), with the first character of each as a macro
    /// start, nothing typed and no operations.
    pub fn new() -> (r: Self)
        ensures
            r.entries() == Self::new_entries(),
            r.macStart@ == macro_keys(r.imacros@).map_values(|k: Seq<char>| k[0]),
            r.macStart@ == seq!['j', '{'],
            r.currMac@.len() == 0,
            r.currOp@.len() == 0,
            r.lastOp@.len() == 0,
            r.wf(),
    {
        let quick = "jk".to_owned();
        let block = "{\n".to_owned();
        proof {
            reveal_strlit("jk");
            reveal_strlit("{\n");
        }
        assert(quick@ =~= seq!['j', 'k']);
        assert(block@ =~= seq!['{', '\n']);
        let imacros = vec![(quick, QuickAction::QuickNormal), (block, QuickAction::MakeBlock)];
        let ghost keys = macro_keys(imacros@);
        assert(keys[0] == seq!['j', 'k']);
        assert(keys[1] == seq!['{', '\n']);
        let mut macStart: Vec<char> = Vec::new();
        let n = imacros.len();
        let mut j: usize = 0;
        while j < n
            invariant
                n == imacros@.len(),
                keys == macro_keys(imacros@),
                forall|i: int| 0 <= i < keys.len() ==> #[trigger] keys[i].len() > 0,
                j <= n,
                macStart@ == keys.take(j as int).map_values(|k: Seq<char>| k[0]),
            decreases n - j,
        {
            assert(keys[j as int] == imacros@[j as int].0@);
            let start = imacros[j].0.as_str().get_char(0);
            macStart.push(start);
            j = j + 1;
            assert(macStart@ =~= keys.take(j as int).map_values(|k: Seq<char>| k[0]));
        }
        assert(keys.take(j as int) =~= keys);
        let r = Self {
            imacros,
            macStart,
            currMac: Vec::new(),
            currOp: Vec::new(),
            lastOp: Vec::new(),
            lastInp: instant_now(),
        };
        assert(r.entries() =~= seq![
            (seq!['j', 'k'], QuickAction::QuickNormal),
            (seq!['{', '\n'], QuickAction::MakeBlock),
        ]);
        assert(r.macStart@ =~= seq!['j', '{']);
        r
    }

    /// Answers `c` given that `elapsed` milliseconds have passed since the
    /// last macro key: after the window, `NAQA` with nothing changed; within
    /// it, the candidates are narrowed by what has been typed and `c` is
    /// judged against the first candidate long enough to have a next
    /// character. When `c` is taken it is added to the typed characters and
    /// the time of the last key is read anew.
    pub fn checkMacroAfter(&mut self, c: char, elapsed: u128) -> (r: Option<QuickAction>)
        ensures
            elapsed >= macro_window() ==> r == Option::Some(QuickAction::NAQA)
                && final(self).currMac@ == old(self).currMac@,
            elapsed < macro_window() ==> r == macro_result(old(self).entries(), old(self).currMac@, c)
                && final(self).currMac@ == macro_typed(old(self).entries(), old(self).currMac@, c),
            final(self).imacros == old(self).imacros,
            final(self).macStart == old(self).macStart,
            final(self).currOp == old(self).currOp,
            final(self).lastOp == old(self).lastOp,
            final(self).currMac@ == old(self).currMac@ ==> final(self).lastInp == old(self).lastInp,
    {
        if elapsed >= 250 {
            return Some(QuickAction::NAQA);
        }
        let ghost typed = self.currMac@;
        let ghost entries = self.entries();
        let ghost keys = entries.map_values(|e: (Seq<char>, QuickAction)| e.0);
        let n = self.imacros.len();
        let mut cands: Vec<usize> = Vec::new();
        let mut k: usize = 0;
        while k < n
            invariant
                n == self.imacros@.len(),
                k <= n,
                cands@ == Seq::new(k as nat, |j: int| j as usize),
            decreases n - k,
        {
            cands.push(k);
            k = k + 1;
            assert(cands@ =~= Seq::new(k as nat, |j: int| j as usize));
        }
        assert(keys_at(self.imacros@, cands@) =~= keys);
        assert(all_below(cands@, n as int));
        let len = self.currMac.len();
        let mut i: usize = 0;
        while i < len
            invariant
                len == typed.len(),
                typed == self.currMac@,
                entries == macro_entries(self.imacros@),
                keys == entries.map_values(|e: (Seq<char>, QuickAction)| e.0),
                i <= len,
                all_below(cands@, self.imacros@.len() as int),
                keys_at(self.imacros@, cands@) == narrow(keys, typed, i as int),
            decreases len - i,
        {
            cands = narrow_step(&self.imacros, &cands, i, self.currMac[i]);
            i = i + 1;
        }
        assert(keys_at(self.imacros@, cands@) == candidates(entries, typed));
        if cands.len() == 0 {
            return Some(QuickAction::NAQA);
        }
        match next_step_of(&self.imacros, &cands, len, c) {
            Some(false) => {
                return None;
            },
            Some(true) => {
                self.currMac.push(c);
                self.lastInp = instant_now();
            },
            None => {},
        }
        find_macro(&self.imacros, &self.currMac)
    }

    /// Answers `c`, reading from the clock how long ago the last macro key
    /// came. The clock decides between the two outcomes of
    /// `checkMacroAfter`.
    pub fn checkMacro(&mut self, c: char) -> (r: Option<QuickAction>)
        ensures
            (r == Option::Some(QuickAction::NAQA) && final(self).currMac@ == old(self).currMac@) || (
            r == macro_result(old(self).entries(), old(self).currMac@, c) && final(self).currMac@
                == macro_typed(old(self).entries(), old(self).currMac@, c)),
            final(self).imacros == old(self).imacros,
            final(self).macStart == old(self).macStart,
            final(self).currOp == old(self).currOp,
            final(self).lastOp == old(self).lastOp,
            final(self).currMac@ == old(self).currMac@ ==> final(self).lastInp == old(self).lastInp,
    {
        let d = instant_elapsed(&self.lastInp);
        let ms = duration_millis(&d);
        self.checkMacroAfter(c, ms)
    }

    /// Starts a macro with `c`: records it as typed, restarts the clock and
    /// answers it as `checkMacro` does. The clock has just been restarted, so
    /// `c` is in time: it is judged with no time elapsed.
    pub fn startMacro(&mut self, c: char) -> (r: Option<QuickAction>)
        ensures
            r == macro_result(old(self).entries(), old(self).currMac@.push(c), c),
            final(self).currMac@ == macro_typed(old(self).entries(), old(self).currMac@.push(c), c),
            final(self).imacros == old(self).imacros,
            final(self).macStart == old(self).macStart,
            final(self).currOp == old(self).currOp,
            final(self).lastOp == old(self).lastOp,
    {
        self.currMac.push(c);
        self.lastInp = instant_now();
        self.checkMacroAfter(c, 0)
    }

    /// Forgets the macro typed so far.
    pub fn resetMacro(&mut self)
        ensures
            final(self).currMac@ == Seq::<char>::empty(),
            final(self).imacros == old(self).imacros,
            final(self).macStart == old(self).macStart,
            final(self).currOp == old(self).currOp,
            final(self).lastOp == old(self).lastOp,
            final(self).lastInp == old(self).lastInp,
    {
        self.currMac.clear();
    }

    /// Queues the operations of `action` on `opStream` and forgets the typed
    /// macro. There are none for `NAQA`, which is not to be executed.
    pub fn executeMaco(&mut self, opStream: &mut Vec<Operation>, action: QuickAction)
        requires
            action != QuickAction::NAQA,
        ensures
            op_views(final(opStream)@) == op_views(old(opStream)@) + action_ops(action),
            final(self).currMac@ == Seq::<char>::empty(),
            final(self).imacros == old(self).imacros,
            final(self).macStart == old(self).macStart,
            final(self).currOp == old(self).currOp,
            final(self).lastOp == old(self).lastOp,
            final(self).lastInp == old(self).lastInp,
    {
        let ghost before = op_views(opStream@);
        match action {
            QuickAction::QuickNormal => {
                opStream.push(Operation::ToNormal);
                self.resetMacro();
            },
            QuickAction::MakeBlock => {
                let braces = "{}".to_owned();
                let indent = "    ".to_owned();
                proof {
                    reveal_strlit("{}");
                    reveal_strlit("    ");
                }
                assert(braces@ =~= seq!['{', '}']);
                assert(indent@ =~= seq![' ', ' ', ' ', ' ']);
                opStream.push(Operation::Insert(braces));
                opStream.push(Operation::Left);
                opStream.push(Operation::NewLine(Motion::Down(1)));
                opStream.push(Operation::ToNormal);
                opStream.push(Operation::NewLine(Motion::Up(1)));
                opStream.push(Operation::Insert(indent));
                self.resetMacro();
            },
            QuickAction::NAQA => {},
        }
        assert(op_views(opStream@) =~= before + action_ops(action));
    }
}

/// `lookup` answers only with the action of an entry whose key is the one asked.
pub proof fn lemma_lookup_found(entries: Seq<(Seq<char>, QuickAction)>, k: Seq<char>, a: QuickAction)
    requires
        lookup(entries, k) == Option::Some(a),
    ensures
        exists|i: int| 0 <= i < entries.len() && #[trigger] entries[i] == (k, a),
    decreases entries.len(),
{
    if entries[0].0 == k {
        assert(entries[0] == (k, a));
    } else {
        let rest = entries.drop_first();
        lemma_lookup_found(rest, k, a);
        let i = choose|i: int| 0 <= i < rest.len() && #[trigger] rest[i] == (k, a);
        assert(entries[i + 1] == (k, a));
    }
}

/// A macro that completes is an entry of the table: the characters typed by
/// then are its key and the answer is its action.
pub proof fn law_completed_macro(
    entries: Seq<(Seq<char>, QuickAction)>,
    typed: Seq<char>,
    c: char,
    a: QuickAction,
)
    requires
        macro_result(entries, typed, c) == Option::Some(a),
        a != QuickAction::NAQA,
    ensures
        exists|i: int|
            0 <= i < entries.len() && #[trigger] entries[i] == (macro_typed(entries, typed, c), a),
{
    let cands = candidates(entries, typed);
    if next_step(cands, typed.len() as int, c) == Option::Some(true) {
        lemma_lookup_found(entries, typed.push(c), a);
    } else {
        lemma_lookup_found(entries, typed, a);
    }
}

/// A key either extends what has been typed by itself or leaves it as it was;
/// a key that breaks every candidate (the answer is nothing and no macro is
/// finished) leaves it as it was.
pub proof fn law_typed_steps(entries: Seq<(Seq<char>, QuickAction)>, typed: Seq<char>, c: char)
    ensures
        macro_typed(entries, typed, c) == typed || macro_typed(entries, typed, c) == typed.push(c),
        candidates(entries, typed).len() > 0 && next_step(candidates(entries, typed), typed.len() as int, c)
            == Option::Some(false) ==> macro_result(entries, typed, c) == Option::<QuickAction>::None
            && macro_typed(entries, typed, c) == typed,
{
}

/// A narrowing pass at the first position keeps a key that begins with the
/// target, when every key has a first character.
proof fn lemma_narrow_first_keeps(keys: Seq<Seq<char>>, c: char, i: int)
    requires
        forall|j: int| 0 <= j < keys.len() ==> #[trigger] keys[j].len() > 0,
        0 <= i < keys.len(),
        keys[i][0] == c,
    ensures
        narrow_at(keys, 0, c).len() > 0,
    decreases keys.len(),
{
    if keys[0][0] != c {
        let rest = keys.drop_first();
        assert(rest[i - 1] == keys[i]);
        lemma_narrow_first_keeps(rest, c, i - 1);
    }
}

/// Starting a macro with a character that some key begins with always finds
/// a candidate, so the answer is never the "no macro" answer `NAQA` when no
/// macro's action is `NAQA`, and what is typed still begins with that
/// character. (`startMacro` answers exactly `macro_result` and keeps
/// `macro_typed` for the typed characters with that character added.)
pub proof fn law_started_macro_has_candidate(entries: Seq<(Seq<char>, QuickAction)>, c: char)
    requires
        forall|i: int| 0 <= i < entries.len() ==> (#[trigger] entries[i]).0.len() > 0 && entries[i].1
            != QuickAction::NAQA,
        exists|i: int| 0 <= i < entries.len() && (#[trigger] entries[i]).0[0] == c,
    ensures
        candidates(entries, seq![c]).len() > 0,
        macro_result(entries, seq![c], c) != Option::Some(QuickAction::NAQA),
        macro_typed(entries, seq![c], c).len() > 0,
        macro_typed(entries, seq![c], c)[0] == c,
{
    let keys = entries.map_values(|e: (Seq<char>, QuickAction)| e.0);
    let i = choose|i: int| 0 <= i < entries.len() && (#[trigger] entries[i]).0[0] == c;
    assert forall|j: int| 0 <= j < keys.len() implies #[trigger] keys[j].len() > 0 by {
        assert(keys[j] == entries[j].0);
    }
    assert(keys[i] == entries[i].0);
    lemma_narrow_first_keeps(keys, c, i);
    assert(narrow(keys, seq![c], 0) == keys);
    assert(candidates(entries, seq![c]) == narrow_at(keys, 0, c));
    let typed = seq![c];
    let cands = candidates(entries, typed);
    let r = macro_result(entries, typed, c);
    if r == Option::Some(QuickAction::NAQA) {
        if next_step(cands, 1, c) == Option::Some(true) {
            lemma_lookup_found(entries, typed.push(c), QuickAction::NAQA);
        } else {
            lemma_lookup_found(entries, typed, QuickAction::NAQA);
        }
    }
    assert(typed.push(c)[0] == c);
}

} // verus!
