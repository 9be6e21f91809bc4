//! A line of text and the tokens it splits into.

use vstd::prelude::*;
use crate::indent::{
    contains_four_spaces, has_four_spaces, lemma_replace_clears, lemma_replace_none, no_spaces,
    replace_four, replace_four_spaces,
};
use crate::style::{fg_sequence, fg_switches};
use vstd::utf8::{encode_scalar, encode_utf8, has_width_1_encoding};
use crate::text::{lemma_encode_concat, byte_len, chars_of, string_push, string_insert, is_boundary, char_index};

verus! {

/// A piece of a line: a run of word characters, one separator character,
/// or a run of spaces (`Space(start, count)`).
#[derive(Clone, Debug)]
pub enum Token {
    Word { start: usize, len: usize, text: String },
    Other(usize, char),
    Space(usize, u16),
    Empty,
}

/// What a token holds, with the word's text as a character sequence.
pub enum TokenView {
    Word { start: usize, len: usize, text: Seq<char> },
    Other(usize, char),
    Space(usize, u16),
    Empty,
}

impl View for Token {
    type V = TokenView;

    open spec fn view(&self) -> TokenView {
        match self {
            Token::Word { start, len, text } => TokenView::Word { start: *start, len: *len, text: text@ },
            Token::Other(at, c) => TokenView::Other(*at, *c),
            Token::Space(at, count) => TokenView::Space(*at, *count),
            Token::Empty => TokenView::Empty,
        }
    }
}

/// The views of a sequence of tokens.
pub open spec fn token_views(ts: Seq<Token>) -> Seq<TokenView> {
    ts.map_values(|t: Token| t@)
}

/// The width a token takes: a word's byte length, a space run's count, else 1.
pub open spec fn token_len(t: TokenView) -> int {
    match t {
        TokenView::Word { len, .. } => len as int,
        TokenView::Other(..) => 1,
        TokenView::Space(_, count) => count as int,
        TokenView::Empty => 1,
    }
}

/// The characters that end a word: space and the punctuation of code.
pub open spec fn is_other_char(c: char) -> bool {
    c == ' ' || c == '>' || c == '<' || c == '!' || c == ';' || c == '(' || c == ')' || c == '['
        || c == ']' || c == '{' || c == '}' || c == '=' || c == '+' || c == '-' || c == '*' || c
        == '/'
}

/// Where the run of word characters that starts at `p` ends.
pub open spec fn word_end(s: Seq<char>, p: int) -> int
    decreases s.len() - p,
{
    if 0 <= p < s.len() && !is_other_char(s[p]) {
        word_end(s, p + 1)
    } else {
        p
    }
}

/// Where the run of spaces that starts at `p` ends.
pub open spec fn space_end(s: Seq<char>, p: int) -> int
    decreases s.len() - p,
{
    if 0 <= p < s.len() && s[p] == ' ' {
        space_end(s, p + 1)
    } else {
        p
    }
}

/// A word run stays within the line, holds only word characters and ends at
/// a separator or at the end of the line.
pub proof fn lemma_word_end(s: Seq<char>, p: int)
    requires
        0 <= p <= s.len(),
    ensures
        p <= word_end(s, p) <= s.len(),
        word_end(s, p) < s.len() ==> is_other_char(s[word_end(s, p)]),
        forall|j: int| p <= j < word_end(s, p) ==> !is_other_char(#[trigger] s[j]),
    decreases s.len() - p,
{
    if p < s.len() && !is_other_char(s[p]) {
        lemma_word_end(s, p + 1);
    }
}

/// A space run stays within the line, holds only spaces and ends at another
/// character or at the end of the line.
pub proof fn lemma_space_end(s: Seq<char>, p: int)
    requires
        0 <= p <= s.len(),
    ensures
        p <= space_end(s, p) <= s.len(),
        space_end(s, p) < s.len() ==> s[space_end(s, p)] != ' ',
        forall|j: int| p <= j < space_end(s, p) ==> #[trigger] s[j] == ' ',
    decreases s.len() - p,
{
    if p < s.len() && s[p] == ' ' {
        lemma_space_end(s, p + 1);
    }
}

/// The word token for the characters `w` that end at character position `end`:
/// its start is `end` less the word's byte length.
pub open spec fn word_token(w: Seq<char>, end: int) -> TokenView {
    TokenView::Word { start: (end - byte_len(w)) as usize, len: byte_len(w) as usize, text: w }
}

/// The space token for the spaces from `from` up to `to`; the count keeps only
/// its low 16 bits.
pub open spec fn space_token(from: int, to: int) -> TokenView {
    TokenView::Space(from as usize, (to - from) as u16)
}

/// The tokens of `s` from character position `p` on. Each step takes the word
/// that starts at `p` (if any), then the separator that ends it: a space run
/// gives one `Space`; any other separator gives an `Other`, then (unless it is
/// the last character) a `Space` for the run that follows it, possibly empty.
pub open spec fn tokens_from(s: Seq<char>, p: int) -> Seq<TokenView>
    decreases s.len() - p,
{
    if p < 0 || p >= s.len() {
        seq![]
    } else {
        let q = word_end(s, p);
        let words = if q > p {
            seq![word_token(s.subrange(p, q), q)]
        } else {
            seq![]
        };
        if q >= s.len() {
            words
        } else if s[q] != ' ' {
            if q + 1 >= s.len() {
                words.push(TokenView::Other(q as usize, s[q]))
            } else {
                let t = space_end(s, q + 1);
                proof {
                    lemma_word_end(s, p);
                    lemma_space_end(s, q + 1);
                }
                words + seq![TokenView::Other(q as usize, s[q]), space_token(q + 1, t)]
                    + tokens_from(s, t)
            }
        } else {
            let t = space_end(s, q);
            proof {
                lemma_word_end(s, p);
                lemma_space_end(s, q);
            }
            words + seq![space_token(q, t)] + tokens_from(s, t)
        }
    }
}

/// The tokens of a whole line.
pub open spec fn tokens_of(s: Seq<char>) -> Seq<TokenView> {
    tokens_from(s, 0)
}

/// The lines the tokenizer finishes on: empty, or ending in a separator other
/// than a space (on a line that ends in a word character or a space the scan
/// never stops), and no word longer in bytes than its end position in
/// characters (its start would fall below zero).
pub open spec fn tokenizable(s: Seq<char>) -> bool {
    &&& (s.len() == 0 || (is_other_char(s.last()) && s.last() != ' '))
    &&& forall|p: int|
        0 <= p < s.len() && (p == 0 || is_other_char(s[p - 1])) ==> byte_len(
            s.subrange(p, #[trigger] word_end(s, p)),
        ) <= word_end(s, p)
}

/// The total width of the first `k` tokens.
pub open spec fn len_sum(ts: Seq<TokenView>, k: int) -> int
    decreases k,
{
    if k <= 0 {
        0
    } else {
        len_sum(ts, k - 1) + token_len(ts[k - 1])
    }
}

/// Walking the tokens from the left, adding up their widths, reaches `i`
/// before the tokens run out and before the sum overflows.
pub open spec fn walk_reaches(ts: Seq<TokenView>, i: int) -> bool {
    exists|k: int| 0 <= k < ts.len() && i <= #[trigger] len_sum(ts, k + 1) <= usize::MAX
}

/// Widths are never negative, so the running total never falls.
pub proof fn lemma_len_sum_mono(ts: Seq<TokenView>, j: int, k: int)
    requires
        0 <= j <= k,
    ensures
        len_sum(ts, j) <= len_sum(ts, k),
    decreases k - j,
{
    if j < k {
        lemma_len_sum_mono(ts, j, k - 1);
        assert(token_len(ts[k - 1]) >= 0);
    }
}

/// Four middle dots, drawn in place of a run of four spaces.
pub open spec fn dots() -> Seq<char> {
    seq!['\u{b7}', '\u{b7}', '\u{b7}', '\u{b7}']
}

/// `text` as displayed: each run of four spaces becomes four dots, opened by
/// `open` and closed by `close`.
pub open spec fn shown_text(text: Seq<char>, open: Seq<char>, close: Seq<char>) -> Seq<char> {
    replace_four_spaces(text, open + dots() + close)
}

impl Token {
    pub fn getLen(&self) -> (r: usize)
        ensures
            r == token_len(self@),
    {
        match self {
            Token::Word { len, .. } => *len,
            Token::Other(..) => 1,
            Token::Space(_, count) => *count as usize,
            Token::Empty => 1,
        }
    }
}

/// A line of the buffer: its tokens, its text, and the text shown for it.
#[derive(Debug)]
pub struct Line {
    pub tokens: Vec<Token>,
    pub rawLine: String,
    pub dispLine: String,
}

impl Line {
    pub fn new() -> (r: Self)
        ensures
            r.tokens@.len() == 0,
            r.rawLine@ == Seq::<char>::empty(),
            r.dispLine@ == Seq::<char>::empty(),
    {
        let tokens = Vec::new();
        let rawLine = String::new();
        let dispLine = String::new();
        Self { tokens, rawLine, dispLine }
    }

    /// A line holding `txt`, shown as it is.
    pub fn from(txt: &str) -> (r: Self)
        requires
            tokenizable(txt@),
        ensures
            token_views(r.tokens@) == tokens_of(txt@),
            r.rawLine@ == txt@,
            r.dispLine@ == txt@,
    {
        let tokens = Line::tokenize(txt);
        let rawLine = txt.to_owned();
        let dispLine = txt.to_owned();
        Self { tokens, rawLine, dispLine }
    }

    /// Inserts `c` into the text at byte offset `i`, then finds the token that
    /// covers offset `i`; the tokens themselves are left as they were.
    pub fn ins(&mut self, i: usize, c: char)
        requires
            is_boundary(old(self).rawLine@, i as int),
            walk_reaches(token_views(old(self).tokens@), i as int),
        ensures
            final(self).rawLine@ == old(self).rawLine@.insert(
                char_index(old(self).rawLine@, i as int),
                c,
            ),
            final(self).tokens@ == old(self).tokens@,
            final(self).dispLine@ == old(self).dispLine@,
    {
        string_insert(&mut self.rawLine, i, c);
        let ghost ts = token_views(self.tokens@);
        let ntok = self.tokens.len();
        let mut tknIndex: usize = 0;
        let mut offsetIndex: usize = 0;
        let ghost w = choose|k: int|
            0 <= k < ts.len() && i <= #[trigger] len_sum(ts, k + 1) <= usize::MAX;
        loop
            invariant
                ts == token_views(self.tokens@),
                ts.len() == self.tokens@.len(),
                ntok == ts.len(),
                0 <= w < ts.len(),
                i <= len_sum(ts, w + 1) <= usize::MAX,
                tknIndex <= w,
                offsetIndex == len_sum(ts, tknIndex as int),
                forall|j: int| 0 <= j < tknIndex ==> #[trigger] len_sum(ts, j + 1) < i,
            decreases w - tknIndex,
        {
            proof {
                lemma_len_sum_mono(ts, tknIndex as int + 1, w + 1);
            }
            let width = self.tokens[tknIndex].getLen();
            if width + offsetIndex >= i {
                break;
            }
            assert(tknIndex < w);
            offsetIndex = offsetIndex + width;
            tknIndex = tknIndex + 1;
        }
        let token = &self.tokens[tknIndex];
        if token.getLen() > 1 {
            match token {
                Token::Word { .. } => {
                    let _ = Line::isOther(c);
                },
                _ => {},
            }
        }
    }

    /// Splits `text` into its tokens, left to right.
    pub fn tokenize(text: &str) -> (r: Vec<Token>)
        requires
            tokenizable(text@),
        ensures
            token_views(r@) == tokens_of(text@),
    {
        let cs = chars_of(text);
        let ghost s = text@;
        let n = cs.len();
        let mut tokens: Vec<Token> = Vec::new();
        let mut p: usize = 0;
        assert(token_views(tokens@) + tokens_from(s, 0) =~= tokens_of(s));
        while p < n
            invariant
                cs@ == s,
                n == s.len(),
                tokenizable(s),
                p <= n,
                p == 0 || is_other_char(s[p - 1]),
                token_views(tokens@) + tokens_from(s, p as int) == tokens_of(s),
            decreases n - p,
        {
            let ghost before = token_views(tokens@);
            proof {
                lemma_word_end(s, p as int);
            }
            let mut q: usize = p;
            let mut word = String::new();
            while q < n && !Line::isOther(cs[q])
                invariant
                    cs@ == s,
                    n == s.len(),
                    p <= q <= n,
                    word@ == s.subrange(p as int, q as int),
                    word_end(s, q as int) == word_end(s, p as int),
                decreases n - q,
            {
                string_push(&mut word, cs[q]);
                q = q + 1;
                assert(word@ =~= s.subrange(p as int, q as int));
            }
            assert(q == word_end(s, p as int));
            let ghost words: Seq<TokenView> = if q > p {
                seq![word_token(s.subrange(p as int, q as int), q as int)]
            } else {
                seq![]
            };
            if q > p {
                let blen = word.as_str().len();
                assert(blen == byte_len(word@));
                let tk = Token::Word { start: q - blen, len: blen, text: word };
                tokens.push(tk);
            }
            assert(token_views(tokens@) =~= before + words);
            if q >= n {
                p = n;
                assert(token_views(tokens@) + tokens_from(s, p as int) =~= before + words);
            } else if cs[q] != ' ' {
                tokens.push(Token::Other(q, cs[q]));
                if q + 1 >= n {
                    p = n;
                    assert(token_views(tokens@) + tokens_from(s, p as int) =~= before + words.push(
                        TokenView::Other(q as usize, s[q as int]),
                    ));
                } else {
                    let r = q + 1;
                    proof {
                        lemma_space_end(s, r as int);
                    }
                    let mut t: usize = r;
                    while t < n && cs[t] == ' '
                        invariant
                            cs@ == s,
                            n == s.len(),
                            r <= t <= n,
                            space_end(s, t as int) == space_end(s, r as int),
                        decreases n - t,
                    {
                        t = t + 1;
                    }
                    let count = (t - r) as u16;
                    tokens.push(Token::Space(r, count));
                    p = t;
                    assert(token_views(tokens@) =~= before + words + seq![
                        TokenView::Other(q as usize, s[q as int]),
                        space_token(r as int, t as int),
                    ]);
                }
            } else {
                proof {
                    lemma_space_end(s, q as int);
                }
                let mut t: usize = q;
                while t < n && cs[t] == ' '
                    invariant
                        cs@ == s,
                        n == s.len(),
                        q <= t <= n,
                        space_end(s, t as int) == space_end(s, q as int),
                    decreases n - t,
                {
                    t = t + 1;
                }
                let count = (t - q) as u16;
                tokens.push(Token::Space(q, count));
                p = t;
                assert(token_views(tokens@) =~= before + words + seq![space_token(q as int, t as int)]);
            }
        }
        assert(tokens_from(s, p as int) =~= Seq::<TokenView>::empty());
        assert(token_views(tokens@) =~= tokens_of(s));
        tokens
    }

    /// `text` as displayed, with the dots between the given colour switches.
    pub fn formatTextWith(text: &str, open: &str, close: &str) -> (r: String)
        requires
            no_spaces(open@),
            no_spaces(close@),
        ensures
            r@ == shown_text(text@, open@, close@),
            !has_four_spaces(r@),
    {
        let chars = chars_of(text);
        let mut rep = chars_of(open);
        rep.push('\u{b7}');
        rep.push('\u{b7}');
        rep.push('\u{b7}');
        rep.push('\u{b7}');
        let tail = chars_of(close);
        let ghost head = rep@;
        let mut k: usize = 0;
        while k < tail.len()
            invariant
                rep@ == head + tail@.take(k as int),
                k <= tail@.len(),
            decreases tail@.len() - k,
        {
            rep.push(tail[k]);
            k = k + 1;
            assert(rep@ =~= head + tail@.take(k as int));
        }
        assert(tail@.take(k as int) =~= close@);
        assert(rep@ =~= open@ + dots() + close@);
        assert(no_spaces(rep@)) by {
            assert forall|j: int| 0 <= j < rep@.len() implies #[trigger] rep@[j] != ' ' by {
                if j < open@.len() {
                    assert(rep@[j] == open@[j]);
                } else if j >= open@.len() + 4 {
                    assert(rep@[j] == close@[j - open@.len() - 4]);
                }
            }
        }
        proof {
            lemma_replace_clears(text@, rep@);
        }
        if contains_four_spaces(&chars) {
            replace_four(&chars, &rep)
        } else {
            proof {
                lemma_replace_none(text@, rep@);
            }
            text.to_owned()
        }
    }

    /// `text` as displayed: each run of four spaces becomes four dots in light
    /// black, after which the colour is set to white. termion writes both colour
    /// switches, or neither when the environment asks for no colour.
    pub fn formatText(text: &str) -> (r: String)
        ensures
            exists|open: Seq<char>, close: Seq<char>|
                ((open == fg_sequence('8') && close == fg_sequence('7')) || (open.len() == 0
                    && close.len() == 0)) && r@ == #[trigger] shown_text(text@, open, close),
            !has_four_spaces(r@),
    {
        let (open, close) = fg_switches();
        assert(no_spaces(open@));
        assert(no_spaces(close@));
        let r = Line::formatTextWith(text, open.as_str(), close.as_str());
        assert(r@ == shown_text(text@, open@, close@));
        r
    }

    pub fn isOther(c: char) -> (r: bool)
        ensures
            r == is_other_char(c),
    {
        match c {
            ' ' => true,
            '>' => true,
            '<' => true,
            '!' => true,
            ';' => true,
            '(' => true,
            ')' => true,
            '[' => true,
            ']' => true,
            '{' => true,
            '}' => true,
            '=' => true,
            '+' => true,
            '-' => true,
            '*' => true,
            '/' => true,
            _ => false,
        }
    }
}

/// The characters a token stands for.
pub open spec fn token_text(t: TokenView) -> Seq<char> {
    match t {
        TokenView::Word { text, .. } => text,
        TokenView::Other(_, c) => seq![c],
        TokenView::Space(_, count) => Seq::new(count as nat, |_i: int| ' '),
        TokenView::Empty => seq![],
    }
}

/// The characters of the tokens, one after another.
pub open spec fn render(ts: Seq<TokenView>) -> Seq<char>
    decreases ts.len(),
{
    if ts.len() == 0 {
        seq![]
    } else {
        render(ts.drop_last()) + token_text(ts.last())
    }
}

/// No run of spaces in `s` is too long for a `Space` token's 16-bit count.
pub open spec fn short_space_runs(s: Seq<char>) -> bool {
    forall|p: int| 0 <= p <= s.len() ==> #[trigger] space_end(s, p) - p < 0x10000
}

/// A token's width is the byte length of the characters it stands for.
pub open spec fn width_matches(t: TokenView) -> bool {
    byte_len(token_text(t)) == token_len(t)
}

/// The characters of two token sequences put together are those of each in turn.
pub proof fn lemma_render_concat(a: Seq<TokenView>, b: Seq<TokenView>)
    ensures
        render(a + b) == render(a) + render(b),
    decreases b.len(),
{
    if b.len() == 0 {
        assert(a + b =~= a);
        assert(render(a) + render(b) =~= render(a));
    } else {
        assert((a + b).drop_last() =~= a + b.drop_last());
        assert((a + b).last() == b.last());
        lemma_render_concat(a, b.drop_last());
        assert(render(a + b) =~= render(a) + render(b));
    }
}

proof fn lemma_ascii_byte(c: char)
    requires
        (c as u32) <= 0x7f,
    ensures
        byte_len(seq![c]) == 1,
{
    let one = seq![c];
    assert(one.drop_first() =~= Seq::<char>::empty());
    assert(encode_utf8(one) == encode_scalar(one[0] as u32) + encode_utf8(one.drop_first()));
    assert(encode_utf8(Seq::<char>::empty()) =~= Seq::<u8>::empty());
    assert(has_width_1_encoding(c as u32));
    assert(encode_scalar(c as u32).len() == 1);
}

proof fn lemma_spaces_bytes(n: nat)
    ensures
        byte_len(Seq::new(n, |_i: int| ' ')) == n,
    decreases n,
{
    if n == 0 {
        assert(Seq::new(n, |_i: int| ' ') =~= Seq::<char>::empty());
        assert(encode_utf8(Seq::<char>::empty()) =~= Seq::<u8>::empty());
    } else {
        let m = (n - 1) as nat;
        assert(Seq::new(n, |_i: int| ' ') =~= Seq::new(m, |_i: int| ' ') + seq![' ']);
        lemma_encode_concat(Seq::new(m, |_i: int| ' '), seq![' ']);
        lemma_ascii_byte(' ');
        lemma_spaces_bytes(m);
    }
}

proof fn lemma_other_byte(c: char)
    requires
        is_other_char(c),
    ensures
        byte_len(seq![c]) == 1,
{
    assert((c as u32) <= 0x7f);
    lemma_ascii_byte(c);
}

proof fn lemma_render_one(t: TokenView)
    ensures
        render(seq![t]) == token_text(t),
{
    assert(seq![t].drop_last() =~= Seq::<TokenView>::empty());
    assert(render(Seq::<TokenView>::empty()) =~= Seq::<char>::empty());
    assert(render(seq![t]) =~= token_text(t));
}

/// From a position where a step of the tokenizer starts, the tokens spell the
/// rest of the line and each has the width of its characters.
proof fn lemma_tokens_from(s: Seq<char>, p: int)
    requires
        tokenizable(s),
        short_space_runs(s),
        s.len() <= usize::MAX,
        0 <= p <= s.len(),
        p < s.len() ==> (p == 0 || is_other_char(s[p - 1])),
    ensures
        render(tokens_from(s, p)) == s.skip(p),
        forall|j: int| 0 <= j < tokens_from(s, p).len() ==> width_matches(#[trigger] tokens_from(s, p)[j]),
    decreases s.len() - p,
{
    if p == s.len() {
        assert(s.skip(p) =~= Seq::<char>::empty());
        return;
    }
    lemma_word_end(s, p);
    let q = word_end(s, p);
    let w = s.subrange(p, q);
    assert(q < s.len());
    let words = if q > p {
        seq![word_token(w, q)]
    } else {
        seq![]
    };
    assert(render(words) =~= w) by {
        if q > p {
            lemma_render_one(word_token(w, q));
        } else {
            assert(w =~= Seq::<char>::empty());
            assert(render(words) =~= Seq::<char>::empty());
        }
    }
    assert(byte_len(w) <= q);
    assert forall|j: int| 0 <= j < words.len() implies width_matches(#[trigger] words[j]) by {
        assert(words[j] == word_token(w, q));
    }
    let o = TokenView::Other(q as usize, s[q]);
    if s[q] != ' ' {
        lemma_other_byte(s[q]);
        assert(width_matches(o));
        if q + 1 >= s.len() {
            let ts = words.push(o);
            assert(ts.drop_last() =~= words);
            assert(render(ts) =~= w + seq![s[q]]);
            assert(s.skip(p) =~= w + seq![s[q]]);
            assert(forall|j: int| 0 <= j < ts.len() ==> width_matches(#[trigger] ts[j]));
        } else {
            lemma_space_end(s, q + 1);
            let t = space_end(s, q + 1);
            let sp = space_token(q + 1, t);
            assert((t - (q + 1)) as u16 == t - (q + 1));
            assert(token_text(sp) =~= s.subrange(q + 1, t));
            lemma_spaces_bytes((t - (q + 1)) as nat);
            assert(width_matches(sp));
            assert(t < s.len());
            assert(is_other_char(s[t - 1]));
            lemma_tokens_from(s, t);
            let mid = seq![o, sp];
            let rest = tokens_from(s, t);
            assert(render(mid) =~= seq![s[q]] + s.subrange(q + 1, t)) by {
                assert(mid.drop_last() =~= seq![o]);
                lemma_render_one(o);
            }
            lemma_render_concat(words, mid);
            lemma_render_concat(words + mid, rest);
            assert(s.skip(p) =~= w + seq![s[q]] + s.subrange(q + 1, t) + s.skip(t));
            let ts = words + mid + rest;
            assert forall|j: int| 0 <= j < ts.len() implies width_matches(#[trigger] ts[j]) by {
                if j >= words.len() + 2 {
                    assert(ts[j] == rest[j - words.len() - 2]);
                }
            }
        }
    } else {
        lemma_space_end(s, q);
        let t = space_end(s, q);
        let sp = space_token(q, t);
        assert((t - q) as u16 == t - q);
        assert(token_text(sp) =~= s.subrange(q, t));
        lemma_spaces_bytes((t - q) as nat);
        assert(width_matches(sp));
        assert(t < s.len());
        lemma_tokens_from(s, t);
        let mid = seq![sp];
        let rest = tokens_from(s, t);
        assert(render(mid) =~= s.subrange(q, t)) by {
            lemma_render_one(sp);
        }
        lemma_render_concat(words, mid);
        lemma_render_concat(words + mid, rest);
        assert(s.skip(p) =~= w + s.subrange(q, t) + s.skip(t));
        let ts = words + mid + rest;
        assert forall|j: int| 0 <= j < ts.len() implies width_matches(#[trigger] ts[j]) by {
            if j >= words.len() + 1 {
                assert(ts[j] == rest[j - words.len() - 1]);
            }
        }
    }
}

/// Tokenizing loses nothing: the tokens' characters, in order, spell the line
/// (on lines without a run of 65536 or more spaces, whose count a `Space`
/// token cannot hold).
pub proof fn law_tokens_spell_line(s: Seq<char>)
    requires
        tokenizable(s),
        short_space_runs(s),
        s.len() <= usize::MAX,
    ensures
        render(tokens_of(s)) == s,
{
    lemma_tokens_from(s, 0);
    assert(s.skip(0) =~= s);
}

/// The widths of the first `k` tokens add up to the byte length of their
/// characters, when each token's width is that of its characters.
proof fn lemma_len_sum_bytes(ts: Seq<TokenView>, k: int)
    requires
        0 <= k <= ts.len(),
        forall|j: int| 0 <= j < ts.len() ==> width_matches(#[trigger] ts[j]),
    ensures
        len_sum(ts, k) == byte_len(render(ts.take(k))),
    decreases k,
{
    if k == 0 {
        assert(ts.take(0) =~= Seq::<TokenView>::empty());
    } else {
        lemma_len_sum_bytes(ts, k - 1);
        assert(ts.take(k).drop_last() =~= ts.take(k - 1));
        assert(ts.take(k).last() == ts[k - 1]);
        assert(width_matches(ts[k - 1]));
        lemma_encode_concat(render(ts.take(k - 1)), token_text(ts[k - 1]));
    }
}

/// The widths of a line's tokens add up to the line's length in bytes.
pub proof fn law_token_widths(s: Seq<char>)
    requires
        tokenizable(s),
        short_space_runs(s),
        s.len() <= usize::MAX,
    ensures
        len_sum(tokens_of(s), tokens_of(s).len() as int) == byte_len(s),
{
    let ts = tokens_of(s);
    lemma_tokens_from(s, 0);
    assert(s.skip(0) =~= s);
    lemma_len_sum_bytes(ts, ts.len() as int);
    assert(ts.take(ts.len() as int) =~= ts);
}

/// On a line built by `Line::from`, `ins` can walk its tokens to any byte
/// offset up to the line's length: the tokens cover the whole line.
pub proof fn law_from_then_ins(s: Seq<char>, i: int)
    requires
        tokenizable(s),
        short_space_runs(s),
        0 < s.len() <= usize::MAX,
        0 <= i <= byte_len(s) <= usize::MAX,
    ensures
        walk_reaches(tokens_of(s), i),
{
    let ts = tokens_of(s);
    law_token_widths(s);
    lemma_tokens_from(s, 0);
    assert(s.skip(0) =~= s);
    if ts.len() == 0 {
        assert(render(ts) =~= Seq::<char>::empty());
    }
    let k = ts.len() - 1;
    assert(i <= len_sum(ts, k + 1) <= usize::MAX);
}

/// Displaying is settled after one pass: text already displayed (with colour
/// switches that hold no space) is displayed unchanged.
pub proof fn law_shown_text_settled(text: Seq<char>, open: Seq<char>, close: Seq<char>)
    requires
        no_spaces(open),
        no_spaces(close),
    ensures
        shown_text(shown_text(text, open, close), open, close) == shown_text(text, open, close),
{
    let rep = open + dots() + close;
    assert(no_spaces(rep)) by {
        assert forall|j: int| 0 <= j < rep.len() implies #[trigger] rep[j] != ' ' by {
            if j < open.len() {
                assert(rep[j] == open[j]);
            } else if j >= open.len() + 4 {
                assert(rep[j] == close[j - open.len() - 4]);
            }
        }
    }
    lemma_replace_clears(text, rep);
    lemma_replace_none(replace_four_spaces(text, rep), rep);
}

} // verus!
