//! Character sequences and their UTF-8 byte offsets.
//!
//! `String` and `str` are viewed as sequences of `char`; Rust indexes them by
//! byte, so the helpers here translate between byte offsets and character
//! positions through the UTF-8 encoding that vstd defines.

use vstd::prelude::*;
use vstd::utf8::encode_utf8;
use vstd::std_specs::iter::IteratorSpec;

verus! {

/// Number of bytes in the UTF-8 encoding of `s` (what `str::len` returns).
pub open spec fn byte_len(s: Seq<char>) -> nat {
    encode_utf8(s).len()
}

/// Byte offset `b` lies between two characters of `s`, or at its start or end.
pub open spec fn is_boundary(s: Seq<char>, b: int) -> bool {
    exists|k: int| 0 <= k <= s.len() && #[trigger] byte_len(s.take(k)) == b
}

/// The number of characters of `s` that come before byte offset `b`.
pub open spec fn char_index(s: Seq<char>, b: int) -> int {
    choose|k: int| 0 <= k <= s.len() && #[trigger] byte_len(s.take(k)) == b
}

/// UTF-8 encoding distributes over concatenation.
pub proof fn lemma_encode_concat(a: Seq<char>, b: Seq<char>)
    ensures
        encode_utf8(a + b) == encode_utf8(a) + encode_utf8(b),
    decreases a.len(),
{
    if a.len() == 0 {
        assert(a + b =~= b);
        assert(encode_utf8(a) + encode_utf8(b) =~= encode_utf8(b));
    } else {
        assert((a + b).drop_first() =~= a.drop_first() + b);
        lemma_encode_concat(a.drop_first(), b);
        assert(encode_utf8(a + b) =~= encode_utf8(a) + encode_utf8(b));
    }
}

/// Taking one more character adds at least one byte.
pub proof fn lemma_byte_len_step(s: Seq<char>, k: int)
    requires
        0 <= k < s.len(),
    ensures
        byte_len(s.take(k + 1)) >= byte_len(s.take(k)) + 1,
{
    assert(s.take(k + 1) =~= s.take(k) + seq![s[k]]);
    lemma_encode_concat(s.take(k), seq![s[k]]);
    assert(seq![s[k]].drop_first() =~= Seq::<char>::empty());
    assert(encode_utf8(seq![s[k]]).len() >= 1);
}

/// The byte length of a prefix grows strictly with the prefix.
pub proof fn lemma_byte_len_strict(s: Seq<char>, k1: int, k2: int)
    requires
        0 <= k1 < k2 <= s.len(),
    ensures
        byte_len(s.take(k1)) < byte_len(s.take(k2)),
    decreases k2 - k1,
{
    lemma_byte_len_step(s, k2 - 1);
    if k1 < k2 - 1 {
        lemma_byte_len_strict(s, k1, k2 - 1);
    }
}

/// The byte offset of the first `k` characters names exactly position `k`.
pub proof fn lemma_char_index(s: Seq<char>, k: int)
    requires
        0 <= k <= s.len(),
    ensures
        is_boundary(s, byte_len(s.take(k)) as int),
        char_index(s, byte_len(s.take(k)) as int) == k,
{
    let b = byte_len(s.take(k)) as int;
    assert(is_boundary(s, b));
    let j = char_index(s, b);
    if j < k {
        lemma_byte_len_strict(s, j, k);
    } else if k < j {
        lemma_byte_len_strict(s, k, j);
    }
}

/// `String::insert`: puts `ch` at byte offset `idx`. std documents a panic when
/// `idx` is past the end or not on a character boundary; `requires` rules both out.
#[verifier::external_body]
pub(crate) fn string_insert(s: &mut String, idx: usize, ch: char)
    requires
        is_boundary(old(s)@, idx as int),
    ensures
        final(s)@ == old(s)@.insert(char_index(old(s)@, idx as int), ch),
{
    s.insert(idx, ch)
}

/// `String::push`: appends `ch` at the end.
#[verifier::external_body]
pub(crate) fn string_push(s: &mut String, ch: char)
    ensures
        final(s)@ == old(s)@.push(ch),
{
    s.push(ch)
}

/// `&s[idx..]` on a `str`: the characters from byte offset `idx` to the end.
/// std panics when `idx` is not on a character boundary; `requires` rules that out.
#[verifier::external_body]
pub(crate) fn str_tail(s: &str, idx: usize) -> (r: &str)
    requires
        is_boundary(s@, idx as int),
    ensures
        r@ == s@.skip(char_index(s@, idx as int)),
{
    &s[idx..]
}

/// The characters of `text`, in order.
pub fn chars_of(text: &str) -> (v: Vec<char>)
    ensures
        v@ == text@,
{
    broadcast use vstd::string::group_string_axioms;

    let mut it = text.chars();
    let mut v: Vec<char> = Vec::new();
    loop
        invariant
            it.remaining() == text@.skip(v.len() as int),
            v@ == text@.take(v.len() as int),
            v.len() <= text@.len(),
        decreases text@.len() - v.len(),
    {
        match it.next() {
            Some(c) => {
                v.push(c);
                assert(v@ =~= text@.take(v.len() as int));
            },
            None => {
                assert(v@ =~= text@);
                return v;
            },
        }
    }
}

} // verus!
