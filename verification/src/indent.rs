//! Runs of four spaces, the editor's unit of indentation, and how they are
//! drawn.

use vstd::prelude::*;
use crate::text::string_push;

verus! {

/// Four spaces start at position `i` of `s`.
pub open spec fn four_spaces_at(s: Seq<char>, i: int) -> bool {
    &&& 0 <= i
    &&& i + 4 <= s.len()
    &&& s[i] == ' '
    &&& s[i + 1] == ' '
    &&& s[i + 2] == ' '
    &&& s[i + 3] == ' '
}

/// Somewhere in `s` four spaces stand in a row.
pub open spec fn has_four_spaces(s: Seq<char>) -> bool {
    exists|i: int| #[trigger] four_spaces_at(s, i)
}

/// `s` with each run of four spaces replaced by `rep`, scanning from the left
/// and never reusing a space (what `str::replace` does with the pattern `"    "`).
pub open spec fn replace_four_spaces(s: Seq<char>, rep: Seq<char>) -> Seq<char>
    decreases s.len(),
{
    if s.len() == 0 {
        s
    } else if four_spaces_at(s, 0) {
        rep + replace_four_spaces(s.skip(4), rep)
    } else {
        seq![s[0]] + replace_four_spaces(s.drop_first(), rep)
    }
}

/// No character of `s` is a space.
pub open spec fn no_spaces(s: Seq<char>) -> bool {
    forall|j: int| 0 <= j < s.len() ==> #[trigger] s[j] != ' '
}

/// Without four spaces in a row there is nothing to replace.
pub proof fn lemma_replace_none(s: Seq<char>, rep: Seq<char>)
    requires
        !has_four_spaces(s),
    ensures
        replace_four_spaces(s, rep) == s,
    decreases s.len(),
{
    if s.len() > 0 {
        assert(!four_spaces_at(s, 0));
        let rest = s.drop_first();
        assert forall|i: int| !#[trigger] four_spaces_at(rest, i) by {
            if four_spaces_at(rest, i) {
                assert(four_spaces_at(s, i + 1));
            }
        }
        lemma_replace_none(rest, rep);
        assert(seq![s[0]] + rest =~= s);
    }
}

/// When the replacement has no space, the leading spaces of the result (up to
/// three) were leading spaces of the input.
proof fn lemma_replace_leading(x: Seq<char>, rep: Seq<char>, j: int)
    requires
        no_spaces(rep),
        rep.len() > 0,
        0 <= j <= 3,
        j <= replace_four_spaces(x, rep).len(),
        forall|m: int| 0 <= m < j ==> #[trigger] replace_four_spaces(x, rep)[m] == ' ',
    ensures
        j <= x.len(),
        forall|m: int| 0 <= m < j ==> #[trigger] x[m] == ' ',
    decreases j,
{
    if j > 0 {
        let r = replace_four_spaces(x, rep);
        assert(r[0] == ' ');
        assert(x.len() > 0);
        if four_spaces_at(x, 0) {
            assert(r[0] == rep[0]);
        } else {
            let rest = x.drop_first();
            let rr = replace_four_spaces(rest, rep);
            assert(r == seq![x[0]] + rr);
            assert forall|m: int| 0 <= m < j - 1 implies #[trigger] rr[m] == ' ' by {
                assert(r[m + 1] == ' ');
            }
            lemma_replace_leading(rest, rep, j - 1);
            assert forall|m: int| 0 <= m < j implies #[trigger] x[m] == ' ' by {
                if m > 0 {
                    assert(rest[m - 1] == ' ');
                }
            }
        }
    }
}

/// When the replacement has no space, the result has no four spaces in a row.
pub proof fn lemma_replace_clears(s: Seq<char>, rep: Seq<char>)
    requires
        no_spaces(rep),
        rep.len() > 0,
    ensures
        !has_four_spaces(replace_four_spaces(s, rep)),
    decreases s.len(),
{
    let r = replace_four_spaces(s, rep);
    if s.len() == 0 {
        assert forall|i: int| !#[trigger] four_spaces_at(r, i) by {}
    } else if four_spaces_at(s, 0) {
        let rest = s.skip(4);
        let rr = replace_four_spaces(rest, rep);
        lemma_replace_clears(rest, rep);
        assert(r == rep + rr);
        assert forall|i: int| !#[trigger] four_spaces_at(r, i) by {
            if four_spaces_at(r, i) {
                if i < rep.len() {
                    assert(r[i] == rep[i]);
                } else {
                    assert(four_spaces_at(rr, i - rep.len()));
                }
            }
        }
    } else {
        let rest = s.drop_first();
        let rr = replace_four_spaces(rest, rep);
        lemma_replace_clears(rest, rep);
        assert(r == seq![s[0]] + rr);
        assert forall|i: int| !#[trigger] four_spaces_at(r, i) by {
            if four_spaces_at(r, i) {
                if i == 0 {
                    assert forall|m: int| 0 <= m < 3 implies #[trigger] rr[m] == ' ' by {
                        assert(r[m + 1] == ' ');
                    }
                    lemma_replace_leading(rest, rep, 3);
                    assert(rest[0] == ' ' && rest[1] == ' ' && rest[2] == ' ');
                    assert(four_spaces_at(s, 0));
                } else {
                    assert(four_spaces_at(rr, i - 1));
                }
            }
        }
    }
}

/// Whether four spaces stand in a row somewhere in `s`.
pub fn contains_four_spaces(s: &Vec<char>) -> (r: bool)
    ensures
        r == has_four_spaces(s@),
{
    let n = s.len();
    let mut i: usize = 0;
    while n >= 4 && i <= n - 4
        invariant
            n == s@.len(),
            forall|j: int| 0 <= j < i ==> !#[trigger] four_spaces_at(s@, j),
        decreases n - i,
    {
        if s[i] == ' ' && s[i + 1] == ' ' && s[i + 2] == ' ' && s[i + 3] == ' ' {
            assert(four_spaces_at(s@, i as int));
            return true;
        }
        i = i + 1;
    }
    assert forall|j: int| !#[trigger] four_spaces_at(s@, j) by {}
    false
}

/// `s` with each run of four spaces replaced by `rep`.
pub fn replace_four(s: &Vec<char>, rep: &Vec<char>) -> (r: String)
    ensures
        r@ == replace_four_spaces(s@, rep@),
{
    let n = s.len();
    let mut out = String::new();
    let mut i: usize = 0;
    assert(s@.skip(0) =~= s@);
    assert(out@ + replace_four_spaces(s@.skip(0), rep@) =~= replace_four_spaces(s@, rep@));
    while i < n
        invariant
            n == s@.len(),
            i <= n,
            out@ + replace_four_spaces(s@.skip(i as int), rep@) == replace_four_spaces(s@, rep@),
        decreases n - i,
    {
        let ghost rest = s@.skip(i as int);
        let ghost before = out@;
        if n - i >= 4 && s[i] == ' ' && s[i + 1] == ' ' && s[i + 2] == ' ' && s[i + 3] == ' ' {
            assert(four_spaces_at(rest, 0));
            let mut k: usize = 0;
            while k < rep.len()
                invariant
                    out@ == before + rep@.take(k as int),
                    k <= rep@.len(),
                decreases rep@.len() - k,
            {
                string_push(&mut out, rep[k]);
                k = k + 1;
                assert(out@ =~= before + rep@.take(k as int));
            }
            assert(rep@.take(k as int) =~= rep@);
            assert(rest.skip(4) =~= s@.skip(i + 4));
            i = i + 4;
        } else {
            assert(!four_spaces_at(rest, 0));
            string_push(&mut out, s[i]);
            assert(rest.drop_first() =~= s@.skip(i + 1));
            i = i + 1;
        }
    }
    assert(s@.skip(i as int) =~= Seq::<char>::empty());
    out
}

} // verus!
