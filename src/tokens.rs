use vstd::prelude::*;
use crate::chars::{is_white, is_white_char};
use crate::rpn::tokens_view;

verus! {

/// How many characters at the front of `s` are not whitespace.
pub open spec fn word_len(s: Seq<char>) -> nat
    decreases s.len(),
{
    if s.len() == 0 || is_white_char(s[0]) {
        0
    } else {
        1 + word_len(s.drop_first())
    }
}

/// The maximal runs of non-whitespace characters of `s`, left to right.
pub open spec fn words(s: Seq<char>) -> Seq<Seq<char>>
    decreases s.len(),
    via words_decreases
{
    if s.len() == 0 {
        seq![]
    } else if is_white_char(s[0]) {
        words(s.drop_first())
    } else {
        let n = word_len(s);
        seq![s.take(n as int)] + words(s.skip(n as int))
    }
}

/// A word at the front is at least one character long, so what follows it is
/// shorter than `s`.
#[via_fn]
proof fn words_decreases(s: Seq<char>) {
    lemma_word_len_bounds(s);
}

proof fn lemma_word_len_bounds(s: Seq<char>)
    ensures
        word_len(s) <= s.len(),
        s.len() > 0 && !is_white_char(s[0]) ==> word_len(s) >= 1,
    decreases s.len(),
{
    if s.len() > 0 && !is_white_char(s[0]) {
        lemma_word_len_bounds(s.drop_first());
    }
}

/// A run of `n` non-whitespace characters ended by whitespace or by the end
/// of `s` is a word of length `n`.
pub(crate) proof fn lemma_word_len(s: Seq<char>, n: int)
    requires
        0 <= n <= s.len(),
        forall|j: int| 0 <= j < n ==> !is_white_char(#[trigger] s[j]),
        n == s.len() || is_white_char(s[n]),
    ensures
        word_len(s) == n,
    decreases n,
{
    if n > 0 {
        let t = s.drop_first();
        assert forall|j: int| 0 <= j < n - 1 implies !is_white_char(#[trigger] t[j]) by {
            assert(t[j] == s[j + 1]);
        }
        if n < s.len() {
            assert(t[n - 1] == s[n]);
        }
        lemma_word_len(t, n - 1);
    }
}

/// Splits a formula into its tokens: the maximal runs of characters that are
/// not whitespace, in order.
pub fn to_vec(formula_str: &str) -> (r: Vec<String>)
    ensures
        tokens_view(r@) == words(formula_str@),
{
    let ghost s = formula_str@;
    let len = formula_str.unicode_len();
    let mut out: Vec<String> = Vec::new();
    let mut i: usize = 0;
    assert(s.skip(0) =~= s);
    while i < len
        invariant
            i <= len,
            len == s.len(),
            s == formula_str@,
            tokens_view(out@) + words(s.skip(i as int)) == words(s),
        decreases len - i,
    {
        let ghost rest = s.skip(i as int);
        if is_white(formula_str.get_char(i)) {
            assert(rest.drop_first() =~= s.skip(i + 1));
            i += 1;
        } else {
            let start = i;
            while i < len && !is_white(formula_str.get_char(i))
                invariant
                    start <= i <= len,
                    len == s.len(),
                    s == formula_str@,
                    forall|j: int| start <= j < i ==> !is_white_char(#[trigger] s[j]),
                decreases len - i,
            {
                i += 1;
            }
            let n = i - start;
            proof {
                assert forall|j: int| 0 <= j < n implies !is_white_char(#[trigger] rest[j]) by {
                    assert(rest[j] == s[j + start]);
                }
                if i < len {
                    assert(rest[n as int] == s[i as int]);
                }
                lemma_word_len(rest, n as int);
                assert(rest.take(n as int) =~= s.subrange(start as int, i as int));
                assert(rest.skip(n as int) =~= s.skip(i as int));
            }
            let word = String::from_str(formula_str.substring_char(start, i));
            let ghost before = out@;
            out.push(word);
            assert(tokens_view(out@) =~= tokens_view(before).push(word@));
            assert(tokens_view(out@) + words(s.skip(i as int)) =~= tokens_view(before) + words(
                rest,
            ));
        }
    }
    assert(s.skip(len as int) =~= Seq::<char>::empty());
    assert(tokens_view(out@) + words(s.skip(len as int)) =~= tokens_view(out@));
    out
}

} // verus!
