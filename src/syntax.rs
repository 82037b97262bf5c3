use vstd::prelude::*;
use crate::chars::{
    is_allowed, is_allowed_char, is_word, is_word_char, is_digit,
    is_digit_char, is_operator_char, is_operator_symbol, is_white, is_white_char,
};
use crate::error::ErrorCode;

verus! {

pub open spec fn all_allowed(s: Seq<char>) -> bool {
    forall|i: int| 0 <= i < s.len() ==> is_allowed_char(#[trigger] s[i])
}

/// The string with its surrounding whitespace removed is longer than one
/// character: it holds two characters that are not whitespace.
pub open spec fn long_enough(s: Seq<char>) -> bool {
    exists|i: int, j: int|
        0 <= i < j < s.len() && !is_white_char(#[trigger] s[i]) && !is_white_char(#[trigger] s[j])
}

/// An ASCII digit stands directly before a character that is neither a word
/// character nor whitespace, as in `1+`.
pub open spec fn glued_at(s: Seq<char>, i: int) -> bool {
    0 <= i && i + 1 < s.len() && is_digit_char(s[i]) && !is_word_char(s[i + 1])
        && !is_white_char(s[i + 1])
}

pub open spec fn has_glued_operator(s: Seq<char>) -> bool {
    exists|i: int| #[trigger] glued_at(s, i)
}

pub open spec fn has_operator(s: Seq<char>) -> bool {
    exists|i: int| 0 <= i < s.len() && is_operator_char(#[trigger] s[i])
}

/// The grammar's verdict on a formula: the first of its four checks that
/// fails, in this order, or success.
pub open spec fn syntax_outcome(s: Seq<char>) -> Result<(), ErrorCode> {
    if !all_allowed(s) {
        Err(ErrorCode::NoncalculableCharacter)
    } else if !long_enough(s) {
        Err(ErrorCode::FormulaNotEntered)
    } else if has_glued_operator(s) {
        Err(ErrorCode::NoSpaceBetweenOperators)
    } else if !has_operator(s) {
        Err(ErrorCode::OperatorNotEntered)
    } else {
        Ok(())
    }
}

/// Whether every character is a digit, an operator symbol or a space.
pub fn check_unavailable_character(checked_string: &str) -> (r: bool)
    ensures
        r == all_allowed(checked_string@),
{
    let len = checked_string.unicode_len();
    let mut i: usize = 0;
    while i < len
        invariant
            i <= len,
            len == checked_string@.len(),
            forall|j: int| 0 <= j < i ==> is_allowed_char(#[trigger] checked_string@[j]),
        decreases len - i,
    {
        if !is_allowed(checked_string.get_char(i)) {
            return false;
        }
        i += 1;
    }
    true
}

/// Whether the formula, trimmed of whitespace, is longer than one character.
pub fn check_length(checked_string: &str) -> (r: bool)
    ensures
        r == long_enough(checked_string@),
{
    let len = checked_string.unicode_len();
    let mut first: Option<usize> = None;
    let mut i: usize = 0;
    while i < len
        invariant
            i <= len,
            len == checked_string@.len(),
            first is None ==> forall|j: int| 0 <= j < i ==> is_white_char(#[trigger] checked_string@[j]),
            first matches Some(f) ==> {
                &&& f < i
                &&& !is_white_char(checked_string@[f as int])
                &&& forall|j: int| 0 <= j < f ==> is_white_char(#[trigger] checked_string@[j])
                &&& forall|j: int| f < j < i ==> is_white_char(#[trigger] checked_string@[j])
            },
        decreases len - i,
    {
        if !is_white(checked_string.get_char(i)) {
            if let Some(f) = first {
                assert(0 <= f < i < checked_string@.len());
                assert(!is_white_char(checked_string@[f as int]) && !is_white_char(checked_string@[i as int]));
                assert(long_enough(checked_string@));
                return true;
            }
            first = Some(i);
        }
        i += 1;
    }
    assert forall|a: int, b: int|
        0 <= a < b < checked_string@.len() && !is_white_char(#[trigger] checked_string@[a]) implies is_white_char(
        #[trigger] checked_string@[b]) by {
        if let Some(f) = first {
            if a < f {
            } else if a > f {
            } else {
            }
        }
    }
    false
}

/// Whether no ASCII digit stands directly before a character that is neither
/// a word character nor whitespace, as the `+` of `1+` does.
pub fn check_half_space(checked_string: &str) -> (r: bool)
    ensures
        r == !has_glued_operator(checked_string@),
{
    let len = checked_string.unicode_len();
    if len < 2 {
        assert forall|i: int| !glued_at(checked_string@, i) by {}
        return true;
    }
    let mut i: usize = 0;
    while i + 1 < len
        invariant
            len >= 2,
            i + 1 <= len,
            len == checked_string@.len(),
            forall|j: int| 0 <= j < i ==> !#[trigger] glued_at(checked_string@, j),
        decreases len - i,
    {
        let c = checked_string.get_char(i);
        let d = checked_string.get_char(i + 1);
        if is_digit(c) && !is_word(d) && !is_white(d) {
            assert(glued_at(checked_string@, i as int));
            assert(has_glued_operator(checked_string@));
            return false;
        }
        i += 1;
    }
    assert forall|j: int| !#[trigger] glued_at(checked_string@, j) by {
        if 0 <= j < i {
        }
    }
    true
}

/// Whether the formula holds at least one operator symbol.
pub fn check_is_operator(checked_string: &str) -> (r: bool)
    ensures
        r == has_operator(checked_string@),
{
    let len = checked_string.unicode_len();
    let mut i: usize = 0;
    while i < len
        invariant
            i <= len,
            len == checked_string@.len(),
            forall|j: int| 0 <= j < i ==> !is_operator_char(#[trigger] checked_string@[j]),
        decreases len - i,
    {
        if is_operator_symbol(checked_string.get_char(i)) {
            return true;
        }
        i += 1;
    }
    false
}

/// Checks a formula against the grammar, reporting the first failing check.
/// A string with a character outside the grammar's set is always rejected for
/// it; a string of allowed characters that is at most one character long is
/// always rejected as empty.
pub fn check_syntax(checked_string: &str) -> (r: Result<(), ErrorCode>)
    ensures
        r == syntax_outcome(checked_string@),
        !all_allowed(checked_string@) ==> r == Err::<(), ErrorCode>(
            ErrorCode::NoncalculableCharacter,
        ),
        all_allowed(checked_string@) && checked_string@.len() <= 1 ==> r == Err::<(), ErrorCode>(
            ErrorCode::FormulaNotEntered,
        ),
{
    if !check_unavailable_character(checked_string) {
        Err(ErrorCode::NoncalculableCharacter)
    } else if !check_length(checked_string) {
        Err(ErrorCode::FormulaNotEntered)
    } else if !check_half_space(checked_string) {
        Err(ErrorCode::NoSpaceBetweenOperators)
    } else if !check_is_operator(checked_string) {
        Err(ErrorCode::OperatorNotEntered)
    } else {
        Ok(())
    }
}

} // verus!
