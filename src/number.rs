use vstd::prelude::*;
use crate::chars::{is_digit, is_digit_char};

verus! {

/// A token without its leading sign, if it has one.
pub open spec fn unsigned_part(t: Seq<char>) -> Seq<char> {
    if t.len() > 0 && (t[0] == '+' || t[0] == '-') {
        t.drop_first()
    } else {
        t
    }
}

/// How many decimal digits stand at the front of `s`.
pub open spec fn digit_run(s: Seq<char>) -> nat
    decreases s.len(),
{
    if s.len() > 0 && is_digit_char(s[0]) {
        1 + digit_run(s.drop_first())
    } else {
        0
    }
}

/// An exponent part: nothing, or `e` or `E`, an optional sign and one or more
/// digits.
pub open spec fn is_exponent(e: Seq<char>) -> bool {
    e.len() == 0 || ((e[0] == 'e' || e[0] == 'E') && {
        let d = unsigned_part(e.drop_first());
        d.len() > 0 && digit_run(d) == d.len()
    })
}

/// Digits with an optional `.` fraction, at least one digit in all, then an
/// optional exponent: `12`, `1.5`, `1.`, `.5`, `2e10`, `1.5E-3`.
pub open spec fn is_decimal(u: Seq<char>) -> bool {
    let i = digit_run(u);
    if i < u.len() && u[i as int] == '.' {
        let f = digit_run(u.skip(i + 1 as int));
        i + f > 0 && is_exponent(u.skip((i + 1 + f) as int))
    } else {
        i > 0 && is_exponent(u.skip(i as int))
    }
}

/// `u` spells the word whose letters are `lower`, in any mix of cases.
pub open spec fn is_word_any_case(u: Seq<char>, lower: Seq<char>, upper: Seq<char>) -> bool {
    u.len() == lower.len() && forall|k: int|
        0 <= k < u.len() ==> #[trigger] u[k] == lower[k] || u[k] == upper[k]
}

/// `inf`, `infinity` or `nan`, in any mix of cases.
pub open spec fn is_special(u: Seq<char>) -> bool {
    is_word_any_case(u, "inf"@, "INF"@) || is_word_any_case(u, "infinity"@, "INFINITY"@)
        || is_word_any_case(u, "nan"@, "NAN"@)
}

/// A number token, in the syntax of Rust's floating-point literals as
/// `str::parse` reads them: an optional sign, then a decimal with optional
/// fraction and exponent, or one of the words `inf`, `infinity`, `nan`.
pub open spec fn is_numeral(t: Seq<char>) -> bool {
    let u = unsigned_part(t);
    is_decimal(u) || is_special(u)
}

pub(crate) proof fn lemma_digit_run(s: Seq<char>, n: int)
    requires
        0 <= n <= s.len(),
        forall|j: int| 0 <= j < n ==> is_digit_char(#[trigger] s[j]),
        n == s.len() || !is_digit_char(s[n]),
    ensures
        digit_run(s) == n,
    decreases n,
{
    if n > 0 {
        let t = s.drop_first();
        assert forall|j: int| 0 <= j < n - 1 implies is_digit_char(#[trigger] t[j]) by {
            assert(t[j] == s[j + 1]);
        }
        if n < s.len() {
            assert(t[n - 1] == s[n]);
        }
        lemma_digit_run(t, n - 1);
    }
}

/// Where the run of digits that starts at `from` ends.
fn digits_end(s: &str, from: usize) -> (r: usize)
    requires
        from <= s@.len(),
    ensures
        from <= r <= s@.len(),
        r - from == digit_run(s@.skip(from as int)),
{
    let len = s.unicode_len();
    let mut i = from;
    while i < len && is_digit(s.get_char(i))
        invariant
            from <= i <= len,
            len == s@.len(),
            forall|j: int| from <= j < i ==> is_digit_char(#[trigger] s@[j]),
        decreases len - i,
    {
        i += 1;
    }
    proof {
        let t = s@.skip(from as int);
        assert forall|j: int| 0 <= j < i - from implies is_digit_char(#[trigger] t[j]) by {
            assert(t[j] == s@[from + j]);
        }
        if i < len {
            assert(t[i - from] == s@[i as int]);
        }
        lemma_digit_run(t, i - from);
    }
    i
}

/// Whether what stands from `from` on is an exponent part.
fn exponent_at(s: &str, from: usize) -> (r: bool)
    requires
        from <= s@.len(),
    ensures
        r == is_exponent(s@.skip(from as int)),
{
    let len = s.unicode_len();
    let ghost e = s@.skip(from as int);
    if from == len {
        return true;
    }
    let c = s.get_char(from);
    assert(e[0] == c);
    if c != 'e' && c != 'E' {
        return false;
    }
    let mut p = from + 1;
    if p < len {
        let d = s.get_char(p);
        if d == '+' || d == '-' {
            p = p + 1;
        }
    }
    assert(unsigned_part(e.drop_first()) =~= s@.skip(p as int));
    let end = digits_end(s, p);
    end > p && end == len
}

/// Whether `s`, from `from` on, spells the word of `lower`, in any case.
fn word_any_case_at(s: &str, from: usize, lower: &str, upper: &str) -> (r: bool)
    requires
        from <= s@.len(),
        lower@.len() == upper@.len(),
    ensures
        r == is_word_any_case(s@.skip(from as int), lower@, upper@),
{
    let len = s.unicode_len();
    let n = lower.unicode_len();
    let ghost u = s@.skip(from as int);
    if len - from != n {
        return false;
    }
    let mut k: usize = 0;
    while k < n
        invariant
            k <= n,
            len - from == n,
            from <= len,
            len == s@.len(),
            n == lower@.len(),
            n == upper@.len(),
            u == s@.skip(from as int),
            forall|j: int| 0 <= j < k ==> #[trigger] u[j] == lower@[j] || u[j] == upper@[j],
        decreases n - k,
    {
        let c = s.get_char(from + k);
        assert(u[k as int] == c);
        if c != lower.get_char(k) && c != upper.get_char(k) {
            return false;
        }
        k += 1;
    }
    true
}

/// Whether `text` is a number token.
pub fn is_number(text: &str) -> (r: bool)
    ensures
        r == is_numeral(text@),
{
    let len = text.unicode_len();
    let mut start: usize = 0;
    if len > 0 {
        let c = text.get_char(0);
        if c == '+' || c == '-' {
            start = 1;
        }
    }
    let ghost u = text@.skip(start as int);
    assert(u =~= unsigned_part(text@));
    proof {
        reveal_strlit("inf");
        reveal_strlit("INF");
        reveal_strlit("infinity");
        reveal_strlit("INFINITY");
        reveal_strlit("nan");
        reveal_strlit("NAN");
    }
    let special = word_any_case_at(text, start, "inf", "INF") || word_any_case_at(
        text,
        start,
        "infinity",
        "INFINITY",
    ) || word_any_case_at(text, start, "nan", "NAN");
    let i_end = digits_end(text, start);
    let decimal = if i_end < len && text.get_char(i_end) == '.' {
        assert(u[i_end - start] == text@[i_end as int]);
        let f_end = digits_end(text, i_end + 1);
        assert(u.skip(i_end - start + 1) =~= text@.skip(i_end + 1));
        assert(u.skip(f_end - start) =~= text@.skip(f_end as int));
        f_end - start > 1 && exponent_at(text, f_end)
    } else {
        if i_end < len {
            assert(u[i_end - start] == text@[i_end as int]);
        }
        assert(u.skip(i_end - start) =~= text@.skip(i_end as int));
        i_end > start && exponent_at(text, i_end)
    };
    decimal || special
}

} // verus!
