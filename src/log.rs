use vstd::prelude::*;
use crate::error::{message_text, ErrorCode};

verus! {

/// The outcome of one attempt as it is shown and logged: the result written
/// as a decimal number, or the kind of failure.
#[derive(Debug, PartialEq, Eq)]
pub enum Solution {
    Success(String),
    Failed(ErrorCode),
}

/// Whether an attempt succeeded, as the log classifies it.
#[derive(Clone, Copy, Debug, PartialEq, Eq, Structural)]
pub enum SuccessOrFailed {
    Success,
    Failed,
}

/// A local date and time of day, as calendar fields. `wf` gives the ranges
/// of a valid one.
#[derive(Clone, Copy, Debug, PartialEq, Eq, Structural)]
pub struct Timestamp {
    pub year: i32,
    pub month: u32,
    pub day: u32,
    pub hour: u32,
    pub minute: u32,
    pub second: u32,
}

/// One logged attempt.
pub struct History {
    pub date: Timestamp,
    pub success_or_failed: SuccessOrFailed,
    pub formula: String,
    pub solution: Solution,
}

pub open spec fn digit_char(d: nat) -> char
    recommends
        d < 10,
{
    if d == 0 {
        '0'
    } else if d == 1 {
        '1'
    } else if d == 2 {
        '2'
    } else if d == 3 {
        '3'
    } else if d == 4 {
        '4'
    } else if d == 5 {
        '5'
    } else if d == 6 {
        '6'
    } else if d == 7 {
        '7'
    } else if d == 8 {
        '8'
    } else {
        '9'
    }
}

/// The decimal digits of `n`, without leading zeros.
pub open spec fn decimal(n: nat) -> Seq<char>
    decreases n,
{
    if n < 10 {
        seq![digit_char(n)]
    } else {
        decimal(n / 10).push(digit_char(n % 10))
    }
}

/// The decimal digits of `n`, with zeros in front up to `width` characters.
pub open spec fn padded(n: nat, width: nat) -> Seq<char> {
    let d = decimal(n);
    Seq::new((if width > d.len() { width - d.len() } else { 0 }) as nat, |i: int| '0') + d
}

/// A year as four digits at least; years outside 0 to 9999 carry a sign.
pub open spec fn year_text(y: int) -> Seq<char> {
    if y < 0 {
        seq!['-'] + padded((-y) as nat, 4)
    } else if y > 9999 {
        seq!['+'] + padded(y as nat, 4)
    } else {
        padded(y as nat, 4)
    }
}

impl Timestamp {
    /// Month 1 to 12, day 1 to 31, hour 0 to 23, minute and second 0 to 59.
    pub open spec fn wf(&self) -> bool {
        1 <= self.month <= 12 && 1 <= self.day <= 31 && self.hour <= 23 && self.minute <= 59
            && self.second <= 59
    }
}

/// A field must be quoted when it holds a comma or a line end, or begins
/// with a double quote; every other field is written as it is.
pub open spec fn needs_quoting(f: Seq<char>) -> bool {
    (exists|i: int| 0 <= i < f.len() && (#[trigger] f[i] == ',' || f[i] == '\n')) || (f.len() > 0
        && f[0] == '"')
}

/// A character inside a quoted field: a double quote is doubled, a backslash
/// becomes `\\` and a line end `\n`, so that the row stays on one line.
pub open spec fn quote_char(c: char) -> Seq<char> {
    if c == '"' {
        seq!['"', '"']
    } else if c == '\\' {
        seq!['\\', '\\']
    } else if c == '\n' {
        seq!['\\', 'n']
    } else {
        seq![c]
    }
}

/// The inside of a quoted field.
pub open spec fn quoted_body(f: Seq<char>) -> Seq<char>
    decreases f.len(),
{
    if f.len() == 0 {
        seq![]
    } else {
        quoted_body(f.drop_last()) + quote_char(f.last())
    }
}

/// A field as it stands in a row.
pub open spec fn field_text(f: Seq<char>) -> Seq<char> {
    if needs_quoting(f) {
        seq!['"'] + quoted_body(f) + seq!['"']
    } else {
        f
    }
}

/// `YYYY-MM-DD hh:mm:ss`.
pub open spec fn timestamp_text(t: Timestamp) -> Seq<char> {
    year_text(t.year as int) + seq!['-'] + padded(t.month as nat, 2) + seq!['-'] + padded(
        t.day as nat,
        2,
    ) + seq![' '] + padded(t.hour as nat, 2) + seq![':'] + padded(t.minute as nat, 2) + seq![':']
        + padded(t.second as nat, 2)
}

pub open spec fn classification_text(c: SuccessOrFailed) -> Seq<char> {
    match c {
        SuccessOrFailed::Success => "success"@,
        SuccessOrFailed::Failed => "failed"@,
    }
}

/// The last column of a row: the result, or the failure's message.
pub open spec fn result_text(s: Solution) -> Seq<char> {
    match s {
        Solution::Success(text) => text@,
        Solution::Failed(e) => message_text(e),
    }
}

/// A record as one row of the store, without its line end: date,
/// classification, formula and result, separated by commas, each written as
/// `field_text` says.
pub open spec fn row_text(h: History) -> Seq<char> {
    field_text(timestamp_text(h.date)) + seq![','] + field_text(
        classification_text(h.success_or_failed),
    ) + seq![','] + field_text(h.formula@) + seq![','] + field_text(result_text(h.solution))
}

/// A record as one line of the store.
pub open spec fn line_text(h: History) -> Seq<char> {
    row_text(h) + seq!['\n']
}

fn digit_str(d: u64) -> (r: &'static str)
    requires
        d < 10,
    ensures
        r@ == seq![digit_char(d as nat)],
{
    proof {
        reveal_strlit("0");
        reveal_strlit("1");
        reveal_strlit("2");
        reveal_strlit("3");
        reveal_strlit("4");
        reveal_strlit("5");
        reveal_strlit("6");
        reveal_strlit("7");
        reveal_strlit("8");
        reveal_strlit("9");
    }
    if d == 0 {
        "0"
    } else if d == 1 {
        "1"
    } else if d == 2 {
        "2"
    } else if d == 3 {
        "3"
    } else if d == 4 {
        "4"
    } else if d == 5 {
        "5"
    } else if d == 6 {
        "6"
    } else if d == 7 {
        "7"
    } else if d == 8 {
        "8"
    } else {
        "9"
    }
}

fn append_decimal(out: &mut String, n: u64)
    ensures
        final(out)@ == old(out)@ + decimal(n as nat),
    decreases n,
{
    if n >= 10 {
        append_decimal(out, n / 10);
    }
    out.append(digit_str(n % 10));
    assert(final(out)@ =~= old(out)@ + decimal(n as nat));
}

/// `n` has at least one digit, and no more digits than its value.
proof fn lemma_decimal_len(n: nat)
    ensures
        decimal(n).len() >= 1,
        n >= 1 ==> decimal(n).len() <= n,
    decreases n,
{
    if n >= 10 {
        lemma_decimal_len(n / 10);
    }
}

fn decimal_len(n: u64) -> (r: u64)
    ensures
        r == decimal(n as nat).len(),
    decreases n,
{
    proof {
        lemma_decimal_len(n as nat);
    }
    if n < 10 {
        1
    } else {
        let k = decimal_len(n / 10);
        proof {
            lemma_decimal_len((n / 10) as nat);
        }
        k + 1
    }
}

/// Appends `n` with zeros in front up to `width` characters.
fn append_padded(out: &mut String, n: u64, width: u64)
    ensures
        final(out)@ == old(out)@ + padded(n as nat, width as nat),
{
    let len = decimal_len(n);
    let ghost start = out@;
    let mut z: u64 = 0;
    let zeros: u64 = if width > len {
        width - len
    } else {
        0
    };
    while z < zeros
        invariant
            z <= zeros,
            out@ == start + Seq::new(z as nat, |i: int| '0'),
        decreases zeros - z,
    {
        proof {
            reveal_strlit("0");
        }
        out.append("0");
        z += 1;
        assert(out@ =~= start + Seq::new(z as nat, |i: int| '0'));
    }
    append_decimal(out, n);
    assert(out@ =~= start + padded(n as nat, width as nat));
}

/// Whether `field` must be quoted.
fn must_quote(field: &str) -> (r: bool)
    ensures
        r == needs_quoting(field@),
{
    let len = field.unicode_len();
    if len > 0 && field.get_char(0) == '"' {
        return true;
    }
    let mut i: usize = 0;
    while i < len
        invariant
            i <= len,
            len == field@.len(),
            forall|j: int| 0 <= j < i ==> #[trigger] field@[j] != ',' && field@[j] != '\n',
        decreases len - i,
    {
        let c = field.get_char(i);
        if c == ',' || c == '\n' {
            return true;
        }
        i += 1;
    }
    false
}

/// Appends `field` as it stands in a row.
fn append_field(out: &mut String, field: &str)
    ensures
        final(out)@ == old(out)@ + field_text(field@),
{
    if !must_quote(field) {
        out.append(field);
        return;
    }
    let ghost start = out@;
    proof {
        reveal_strlit("\"");
    }
    out.append("\"");
    let len = field.unicode_len();
    let mut i: usize = 0;
    assert(field@.take(0) =~= Seq::<char>::empty());
    while i < len
        invariant
            i <= len,
            len == field@.len(),
            out@ == start + seq!['"'] + quoted_body(field@.take(i as int)),
        decreases len - i,
    {
        let c = field.get_char(i);
        proof {
            reveal_strlit("\"\"");
            reveal_strlit("\\\\");
            reveal_strlit("\\n");
        }
        if c == '"' {
            out.append("\"\"");
        } else if c == '\\' {
            out.append("\\\\");
        } else if c == '\n' {
            out.append("\\n");
        } else {
            out.append(field.substring_char(i, i + 1));
        }
        assert(field@.take(i + 1).drop_last() =~= field@.take(i as int));
        assert(field@.take(i + 1).last() == c);
        assert(out@ =~= start + seq!['"'] + quoted_body(field@.take(i + 1)));
        i += 1;
    }
    assert(field@.take(len as int) =~= field@);
    proof {
        reveal_strlit("\"");
    }
    out.append("\"");
    assert(out@ =~= start + field_text(field@));
}

impl Timestamp {
    /// Whether the fields are in their ranges.
    pub fn is_valid(&self) -> (r: bool)
        ensures
            r == self.wf(),
    {
        1 <= self.month && self.month <= 12 && 1 <= self.day && self.day <= 31 && self.hour <= 23
            && self.minute <= 59 && self.second <= 59
    }

    /// The date and time as `YYYY-MM-DD hh:mm:ss`.
    pub fn to_text(&self) -> (r: String)
        requires
            self.wf(),
        ensures
            r@ == timestamp_text(*self),
    {
        let mut out = String::new();
        if self.year < 0 {
            proof {
                reveal_strlit("-");
            }
            out.append("-");
            let magnitude: u64 = (0i64 - self.year as i64) as u64;
            append_padded(&mut out, magnitude, 4);
        } else if self.year > 9999 {
            proof {
                reveal_strlit("+");
            }
            out.append("+");
            append_padded(&mut out, self.year as u64, 4);
        } else {
            append_padded(&mut out, self.year as u64, 4);
        }
        assert(out@ =~= year_text(self.year as int));
        proof {
            reveal_strlit("-");
            reveal_strlit(" ");
            reveal_strlit(":");
        }
        out.append("-");
        append_padded(&mut out, self.month as u64, 2);
        out.append("-");
        append_padded(&mut out, self.day as u64, 2);
        out.append(" ");
        append_padded(&mut out, self.hour as u64, 2);
        out.append(":");
        append_padded(&mut out, self.minute as u64, 2);
        out.append(":");
        append_padded(&mut out, self.second as u64, 2);
        assert(out@ =~= timestamp_text(*self));
        out
    }
}

impl SuccessOrFailed {
    /// `success` or `failed`.
    pub fn text(&self) -> (r: &'static str)
        ensures
            r@ == classification_text(*self),
    {
        match self {
            SuccessOrFailed::Success => "success",
            SuccessOrFailed::Failed => "failed",
        }
    }
}

/// How the log classifies an outcome.
pub fn judge_success_failed(con: &Solution) -> (r: SuccessOrFailed)
    ensures
        r == (if con is Success {
            SuccessOrFailed::Success
        } else {
            SuccessOrFailed::Failed
        }),
{
    match con {
        Solution::Success(_) => SuccessOrFailed::Success,
        Solution::Failed(_) => SuccessOrFailed::Failed,
    }
}

impl History {
    /// The record as one line of the store, line end included.
    pub fn to_line(&self) -> (r: String)
        requires
            self.date.wf(),
        ensures
            r@ == line_text(*self),
    {
        let ghost fd = field_text(timestamp_text(self.date));
        let ghost fc = field_text(classification_text(self.success_or_failed));
        let ghost ff = field_text(self.formula@);
        let ghost fr = field_text(result_text(self.solution));
        let mut out = String::new();
        let date = self.date.to_text();
        append_field(&mut out, date.as_str());
        assert(out@ =~= fd);
        proof {
            reveal_strlit(",");
            reveal_strlit("\n");
        }
        out.append(",");
        append_field(&mut out, self.success_or_failed.text());
        assert(out@ =~= fd + seq![','] + fc);
        out.append(",");
        append_field(&mut out, self.formula.as_str());
        assert(out@ =~= fd + seq![','] + fc + seq![','] + ff);
        out.append(",");
        match &self.solution {
            Solution::Success(text) => append_field(&mut out, text.as_str()),
            Solution::Failed(e) => append_field(&mut out, e.message()),
        }
        assert(out@ =~= row_text(*self));
        out.append("\n");
        out
    }
}

} // verus!
