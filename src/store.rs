use vstd::prelude::*;
use crate::log::{
    classification_text, field_text, line_text, needs_quoting, quote_char, quoted_body,
    result_text, row_text, timestamp_text, History,
};

verus! {

/// The header row of the store: date, outcome, formula, result.
pub open spec fn header_text() -> Seq<char> {
    "日付,成否,式,結果"@
}

/// The name of the store's file in its directory.
pub open spec fn store_file_name() -> Seq<char> {
    "history.csv"@
}

/// How many characters come before the first line end of `s`.
pub open spec fn line_len(s: Seq<char>) -> nat
    decreases s.len(),
{
    if s.len() == 0 || s[0] == '\n' {
        0
    } else {
        1 + line_len(s.drop_first())
    }
}

/// The first row of the store, without its line end.
pub open spec fn first_line(s: Seq<char>) -> Seq<char> {
    s.take(line_len(s) as int)
}

pub open spec fn has_header(s: Seq<char>) -> bool {
    first_line(s) == header_text()
}

/// The store after header reconciliation: unchanged when its first row is the
/// header, else the header row followed by everything it held before.
pub open spec fn with_header(s: Seq<char>) -> Seq<char> {
    if has_header(s) {
        s
    } else {
        header_text() + seq!['\n'] + s
    }
}

/// What appending a record adds to the store: its line, after a line end
/// where the store's last row is not yet closed.
pub open spec fn appendix(s: Seq<char>, h: History) -> Seq<char> {
    if s.len() > 0 && s.last() != '\n' {
        seq!['\n'] + line_text(h)
    } else {
        line_text(h)
    }
}

/// The path of the store in directory `dir`.
pub open spec fn csv_path(dir: Seq<char>) -> Seq<char> {
    if dir.len() == 0 {
        store_file_name()
    } else if dir.last() == '/' {
        dir + store_file_name()
    } else {
        dir + seq!['/'] + store_file_name()
    }
}

proof fn lemma_line_len(s: Seq<char>, n: int)
    requires
        0 <= n <= s.len(),
        forall|j: int| 0 <= j < n ==> #[trigger] s[j] != '\n',
        n == s.len() || s[n] == '\n',
    ensures
        line_len(s) == n,
    decreases n,
{
    if n > 0 {
        let t = s.drop_first();
        assert forall|j: int| 0 <= j < n - 1 implies #[trigger] t[j] != '\n' by {
            assert(t[j] == s[j + 1]);
        }
        if n < s.len() {
            assert(t[n - 1] == s[n]);
        }
        lemma_line_len(t, n - 1);
    }
}

/// The header row.
pub fn header() -> (r: &'static str)
    ensures
        r@ == header_text(),
{
    "日付,成否,式,結果"
}

/// Whether the store's first row is exactly the header, so that
/// reconciliation has nothing to write.
pub fn header_is_current(content: &str) -> (r: bool)
    ensures
        r == has_header(content@),
{
    let h = header();
    let hlen = h.unicode_len();
    let len = content.unicode_len();
    let mut i: usize = 0;
    while i < len && content.get_char(i) != '\n'
        invariant
            i <= len,
            len == content@.len(),
            forall|j: int| 0 <= j < i ==> #[trigger] content@[j] != '\n',
        decreases len - i,
    {
        i += 1;
    }
    proof {
        lemma_line_len(content@, i as int);
    }
    if i != hlen {
        return false;
    }
    let mut k: usize = 0;
    while k < i
        invariant
            k <= i,
            i == hlen,
            i <= len,
            len == content@.len(),
            hlen == h@.len(),
            h@ == header_text(),
            line_len(content@) == i,
            forall|j: int| 0 <= j < k ==> content@[j] == h@[j],
        decreases i - k,
    {
        if content.get_char(k) != h.get_char(k) {
            assert(first_line(content@)[k as int] != header_text()[k as int]);
            return false;
        }
        k += 1;
    }
    assert(first_line(content@) =~= header_text());
    true
}

/// Header reconciliation: the store's new content, which is the old content
/// when its first row is already the header, and otherwise the header row
/// followed by the old content.
pub fn add_csv_column(content: &str) -> (r: String)
    ensures
        r@ == with_header(content@),
{
    if header_is_current(content) {
        String::from_str(content)
    } else {
        let mut out = String::from_str(header());
        proof {
            reveal_strlit("\n");
        }
        out.append("\n");
        out.append(content);
        assert(out@ =~= with_header(content@));
        out
    }
}

/// What to append to a store holding `content` to add `record` as its last
/// row.
pub fn add_csv_line(content: &str, record: &History) -> (r: String)
    requires
        record.date.wf(),
    ensures
        r@ == appendix(content@, *record),
{
    let line = record.to_line();
    let len = content.unicode_len();
    if len > 0 && content.get_char(len - 1) != '\n' {
        let mut out = String::from_str("\n");
        proof {
            reveal_strlit("\n");
        }
        out.append(line.as_str());
        assert(out@ =~= appendix(content@, *record));
        out
    } else {
        line
    }
}

/// The path of the store in the directory `dir`.
pub fn to_csv_path(dir: &str) -> (r: String)
    ensures
        r@ == csv_path(dir@),
{
    let len = dir.unicode_len();
    let mut out = String::from_str(dir);
    if len > 0 && dir.get_char(len - 1) != '/' {
        proof {
            reveal_strlit("/");
        }
        out.append("/");
    }
    out.append("history.csv");
    proof {
        if len > 0 {
            assert(dir@.last() == dir@[len - 1]);
        }
    }
    assert(out@ =~= csv_path(dir@));
    out
}

/// Reconciling the header twice leaves the store exactly as reconciling it
/// once, and the second reconciliation finds the header in place, so that it
/// writes nothing.
pub proof fn lemma_header_reconciliation_idempotent(content: Seq<char>)
    ensures
        has_header(with_header(content)),
        with_header(with_header(content)) == with_header(content),
{
    if !has_header(content) {
        reveal_strlit("日付,成否,式,結果");
        let h = header_text();
        let s = h + seq!['\n'] + content;
        assert forall|j: int| 0 <= j < h.len() implies #[trigger] s[j] != '\n' by {
            assert(s[j] == h[j]);
        }
        assert(s[h.len() as int] == '\n');
        lemma_line_len(s, h.len() as int);
        assert(first_line(s) =~= h);
    }
}

/// The character `ch` does not occur in `s`.
pub open spec fn avoids(s: Seq<char>, ch: char) -> bool {
    forall|i: int| 0 <= i < s.len() ==> #[trigger] s[i] != ch
}

/// What follows the last line end of `s`, or all of `s` if it has none.
pub open spec fn after_last_newline(s: Seq<char>) -> Seq<char>
    decreases s.len(),
{
    if s.len() == 0 {
        s
    } else if s.last() == '\n' {
        seq![]
    } else {
        after_last_newline(s.drop_last()).push(s.last())
    }
}

/// The last row of a store whose content ends with a line end, without it.
pub open spec fn last_row(s: Seq<char>) -> Seq<char> {
    after_last_newline(s.drop_last())
}

/// Reads the fields of a row from the start of a field on. A field that
/// begins with a double quote is quoted; any other runs to the next comma.
pub open spec fn read_row(s: Seq<char>) -> Seq<Seq<char>>
    decreases s.len(), 0int,
{
    if s.len() == 0 {
        seq![seq![]]
    } else if s[0] == '"' {
        read_quoted(s.drop_first(), seq![])
    } else if s[0] == ',' {
        seq![seq![]] + read_row(s.drop_first())
    } else {
        read_plain(s.drop_first(), seq![s[0]])
    }
}

/// Reads the rest of a plain field, `cur` being what was read of it so far.
pub open spec fn read_plain(s: Seq<char>, cur: Seq<char>) -> Seq<Seq<char>>
    decreases s.len(), 1int,
{
    if s.len() == 0 {
        seq![cur]
    } else if s[0] == ',' {
        seq![cur] + read_row(s.drop_first())
    } else {
        read_plain(s.drop_first(), cur.push(s[0]))
    }
}

/// Reads the rest of a quoted field: a doubled double quote stands for one,
/// a backslash takes the next character literally (`n` standing for a line
/// end), and a lone double quote closes the field.
pub open spec fn read_quoted(s: Seq<char>, cur: Seq<char>) -> Seq<Seq<char>>
    decreases s.len(), 1int,
{
    if s.len() == 0 {
        seq![cur]
    } else if s[0] == '"' {
        if s.len() >= 2 && s[1] == '"' {
            read_quoted(s.skip(2), cur.push('"'))
        } else {
            read_plain(s.drop_first(), cur)
        }
    } else if s[0] == '\\' && s.len() >= 2 {
        read_quoted(s.skip(2), cur.push(if s[1] == 'n' { '\n' } else { s[1] }))
    } else {
        read_quoted(s.drop_first(), cur.push(s[0]))
    }
}

/// The fields of a row.
pub open spec fn parse_row(row: Seq<char>) -> Seq<Seq<char>> {
    read_row(row)
}

/// What follows a field: nothing, or a comma and the fields after it.
pub open spec fn rest_fields(rest: Seq<char>) -> Seq<Seq<char>> {
    if rest.len() == 0 {
        seq![]
    } else {
        read_row(rest.drop_first())
    }
}

proof fn lemma_after_last_newline(p: Seq<char>, x: Seq<char>)
    requires
        p.len() == 0 || p.last() == '\n',
        avoids(x, '\n'),
    ensures
        after_last_newline(p + x) == x,
    decreases x.len(),
{
    if x.len() == 0 {
        assert(p + x =~= p);
        assert(after_last_newline(p) =~= x);
    } else {
        let s = p + x;
        assert(s.last() == x[x.len() - 1]);
        assert(s.drop_last() =~= p + x.drop_last());
        lemma_after_last_newline(p, x.drop_last());
        assert(x.drop_last().push(x.last()) =~= x);
    }
}

proof fn lemma_avoids_concat(a: Seq<char>, b: Seq<char>, ch: char)
    requires
        avoids(a, ch),
        avoids(b, ch),
    ensures
        avoids(a + b, ch),
{
    assert forall|i: int| 0 <= i < (a + b).len() implies #[trigger] (a + b)[i] != ch by {
        if i < a.len() {
            assert((a + b)[i] == a[i]);
        } else {
            assert((a + b)[i] == b[i - a.len()]);
        }
    }
}

/// A field as written holds no line end.
proof fn lemma_field_one_line(x: Seq<char>)
    ensures
        avoids(field_text(x), '\n'),
{
    if needs_quoting(x) {
        lemma_quoted_body_one_line(x);
        lemma_avoids_concat(seq!['"'], quoted_body(x), '\n');
        lemma_avoids_concat(seq!['"'] + quoted_body(x), seq!['"'], '\n');
    }
}

proof fn lemma_quoted_body_one_line(x: Seq<char>)
    ensures
        avoids(quoted_body(x), '\n'),
    decreases x.len(),
{
    if x.len() > 0 {
        lemma_quoted_body_one_line(x.drop_last());
        lemma_avoids_concat(quoted_body(x.drop_last()), quote_char(x.last()), '\n');
    }
}

/// Reading plain text without a comma adds it to the current field.
proof fn lemma_read_plain(y: Seq<char>, rest: Seq<char>, cur: Seq<char>)
    requires
        avoids(y, ','),
    ensures
        read_plain(y + rest, cur) == read_plain(rest, cur + y),
    decreases y.len(),
{
    if y.len() == 0 {
        assert(y + rest =~= rest);
        assert(cur + y =~= cur);
    } else {
        let s = y + rest;
        assert(s[0] == y[0]);
        assert(s.drop_first() =~= y.drop_first() + rest);
        lemma_read_plain(y.drop_first(), rest, cur.push(y[0]));
        assert(cur.push(y[0]) + y.drop_first() =~= cur + y);
    }
}

/// Reading one quoted character adds it to the current field.
proof fn lemma_read_quoted_char(c: char, rest: Seq<char>, cur: Seq<char>)
    ensures
        read_quoted(quote_char(c) + rest, cur) == read_quoted(rest, cur.push(c)),
{
    let s = quote_char(c) + rest;
    if c == '"' || c == '\\' || c == '\n' {
        assert(s.len() >= 2);
        assert(s.skip(2) =~= rest);
    } else {
        assert(s[0] == c);
        assert(s.drop_first() =~= rest);
    }
}

/// Reading the inside of a quoted field adds that field to the current one.
proof fn lemma_read_quoted(x: Seq<char>, rest: Seq<char>, cur: Seq<char>)
    ensures
        read_quoted(quoted_body(x) + rest, cur) == read_quoted(rest, cur + x),
    decreases x.len(),
{
    if x.len() == 0 {
        assert(quoted_body(x) + rest =~= rest);
        assert(cur + x =~= cur);
    } else {
        let y = x.drop_last();
        let c = x.last();
        assert(quoted_body(x) + rest =~= quoted_body(y) + (quote_char(c) + rest));
        lemma_read_quoted(y, quote_char(c) + rest, cur);
        lemma_read_quoted_char(c, rest, cur + y);
        assert((cur + y).push(c) =~= cur + x);
    }
}

/// A field as written, followed by nothing or by a comma, reads back as
/// itself.
proof fn lemma_read_field(x: Seq<char>, rest: Seq<char>)
    requires
        rest.len() == 0 || rest[0] == ',',
    ensures
        read_row(field_text(x) + rest) == seq![x] + rest_fields(rest),
{
    let s = field_text(x) + rest;
    if needs_quoting(x) {
        let q = seq!['"'];
        assert(s =~= q + (quoted_body(x) + (q + rest)));
        assert(s.drop_first() =~= quoted_body(x) + (q + rest));
        lemma_read_quoted(x, q + rest, seq![]);
        assert(Seq::<char>::empty() + x =~= x);
        let t = q + rest;
        assert(t[0] == '"');
        assert(t.drop_first() =~= rest);
        if rest.len() > 0 {
            assert(t[1] == ',');
        }
        if rest.len() > 0 {
            assert(read_plain(rest, x) == seq![x] + read_row(rest.drop_first()));
        } else {
            assert(read_plain(rest, x) == seq![x]);
        }
    } else {
        assert forall|i: int| 0 <= i < x.len() implies #[trigger] x[i] != ',' by {
            if x[i] == ',' {
                assert(needs_quoting(x));
            }
        }
        if x.len() == 0 {
            assert(s =~= rest);
            assert(x =~= Seq::<char>::empty());
            if rest.len() > 0 {
                assert(seq![seq![]] + read_row(rest.drop_first()) =~= seq![x] + rest_fields(rest));
            } else {
                assert(x =~= Seq::<char>::empty());
            }
        } else {
            assert(s[0] == x[0]);
            assert(x[0] != '"');
            assert(s.drop_first() =~= x.drop_first() + rest);
            assert(avoids(x.drop_first(), ',')) by {
                assert forall|i: int| 0 <= i < x.drop_first().len() implies #[trigger] x.drop_first()[i]
                    != ',' by {
                    assert(x.drop_first()[i] == x[i + 1]);
                }
            }
            lemma_read_plain(x.drop_first(), rest, seq![x[0]]);
            assert(seq![x[0]] + x.drop_first() =~= x);
            if rest.len() > 0 {
                assert(read_plain(rest, x) == seq![x] + read_row(rest.drop_first()));
            } else {
                assert(read_plain(rest, x) == seq![x]);
            }
        }
    }
}

/// The row made of four fields as written reads back as those fields.
proof fn lemma_fields_read_back(d: Seq<char>, c: Seq<char>, f: Seq<char>, r: Seq<char>)
    ensures
        parse_row(
            field_text(d) + seq![','] + field_text(c) + seq![','] + field_text(f) + seq![',']
                + field_text(r),
        ) == seq![d, c, f, r],
{
    let comma = seq![','];
    let row = field_text(d) + comma + field_text(c) + comma + field_text(f) + comma + field_text(
        r,
    );
    let tail3 = comma + field_text(r);
    let tail2 = comma + field_text(f) + tail3;
    let tail1 = comma + field_text(c) + tail2;
    assert(row =~= field_text(d) + tail1);
    lemma_read_field(d, tail1);
    assert(tail1.drop_first() =~= field_text(c) + tail2);
    lemma_read_field(c, tail2);
    assert(tail2.drop_first() =~= field_text(f) + tail3);
    lemma_read_field(f, tail3);
    assert(tail3.drop_first() =~= field_text(r) + Seq::<char>::empty());
    lemma_read_field(r, Seq::<char>::empty());
    assert(rest_fields(Seq::<char>::empty()) =~= Seq::<Seq<char>>::empty());
    assert(parse_row(row) =~= seq![d, c, f, r]);
}

/// The row made of four fields as written holds no line end.
proof fn lemma_fields_one_line(d: Seq<char>, c: Seq<char>, f: Seq<char>, r: Seq<char>)
    ensures
        avoids(
            field_text(d) + seq![','] + field_text(c) + seq![','] + field_text(f) + seq![',']
                + field_text(r),
            '\n',
        ),
{
    let comma = seq![','];
    lemma_field_one_line(d);
    lemma_field_one_line(c);
    lemma_field_one_line(f);
    lemma_field_one_line(r);
    assert(avoids(comma, '\n'));
    let a = field_text(d);
    lemma_avoids_concat(a, comma, '\n');
    let a = a + comma;
    lemma_avoids_concat(a, field_text(c), '\n');
    let a = a + field_text(c);
    lemma_avoids_concat(a, comma, '\n');
    let a = a + comma;
    lemma_avoids_concat(a, field_text(f), '\n');
    let a = a + field_text(f);
    lemma_avoids_concat(a, comma, '\n');
    let a = a + comma;
    lemma_avoids_concat(a, field_text(r), '\n');
}

/// A record appended to a store, whatever the store held before, is read back
/// from the store's last row: the row's fields are the record's date,
/// classification, formula and result text.
pub proof fn lemma_round_trip(content: Seq<char>, record: History)
    ensures
        parse_row(last_row(content + appendix(content, record))) == seq![
            timestamp_text(record.date),
            classification_text(record.success_or_failed),
            record.formula@,
            result_text(record.solution),
        ],
{
    let row = row_text(record);
    let d = timestamp_text(record.date);
    let c = classification_text(record.success_or_failed);
    let f = record.formula@;
    let r = result_text(record.solution);
    lemma_fields_read_back(d, c, f, r);
    lemma_fields_one_line(d, c, f, r);
    let p = if content.len() > 0 && content.last() != '\n' {
        content + seq!['\n']
    } else {
        content
    };
    let after = content + appendix(content, record);
    assert(after =~= p + row + seq!['\n']);
    assert(after.drop_last() =~= p + row);
    assert(p.len() == 0 || p.last() == '\n');
    lemma_after_last_newline(p, row);
}

} // verus!
