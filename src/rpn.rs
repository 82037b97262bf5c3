use vstd::prelude::*;
use crate::chars::{
    is_allowed_char, is_word_char, is_digit_char, is_operator_char, is_white_char,
};
use crate::error::ErrorCode;
use crate::syntax::{
    all_allowed, check_syntax, glued_at, has_glued_operator, has_operator, long_enough,
    syntax_outcome,
};
use crate::number::{digit_run, is_number, is_numeral, lemma_digit_run, unsigned_part};
use crate::tokens::{lemma_word_len, to_vec, words};

verus! {

/// The binary operators of the grammar.
#[derive(Clone, Copy, Debug, PartialEq, Eq, Structural)]
pub enum Operator {
    Add,
    Sub,
    Mul,
    Div,
    Rem,
    Pow,
}

/// The calculation that a formula asks for: a number token, or an operator
/// applied to a left and a right operand. The calculator's arithmetic folds it
/// into a number.
#[derive(Debug, PartialEq)]
pub enum Term {
    Number(String),
    Apply(Operator, Box<Term>, Box<Term>),
}

/// A `Term` with its number tokens as character sequences.
pub enum TermView {
    Number(Seq<char>),
    Apply(Operator, Box<TermView>, Box<TermView>),
}

pub open spec fn term_view(t: Term) -> TermView
    decreases t,
{
    match t {
        Term::Number(s) => TermView::Number(s@),
        Term::Apply(op, l, r) => TermView::Apply(op, Box::new(term_view(*l)), Box::new(term_view(*r))),
    }
}

/// The operator that a token names: `+ - * / %`, and `^` or `**` for the power.
pub open spec fn operator_of(t: Seq<char>) -> Option<Operator> {
    if t.len() == 1 {
        if t[0] == '+' {
            Some(Operator::Add)
        } else if t[0] == '-' {
            Some(Operator::Sub)
        } else if t[0] == '*' {
            Some(Operator::Mul)
        } else if t[0] == '/' {
            Some(Operator::Div)
        } else if t[0] == '%' {
            Some(Operator::Rem)
        } else if t[0] == '^' {
            Some(Operator::Pow)
        } else {
            None
        }
    } else if t.len() == 2 && t[0] == '*' && t[1] == '*' {
        Some(Operator::Pow)
    } else {
        None
    }
}

/// The operand stack after the tokens, taken left to right: a number token
/// pushes itself; any other token is an operator, which needs two operands,
/// must be known, and replaces the two most recent ones, `left` pushed before
/// `right`, by `left op right`. The first failure met ends the walk.
pub open spec fn run(toks: Seq<Seq<char>>) -> Result<Seq<TermView>, ErrorCode>
    decreases toks.len(),
{
    if toks.len() == 0 {
        Ok(seq![])
    } else {
        match run(toks.drop_last()) {
            Err(e) => Err(e),
            Ok(st) => {
                let t = toks.last();
                if is_numeral(t) {
                    Ok(st.push(TermView::Number(t)))
                } else if st.len() < 2 {
                    Err(ErrorCode::InsufficientOperand)
                } else {
                    match operator_of(t) {
                        None => Err(ErrorCode::UndefinedOperator),
                        Some(op) => Ok(
                            st.drop_last().drop_last().push(
                                TermView::Apply(
                                    op,
                                    Box::new(st[st.len() - 2]),
                                    Box::new(st[st.len() - 1]),
                                ),
                            ),
                        ),
                    }
                }
            },
        }
    }
}

/// What the tokens denote: the first failure of `run`; else `NotComplete`
/// unless exactly one operand is left; else that operand.
pub open spec fn evaluation(toks: Seq<Seq<char>>) -> Result<TermView, ErrorCode> {
    match run(toks) {
        Err(e) => Err(e),
        Ok(st) => if st.len() != 1 {
            Err(ErrorCode::NotComplete)
        } else {
            Ok(st[0])
        },
    }
}

/// A result of the evaluator as a view.
pub open spec fn result_view(r: Result<Term, ErrorCode>) -> Result<TermView, ErrorCode> {
    match r {
        Ok(t) => Ok(term_view(t)),
        Err(e) => Err(e),
    }
}

/// The characters of each token.
pub open spec fn tokens_view(v: Seq<String>) -> Seq<Seq<char>> {
    v.map_values(|s: String| s@)
}

/// Once a prefix of the tokens fails, the whole sequence fails the same way.
proof fn lemma_run_error_persists(toks: Seq<Seq<char>>, i: int)
    requires
        0 <= i <= toks.len(),
        run(toks.take(i)) is Err,
    ensures
        run(toks) == run(toks.take(i)),
    decreases toks.len() - i,
{
    if i < toks.len() {
        assert(toks.take(i + 1).drop_last() =~= toks.take(i));
        lemma_run_error_persists(toks, i + 1);
    } else {
        assert(toks.take(i) =~= toks);
    }
}

/// Recognises a number token.
pub fn to_num(input: &str) -> (r: Result<Term, ErrorCode>)
    ensures
        result_view(r) == (if is_numeral(input@) {
            Ok(TermView::Number(input@))
        } else {
            Err::<TermView, ErrorCode>(ErrorCode::FailedConvertNum)
        }),
{
    if is_number(input) {
        Ok(Term::Number(String::from_str(input)))
    } else {
        Err(ErrorCode::FailedConvertNum)
    }
}

/// The operator that `token` names, if any.
pub fn to_operator(token: &str) -> (r: Option<Operator>)
    ensures
        r == operator_of(token@),
{
    let len = token.unicode_len();
    if len == 1 {
        let c = token.get_char(0);
        if c == '+' {
            Some(Operator::Add)
        } else if c == '-' {
            Some(Operator::Sub)
        } else if c == '*' {
            Some(Operator::Mul)
        } else if c == '/' {
            Some(Operator::Div)
        } else if c == '%' {
            Some(Operator::Rem)
        } else if c == '^' {
            Some(Operator::Pow)
        } else {
            None
        }
    } else if len == 2 && token.get_char(0) == '*' && token.get_char(1) == '*' {
        Some(Operator::Pow)
    } else {
        None
    }
}

/// Applies the operator named by `operator` to `(left, right)`.
pub fn calculation(operands: (Term, Term), operator: &str) -> (r: Result<Term, ErrorCode>)
    ensures
        result_view(r) == match operator_of(operator@) {
            Some(op) => Ok(
                TermView::Apply(op, Box::new(term_view(operands.0)), Box::new(term_view(operands.1))),
            ),
            None => Err::<TermView, ErrorCode>(ErrorCode::UndefinedOperator),
        },
{
    match to_operator(operator) {
        Some(op) => Ok(Term::Apply(op, Box::new(operands.0), Box::new(operands.1))),
        None => Err(ErrorCode::UndefinedOperator),
    }
}

/// Evaluates a token sequence on an operand stack, exactly as `evaluation`
/// describes.
pub fn manage_calculate(formula_vec: &Vec<String>) -> (r: Result<Term, ErrorCode>)
    ensures
        result_view(r) == evaluation(tokens_view(formula_vec@)),
{
    let ghost toks = tokens_view(formula_vec@);
    let mut operands: Vec<Term> = Vec::new();
    let mut i: usize = 0;
    assert(toks.take(0) =~= Seq::<Seq<char>>::empty());
    assert(operands@.map_values(|t: Term| term_view(t)) =~= Seq::<TermView>::empty());
    while i < formula_vec.len()
        invariant
            0 <= i <= formula_vec.len(),
            toks == tokens_view(formula_vec@),
            run(toks.take(i as int)) == Ok::<Seq<TermView>, ErrorCode>(
                operands@.map_values(|t: Term| term_view(t)),
            ),
        decreases formula_vec.len() - i,
    {
        let token = formula_vec[i].as_str();
        assert(toks.take(i + 1).drop_last() =~= toks.take(i as int));
        assert(toks.take(i + 1).last() == token@);
        let ghost before = operands@;
        match to_num(token) {
            Ok(num) => {
                operands.push(num);
                assert(operands@.map_values(|t: Term| term_view(t)) =~= before.map_values(
                    |t: Term| term_view(t),
                ).push(term_view(num)));
            },
            Err(_) => {
                if operands.len() < 2 {
                    proof {
                        lemma_run_error_persists(toks, i + 1);
                    }
                    return Err(ErrorCode::InsufficientOperand);
                }
                let ghost st = before.map_values(|t: Term| term_view(t));
                let right = operands.pop().unwrap();
                let left = operands.pop().unwrap();
                assert(term_view(left) == st[st.len() - 2] && term_view(right) == st[st.len() - 1]);
                let ghost rest = operands@;
                assert(rest =~= before.drop_last().drop_last());
                match calculation((left, right), token) {
                    Ok(v) => {
                        operands.push(v);
                        assert(operands@.map_values(|t: Term| term_view(t)) =~= st.drop_last().drop_last().push(
                            term_view(v),
                        ));
                    },
                    Err(e) => {
                        proof {
                            lemma_run_error_persists(toks, i + 1);
                        }
                        return Err(e);
                    },
                }
            },
        }
        i += 1;
    }
    assert(toks.take(i as int) =~= toks);
    if operands.len() != 1 {
        return Err(ErrorCode::NotComplete);
    }
    let value = operands.pop().unwrap();
    Ok(value)
}

/// Checks a formula against the grammar, splits it into tokens and evaluates
/// them: the grammar's verdict comes first, then the evaluation of the tokens.
pub fn calculate(formula: &str) -> (r: Result<Term, ErrorCode>)
    ensures
        result_view(r) == match syntax_outcome(formula@) {
            Err(e) => Err(e),
            Ok(_) => evaluation(words(formula@)),
        },
{
    match check_syntax(formula) {
        Err(e) => Err(e),
        Ok(_) => {
            let formula_vec = to_vec(formula);
            manage_calculate(&formula_vec)
        },
    }
}

/// A sign or nothing, then one or more decimal digits: the only number tokens
/// that the grammar's character set admits.
pub open spec fn is_signed_digits(t: Seq<char>) -> bool {
    let d = unsigned_part(t);
    d.len() > 0 && forall|i: int| 0 <= i < d.len() ==> is_digit_char(#[trigger] d[i])
}

/// Such a token is a number token, begins with a sign or a digit, and holds
/// only digits after that.
proof fn lemma_signed_digits(t: Seq<char>)
    requires
        is_signed_digits(t),
    ensures
        is_numeral(t),
        t.len() >= 1,
        forall|k: int|
            0 <= k < t.len() ==> is_digit_char(#[trigger] t[k]) || (k == 0 && (t[k] == '+' || t[k]
                == '-')),
{
    let d = unsigned_part(t);
    lemma_digit_run(d, d.len() as int);
    assert(d.skip(d.len() as int) =~= Seq::<char>::empty());
    assert forall|k: int| 0 <= k < t.len() implies is_digit_char(#[trigger] t[k]) || (k == 0 && (
    t[k] == '+' || t[k] == '-')) by {
        if t[0] == '+' || t[0] == '-' {
            if k > 0 {
                assert(t[k] == d[k - 1]);
            }
        } else {
            assert(t[k] == d[k]);
        }
    }
}

/// An operator token holds operator symbols only, and is no number token.
proof fn lemma_operator_chars(t: Seq<char>)
    requires
        operator_of(t) is Some,
    ensures
        t.len() >= 1,
        forall|k: int| 0 <= k < t.len() ==> is_operator_char(#[trigger] t[k]),
        !is_numeral(t),
{
    reveal_strlit("inf");
    reveal_strlit("INF");
    reveal_strlit("infinity");
    reveal_strlit("INFINITY");
    reveal_strlit("nan");
    reveal_strlit("NAN");
    let u = unsigned_part(t);
    if u.len() > 0 {
        assert(!is_digit_char(u[0]));
        assert(u[0] != '.');
    }
    assert(digit_run(u) == 0);
}

/// Splitting `t + rest` where `t` is a whole word: the word, then the words
/// of `rest`.
proof fn lemma_words_front(t: Seq<char>, rest: Seq<char>)
    requires
        t.len() >= 1,
        forall|k: int| 0 <= k < t.len() ==> !is_white_char(#[trigger] t[k]),
        rest.len() == 0 || rest[0] == ' ',
    ensures
        words(t + rest) == seq![t] + words(if rest.len() == 0 {
            rest
        } else {
            rest.drop_first()
        }),
{
    let s = t + rest;
    assert forall|k: int| 0 <= k < t.len() implies !is_white_char(#[trigger] s[k]) by {
        assert(s[k] == t[k]);
    }
    if rest.len() > 0 {
        assert(s[t.len() as int] == rest[0]);
    }
    lemma_word_len(s, t.len() as int);
    assert(s.take(t.len() as int) =~= t);
    assert(s.skip(t.len() as int) =~= rest);
    assert(!is_white_char(s[0]));
    assert(words(s) == seq![s.take(t.len() as int)] + words(s.skip(t.len() as int)));
    if rest.len() > 0 {
        assert(is_white_char(rest[0]));
        assert(words(rest) == words(rest.drop_first()));
    }
}

/// A formula written as two numbers and an operator, separated by single
/// spaces, passes the grammar, splits into exactly those three tokens, and
/// denotes `a op b`: the operator applied to the two numbers, the first on the
/// left.
pub proof fn lemma_two_operand_formula(a: Seq<char>, b: Seq<char>, op: Seq<char>)
    requires
        is_signed_digits(a),
        is_signed_digits(b),
        operator_of(op) is Some,
    ensures
        syntax_outcome(a + seq![' '] + b + seq![' '] + op) == Ok::<(), ErrorCode>(()),
        words(a + seq![' '] + b + seq![' '] + op) == seq![a, b, op],
        evaluation(seq![a, b, op]) == Ok::<TermView, ErrorCode>(
            TermView::Apply(
                operator_of(op)->0,
                Box::new(TermView::Number(a)),
                Box::new(TermView::Number(b)),
            ),
        ),
{
    lemma_signed_digits(a);
    lemma_signed_digits(b);
    lemma_operator_chars(op);
    let toks = seq![a, b, op];
    assert(toks.drop_last() =~= seq![a, b]);
    assert(seq![a, b].drop_last() =~= seq![a]);
    assert(seq![a].drop_last() =~= Seq::<Seq<char>>::empty());
    assert(seq![a].last() == a);
    assert(seq![a, b].last() == b);
    assert(toks.last() == op);
    let va = TermView::Number(a);
    let vb = TermView::Number(b);
    assert(run(Seq::<Seq<char>>::empty()) == Ok::<Seq<TermView>, ErrorCode>(
        Seq::<TermView>::empty(),
    ));
    assert(Seq::<TermView>::empty().push(va) =~= seq![va]);
    assert(run(seq![a]) == Ok::<Seq<TermView>, ErrorCode>(seq![va]));
    assert(seq![va].push(vb) =~= seq![va, vb]);
    assert(run(seq![a, b]) == Ok::<Seq<TermView>, ErrorCode>(seq![va, vb]));
    let v = TermView::Apply(operator_of(op)->0, Box::new(va), Box::new(vb));
    assert(seq![va, vb].drop_last().drop_last().push(v) =~= seq![v]);
    assert(run(toks) == Ok::<Seq<TermView>, ErrorCode>(seq![v]));

    let f = a + seq![' '] + b + seq![' '] + op;
    let la = a.len() as int;
    let lb = b.len() as int;
    let lo = op.len() as int;
    assert(f.len() == la + lb + lo + 2);
    assert forall|k: int| 0 <= k < la implies #[trigger] f[k] == a[k] by {}
    assert forall|k: int| 0 <= k < lb implies #[trigger] f[la + 1 + k] == b[k] by {}
    assert forall|k: int| 0 <= k < lo implies #[trigger] f[la + lb + 2 + k] == op[k] by {}
    assert(f[la] == ' ');
    assert(f[la + 1 + lb] == ' ');

    assert forall|i: int| 0 <= i < f.len() implies is_allowed_char(#[trigger] f[i]) by {
        if i < la {
            assert(f[i] == a[i]);
        } else if i == la {
        } else if i < la + 1 + lb {
            assert(f[la + 1 + (i - la - 1)] == b[i - la - 1]);
        } else if i == la + 1 + lb {
        } else {
            assert(f[la + lb + 2 + (i - la - lb - 2)] == op[i - la - lb - 2]);
        }
    }
    assert(all_allowed(f));

    assert(f[0] == a[0]);
    assert(f[la + lb + 2] == op[0]);
    assert(!is_white_char(f[0]) && !is_white_char(f[la + lb + 2]));
    assert(long_enough(f));

    assert forall|i: int| !#[trigger] glued_at(f, i) by {
        if 0 <= i && i + 1 < f.len() && is_digit_char(f[i]) {
            if i < la {
                if i + 1 < la {
                    assert(f[i + 1] == a[i + 1]);
                    assert(is_digit_char(a[i + 1]));
                }
            } else if i == la {
            } else if i < la + 1 + lb {
                let k = i - la - 1;
                if k + 1 < lb {
                    assert(f[la + 1 + (k + 1)] == b[k + 1]);
                    assert(is_digit_char(b[k + 1]));
                } else {
                    assert(i + 1 == la + 1 + lb);
                }
            } else if i == la + 1 + lb {
            } else {
                assert(f[la + lb + 2 + (i - la - lb - 2)] == op[i - la - lb - 2]);
                assert(is_operator_char(op[i - la - lb - 2]));
            }
        }
    }
    assert(!has_glued_operator(f));

    assert(is_operator_char(f[la + lb + 2]));
    assert(has_operator(f));

    let r1 = seq![' '] + b + seq![' '] + op;
    assert(f =~= a + r1);
    lemma_words_front(a, r1);
    let r2 = seq![' '] + op;
    assert(r1.drop_first() =~= b + r2);
    lemma_words_front(b, r2);
    assert(r2.drop_first() =~= op + Seq::<char>::empty());
    lemma_words_front(op, Seq::<char>::empty());
    assert(op + Seq::<char>::empty() =~= op);
    assert(words(Seq::<char>::empty()) =~= Seq::<Seq<char>>::empty());
    assert(words(f) =~= seq![a, b, op]);
}

} // verus!
