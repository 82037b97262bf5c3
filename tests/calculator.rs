use rpn_calc::error::ErrorCode;
use rpn_calc::rpn::{calculate, calculation, manage_calculate, to_num, to_operator, Operator, Term};
use rpn_calc::syntax::{check_half_space, check_is_operator, check_length, check_syntax, check_unavailable_character};
use rpn_calc::tokens::to_vec;

/// Folds a term into a floating-point number.
fn value(t: &Term) -> f64 {
    match t {
        Term::Number(text) => text.parse::<f64>().unwrap(),
        Term::Apply(op, left, right) => {
            let (l, r) = (value(left), value(right));
            match op {
                Operator::Add => l + r,
                Operator::Sub => l - r,
                Operator::Mul => l * r,
                Operator::Div => l / r,
                Operator::Rem => l % r,
                Operator::Pow => l.powf(r),
            }
        }
    }
}

fn num(text: &str) -> Term {
    Term::Number(text.to_string())
}

fn apply(op: Operator, left: Term, right: Term) -> Term {
    Term::Apply(op, Box::new(left), Box::new(right))
}

fn conclude(r: Result<Term, ErrorCode>) -> Solution {
    match r {
        Ok(t) => {
            let v = value(&t);
            if v.is_infinite() {
                Solution::Failed(ErrorCode::ResultTooMuch)
            } else {
                Solution::Success(v)
            }
        }
        Err(error_code) => Solution::Failed(error_code),
    }
}

#[derive(Debug, Clone, PartialEq)]
enum Solution {
    Success(f64),
    Failed(ErrorCode),
}

fn solve(formula: &str) -> Solution {
    match check_syntax(formula) {
        Ok(_) => {
            let formula_vec = to_vec(formula);
            conclude(manage_calculate(&formula_vec))
        }
        Err(error_code) => Solution::Failed(error_code),
    }
}

#[test]
fn it_works() {
    let formula_vec = vec![
        ("1 2 +", Solution::Success(3.0)),
        ("1 2 + 3 4 + +", Solution::Success(10.0)),
        ("1 2 -", Solution::Success(-1.0)),
        ("1 2 *", Solution::Success(2.0)),
        ("1 2 /", Solution::Success(0.5)),
        ("5 2 %", Solution::Success(1.0)),
        ("2 5 ^", Solution::Success(32.0)),
        ("a", Solution::Failed(ErrorCode::NoncalculableCharacter)),
        ("", Solution::Failed(ErrorCode::FormulaNotEntered)),
        ("1+", Solution::Failed(ErrorCode::NoSpaceBetweenOperators)),
        ("1 +", Solution::Failed(ErrorCode::InsufficientOperand)),
        ("1 2 + 3 4 +", Solution::Failed(ErrorCode::NotComplete)),
        ("100 1000 ^", Solution::Failed(ErrorCode::ResultTooMuch)),
    ];
    for input_formula_str in formula_vec {
        let result = solve(input_formula_str.0);
        assert_eq!(result, input_formula_str.1);
    }
}

#[test]
fn double_star_is_power() {
    assert_eq!(solve("2 5 **"), Solution::Success(32.0));
}

#[test]
fn calculate_runs_the_whole_pipeline() {
    assert_eq!(
        calculate("1 2 + 3 4 + *"),
        Ok(apply(
            Operator::Mul,
            apply(Operator::Add, num("1"), num("2")),
            apply(Operator::Add, num("3"), num("4"))
        ))
    );
    assert_eq!(conclude(calculate("1 2 + 3 4 + *")), Solution::Success(21.0));
    assert_eq!(conclude(calculate("-3 +4 *")), Solution::Success(-12.0));
    assert_eq!(conclude(calculate("1 0 /")), Solution::Failed(ErrorCode::ResultTooMuch));
    assert_eq!(calculate("1 2 x"), Err(ErrorCode::NoncalculableCharacter));
    assert_eq!(calculate("1 2"), Err(ErrorCode::OperatorNotEntered));
}

#[test]
fn the_earlier_operand_is_the_left_one() {
    assert_eq!(calculate("7 3 -"), Ok(apply(Operator::Sub, num("7"), num("3"))));
    assert_eq!(calculate("2 5 **"), Ok(apply(Operator::Pow, num("2"), num("5"))));
}

#[test]
fn two_operand_formulas_combine_their_operands() {
    assert_eq!(solve("7 3 -"), Solution::Success(4.0));
    assert_eq!(solve("7 2 /"), Solution::Success(3.5));
    assert_eq!(solve("-7 3 %"), Solution::Success(-1.0));
    assert_eq!(solve("3 4 ^"), Solution::Success(81.0));
}

#[test]
fn characters_outside_the_grammar_are_rejected_first() {
    assert_eq!(check_syntax("1 2 a"), Err(ErrorCode::NoncalculableCharacter));
    assert_eq!(check_syntax("1+a"), Err(ErrorCode::NoncalculableCharacter));
    assert_eq!(check_syntax("x"), Err(ErrorCode::NoncalculableCharacter));
    assert_eq!(check_syntax("1 2 +\t"), Err(ErrorCode::NoncalculableCharacter));
    assert!(!check_unavailable_character("1 2 ="));
    assert!(check_unavailable_character("1 2 + 3 ^ %/*-"));
}

#[test]
fn short_formulas_are_not_entered() {
    assert_eq!(check_syntax(""), Err(ErrorCode::FormulaNotEntered));
    assert_eq!(check_syntax("1"), Err(ErrorCode::FormulaNotEntered));
    assert_eq!(check_syntax("+"), Err(ErrorCode::FormulaNotEntered));
    assert_eq!(check_syntax(" "), Err(ErrorCode::FormulaNotEntered));
    assert_eq!(check_syntax("  1  "), Err(ErrorCode::FormulaNotEntered));
    assert!(!check_length(" 1 "));
    assert!(check_length("12"));
    assert!(check_length("1 +"));
}

#[test]
fn digits_glued_to_operators_are_rejected() {
    assert_eq!(check_syntax("1 2+"), Err(ErrorCode::NoSpaceBetweenOperators));
    assert!(!check_half_space("3*"));
    assert!(check_half_space("-3 4 +"));
    assert!(check_half_space("1_"));
    assert_eq!(check_syntax("-1 2 +"), Ok(()));
}

#[test]
fn formulas_without_operator_are_rejected() {
    assert_eq!(check_syntax("1 2"), Err(ErrorCode::OperatorNotEntered));
    assert!(!check_is_operator("12 34"));
    assert!(check_is_operator("12 34 %"));
}

#[test]
fn unknown_operators_are_reported() {
    assert_eq!(solve("1 2 +-"), Solution::Failed(ErrorCode::UndefinedOperator));
    assert_eq!(solve("1 2 ***"), Solution::Failed(ErrorCode::UndefinedOperator));
    assert_eq!(solve("+ 1 2"), Solution::Failed(ErrorCode::InsufficientOperand));
}

#[test]
fn numbers_follow_the_float_literal_syntax() {
    for text in ["42", "-5", "+5", "1.5", "1.", ".25", "2e3", "-1.5E-1", "inf", "-Infinity", "NaN"] {
        assert_eq!(to_num(text), Ok(num(text)));
    }
    for text in ["-", ".", "e5", "1e", "1e+", "1.2.3", "infinit", "", "+", "**"] {
        assert_eq!(to_num(text), Err(ErrorCode::FailedConvertNum));
    }
    assert_eq!(value(&num("-1.5E-1")), -0.15);
}

#[test]
fn float_tokens_are_pushed_as_numbers() {
    let tokens = vec!["1.5".to_string(), "2".to_string(), "+".to_string()];
    assert_eq!(manage_calculate(&tokens), Ok(apply(Operator::Add, num("1.5"), num("2"))));
    assert_eq!(conclude(manage_calculate(&tokens)), Solution::Success(3.5));
    assert_eq!(manage_calculate(&vec!["1.5".to_string()]), Ok(num("1.5")));
    let tokens = vec!["1e308".to_string(), "10".to_string(), "*".to_string()];
    assert_eq!(conclude(manage_calculate(&tokens)), Solution::Failed(ErrorCode::ResultTooMuch));
}

#[test]
fn operators_are_named_by_their_symbols() {
    assert_eq!(to_operator("+"), Some(Operator::Add));
    assert_eq!(to_operator("-"), Some(Operator::Sub));
    assert_eq!(to_operator("*"), Some(Operator::Mul));
    assert_eq!(to_operator("/"), Some(Operator::Div));
    assert_eq!(to_operator("%"), Some(Operator::Rem));
    assert_eq!(to_operator("^"), Some(Operator::Pow));
    assert_eq!(to_operator("**"), Some(Operator::Pow));
    assert_eq!(to_operator("//"), None);
    assert_eq!(
        calculation((num("6"), num("4")), "-"),
        Ok(apply(Operator::Sub, num("6"), num("4")))
    );
    assert_eq!(calculation((num("6"), num("4")), "&"), Err(ErrorCode::UndefinedOperator));
}

#[test]
fn tokens_are_whitespace_separated_runs() {
    assert_eq!(to_vec("  1  2 +  "), vec!["1".to_string(), "2".to_string(), "+".to_string()]);
    assert_eq!(to_vec("12\t-3\n**"), vec!["12".to_string(), "-3".to_string(), "**".to_string()]);
    assert!(to_vec("   ").is_empty());
}

#[test]
fn an_empty_token_list_is_not_complete() {
    assert_eq!(manage_calculate(&Vec::new()), Err(ErrorCode::NotComplete));
}

#[test]
fn messages_name_each_failure() {
    assert_eq!(ErrorCode::NoncalculableCharacter.message(), "計算不能な文字が含まれています。");
    assert_eq!(ErrorCode::ResultTooMuch.message(), "計算結果が大きすぎます。");
    assert_eq!(
        ErrorCode::FailedAddCsvData.message(),
        "ログファイル(csv)へデータを追加できませんでした。"
    );
}
