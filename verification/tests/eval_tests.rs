use plum::ast::{Expr, Spanned};
use plum::error::Error;
use plum::eval::eval;
use plum::lexer::lexer;
use plum::number::Number;
use plum::parser::parse;
use plum::span::Span;
use plum::value::{SpannedValue, Value, ValueMap};

fn parse_src(input: &str) -> Vec<Spanned> {
    let lexed = lexer(input).unwrap();
    parse(&lexed).unwrap()
}

fn evaluate(input: &str) -> Result<SpannedValue, Vec<Error>> {
    let parsed = parse_src(input);
    eval(&parsed[0], &ValueMap::new())
}

fn num(n: i64) -> Value {
    Value::Num(Number { num: n, den: 1 })
}

fn frac(n: i64, d: i64) -> Value {
    Value::Num(Number { num: n, den: d })
}

#[test]
fn evaluate_num() {
    let evaluated = evaluate("12").unwrap();
    assert_eq!(evaluated.0, num(12))
}

#[test]
fn evaluate_addition() {
    let evaluated = evaluate("12 + 8").unwrap();
    assert_eq!(evaluated.0, num(20))
}

#[test]
fn evaluate_chained() {
    let evaluated = evaluate("12 + 8 * 3").unwrap();
    assert_eq!(evaluated.0, num(36))
}

#[test]
fn evaluate_parens() {
    let evaluated = evaluate("(12 + 8) / 10").unwrap();
    assert_eq!(evaluated.0, num(2))
}

#[test]
fn evaluate_complex_chained() {
    let evaluated = evaluate("10 + (30 - 5) * 3 ** 2").unwrap();
    assert_eq!(evaluated.0, num(235))
}

#[test]
fn evaluate_string_mul() {
    let evaluated = evaluate("'nice' * 3").unwrap();
    assert_eq!(evaluated.0, Value::String("nicenicenice".to_owned()))
}

#[test]
fn evaluate_string_mul_invalid_direct() {
    let evaluated = evaluate("'nice' * 'cool'");
    assert!(evaluated.is_err())
}

#[test]
fn evaluate_string_mul_invalid_chain() {
    let evaluated = evaluate("'nice' * (3 * 'cool')");
    assert!(evaluated.is_err())
}

#[test]
fn evaluate_index_array() {
    let evaluated = evaluate("[1, 2, 3, 4][3]").unwrap();
    assert_eq!(evaluated.0, num(4))
}

#[test]
fn evaluate_index_string() {
    let evaluated = evaluate("'nice'[3]").unwrap();
    assert_eq!(evaluated.0, Value::String("e".to_owned()))
}

#[test]
fn evaluate_and_true() {
    let evaluated = evaluate("true and true").unwrap();
    assert_eq!(evaluated.0, Value::Bool(true))
}

#[test]
fn evaluate_and_false() {
    let evaluated = evaluate("true and false").unwrap();
    assert_eq!(evaluated.0, Value::Bool(false))
}

#[test]
fn evaluate_or_true() {
    let evaluated = evaluate("true or false").unwrap();
    assert_eq!(evaluated.0, Value::Bool(true))
}

#[test]
fn evaluate_or_false() {
    let evaluated = evaluate("false or false").unwrap();
    assert_eq!(evaluated.0, Value::Bool(false))
}

#[test]
fn evaluate_chain_and_or() {
    let evaluated = evaluate("true and false or true and true").unwrap();
    assert_eq!(evaluated.0, Value::Bool(true))
}

#[test]
fn evaluate_assign() {
    let evaluated = evaluate("nice = 'cool';").unwrap();
    assert_eq!(
        evaluated.0,
        Value::Assign(vec!["nice".to_owned()], Box::new(Value::String("cool".to_owned())))
    )
}

#[test]
fn evaluate_equals() {
    let evaluated = evaluate("60 == 60").unwrap();
    assert_eq!(evaluated.0, Value::Bool(true))
}

#[test]
fn evaluate_equals_false() {
    let evaluated = evaluate("50 == 60").unwrap();
    assert_eq!(evaluated.0, Value::Bool(false))
}

#[test]
fn evaluate_equals_fail() {
    let evaluated = evaluate("50 == [50]");
    assert!(evaluated.is_err())
}

#[test]
fn evaluate_contains() {
    let evaluated = evaluate("12 in [10, 11, 12, 13, 14]").unwrap();
    assert_eq!(evaluated.0, Value::Bool(true))
}

#[test]
fn evaluate_index_array_fail() {
    let evaluated = evaluate("[1, 2, 3][3]");
    assert!(evaluated.is_err())
}

#[test]
fn evaluate_index_string_fail() {
    let evaluated = evaluate(r#""nice"[10]"#);
    assert!(evaluated.is_err())
}

#[test]
fn evaluate_assigned() {
    let parsed = parse_src(r#"cool = 23; nice = cool * 3;"#);
    let mut vars = ValueMap::new();

    let evaluated1 = eval(&parsed[0], &vars).unwrap();
    match evaluated1 {
        SpannedValue(Value::Assign(names, value), _) => {
            for name in names {
                vars.insert(name, (*value).clone());
            }
        },
        _ => {
            panic!("expected an assignment value");
        },
    }

    let evaluated2 = eval(&parsed[1], &vars).unwrap();
    assert_eq!(
        evaluated2.0,
        Value::Assign(vec!["nice".to_owned()], Box::new(num(69)))
    )
}

#[test]
fn evaluate_assign_chain() {
    let evaluated = evaluate("these = are = all = 12;").unwrap();
    assert_eq!(
        evaluated.0,
        Value::Assign(
            vec!["these".to_owned(), "are".to_owned(), "all".to_owned()],
            Box::new(num(12))
        )
    )
}

#[test]
fn evaluate_range() {
    let evaluated = evaluate("0..5").unwrap();
    assert_eq!(evaluated.0, Value::Range(0, 5))
}

#[test]
fn evaluate_range_as_index() {
    let evaluated = evaluate("['nice', 'cool', 'wicked', 'sick'][1..3]").unwrap();
    assert_eq!(
        evaluated.0,
        Value::Array(vec![
            SpannedValue(Value::String("cool".to_owned()), Span { start: 0, end: 1 }),
            SpannedValue(Value::String("wicked".to_owned()), Span { start: 0, end: 1 })
        ])
    )
}

#[test]
fn evaluate_irange_as_index() {
    let evaluated = evaluate("['nice', 'cool', 'wicked', 'sick'][1..=2]").unwrap();
    assert_eq!(
        evaluated.0,
        Value::Array(vec![
            SpannedValue(Value::String("cool".to_owned()), Span { start: 0, end: 1 }),
            SpannedValue(Value::String("wicked".to_owned()), Span { start: 0, end: 1 })
        ])
    )
}

#[test]
fn evaluate_backwards_range_as_index() {
    let evaluated = evaluate("'wonderful'[-1..4]").unwrap();
    assert_eq!(evaluated.0, Value::String("lufr".to_owned()));
}

#[test]
fn evaluate_backwards_irange_as_index() {
    let evaluated = evaluate("'sickening'[-4..=3]").unwrap();
    assert_eq!(evaluated.0, Value::String("nek".to_owned()));
}

#[test]
fn evaluate_exact_integer_power() {
    // An integral power is exact: the result is the integer nine itself.
    let evaluated = evaluate("3 ** 2").unwrap();
    match &evaluated.0 {
        Value::Num(x) => {
            assert_eq!(x.num, 9);
            assert_eq!(x.den, 1);
        },
        _ => panic!("expected a number"),
    }
}

#[test]
fn evaluate_negative_exponent() {
    let evaluated = evaluate("2 ** (0 - 1)").unwrap();
    assert_eq!(evaluated.0, frac(1, 2));
}

#[test]
fn evaluate_division_exact() {
    let evaluated = evaluate("1 / 3 * 3").unwrap();
    assert_eq!(evaluated.0, num(1));
}

#[test]
fn evaluate_division_by_zero_fails() {
    let evaluated = evaluate("1 / 0");
    let errs = evaluated.unwrap_err();
    assert!(matches!(errs[0], Error::NumericError { .. }));
}

#[test]
fn evaluate_modulus() {
    let evaluated = evaluate("7 % 3").unwrap();
    assert_eq!(evaluated.0, num(1));
}

#[test]
fn evaluate_negative_modulus() {
    // The remainder follows the dividend's sign, as a floating remainder does.
    let evaluated = evaluate("(0 - 7) % 3").unwrap();
    assert_eq!(evaluated.0, num(-1));
}

#[test]
fn evaluate_string_contains() {
    let evaluated = evaluate("'ni' in 'nice'").unwrap();
    assert_eq!(evaluated.0, Value::Bool(true));
}

#[test]
fn evaluate_number_in_string_fails() {
    let evaluated = evaluate("12 in 'nice'");
    let errs = evaluated.unwrap_err();
    assert!(matches!(errs[0], Error::TypeError { .. }));
}

#[test]
fn evaluate_index_error_reports_length() {
    let errs = evaluate("[1, 2, 3][3]").unwrap_err();
    match &errs[0] {
        Error::IndexError { index, len, .. } => {
            assert_eq!(*index, 3);
            assert_eq!(*len, 3);
        },
        _ => panic!("expected an index error"),
    }
}

#[test]
fn evaluate_fractional_index_blames_index() {
    // A non-integral numeric index is a type error naming the index value.
    let errs = evaluate("[1, 2][1 / 2]").unwrap_err();
    match &errs[0] {
        Error::TypeError { got, .. } => {
            assert_eq!(got.0, frac(1, 2));
        },
        _ => panic!("expected a type error"),
    }
}

#[test]
fn evaluate_range_index_error() {
    let errs = evaluate("[1, 2][0..5]").unwrap_err();
    assert!(matches!(errs[0], Error::RangeIndexError { .. }));
}

#[test]
fn evaluate_negative_index() {
    let evaluated = evaluate("[1, 2, 3][-1]").unwrap();
    assert_eq!(evaluated.0, num(3));
}

#[test]
fn evaluate_array_equality() {
    let evaluated = evaluate("[1, 2] == [1, 2]").unwrap();
    assert_eq!(evaluated.0, Value::Bool(true));
    let evaluated = evaluate("[1, 2] != [1, 3]").unwrap();
    assert_eq!(evaluated.0, Value::Bool(true));
}

#[test]
fn evaluate_conditional_branches() {
    let evaluated = evaluate("if true { 1 } else { 2 }").unwrap();
    assert_eq!(evaluated.0, num(1));
    let evaluated = evaluate("if false { 1 } else { 2 }").unwrap();
    assert_eq!(evaluated.0, num(2));
}

#[test]
fn evaluate_not_node() {
    // Logical negation of a boolean value.
    let parsed = parse_src("true");
    let inner = parsed.into_iter().next().unwrap();
    let span = Span { start: 0, end: 4 };
    let not_expr = Spanned(Expr::Not(Box::new(inner)), span);
    let evaluated = eval(&not_expr, &ValueMap::new()).unwrap();
    assert_eq!(evaluated.0, Value::Bool(false));
}

#[test]
fn evaluate_null_literal() {
    let evaluated = evaluate("null").unwrap();
    assert_eq!(evaluated.0, Value::Null);
}

#[test]
fn evaluate_both_operand_errors_collected() {
    // Both operand failures are reported in one pass.
    let errs = evaluate("('a' * 'b') + ('c' * 'd')").unwrap_err();
    assert_eq!(errs.len(), 2);
}
