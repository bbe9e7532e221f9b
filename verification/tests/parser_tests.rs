use plum::ast::{Expr, InfixOp, Literal, Spanned};
use plum::lexer::lexer;
use plum::number::Number;
use plum::parser::parse;
use plum::span::Span;

fn parse_src(input: &str) -> Vec<Spanned> {
    let lexed = lexer(input).unwrap();
    parse(&lexed).unwrap()
}

fn sp(e: Expr) -> Spanned {
    Spanned(e, Span { start: 0, end: 1 })
}

fn num(n: i64) -> Spanned {
    sp(Expr::Literal(Literal::Num(Number { num: n, den: 1 })))
}

fn frac(n: i64, d: i64) -> Spanned {
    sp(Expr::Literal(Literal::Num(Number { num: n, den: d })))
}

fn text(s: &str) -> Spanned {
    sp(Expr::Literal(Literal::String(s.to_owned())))
}

fn boolean(b: bool) -> Spanned {
    sp(Expr::Literal(Literal::Bool(b)))
}

fn ident(name: &str) -> Spanned {
    sp(Expr::Ident(name.to_owned()))
}

fn infix(l: Spanned, op: InfixOp, r: Spanned) -> Spanned {
    sp(Expr::InfixOp(Box::new(l), op, Box::new(r)))
}

#[test]
fn parse_neg() {
    let parsed = parse_src("-23");
    assert_eq!(parsed[0], num(-23));
}

#[test]
fn parse_frac() {
    let parsed = parse_src("32.5892");
    assert_eq!(parsed[0], frac(325892, 10000));
}

#[test]
fn parse_exp() {
    let parsed = parse_src("1.82e2");
    assert_eq!(parsed[0], num(182));
}

#[test]
fn parse_num_array() {
    let parsed = parse_src("[1, 3.73, 2, 5.98e-2, 4]");
    assert_eq!(
        parsed[0],
        sp(Expr::Literal(Literal::Array(vec![
            num(1),
            frac(373, 100),
            num(2),
            frac(598, 10000),
            num(4)
        ])))
    );
}

#[test]
fn parse_mixed_array() {
    let parsed = parse_src("[1, true, 2, false, 'nice', 935328.478]");
    assert_eq!(
        parsed[0],
        sp(Expr::Literal(Literal::Array(vec![
            num(1),
            boolean(true),
            num(2),
            boolean(false),
            text("nice"),
            frac(935328478, 1000)
        ])))
    );
}

#[test]
fn parse_mul() {
    let parsed = parse_src("3 * 7");
    assert_eq!(parsed[0], infix(num(3), InfixOp::Mul, num(7)));
}

#[test]
fn parse_add() {
    let parsed = parse_src("10 + 83");
    assert_eq!(parsed[0], infix(num(10), InfixOp::Add, num(83)));
}

#[test]
fn parse_chained() {
    let parsed = parse_src("10 + (30 - 5) * 3 ** 2");
    assert_eq!(
        parsed[0],
        infix(
            num(10),
            InfixOp::Add,
            infix(
                infix(num(30), InfixOp::Sub, num(5)),
                InfixOp::Mul,
                infix(num(3), InfixOp::Pow, num(2))
            )
        )
    );
}

#[test]
fn parse_assign() {
    let parsed = parse_src("nice = 12;");
    assert_eq!(
        parsed[0],
        sp(Expr::Assign { names: vec!["nice".to_owned()], value: Box::new(num(12)) })
    )
}

#[test]
fn parse_array_index() {
    let parsed = parse_src("[1, 2, 3, 4][3]");
    assert_eq!(
        parsed[0],
        sp(Expr::Index(
            Box::new(sp(Expr::Literal(Literal::Array(vec![num(1), num(2), num(3), num(4)])))),
            Box::new(num(3))
        ))
    )
}

#[test]
fn parse_conditional() {
    let parsed = parse_src(
        "if cool {
			36
		} else {
			nice
		}",
    );
    assert_eq!(
        parsed[0],
        sp(Expr::Conditional {
            condition: Box::new(ident("cool")),
            inner: Box::new(num(36)),
            other: Box::new(ident("nice"))
        })
    )
}

#[test]
fn parse_and() {
    let parsed = parse_src("cool and good");
    assert_eq!(parsed[0], infix(ident("cool"), InfixOp::And, ident("good")))
}

#[test]
fn parse_or() {
    let parsed = parse_src("cool or good");
    assert_eq!(parsed[0], infix(ident("cool"), InfixOp::Or, ident("good")))
}

#[test]
fn parse_mixed_and() {
    let parsed = parse_src("cool and good && nice");
    assert_eq!(
        parsed[0],
        infix(
            infix(ident("cool"), InfixOp::And, ident("good")),
            InfixOp::And,
            ident("nice")
        )
    )
}

#[test]
fn parse_multiple_assign() {
    let parsed = parse_src(
        "cool = 3;
		nice = cool + 7;
		sick = false;",
    );
    assert_eq!(parsed.len(), 3);
    assert_eq!(
        parsed[0],
        sp(Expr::Assign { names: vec!["cool".to_owned()], value: Box::new(num(3)) })
    );
    assert_eq!(
        parsed[1],
        sp(Expr::Assign {
            names: vec!["nice".to_owned()],
            value: Box::new(infix(ident("cool"), InfixOp::Add, num(7)))
        })
    );
    assert_eq!(
        parsed[2],
        sp(Expr::Assign { names: vec!["sick".to_owned()], value: Box::new(boolean(false)) })
    );
}

#[test]
fn parse_assign_to_conditional() {
    let parsed = parse_src(
        "cool = if nice {
			30
		} else {
			10
		};",
    );
    assert_eq!(
        parsed[0],
        sp(Expr::Assign {
            names: vec!["cool".to_owned()],
            value: Box::new(sp(Expr::Conditional {
                condition: Box::new(ident("nice")),
                inner: Box::new(num(30)),
                other: Box::new(num(10))
            }))
        })
    )
}

#[test]
fn parse_equals() {
    let parsed = parse_src("10 == 12");
    assert_eq!(parsed[0], infix(num(10), InfixOp::Equals, num(12)))
}

#[test]
fn parse_lt() {
    let parsed = parse_src("10 < 12");
    assert_eq!(parsed[0], infix(num(10), InfixOp::Lt, num(12)))
}

#[test]
fn parse_gt() {
    let parsed = parse_src("10 > 12");
    assert_eq!(parsed[0], infix(num(10), InfixOp::Gt, num(12)))
}

#[test]
fn parse_lte() {
    let parsed = parse_src("10 <= 12");
    assert_eq!(parsed[0], infix(num(10), InfixOp::Lte, num(12)))
}

#[test]
fn parse_gte() {
    let parsed = parse_src("10 >= 12");
    assert_eq!(parsed[0], infix(num(10), InfixOp::Gte, num(12)))
}

#[test]
fn parse_contains() {
    let parsed = parse_src("12 in [10, 11, 12, 13, 14]");
    assert_eq!(
        parsed[0],
        infix(
            num(12),
            InfixOp::In,
            sp(Expr::Literal(Literal::Array(vec![num(10), num(11), num(12), num(13), num(14)])))
        )
    )
}

#[test]
fn parse_assign_chain() {
    let parsed = parse_src("these = are = all = 12;");
    assert_eq!(
        parsed[0],
        sp(Expr::Assign {
            names: vec!["these".to_owned(), "are".to_owned(), "all".to_owned()],
            value: Box::new(num(12))
        })
    )
}

#[test]
fn parse_inclusive_range() {
    let parsed = parse_src("0..=10");
    assert_eq!(parsed[0], infix(num(0), InfixOp::IRange, num(10)))
}

#[test]
fn parse_exclusive_range() {
    let parsed = parse_src("0..10");
    assert_eq!(parsed[0], infix(num(0), InfixOp::Range, num(10)))
}

#[test]
fn parse_empty_input_is_error() {
    let lexed = lexer("").unwrap();
    assert!(parse(&lexed).is_err());
}

#[test]
fn parse_unclosed_paren_is_error() {
    let lexed = lexer("(1 + 2").unwrap();
    assert!(parse(&lexed).is_err());
}

#[test]
fn parse_recovers_past_bad_group() {
    // A malformed bracketed group is recovered; the error is still reported.
    let lexed = lexer("[1, +]; 2").unwrap();
    assert!(parse(&lexed).is_err());
}

#[test]
fn parse_binding_powers_ordered() {
    assert_eq!(InfixOp::IRange.get_binding_power(), 68);
    assert_eq!(InfixOp::Range.get_binding_power(), 66);
    assert_eq!(InfixOp::Pow.get_binding_power(), 64);
    assert_eq!(InfixOp::Mul.get_binding_power(), 62);
    assert_eq!(InfixOp::Add.get_binding_power(), 60);
    assert_eq!(InfixOp::Equals.get_binding_power(), 58);
    assert_eq!(InfixOp::In.get_binding_power(), 56);
    assert_eq!(InfixOp::And.get_binding_power(), 54);
    assert_eq!(InfixOp::Or.get_binding_power(), 52);
}
