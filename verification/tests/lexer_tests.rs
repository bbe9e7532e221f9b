use plum::ast::Token;
use plum::lexer::lexer;
use plum::span::Span;

fn sp(start: usize, end: usize) -> Span {
    Span { start, end }
}

#[test]
fn lex_int() {
    let lexed = lexer("12").unwrap();
    assert_eq!(lexed, vec![(Token::Num("12".to_owned()), sp(0, 2))])
}

#[test]
fn lex_float() {
    let lexed = lexer("32.5383").unwrap();
    assert_eq!(lexed, vec![(Token::Num("32.5383".to_owned()), sp(0, 7))])
}

#[test]
fn lex_exp() {
    let lexed = lexer("3.2928e4").unwrap();
    assert_eq!(lexed, vec![(Token::Num("3.2928e4".to_owned()), sp(0, 8))])
}

#[test]
fn lex_infix() {
    let lexed = lexer("400 + 300").unwrap();
    assert_eq!(
        lexed,
        vec![
            (Token::Num("400".to_owned()), sp(0, 3)),
            (Token::Op("+".to_owned()), sp(4, 5)),
            (Token::Num("300".to_owned()), sp(6, 9))
        ]
    )
}

#[test]
fn lex_s_string() {
    let lexed = lexer("'cool'").unwrap();
    assert_eq!(lexed, vec![(Token::String("cool".to_owned()), sp(0, 6))])
}

#[test]
fn lex_d_string() {
    let lexed = lexer(r#""cool""#).unwrap();
    assert_eq!(lexed, vec![(Token::String("cool".to_owned()), sp(0, 6))])
}

#[test]
fn lex_extra_whitespace() {
    let lexed = lexer("32     -\n\t\t95   +  12").unwrap();
    assert_eq!(
        lexed,
        vec![
            (Token::Num("32".to_owned()), sp(0, 2)),
            (Token::Op("-".to_owned()), sp(7, 8)),
            (Token::Num("95".to_owned()), sp(11, 13)),
            (Token::Op("+".to_owned()), sp(16, 17)),
            (Token::Num("12".to_owned()), sp(19, 21))
        ]
    )
}

#[test]
fn lex_control() {
    let lexed = lexer("({10})").unwrap();
    assert_eq!(
        lexed,
        vec![
            (Token::Ctrl('('), sp(0, 1)),
            (Token::Ctrl('{'), sp(1, 2)),
            (Token::Num("10".to_owned()), sp(2, 4)),
            (Token::Ctrl('}'), sp(4, 5)),
            (Token::Ctrl(')'), sp(5, 6))
        ]
    )
}

#[test]
fn lex_conditional() {
    let lexed = lexer("if cool { nice } else { bad }").unwrap();
    assert_eq!(
        lexed,
        vec![
            (Token::If, sp(0, 2)),
            (Token::Ident("cool".to_owned()), sp(3, 7)),
            (Token::Ctrl('{'), sp(8, 9)),
            (Token::Ident("nice".to_owned()), sp(10, 14)),
            (Token::Ctrl('}'), sp(15, 16)),
            (Token::Else, sp(17, 21)),
            (Token::Ctrl('{'), sp(22, 23)),
            (Token::Ident("bad".to_owned()), sp(24, 27)),
            (Token::Ctrl('}'), sp(28, 29))
        ]
    )
}

#[test]
fn lex_comment_skipped() {
    let lexed = lexer("12 // the rest is noise\n+ 3").unwrap();
    assert_eq!(
        lexed,
        vec![
            (Token::Num("12".to_owned()), sp(0, 2)),
            (Token::Op("+".to_owned()), sp(24, 25)),
            (Token::Num("3".to_owned()), sp(26, 27))
        ]
    )
}

#[test]
fn lex_unicode_escape() {
    let lexed = lexer(r"'\u0041'").unwrap();
    assert_eq!(lexed, vec![(Token::String("A".to_owned()), sp(0, 8))])
}

#[test]
fn lex_escapes() {
    let lexed = lexer(r"'a\n\t\\b'").unwrap();
    assert_eq!(lexed, vec![(Token::String("a\n\t\\b".to_owned()), sp(0, 10))])
}

#[test]
fn lex_bad_char_is_error() {
    let r = lexer("12 @ 3");
    assert!(r.is_err());
    assert!(!r.unwrap_err().is_empty());
}

#[test]
fn lex_unterminated_string_is_error() {
    assert!(lexer("'oops").is_err());
}

#[test]
fn lex_multibyte_spans() {
    // Spans are byte offsets: a two-byte character widens later spans.
    let lexed = lexer("'\u{e9}' + 1").unwrap();
    assert_eq!(
        lexed,
        vec![
            (Token::String("\u{e9}".to_owned()), sp(0, 4)),
            (Token::Op("+".to_owned()), sp(5, 6)),
            (Token::Num("1".to_owned()), sp(7, 8))
        ]
    )
}

#[test]
fn lex_range_ops() {
    let lexed = lexer("0..5").unwrap();
    assert_eq!(
        lexed,
        vec![
            (Token::Num("0".to_owned()), sp(0, 1)),
            (Token::Op("..".to_owned()), sp(1, 3)),
            (Token::Num("5".to_owned()), sp(3, 4))
        ]
    )
}
