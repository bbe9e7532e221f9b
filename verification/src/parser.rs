use vstd::prelude::*;
use crate::span::Span;
use crate::ast::{Token, TokenV, toks_view, token_view, Literal, InfixOp, Expr, Spanned,
    spanned_seq_view, ExprV, LiteralV, SpannedV};
use crate::number::{Number, in_i64};
use crate::error::{Error, ErrorV, error_seq_view};
use crate::eval::{sv_evaluable, ev_evaluable, lv_evaluable};
use crate::interpreter::stmts_evaluable;
use crate::lexer::{digit_run, spec_is_digit};
use crate::strutil::str_to_chars;

verus! {

/// The operator of one precedence level, loosest to tightest: `or`, `and`,
/// `in`, the comparisons, sums, products, power, the exclusive range, the
/// inclusive range.
pub open spec fn spec_level_op(s: Seq<char>, level: u8) -> Option<InfixOp> {
    if level == 9 {
        if s == "or"@ || s == "||"@ {
            Some(InfixOp::Or)
        } else {
            None
        }
    } else if level == 8 {
        if s == "and"@ || s == "&&"@ {
            Some(InfixOp::And)
        } else {
            None
        }
    } else if level == 7 {
        if s == "in"@ {
            Some(InfixOp::In)
        } else {
            None
        }
    } else if level == 6 {
        if s == "=="@ {
            Some(InfixOp::Equals)
        } else if s == "!="@ {
            Some(InfixOp::NotEquals)
        } else if s == "<="@ {
            Some(InfixOp::Lte)
        } else if s == ">="@ {
            Some(InfixOp::Gte)
        } else if s == "<"@ {
            Some(InfixOp::Lt)
        } else if s == ">"@ {
            Some(InfixOp::Gt)
        } else {
            None
        }
    } else if level == 5 {
        if s == "+"@ {
            Some(InfixOp::Add)
        } else if s == "-"@ {
            Some(InfixOp::Sub)
        } else {
            None
        }
    } else if level == 4 {
        if s == "*"@ {
            Some(InfixOp::Mul)
        } else if s == "/"@ {
            Some(InfixOp::Div)
        } else if s == "%"@ {
            Some(InfixOp::Mod)
        } else {
            None
        }
    } else if level == 3 {
        if s == "**"@ {
            Some(InfixOp::Pow)
        } else {
            None
        }
    } else if level == 2 {
        if s == ".."@ {
            Some(InfixOp::Range)
        } else {
            None
        }
    } else {
        if s == "..="@ {
            Some(InfixOp::IRange)
        } else {
            None
        }
    }
}

/// The operator parsed at one precedence level.
fn level_op(s: &String, level: u8) -> (r: Option<InfixOp>)
    ensures
        r == spec_level_op(s@, level),
{
    if level == 9 {
        if *s == "or".to_owned() || *s == "||".to_owned() {
            Some(InfixOp::Or)
        } else {
            None
        }
    } else if level == 8 {
        if *s == "and".to_owned() || *s == "&&".to_owned() {
            Some(InfixOp::And)
        } else {
            None
        }
    } else if level == 7 {
        if *s == "in".to_owned() {
            Some(InfixOp::In)
        } else {
            None
        }
    } else if level == 6 {
        if *s == "==".to_owned() {
            Some(InfixOp::Equals)
        } else if *s == "!=".to_owned() {
            Some(InfixOp::NotEquals)
        } else if *s == "<=".to_owned() {
            Some(InfixOp::Lte)
        } else if *s == ">=".to_owned() {
            Some(InfixOp::Gte)
        } else if *s == "<".to_owned() {
            Some(InfixOp::Lt)
        } else if *s == ">".to_owned() {
            Some(InfixOp::Gt)
        } else {
            None
        }
    } else if level == 5 {
        if *s == "+".to_owned() {
            Some(InfixOp::Add)
        } else if *s == "-".to_owned() {
            Some(InfixOp::Sub)
        } else {
            None
        }
    } else if level == 4 {
        if *s == "*".to_owned() {
            Some(InfixOp::Mul)
        } else if *s == "/".to_owned() {
            Some(InfixOp::Div)
        } else if *s == "%".to_owned() {
            Some(InfixOp::Mod)
        } else {
            None
        }
    } else if level == 3 {
        if *s == "**".to_owned() {
            Some(InfixOp::Pow)
        } else {
            None
        }
    } else if level == 2 {
        if *s == "..".to_owned() {
            Some(InfixOp::Range)
        } else {
            None
        }
    } else {
        if *s == "..=".to_owned() {
            Some(InfixOp::IRange)
        } else {
            None
        }
    }
}

/// A digit run never moves backward.
proof fn lemma_digit_run_ge(cs: Seq<char>, i: int)
    ensures
        digit_run(cs, i) >= i,
    decreases cs.len() - i,
{
    if 0 <= i < cs.len() && spec_is_digit(cs[i]) {
        lemma_digit_run_ge(cs, i + 1);
    }
}

/// The value of one decimal digit character.
pub open spec fn dval(c: char) -> int {
    c as int - '0' as int
}

/// The left fold of the digits in `[i, j)` onto an accumulator, failing at
/// the first step whose exact result leaves `i64`.
pub open spec fn fold_digits(cs: Seq<char>, i: int, j: int, acc: int) -> Option<int>
    decreases j - i,
{
    if i >= j {
        Some(acc)
    } else if !in_i64(acc * 10) {
        None
    } else if !in_i64(acc * 10 + dval(cs[i])) {
        None
    } else {
        fold_digits(cs, i + 1, j, acc * 10 + dval(cs[i]))
    }
}

/// The fold of fraction digits: each digit extends the numerator and scales
/// the denominator by ten, failing when either leaves `i64`.
pub open spec fn fold_frac(cs: Seq<char>, i: int, j: int, num: int, den: int) -> Option<
    (int, int),
>
    decreases j - i,
{
    if i >= j {
        Some((num, den))
    } else if !in_i64(num * 10) {
        None
    } else if !in_i64(num * 10 + dval(cs[i])) {
        None
    } else if !in_i64(den * 10) {
        None
    } else {
        fold_frac(cs, i + 1, j, num * 10 + dval(cs[i]), den * 10)
    }
}

/// Whether a mathematical integer fits in a `u32`.
pub open spec fn in_u32(x: int) -> bool {
    0 <= x <= u32::MAX
}

/// The left fold of exponent digits, failing when the count leaves `u32`.
pub open spec fn fold_exp(cs: Seq<char>, i: int, j: int, acc: int) -> Option<int>
    decreases j - i,
{
    if i >= j {
        Some(acc)
    } else if !in_u32(acc * 10) {
        None
    } else if !in_u32(acc * 10 + dval(cs[i])) {
        None
    } else {
        fold_exp(cs, i + 1, j, acc * 10 + dval(cs[i]))
    }
}

/// Scaling by ten to the exponent: a negative exponent scales the
/// denominator, a positive one the numerator; failing when a step leaves
/// `i64`.
pub open spec fn shift10(num: int, den: int, e: int, toward_den: bool) -> Option<(int, int)>
    decreases e,
{
    if e <= 0 {
        Some((num, den))
    } else if toward_den {
        if !in_i64(den * 10) {
            None
        } else {
            shift10(num, den * 10, e - 1, true)
        }
    } else {
        if !in_i64(num * 10) {
            None
        } else {
            shift10(num * 10, den, e - 1, false)
        }
    }
}

/// The exact rational a number token's text denotes: an optional minus,
/// digits, an optional fraction, an optional exponent; `None` exactly when
/// some step of the conversion leaves the representable range.
pub open spec fn spec_parse_number(cs: Seq<char>) -> Option<(int, int)> {
    let neg = cs.len() > 0 && cs[0] == '-';
    let i0: int = if neg {
        1
    } else {
        0
    };
    let d1 = digit_run(cs, i0);
    match fold_digits(cs, i0, d1, 0) {
        None => None,
        Some(n1) => {
            let frac = if d1 < cs.len() && cs[d1] == '.' {
                let f1 = digit_run(cs, d1 + 1);
                match fold_frac(cs, d1 + 1, f1, n1, 1) {
                    None => None,
                    Some(nd) => Some((nd.0, nd.1, f1)),
                }
            } else {
                Some((n1, 1int, d1))
            };
            match frac {
                None => None,
                Some(ndp) => {
                    let n2 = ndp.0;
                    let d2 = ndp.1;
                    let p2 = ndp.2;
                    if p2 < cs.len() && (cs[p2] == 'e' || cs[p2] == 'E') {
                        let s0 = p2 + 1;
                        let has_sign = s0 < cs.len() && (cs[s0] == '+' || cs[s0] == '-');
                        let exp_neg = has_sign && cs[s0] == '-';
                        let s1 = if has_sign {
                            s0 + 1
                        } else {
                            s0
                        };
                        let e1 = digit_run(cs, s1);
                        match fold_exp(cs, s1, e1, 0) {
                            None => None,
                            Some(e) => match shift10(n2, d2, e, exp_neg) {
                                None => None,
                                Some(nd3) => Some(
                                    (
                                        if neg {
                                            -nd3.0
                                        } else {
                                            nd3.0
                                        },
                                        nd3.1,
                                    ),
                                ),
                            },
                        }
                    } else {
                        Some(
                            (
                                if neg {
                                    -n2
                                } else {
                                    n2
                                },
                                d2,
                            ),
                        )
                    }
                },
            }
        },
    }
}

/// The numeric literal a number token's text denotes, as the exact rational
/// [`spec_parse_number`] describes; `None` exactly when the value cannot be
/// represented.
#[verifier::loop_isolation(false)]
#[verifier::rlimit(100)]
fn parse_number(text: &String) -> (r: Option<Number>)
    ensures
        r matches Some(x) ==> x.wf() && spec_parse_number(text@) == Some(
            (x.num as int, x.den as int),
        ),
        r is None ==> spec_parse_number(text@) is None,
{
    let cs = str_to_chars(text.as_str());
    let n = cs.len();
    let mut i: usize = 0;
    let mut neg = false;
    if i < n && cs[i] == '-' {
        neg = true;
        i = i + 1;
    }
    let ghost i0 = i as int;
    let ghost d1 = digit_run(cs@, i0);
    let ghost digits_target = fold_digits(cs@, i0, d1, 0);
    proof {
        lemma_digit_run_ge(cs@, i0);
    }
    let mut num: i64 = 0;
    let mut den: i64 = 1;
    while i < n && '0' <= cs[i] && cs[i] <= '9'
        invariant
            i0 <= i <= n,
            n == cs@.len(),
            num >= 0,
            digit_run(cs@, i as int) == d1,
            i as int <= d1,
            fold_digits(cs@, i as int, d1, num as int) == digits_target,
        decreases n - i,
    {
        let d = ((cs[i] as u32) - ('0' as u32)) as i64;
        num = match num.checked_mul(10) {
            Some(v) => v,
            None => {
                proof {
                    lemma_digit_run_ge(cs@, i as int + 1);
                    assert(digits_target is None);
                }
                return None;
            },
        };
        num = match num.checked_add(d) {
            Some(v) => v,
            None => {
                proof {
                    lemma_digit_run_ge(cs@, i as int + 1);
                    assert(digits_target is None);
                }
                return None;
            },
        };
        proof {
            lemma_digit_run_ge(cs@, i as int + 1);
        }
        i = i + 1;
    }
    proof {
        assert(digit_run(cs@, i as int) == i as int);
        assert(fold_digits(cs@, i as int, d1, num as int) == Some(num as int));
    }
    let ghost n1 = num as int;
    if i < n && cs[i] == '.' {
        let ghost f0 = i as int + 1;
        let ghost f1 = digit_run(cs@, f0);
        let ghost frac_target = fold_frac(cs@, f0, f1, n1, 1);
        proof {
            lemma_digit_run_ge(cs@, f0);
        }
        i = i + 1;
        while i < n && '0' <= cs[i] && cs[i] <= '9'
            invariant
                f0 <= i <= n,
                n == cs@.len(),
                num >= 0,
                den >= 1,
                digit_run(cs@, i as int) == f1,
                i as int <= f1,
                fold_frac(cs@, i as int, f1, num as int, den as int) == frac_target,
            decreases n - i,
        {
            let d = ((cs[i] as u32) - ('0' as u32)) as i64;
            let num10 = match num.checked_mul(10) {
                Some(v) => v,
                None => {
                    proof {
                        lemma_digit_run_ge(cs@, i as int + 1);
                        assert(frac_target is None);
                    }
                    return None;
                },
            };
            let num2 = match num10.checked_add(d) {
                Some(v) => v,
                None => {
                    proof {
                        lemma_digit_run_ge(cs@, i as int + 1);
                        assert(frac_target is None);
                    }
                    return None;
                },
            };
            let den2 = match den.checked_mul(10) {
                Some(v) => v,
                None => {
                    proof {
                        lemma_digit_run_ge(cs@, i as int + 1);
                        assert(frac_target is None);
                    }
                    return None;
                },
            };
            num = num2;
            den = den2;
            proof {
                lemma_digit_run_ge(cs@, i as int + 1);
            }
            i = i + 1;
        }
        proof {
            assert(digit_run(cs@, i as int) == i as int);
            assert(fold_frac(cs@, i as int, f1, num as int, den as int) == Some(
                (num as int, den as int),
            ));
        }
    }
    if i < n && (cs[i] == 'e' || cs[i] == 'E') {
        let ghost n2 = num as int;
        let ghost d2 = den as int;
        i = i + 1;
        let mut exp_neg = false;
        if i < n && (cs[i] == '+' || cs[i] == '-') {
            exp_neg = cs[i] == '-';
            i = i + 1;
        }
        let ghost s1 = i as int;
        let ghost e1 = digit_run(cs@, s1);
        let ghost exp_target = fold_exp(cs@, s1, e1, 0);
        proof {
            lemma_digit_run_ge(cs@, s1);
        }
        let mut e: u32 = 0;
        while i < n && '0' <= cs[i] && cs[i] <= '9'
            invariant
                s1 <= i <= n,
                n == cs@.len(),
                digit_run(cs@, i as int) == e1,
                i as int <= e1,
                fold_exp(cs@, i as int, e1, e as int) == exp_target,
            decreases n - i,
        {
            let d = (cs[i] as u32) - ('0' as u32);
            let e10 = match e.checked_mul(10) {
                Some(v) => v,
                None => {
                    proof {
                        lemma_digit_run_ge(cs@, i as int + 1);
                        assert(exp_target is None);
                    }
                    return None;
                },
            };
            e = match e10.checked_add(d) {
                Some(v) => v,
                None => {
                    proof {
                        lemma_digit_run_ge(cs@, i as int + 1);
                        assert(exp_target is None);
                    }
                    return None;
                },
            };
            proof {
                lemma_digit_run_ge(cs@, i as int + 1);
            }
            i = i + 1;
        }
        proof {
            assert(digit_run(cs@, i as int) == i as int);
            assert(fold_exp(cs@, i as int, e1, e as int) == Some(e as int));
        }
        let ghost shift_target = shift10(n2, d2, e as int, exp_neg);
        let mut k: u32 = 0;
        while k < e
            invariant
                0 <= k <= e,
                num >= 0,
                den >= 1,
                shift10(num as int, den as int, e as int - k as int, exp_neg) == shift_target,
            decreases e - k,
        {
            if exp_neg {
                den = match den.checked_mul(10) {
                    Some(v) => v,
                    None => {
                        proof {
                            assert(shift_target is None);
                        }
                        return None;
                    },
                };
            } else {
                num = match num.checked_mul(10) {
                    Some(v) => v,
                    None => {
                        proof {
                            assert(shift_target is None);
                        }
                        return None;
                    },
                };
            }
            k = k + 1;
        }
        proof {
            assert(shift10(num as int, den as int, 0, exp_neg) == Some((num as int, den as int)));
        }
    }
    let signed = if neg {
        -num
    } else {
        num
    };
    Some(Number { num: signed, den })
}

/// The span of the token at `pos`, or an empty span at the very end.
pub open spec fn spec_span_at(toks: Seq<(TokenV, Span)>, pos: int) -> Span {
    if 0 <= pos < toks.len() {
        toks[pos].1
    } else {
        Span { start: 0, end: 0 }
    }
}

/// The span of the token at `pos`, or an empty span at the very end.
fn span_at(toks: &Vec<(Token, Span)>, pos: usize) -> (r: Span)
    ensures
        r == spec_span_at(toks_view(toks@), pos as int),
{
    if pos < toks.len() {
        toks[pos].1
    } else {
        Span::new(0, 0)
    }
}

/// The position just past the closer matching an already-consumed opening
/// bracket, counting the nesting of all three bracket kinds; `None` when the
/// input ends first.
pub open spec fn spec_skip(toks: Seq<(TokenV, Span)>, i: int, depth: int) -> Option<int>
    decreases toks.len() - i,
{
    if !(0 <= i < toks.len()) {
        None
    } else {
        match toks[i].0 {
            TokenV::Ctrl(c) => {
                if c == '(' || c == '[' || c == '{' {
                    let d2 = if depth < usize::MAX {
                        depth + 1
                    } else {
                        depth
                    };
                    spec_skip(toks, i + 1, d2)
                } else if c == ')' || c == ']' || c == '}' {
                    if depth == 1 {
                        Some(i + 1)
                    } else {
                        spec_skip(toks, i + 1, depth - 1)
                    }
                } else {
                    spec_skip(toks, i + 1, depth)
                }
            },
            _ => spec_skip(toks, i + 1, depth),
        }
    }
}

/// Skips to the closer matching an already-consumed opening bracket.
#[verifier::loop_isolation(false)]
fn skip_to_close(toks: &Vec<(Token, Span)>, pos: usize) -> (r: Option<usize>)
    requires
        pos <= toks@.len(),
    ensures
        r matches Some(p) ==> pos < p <= toks@.len() && spec_skip(toks_view(toks@), pos as int, 1)
            == Some(p as int),
        r is None ==> spec_skip(toks_view(toks@), pos as int, 1) is None,
{
    let ghost tv = toks_view(toks@);
    let mut depth: usize = 1;
    let mut i = pos;
    while i < toks.len()
        invariant
            pos <= i <= toks@.len(),
            depth >= 1,
            spec_skip(tv, i as int, depth as int) == spec_skip(tv, pos as int, 1),
        decreases toks@.len() - i,
    {
        proof {
            assert(tv[i as int] == (token_view(toks@[i as int].0), toks@[i as int].1));
        }
        match &toks[i].0 {
            Token::Ctrl(c) => {
                if *c == '(' || *c == '[' || *c == '{' {
                    if depth < usize::MAX {
                        depth = depth + 1;
                    }
                } else if *c == ')' || *c == ']' || *c == '}' {
                    if depth == 1 {
                        return Some(i + 1);
                    }
                    depth = depth - 1;
                }
            },
            _ => {},
        }
        i = i + 1;
    }
    None
}

/// Consumption of one expected control character: the next position, or a
/// parse error at the offending token.
pub open spec fn spec_expect(toks: Seq<(TokenV, Span)>, pos: int, want: char) -> (
    Option<int>,
    Seq<ErrorV>,
) {
    if 0 <= pos < toks.len() && toks[pos].0 == TokenV::Ctrl(want) {
        (Some(pos + 1), Seq::empty())
    } else {
        (None, seq![ErrorV::ParsingError { span: spec_span_at(toks, pos) }])
    }
}

/// One full expression from `pos`, folding the binary layers from `level`
/// (loosest) down to postfix indexing and atoms; each layer folds
/// left-associatively and a binary node's span is the union of its operands'
/// spans.
pub open spec fn spec_expr(toks: Seq<(TokenV, Span)>, pos: int, level: u8) -> (
    Option<(SpannedV, int)>,
    Seq<ErrorV>,
)
    decreases toks.len() - pos, level, 3nat,
{
    if !(0 <= pos <= toks.len() && 1 <= level) {
        (None, Seq::empty())
    } else {
        let first = if level == 1 {
            spec_postfix(toks, pos)
        } else {
            spec_expr(toks, pos, (level - 1) as u8)
        };
        match first.0 {
            None => (None, first.1),
            Some(np) => {
                if pos < np.1 <= toks.len() {
                    let lp = spec_expr_loop(toks, np.0, np.1, level);
                    (lp.0, first.1 + lp.1)
                } else {
                    (None, first.1)
                }
            },
        }
    }
}

/// The left fold of one binary layer: while the next token is an operator of
/// this level, a right operand of the tighter level extends the node.
pub open spec fn spec_expr_loop(toks: Seq<(TokenV, Span)>, lhs: SpannedV, cur: int, level: u8) -> (
    Option<(SpannedV, int)>,
    Seq<ErrorV>,
)
    decreases toks.len() - cur, level, 2nat,
{
    if !(0 <= cur <= toks.len() && 1 <= level) {
        (None, Seq::empty())
    } else {
        let op = if cur < toks.len() {
            match toks[cur].0 {
                TokenV::Op(s) => spec_level_op(s, level),
                _ => None,
            }
        } else {
            None
        };
        match op {
            None => (Some((lhs, cur)), Seq::empty()),
            Some(op) => {
                let sub = if level == 1 {
                    spec_postfix(toks, cur + 1)
                } else {
                    spec_expr(toks, cur + 1, (level - 1) as u8)
                };
                match sub.0 {
                    None => (None, sub.1),
                    Some(np) => {
                        if cur < np.1 <= toks.len() {
                            let node = SpannedV {
                                e: ExprV::InfixOp(Box::new(lhs), op, Box::new(np.0)),
                                span: Span { start: lhs.span.start, end: np.0.span.end },
                            };
                            let lp = spec_expr_loop(toks, node, np.1, level);
                            (lp.0, sub.1 + lp.1)
                        } else {
                            (None, sub.1)
                        }
                    },
                }
            },
        }
    }
}

/// An atom followed by any number of postfix index groups.
pub open spec fn spec_postfix(toks: Seq<(TokenV, Span)>, pos: int) -> (
    Option<(SpannedV, int)>,
    Seq<ErrorV>,
)
    decreases toks.len() - pos, 0nat, 2nat,
{
    if !(0 <= pos <= toks.len()) {
        (None, Seq::empty())
    } else {
        let a = spec_atom(toks, pos);
        match a.0 {
            None => (None, a.1),
            Some(np) => {
                if pos < np.1 <= toks.len() {
                    let lp = spec_postfix_loop(toks, np.0, np.1);
                    (lp.0, a.1 + lp.1)
                } else {
                    (None, a.1)
                }
            },
        }
    }
}

/// The fold of postfix index groups: while the next token opens a bracket,
/// an index expression and its closer extend the node.
pub open spec fn spec_postfix_loop(toks: Seq<(TokenV, Span)>, lhs: SpannedV, cur: int) -> (
    Option<(SpannedV, int)>,
    Seq<ErrorV>,
)
    decreases toks.len() - cur, 0nat, 0nat,
{
    if !(0 <= cur <= toks.len()) {
        (None, Seq::empty())
    } else {
        let is_open = cur < toks.len() && toks[cur].0 == TokenV::Ctrl('[');
        if !is_open {
            (Some((lhs, cur)), Seq::empty())
        } else {
            let idx_r = spec_expr(toks, cur + 1, 9);
            match idx_r.0 {
                None => (None, idx_r.1),
                Some(np) => {
                    if cur < np.1 <= toks.len() {
                        let closed = np.1 < toks.len() && toks[np.1].0 == TokenV::Ctrl(']');
                        if !closed {
                            (
                                None,
                                idx_r.1 + seq![
                                    ErrorV::ParsingError { span: spec_span_at(toks, np.1) },
                                ],
                            )
                        } else {
                            let node = SpannedV {
                                e: ExprV::Index(Box::new(lhs), Box::new(np.0)),
                                span: Span { start: lhs.span.start, end: toks[np.1].1.end },
                            };
                            let lp = spec_postfix_loop(toks, node, np.1 + 1);
                            (lp.0, idx_r.1 + lp.1)
                        }
                    } else {
                        (None, idx_r.1)
                    }
                },
            }
        }
    }
}

/// One atom: a literal, an identifier, a parenthesized expression, an array
/// literal, or a conditional. A malformed parenthesized or bracketed group
/// is recovered by skipping to the matching closer and substituting an
/// `Error` placeholder, recording the parse error.
pub open spec fn spec_atom(toks: Seq<(TokenV, Span)>, pos: int) -> (
    Option<(SpannedV, int)>,
    Seq<ErrorV>,
)
    decreases toks.len() - pos, 0nat, 1nat,
{
    if !(0 <= pos < toks.len()) {
        (None, seq![ErrorV::ParsingError { span: spec_span_at(toks, pos) }])
    } else {
        let span = toks[pos].1;
        match toks[pos].0 {
            TokenV::Num(text) => match spec_parse_number(text) {
                Some(nd) => (
                    Some(
                        (
                            SpannedV {
                                e: ExprV::Literal(LiteralV::Num { n: nd.0, d: nd.1 }),
                                span,
                            },
                            pos + 1,
                        ),
                    ),
                    Seq::empty(),
                ),
                None => (None, seq![ErrorV::ParsingError { span }]),
            },
            TokenV::Str(text) => (
                Some((SpannedV { e: ExprV::Literal(LiteralV::Str(text)), span }, pos + 1)),
                Seq::empty(),
            ),
            TokenV::Bool(b) => (
                Some((SpannedV { e: ExprV::Literal(LiteralV::Bool(b)), span }, pos + 1)),
                Seq::empty(),
            ),
            TokenV::Null => (
                Some((SpannedV { e: ExprV::Literal(LiteralV::Null), span }, pos + 1)),
                Seq::empty(),
            ),
            TokenV::Ident(name) => (
                Some((SpannedV { e: ExprV::Ident(name), span }, pos + 1)),
                Seq::empty(),
            ),
            TokenV::Ctrl(c) => {
                if c == '(' {
                    let inner = spec_expr(toks, pos + 1, 9);
                    match inner.0 {
                        Some(np) => {
                            let closed = 0 <= np.1 < toks.len() && toks[np.1].0 == TokenV::Ctrl(
                                ')',
                            );
                            if closed {
                                (Some((np.0, np.1 + 1)), inner.1)
                            } else {
                                let e1 = ErrorV::ParsingError { span: spec_span_at(toks, np.1) };
                                match spec_skip(toks, np.1, 1) {
                                    Some(p) => (
                                        Some(
                                            (
                                                SpannedV {
                                                    e: ExprV::Error,
                                                    span: Span {
                                                        start: span.start,
                                                        end: spec_span_at(toks, p - 1).end,
                                                    },
                                                },
                                                p,
                                            ),
                                        ),
                                        inner.1 + seq![e1],
                                    ),
                                    None => (
                                        None,
                                        inner.1 + seq![e1, ErrorV::ParsingError { span }],
                                    ),
                                }
                            }
                        },
                        None => {
                            match spec_skip(toks, pos + 1, 1) {
                                Some(p) => (
                                    Some(
                                        (
                                            SpannedV {
                                                e: ExprV::Error,
                                                span: Span {
                                                    start: span.start,
                                                    end: spec_span_at(toks, p - 1).end,
                                                },
                                            },
                                            p,
                                        ),
                                    ),
                                    inner.1,
                                ),
                                None => (None, inner.1),
                            }
                        },
                    }
                } else if c == '[' {
                    spec_array(toks, pos)
                } else {
                    (None, seq![ErrorV::ParsingError { span }])
                }
            },
            TokenV::If => spec_conditional(toks, pos),
            _ => (None, seq![ErrorV::ParsingError { span }]),
        }
    }
}

/// An array literal from its opening bracket: comma-separated expressions
/// with a trailing comma permitted, recovered as a whole on a malformed
/// element.
pub open spec fn spec_array(toks: Seq<(TokenV, Span)>, pos: int) -> (
    Option<(SpannedV, int)>,
    Seq<ErrorV>,
)
    decreases toks.len() - pos, 0nat, 0nat,
{
    if !(0 <= pos < toks.len()) {
        (None, Seq::empty())
    } else {
        spec_array_loop(toks, toks[pos].1, Seq::empty(), pos + 1)
    }
}

/// The element fold of an array literal.
pub open spec fn spec_array_loop(
    toks: Seq<(TokenV, Span)>,
    open_span: Span,
    items: Seq<SpannedV>,
    cur: int,
) -> (Option<(SpannedV, int)>, Seq<ErrorV>)
    decreases toks.len() - cur, 10nat, 0nat,
{
    if !(0 <= cur <= toks.len()) {
        (None, Seq::empty())
    } else {
        let at_close = cur < toks.len() && toks[cur].0 == TokenV::Ctrl(']');
        if at_close {
            let node = SpannedV {
                e: ExprV::Literal(LiteralV::Array(items)),
                span: Span { start: open_span.start, end: toks[cur].1.end },
            };
            (Some((node, cur + 1)), Seq::empty())
        } else if cur >= toks.len() {
            (None, seq![ErrorV::ParsingError { span: spec_span_at(toks, cur) }])
        } else {
            let elem = spec_expr(toks, cur, 9);
            match elem.0 {
                None => {
                    match spec_skip(toks, cur, 1) {
                        Some(p) => (
                            Some(
                                (
                                    SpannedV {
                                        e: ExprV::Error,
                                        span: Span {
                                            start: open_span.start,
                                            end: spec_span_at(toks, p - 1).end,
                                        },
                                    },
                                    p,
                                ),
                            ),
                            elem.1,
                        ),
                        None => (None, elem.1),
                    }
                },
                Some(np) => {
                    if cur < np.1 <= toks.len() {
                        let sep = if np.1 < toks.len() && toks[np.1].0 == TokenV::Ctrl(',') {
                            1int
                        } else if np.1 < toks.len() && toks[np.1].0 == TokenV::Ctrl(']') {
                            2int
                        } else {
                            0int
                        };
                        if sep == 1 {
                            let lp = spec_array_loop(toks, open_span, items.push(np.0), np.1 + 1);
                            (lp.0, elem.1 + lp.1)
                        } else if sep == 2 {
                            let lp = spec_array_loop(toks, open_span, items.push(np.0), np.1);
                            (lp.0, elem.1 + lp.1)
                        } else {
                            let e1 = ErrorV::ParsingError { span: spec_span_at(toks, np.1) };
                            match spec_skip(toks, np.1, 1) {
                                Some(p) => (
                                    Some(
                                        (
                                            SpannedV {
                                                e: ExprV::Error,
                                                span: Span {
                                                    start: open_span.start,
                                                    end: spec_span_at(toks, p - 1).end,
                                                },
                                            },
                                            p,
                                        ),
                                    ),
                                    elem.1 + seq![e1],
                                ),
                                None => (None, elem.1 + seq![e1]),
                            }
                        }
                    } else {
                        (None, elem.1)
                    }
                },
            }
        }
    }
}

/// A conditional `if <expr> { <expr> } else { <expr> }`, where the
/// else-branch may itself be another conditional (an else-if chain); the
/// node's span runs from the condition to the end of the else-branch.
pub open spec fn spec_conditional(toks: Seq<(TokenV, Span)>, pos: int) -> (
    Option<(SpannedV, int)>,
    Seq<ErrorV>,
)
    decreases toks.len() - pos, 0nat, 0nat,
{
    if !(0 <= pos < toks.len() && toks[pos].0 is If) {
        (None, Seq::empty())
    } else {
        let cond_r = spec_expr(toks, pos + 1, 9);
        match cond_r.0 {
            None => (None, cond_r.1),
            Some(cp) => if !(pos < cp.1 <= toks.len()) {
                (None, cond_r.1)
            } else {
                let acc1 = cond_r.1;
                let ex1 = spec_expect(toks, cp.1, '{');
                match ex1.0 {
                    None => (None, acc1 + ex1.1),
                    Some(c1) => {
                        let inner_r = spec_expr(toks, c1, 9);
                        match inner_r.0 {
                            None => (None, acc1 + inner_r.1),
                            Some(ip) => if !(c1 <= ip.1 <= toks.len()) {
                                (None, acc1 + inner_r.1)
                            } else {
                                let acc2 = acc1 + inner_r.1;
                                let ex2 = spec_expect(toks, ip.1, '}');
                                match ex2.0 {
                                    None => (None, acc2 + ex2.1),
                                    Some(c2) => {
                                        let at_else = c2 < toks.len() && toks[c2].0 is Else;
                                        if !at_else {
                                            (
                                                None,
                                                acc2 + seq![
                                                    ErrorV::ParsingError {
                                                        span: spec_span_at(toks, c2),
                                                    },
                                                ],
                                            )
                                        } else {
                                            let c3 = c2 + 1;
                                            let chained = c3 < toks.len() && toks[c3].0 is If;
                                            if chained {
                                                if pos < c3 <= toks.len() {
                                                    let other_r = spec_conditional(toks, c3);
                                                    match other_r.0 {
                                                        None => (None, acc2 + other_r.1),
                                                        Some(op) => {
                                                            let node = SpannedV {
                                                                e: ExprV::Conditional {
                                                                    condition: Box::new(cp.0),
                                                                    inner: Box::new(ip.0),
                                                                    other: Box::new(op.0),
                                                                },
                                                                span: Span {
                                                                    start: cp.0.span.start,
                                                                    end: op.0.span.end,
                                                                },
                                                            };
                                                            (
                                                                Some((node, op.1)),
                                                                acc2 + other_r.1,
                                                            )
                                                        },
                                                    }
                                                } else {
                                                    (None, acc2)
                                                }
                                            } else {
                                                let ex3 = spec_expect(toks, c3, '{');
                                                match ex3.0 {
                                                    None => (None, acc2 + ex3.1),
                                                    Some(c4) => {
                                                        let other_r = spec_expr(toks, c4, 9);
                                                        match other_r.0 {
                                                            None => (None, acc2 + other_r.1),
                                                            Some(op) => {
                                                                let acc3 = acc2 + other_r.1;
                                                                let ex4 = spec_expect(
                                                                    toks,
                                                                    op.1,
                                                                    '}',
                                                                );
                                                                match ex4.0 {
                                                                    None => (None, acc3 + ex4.1),
                                                                    Some(c5) => {
                                                                        let node = SpannedV {
                                                                            e: ExprV::Conditional {
                                                                                condition: Box::new(
                                                                                    cp.0,
                                                                                ),
                                                                                inner: Box::new(
                                                                                    ip.0,
                                                                                ),
                                                                                other: Box::new(
                                                                                    op.0,
                                                                                ),
                                                                            },
                                                                            span: Span {
                                                                                start:
                                                                                    cp.0.span.start,
                                                                                end: op.0.span.end,
                                                                            },
                                                                        };
                                                                        (
                                                                            Some((node, c5)),
                                                                            acc3,
                                                                        )
                                                                    },
                                                                }
                                                            },
                                                        }
                                                    },
                                                }
                                            }
                                        }
                                    },
                                }
                            },
                        }
                    },
                }
            },
        }
    }
}

/// The further `name =` pairs of a multi-target assignment head, and the
/// position of the value expression.
pub open spec fn spec_stmt_names(
    toks: Seq<(TokenV, Span)>,
    cur: int,
    names: Seq<Seq<char>>,
) -> (Seq<Seq<char>>, int)
    decreases toks.len() - cur,
{
    if !(0 <= cur && cur + 1 < toks.len()) {
        (names, cur)
    } else {
        let more = toks[cur].0 is Ident && (toks[cur + 1].0 matches TokenV::Op(s) && s == "="@);
        if more {
            spec_stmt_names(toks, cur + 2, names.push(toks[cur].0->Ident_0))
        } else {
            (names, cur)
        }
    }
}

/// One top-level statement: an assignment `name (= name)* = expr ;`
/// (recognized by a leading identifier bound to `=`), or a bare expression.
pub open spec fn spec_stmt(toks: Seq<(TokenV, Span)>, pos: int) -> (
    Option<(SpannedV, int)>,
    Seq<ErrorV>,
) {
    if !(0 <= pos < toks.len()) {
        (None, Seq::empty())
    } else {
        let is_assign = toks[pos].0 is Ident && pos + 1 < toks.len() && (toks[pos + 1].0
            matches TokenV::Op(s) && s == "="@);
        if !is_assign {
            spec_expr(toks, pos, 9)
        } else {
            let start_span = toks[pos].1;
            let nc = spec_stmt_names(toks, pos + 2, seq![toks[pos].0->Ident_0]);
            let names = nc.0;
            let cur = nc.1;
            if !(0 <= cur <= toks.len()) {
                (None, Seq::empty())
            } else {
                let value_r = spec_expr(toks, cur, 9);
                match value_r.0 {
                    None => (None, value_r.1),
                    Some(vp) => {
                        let semi = vp.1 < toks.len() && toks[vp.1].0 == TokenV::Ctrl(';');
                        if !semi {
                            (
                                None,
                                value_r.1 + seq![
                                    ErrorV::ParsingError { span: spec_span_at(toks, vp.1) },
                                ],
                            )
                        } else {
                            let node = SpannedV {
                                e: ExprV::Assign { names, value: Box::new(vp.0) },
                                span: Span {
                                    start: start_span.start,
                                    end: toks[vp.1].1.end,
                                },
                            };
                            (Some((node, vp.1 + 1)), value_r.1)
                        }
                    },
                }
            }
        }
    }
}

/// The statement fold of a whole program: statements in order until the
/// tokens are exhausted, stopping at a statement that cannot be parsed at
/// all; the errors found so far ride along.
pub open spec fn spec_parse_loop(
    toks: Seq<(TokenV, Span)>,
    pos: int,
    stmts: Seq<SpannedV>,
    errs: Seq<ErrorV>,
) -> Result<(Seq<SpannedV>, Seq<ErrorV>), Seq<ErrorV>>
    decreases toks.len() - pos,
{
    if !(0 <= pos < toks.len()) {
        Ok((stmts, errs))
    } else {
        let sr = spec_stmt(toks, pos);
        match sr.0 {
            None => Err(errs + sr.1),
            Some(np) => {
                if pos < np.1 <= toks.len() {
                    spec_parse_loop(toks, np.1, stmts.push(np.0), errs + sr.1)
                } else {
                    Err(errs + sr.1)
                }
            },
        }
    }
}

/// Parsing of a whole token stream: the ordered statements when no error was
/// found, or the non-empty collected error list (an empty program is itself
/// an error).
pub open spec fn spec_parse(toks: Seq<(TokenV, Span)>) -> Result<Seq<SpannedV>, Seq<ErrorV>> {
    match spec_parse_loop(toks, 0, Seq::empty(), Seq::empty()) {
        Err(errs) => Err(errs),
        Ok(se) => {
            if se.1.len() > 0 {
                Err(se.1)
            } else if se.0.len() == 0 {
                Err(seq![ErrorV::ParsingError { span: Span { start: 0, end: 0 } }])
            } else {
                Ok(se.0)
            }
        },
    }
}

/// Parses one full expression, folding the binary layers from `level` down,
/// exactly as [`spec_expr`] describes.
#[verifier::loop_isolation(false)]
#[verifier::rlimit(100)]
fn parse_expr(toks: &Vec<(Token, Span)>, pos: usize, level: u8, errors: &mut Vec<Error>) -> (r:
    Result<(Spanned, usize), ()>)
    requires
        pos <= toks@.len(),
        1 <= level,
    ensures
        old(errors)@.len() <= final(errors)@.len(),
        r matches Ok(p) ==> pos < p.1 <= toks@.len(),
        r matches Ok(p) ==> (sv_evaluable(p.0@) || final(errors)@.len() > old(errors)@.len()),
        r is Err ==> final(errors)@.len() > old(errors)@.len(),
        ({
            let sr = spec_expr(toks_view(toks@), pos as int, level);
            &&& (r matches Ok(p) ==> sr.0 == Some((p.0@, p.1 as int)))
            &&& (r is Err ==> sr.0 is None)
            &&& error_seq_view(final(errors)@) == error_seq_view(old(errors)@) + sr.1
        }),
    decreases toks@.len() - pos, level, 3nat,
{
    let _tokens_len = toks.len();
    let ghost tv = toks_view(toks@);
    let ghost errs0 = errors@.len();
    let ghost errs_entry = error_seq_view(errors@);
    let ghost target = spec_expr(tv, pos as int, level);
    let (first, mut cur) = if level == 1 {
        match parse_postfix(toks, pos, errors) {
            Ok(p) => p,
            Err(e) => {
                return Err(e);
            },
        }
    } else {
        match parse_expr(toks, pos, level - 1, errors) {
            Ok(p) => p,
            Err(e) => {
                return Err(e);
            },
        }
    };
    let ghost first_delta = if level == 1 {
        spec_postfix(tv, pos as int).1
    } else {
        spec_expr(tv, pos as int, (level - 1) as u8).1
    };
    let ghost tloop = spec_expr_loop(tv, first@, cur as int, level);
    proof {
        assert(target.0 == tloop.0);
        assert(target.1 =~= first_delta + tloop.1);
    }
    let mut lhs = first;
    loop
        invariant
            pos < cur <= toks@.len(),
            errs0 <= errors@.len(),
            sv_evaluable(lhs@) || errors@.len() > errs0,
            ({
                let lp = spec_expr_loop(tv, lhs@, cur as int, level);
                lp.0 == target.0 && error_seq_view(errors@) + lp.1 == errs_entry + target.1
            }),
        decreases toks@.len() - cur,
    {
        let ghost errs_cur = error_seq_view(errors@);
        let op = if cur < toks.len() {
            proof {
                assert(tv[cur as int] == (token_view(toks@[cur as int].0), toks@[cur as int].1));
            }
            match &toks[cur].0 {
                Token::Op(s) => level_op(s, level),
                _ => None,
            }
        } else {
            None
        };
        match op {
            Some(op) => {
                let sub = if level == 1 {
                    parse_postfix(toks, cur + 1, errors)
                } else {
                    parse_expr(toks, cur + 1, level - 1, errors)
                };
                let ghost sub_delta = if level == 1 {
                    spec_postfix(tv, cur as int + 1).1
                } else {
                    spec_expr(tv, cur as int + 1, (level - 1) as u8).1
                };
                proof {
                    assert(error_seq_view(errors@) =~= errs_cur + sub_delta);
                }
                let (rhs, cur2) = match sub {
                    Ok(p) => p,
                    Err(e) => {
                        proof {
                            assert((errs_cur + sub_delta) =~= errs_entry + target.1);
                        }
                        return Err(e);
                    },
                };
                let ghost lhsv = lhs@;
                let ghost rhsv = rhs@;
                let span = lhs.1.to(rhs.1);
                let node = Spanned(Expr::InfixOp(Box::new(lhs), op, Box::new(rhs)), span);
                proof {
                    assert(crate::ast::expr_view(node.0) == ExprV::InfixOp(
                        Box::new(lhsv),
                        op,
                        Box::new(rhsv),
                    ));
                    assert(node@ == SpannedV {
                        e: ExprV::InfixOp(Box::new(lhsv), op, Box::new(rhsv)),
                        span: Span { start: lhsv.span.start, end: rhsv.span.end },
                    });
                    let lp2 = spec_expr_loop(tv, node@, cur2 as int, level);
                    assert((errs_cur + sub_delta) + lp2.1 =~= errs_cur + (sub_delta + lp2.1));
                }
                lhs = node;
                cur = cur2;
            },
            None => {
                proof {
                    let lp = spec_expr_loop(tv, lhs@, cur as int, level);
                    assert(lp.0 == Some((lhs@, cur as int)) && lp.1 =~= Seq::<ErrorV>::empty());
                    assert(error_seq_view(errors@) + Seq::<ErrorV>::empty() =~= error_seq_view(
                        errors@,
                    ));
                }
                return Ok((lhs, cur));
            },
        }
    }
}

/// Parses an atom followed by any number of postfix index groups, exactly as
/// [`spec_postfix`] describes.
#[verifier::loop_isolation(false)]
#[verifier::rlimit(100)]
fn parse_postfix(toks: &Vec<(Token, Span)>, pos: usize, errors: &mut Vec<Error>) -> (r: Result<
    (Spanned, usize),
    (),
>)
    requires
        pos <= toks@.len(),
    ensures
        old(errors)@.len() <= final(errors)@.len(),
        r matches Ok(p) ==> pos < p.1 <= toks@.len(),
        r matches Ok(p) ==> (sv_evaluable(p.0@) || final(errors)@.len() > old(errors)@.len()),
        r is Err ==> final(errors)@.len() > old(errors)@.len(),
        ({
            let sr = spec_postfix(toks_view(toks@), pos as int);
            &&& (r matches Ok(p) ==> sr.0 == Some((p.0@, p.1 as int)))
            &&& (r is Err ==> sr.0 is None)
            &&& error_seq_view(final(errors)@) == error_seq_view(old(errors)@) + sr.1
        }),
    decreases toks@.len() - pos, 0nat, 2nat,
{
    let _tokens_len = toks.len();
    let ghost tv = toks_view(toks@);
    let ghost errs0 = errors@.len();
    let ghost errs_entry = error_seq_view(errors@);
    let ghost target = spec_postfix(tv, pos as int);
    let (first, mut cur) = match parse_atom(toks, pos, errors) {
        Ok(p) => p,
        Err(e) => {
            return Err(e);
        },
    };
    let ghost first_delta = spec_atom(tv, pos as int).1;
    let ghost tloop = spec_postfix_loop(tv, first@, cur as int);
    proof {
        assert(target.0 == tloop.0);
        assert(target.1 =~= first_delta + tloop.1);
    }
    let mut lhs = first;
    loop
        invariant
            pos < cur <= toks@.len(),
            errs0 <= errors@.len(),
            sv_evaluable(lhs@) || errors@.len() > errs0,
            ({
                let lp = spec_postfix_loop(tv, lhs@, cur as int);
                lp.0 == target.0 && error_seq_view(errors@) + lp.1 == errs_entry + target.1
            }),
        decreases toks@.len() - cur,
    {
        let ghost errs_cur = error_seq_view(errors@);
        let is_open = if cur < toks.len() {
            proof {
                assert(tv[cur as int] == (token_view(toks@[cur as int].0), toks@[cur as int].1));
            }
            match &toks[cur].0 {
                Token::Ctrl(c) => *c == '[',
                _ => false,
            }
        } else {
            false
        };
        if !is_open {
            proof {
                let lp = spec_postfix_loop(tv, lhs@, cur as int);
                assert(lp.0 == Some((lhs@, cur as int)) && lp.1 =~= Seq::<ErrorV>::empty());
                assert(error_seq_view(errors@) + Seq::<ErrorV>::empty() =~= error_seq_view(
                    errors@,
                ));
            }
            return Ok((lhs, cur));
        }
        let sub = parse_expr(toks, cur + 1, 9, errors);
        let ghost sub_delta = spec_expr(tv, cur as int + 1, 9).1;
        proof {
            assert(error_seq_view(errors@) =~= errs_cur + sub_delta);
        }
        let (idx, cur2) = match sub {
            Ok(p) => p,
            Err(e) => {
                proof {
                    assert((errs_cur + sub_delta) =~= errs_entry + target.1);
                }
                return Err(e);
            },
        };
        let closed = if cur2 < toks.len() {
            proof {
                assert(tv[cur2 as int] == (token_view(toks@[cur2 as int].0), toks@[cur2 as int].1));
            }
            match &toks[cur2].0 {
                Token::Ctrl(c) => *c == ']',
                _ => false,
            }
        } else {
            false
        };
        if !closed {
            let e = Error::ParsingError { span: span_at(toks, cur2) };
            let ghost ev = crate::error::error_view(e);
            errors.push(e);
            proof {
                assert(error_seq_view(errors@) =~= (errs_cur + sub_delta).push(ev));
                assert((errs_cur + sub_delta).push(ev) =~= errs_cur + (sub_delta + seq![ev]));
                assert(errs_cur + (sub_delta + seq![ev]) =~= errs_entry + target.1);
            }
            return Err(());
        }
        let ghost lhsv = lhs@;
        let ghost idxv = idx@;
        let span = Span::new(lhs.1.start, toks[cur2].1.end);
        let node = Spanned(Expr::Index(Box::new(lhs), Box::new(idx)), span);
        proof {
            assert(crate::ast::expr_view(node.0) == ExprV::Index(Box::new(lhsv), Box::new(idxv)));
            assert(node@ == SpannedV {
                e: ExprV::Index(Box::new(lhsv), Box::new(idxv)),
                span: Span { start: lhsv.span.start, end: toks@[cur2 as int].1.end },
            });
            let lp2 = spec_postfix_loop(tv, node@, cur2 as int + 1);
            assert((errs_cur + sub_delta) + lp2.1 =~= errs_cur + (sub_delta + lp2.1));
        }
        lhs = node;
        cur = cur2 + 1;
    }
}

/// A spanned node whose expression model can be evaluated can itself be
/// evaluated.
proof fn lemma_node_evaluable(node: Spanned)
    requires
        ev_evaluable(crate::ast::expr_view(node.0)),
    ensures
        sv_evaluable(node@),
{
    assert(crate::ast::spanned_view(node) == crate::ast::SpannedV {
        e: crate::ast::expr_view(node.0),
        span: node.1,
    });
    assert(node@ == crate::ast::spanned_view(node));
}

/// Parses one atom exactly as [`spec_atom`] describes: a literal, an
/// identifier, a parenthesized expression, an array literal, or a
/// conditional; a malformed parenthesized or bracketed group is recovered by
/// skipping to the matching closer and substituting an `Error` placeholder,
/// recording the parse error.
#[verifier::loop_isolation(false)]
#[verifier::rlimit(100)]
fn parse_atom(toks: &Vec<(Token, Span)>, pos: usize, errors: &mut Vec<Error>) -> (r: Result<
    (Spanned, usize),
    (),
>)
    requires
        pos <= toks@.len(),
    ensures
        old(errors)@.len() <= final(errors)@.len(),
        r matches Ok(p) ==> pos < p.1 <= toks@.len(),
        r matches Ok(p) ==> (sv_evaluable(p.0@) || final(errors)@.len() > old(errors)@.len()),
        r is Err ==> final(errors)@.len() > old(errors)@.len(),
        ({
            let sr = spec_atom(toks_view(toks@), pos as int);
            &&& (r matches Ok(p) ==> sr.0 == Some((p.0@, p.1 as int)))
            &&& (r is Err ==> sr.0 is None)
            &&& error_seq_view(final(errors)@) == error_seq_view(old(errors)@) + sr.1
        }),
    decreases toks@.len() - pos, 0nat, 1nat,
{
    let _tokens_len = toks.len();
    let ghost tv = toks_view(toks@);
    let ghost errs_entry = error_seq_view(errors@);
    if pos >= toks.len() {
        let e = Error::ParsingError { span: span_at(toks, pos) };
        let ghost ev = crate::error::error_view(e);
        errors.push(e);
        proof {
            assert(error_seq_view(errors@) =~= errs_entry.push(ev));
            assert(errs_entry.push(ev) =~= errs_entry + seq![ev]);
        }
        return Err(());
    }
    proof {
        assert(tv[pos as int] == (token_view(toks@[pos as int].0), toks@[pos as int].1));
    }
    let span = toks[pos].1;
    match &toks[pos].0 {
        Token::Num(text) => match parse_number(text) {
            Some(x) => {
                let node = Spanned(Expr::Literal(Literal::Num(x)), span);
                proof {
                    assert(crate::ast::expr_view(node.0) == ExprV::Literal(
                        LiteralV::Num { n: x.num as int, d: x.den as int },
                    ));
                    assert(lv_evaluable(LiteralV::Num { n: x.num as int, d: x.den as int }));
                    assert(ev_evaluable(crate::ast::expr_view(node.0)));
                    lemma_node_evaluable(node);
                    assert(node@ == SpannedV {
                        e: ExprV::Literal(LiteralV::Num { n: x.num as int, d: x.den as int }),
                        span,
                    });
                    assert(error_seq_view(errors@) + Seq::<ErrorV>::empty() =~= errs_entry);
                }
                Ok((node, pos + 1))
            },
            None => {
                let e = Error::ParsingError { span };
                let ghost ev = crate::error::error_view(e);
                errors.push(e);
                proof {
                    assert(error_seq_view(errors@) =~= errs_entry + seq![ev]);
                }
                Err(())
            },
        },
        Token::String(text) => {
            let node = Spanned(Expr::Literal(Literal::String(text.clone())), span);
            proof {
                assert(crate::ast::expr_view(node.0) == ExprV::Literal(LiteralV::Str(text@)));
                assert(ev_evaluable(crate::ast::expr_view(node.0)));
                lemma_node_evaluable(node);
                assert(node@ == SpannedV { e: ExprV::Literal(LiteralV::Str(text@)), span });
                assert(error_seq_view(errors@) + Seq::<ErrorV>::empty() =~= errs_entry);
            }
            Ok((node, pos + 1))
        },
        Token::Bool(b) => {
            let node = Spanned(Expr::Literal(Literal::Bool(*b)), span);
            proof {
                assert(crate::ast::expr_view(node.0) == ExprV::Literal(LiteralV::Bool(*b)));
                assert(ev_evaluable(crate::ast::expr_view(node.0)));
                lemma_node_evaluable(node);
                assert(node@ == SpannedV { e: ExprV::Literal(LiteralV::Bool(*b)), span });
                assert(error_seq_view(errors@) + Seq::<ErrorV>::empty() =~= errs_entry);
            }
            Ok((node, pos + 1))
        },
        Token::Null => {
            let node = Spanned(Expr::Literal(Literal::Null), span);
            proof {
                assert(crate::ast::expr_view(node.0) == ExprV::Literal(LiteralV::Null));
                assert(ev_evaluable(crate::ast::expr_view(node.0)));
                lemma_node_evaluable(node);
                assert(node@ == SpannedV { e: ExprV::Literal(LiteralV::Null), span });
                assert(error_seq_view(errors@) + Seq::<ErrorV>::empty() =~= errs_entry);
            }
            Ok((node, pos + 1))
        },
        Token::Ident(name) => {
            let node = Spanned(Expr::Ident(name.clone()), span);
            proof {
                assert(crate::ast::expr_view(node.0) == ExprV::Ident(name@));
                assert(ev_evaluable(crate::ast::expr_view(node.0)));
                lemma_node_evaluable(node);
                assert(node@ == SpannedV { e: ExprV::Ident(name@), span });
                assert(error_seq_view(errors@) + Seq::<ErrorV>::empty() =~= errs_entry);
            }
            Ok((node, pos + 1))
        },
        Token::Ctrl(c) => {
            if *c == '(' {
                let inner = parse_expr(toks, pos + 1, 9, errors);
                let ghost inner_delta = spec_expr(tv, pos as int + 1, 9).1;
                proof {
                    assert(error_seq_view(errors@) =~= errs_entry + inner_delta);
                }
                match inner {
                    Ok((node, cur)) => {
                        let closed = if cur < toks.len() {
                            proof {
                                assert(tv[cur as int] == (
                                    token_view(toks@[cur as int].0),
                                    toks@[cur as int].1,
                                ));
                            }
                            match &toks[cur].0 {
                                Token::Ctrl(c2) => *c2 == ')',
                                _ => false,
                            }
                        } else {
                            false
                        };
                        if closed {
                            Ok((node, cur + 1))
                        } else {
                            let e1 = Error::ParsingError { span: span_at(toks, cur) };
                            let ghost e1v = crate::error::error_view(e1);
                            let ghost before1 = error_seq_view(errors@);
                            errors.push(e1);
                            proof {
                                assert(error_seq_view(errors@) =~= before1.push(e1v));
                                assert(before1.push(e1v) =~= errs_entry + (inner_delta
                                    + seq![e1v]));
                            }
                            match skip_to_close(toks, cur) {
                                Some(p) => {
                                    let node2 = Spanned(
                                        Expr::Error,
                                        Span::new(span.start, span_at(toks, p - 1).end),
                                    );
                                    proof {
                                        assert(node2@ == SpannedV {
                                            e: ExprV::Error,
                                            span: Span {
                                                start: span.start,
                                                end: spec_span_at(tv, p as int - 1).end,
                                            },
                                        });
                                    }
                                    Ok((node2, p))
                                },
                                None => {
                                    let e2 = Error::ParsingError { span };
                                    let ghost e2v = crate::error::error_view(e2);
                                    let ghost before2 = error_seq_view(errors@);
                                    errors.push(e2);
                                    proof {
                                        assert(error_seq_view(errors@) =~= before2.push(e2v));
                                        assert(before2.push(e2v) =~= errs_entry + (inner_delta
                                            + seq![e1v, e2v]));
                                    }
                                    Err(())
                                },
                            }
                        }
                    },
                    Err(_) => {
                        match skip_to_close(toks, pos + 1) {
                            Some(p) => {
                                let node2 = Spanned(
                                    Expr::Error,
                                    Span::new(span.start, span_at(toks, p - 1).end),
                                );
                                proof {
                                    assert(node2@ == SpannedV {
                                        e: ExprV::Error,
                                        span: Span {
                                            start: span.start,
                                            end: spec_span_at(tv, p as int - 1).end,
                                        },
                                    });
                                }
                                Ok((node2, p))
                            },
                            None => Err(()),
                        }
                    },
                }
            } else if *c == '[' {
                parse_array(toks, pos, errors)
            } else {
                let e = Error::ParsingError { span };
                let ghost ev = crate::error::error_view(e);
                errors.push(e);
                proof {
                    assert(error_seq_view(errors@) =~= errs_entry + seq![ev]);
                }
                Err(())
            }
        },
        Token::If => parse_conditional(toks, pos, errors),
        _ => {
            let e = Error::ParsingError { span };
            let ghost ev = crate::error::error_view(e);
            errors.push(e);
            proof {
                assert(error_seq_view(errors@) =~= errs_entry + seq![ev]);
            }
            Err(())
        },
    }
}

/// Parses an array literal exactly as [`spec_array`] describes.
#[verifier::loop_isolation(false)]
#[verifier::rlimit(100)]
fn parse_array(toks: &Vec<(Token, Span)>, pos: usize, errors: &mut Vec<Error>) -> (r: Result<
    (Spanned, usize),
    (),
>)
    requires
        pos < toks@.len(),
    ensures
        old(errors)@.len() <= final(errors)@.len(),
        r matches Ok(p) ==> pos < p.1 <= toks@.len(),
        r matches Ok(p) ==> (sv_evaluable(p.0@) || final(errors)@.len() > old(errors)@.len()),
        r is Err ==> final(errors)@.len() > old(errors)@.len(),
        ({
            let sr = spec_array(toks_view(toks@), pos as int);
            &&& (r matches Ok(p) ==> sr.0 == Some((p.0@, p.1 as int)))
            &&& (r is Err ==> sr.0 is None)
            &&& error_seq_view(final(errors)@) == error_seq_view(old(errors)@) + sr.1
        }),
    decreases toks@.len() - pos, 0nat, 0nat,
{
    broadcast use crate::ast::lemma_spanned_seq_view;

    let _tokens_len = toks.len();
    let ghost tv = toks_view(toks@);
    let ghost errs0 = errors@.len();
    let ghost errs_entry = error_seq_view(errors@);
    let ghost target = spec_array(tv, pos as int);
    let open_span = toks[pos].1;
    let mut items: Vec<Spanned> = Vec::new();
    let mut cur = pos + 1;
    proof {
        assert(tv[pos as int] == (token_view(toks@[pos as int].0), toks@[pos as int].1));
        assert(spanned_seq_view(items@) =~= Seq::<SpannedV>::empty());
    }
    loop
        invariant
            pos < cur <= toks@.len(),
            errs0 <= errors@.len(),
            errors@.len() == errs0 ==> forall|k: int|
                0 <= k < items@.len() ==> sv_evaluable(
                    #[trigger] crate::ast::spanned_view(items@[k]),
                ),
            ({
                let lp = spec_array_loop(tv, open_span, spanned_seq_view(items@), cur as int);
                lp.0 == target.0 && error_seq_view(errors@) + lp.1 == errs_entry + target.1
            }),
        decreases toks@.len() - cur,
    {
        let ghost errs_cur = error_seq_view(errors@);
        let at_close = if cur < toks.len() {
            proof {
                assert(tv[cur as int] == (token_view(toks@[cur as int].0), toks@[cur as int].1));
            }
            match &toks[cur].0 {
                Token::Ctrl(c) => *c == ']',
                _ => false,
            }
        } else {
            false
        };
        if at_close {
            let span = Span::new(open_span.start, toks[cur].1.end);
            let ghost itemsv = spanned_seq_view(items@);
            proof {
                if errors@.len() == errs0 {
                    assert(lv_evaluable(crate::ast::LiteralV::Array(itemsv)));
                }
            }
            let lit = Literal::Array(items);
            let ghost litv = crate::ast::literal_view(lit);
            proof {
                assert(litv == crate::ast::LiteralV::Array(itemsv));
            }
            let node = Spanned(Expr::Literal(lit), span);
            proof {
                assert(crate::ast::expr_view(node.0) == crate::ast::ExprV::Literal(litv));
                assert(node@ == SpannedV { e: ExprV::Literal(LiteralV::Array(itemsv)), span });
                if errors@.len() == errs0 {
                    assert(sv_evaluable(node@));
                }
                assert(error_seq_view(errors@) + Seq::<ErrorV>::empty() =~= error_seq_view(
                    errors@,
                ));
            }
            return Ok((node, cur + 1));
        }
        if cur >= toks.len() {
            let e = Error::ParsingError { span: span_at(toks, cur) };
            let ghost ev = crate::error::error_view(e);
            errors.push(e);
            proof {
                assert(error_seq_view(errors@) =~= errs_cur + seq![ev]);
                assert(errs_cur + seq![ev] =~= errs_entry + target.1);
            }
            return Err(());
        }
        let elem = parse_expr(toks, cur, 9, errors);
        let ghost elem_delta = spec_expr(tv, cur as int, 9).1;
        proof {
            assert(error_seq_view(errors@) =~= errs_cur + elem_delta);
        }
        match elem {
            Ok((item, cur2)) => {
                let ghost itemv = item@;
                let ghost old_items = spanned_seq_view(items@);
                items.push(item);
                proof {
                    assert(crate::ast::spanned_view(items@[items@.len() - 1]) == itemv);
                    assert(items@.drop_last() =~= items@.subrange(0, items@.len() - 1));
                    assert(spanned_seq_view(items@) =~= old_items.push(itemv));
                }
                cur = cur2;
                let sep = if cur < toks.len() {
                    proof {
                        assert(tv[cur as int] == (
                            token_view(toks@[cur as int].0),
                            toks@[cur as int].1,
                        ));
                    }
                    match &toks[cur].0 {
                        Token::Ctrl(c) => {
                            if *c == ',' {
                                1usize
                            } else if *c == ']' {
                                2usize
                            } else {
                                0usize
                            }
                        },
                        _ => 0usize,
                    }
                } else {
                    0usize
                };
                if sep == 1 {
                    proof {
                        let lp2 = spec_array_loop(
                            tv,
                            open_span,
                            spanned_seq_view(items@),
                            cur as int + 1,
                        );
                        assert((errs_cur + elem_delta) + lp2.1 =~= errs_cur + (elem_delta
                            + lp2.1));
                    }
                    cur = cur + 1;
                } else if sep == 2 {
                    proof {
                        let lp2 = spec_array_loop(
                            tv,
                            open_span,
                            spanned_seq_view(items@),
                            cur as int,
                        );
                        assert((errs_cur + elem_delta) + lp2.1 =~= errs_cur + (elem_delta
                            + lp2.1));
                    }
                } else {
                    let e1 = Error::ParsingError { span: span_at(toks, cur) };
                    let ghost e1v = crate::error::error_view(e1);
                    let ghost before1 = error_seq_view(errors@);
                    errors.push(e1);
                    proof {
                        assert(error_seq_view(errors@) =~= before1.push(e1v));
                        assert(before1.push(e1v) =~= errs_cur + (elem_delta + seq![e1v]));
                    }
                    match skip_to_close(toks, cur) {
                        Some(p) => {
                            let node2 = Spanned(
                                Expr::Error,
                                Span::new(open_span.start, span_at(toks, p - 1).end),
                            );
                            proof {
                                assert(node2@ == SpannedV {
                                    e: ExprV::Error,
                                    span: Span {
                                        start: open_span.start,
                                        end: spec_span_at(tv, p as int - 1).end,
                                    },
                                });
                            }
                            return Ok((node2, p));
                        },
                        None => {
                            return Err(());
                        },
                    }
                }
            },
            Err(_) => {
                match skip_to_close(toks, cur) {
                    Some(p) => {
                        let node2 = Spanned(
                            Expr::Error,
                            Span::new(open_span.start, span_at(toks, p - 1).end),
                        );
                        proof {
                            assert(node2@ == SpannedV {
                                e: ExprV::Error,
                                span: Span {
                                    start: open_span.start,
                                    end: spec_span_at(tv, p as int - 1).end,
                                },
                            });
                        }
                        return Ok((node2, p));
                    },
                    None => {
                        return Err(());
                    },
                }
            },
        }
    }
}

/// Consumes an expected control character, or records a parse error, exactly
/// as [`spec_expect`] describes.
fn expect_ctrl(toks: &Vec<(Token, Span)>, pos: usize, want: char, errors: &mut Vec<Error>) -> (r:
    Result<usize, ()>)
    requires
        pos <= toks@.len(),
    ensures
        old(errors)@.len() <= final(errors)@.len(),
        r matches Ok(p) ==> p == pos + 1 && pos < toks@.len(),
        r is Err ==> final(errors)@.len() > old(errors)@.len(),
        ({
            let sr = spec_expect(toks_view(toks@), pos as int, want);
            &&& (r matches Ok(p) ==> sr.0 == Some(p as int))
            &&& (r is Err ==> sr.0 is None)
            &&& error_seq_view(final(errors)@) == error_seq_view(old(errors)@) + sr.1
        }),
{
    let ghost tv = toks_view(toks@);
    let ghost errs_entry = error_seq_view(errors@);
    let found = if pos < toks.len() {
        proof {
            assert(tv[pos as int] == (token_view(toks@[pos as int].0), toks@[pos as int].1));
        }
        match &toks[pos].0 {
            Token::Ctrl(c) => *c == want,
            _ => false,
        }
    } else {
        false
    };
    if found {
        proof {
            assert(errs_entry + Seq::<ErrorV>::empty() =~= errs_entry);
        }
        Ok(pos + 1)
    } else {
        let e = Error::ParsingError { span: span_at(toks, pos) };
        let ghost ev = crate::error::error_view(e);
        errors.push(e);
        proof {
            assert(error_seq_view(errors@) =~= errs_entry + seq![ev]);
        }
        Err(())
    }
}

/// Parses a conditional exactly as [`spec_conditional`] describes:
/// `if <expr> { <expr> } else { <expr> }`, where the else-branch may itself
/// be another conditional (an else-if chain).
#[verifier::loop_isolation(false)]
#[verifier::rlimit(100)]
fn parse_conditional(toks: &Vec<(Token, Span)>, pos: usize, errors: &mut Vec<Error>) -> (r: Result<
    (Spanned, usize),
    (),
>)
    requires
        pos < toks@.len(),
        toks@[pos as int].0 is If,
    ensures
        old(errors)@.len() <= final(errors)@.len(),
        r matches Ok(p) ==> pos < p.1 <= toks@.len(),
        r matches Ok(p) ==> (sv_evaluable(p.0@) || final(errors)@.len() > old(errors)@.len()),
        r is Err ==> final(errors)@.len() > old(errors)@.len(),
        ({
            let sr = spec_conditional(toks_view(toks@), pos as int);
            &&& (r matches Ok(p) ==> sr.0 == Some((p.0@, p.1 as int)))
            &&& (r is Err ==> sr.0 is None)
            &&& error_seq_view(final(errors)@) == error_seq_view(old(errors)@) + sr.1
        }),
    decreases toks@.len() - pos, 0nat, 0nat,
{
    let _tokens_len = toks.len();
    let ghost tv = toks_view(toks@);
    let ghost errs_entry = error_seq_view(errors@);
    proof {
        assert(tv[pos as int] == (token_view(toks@[pos as int].0), toks@[pos as int].1));
        assert(tv[pos as int].0 is If);
    }
    let cond_sub = parse_expr(toks, pos + 1, 9, errors);
    let ghost cond_delta = spec_expr(tv, pos as int + 1, 9).1;
    let (cond, cur) = match cond_sub {
        Ok(p) => p,
        Err(e) => {
            return Err(e);
        },
    };
    let ex1 = expect_ctrl(toks, cur, '{', errors);
    let ghost ex1_delta = spec_expect(tv, cur as int, '{').1;
    proof {
        assert((errs_entry + cond_delta) + ex1_delta =~= errs_entry + (cond_delta + ex1_delta));
    }
    let cur = match ex1 {
        Ok(p) => p,
        Err(e) => {
            return Err(e);
        },
    };
    let inner_sub = parse_expr(toks, cur, 9, errors);
    let ghost inner_delta = spec_expr(tv, cur as int, 9).1;
    proof {
        assert((errs_entry + cond_delta) + inner_delta =~= errs_entry + (cond_delta
            + inner_delta));
    }
    let ghost acc2 = cond_delta + inner_delta;
    let (inner, cur) = match inner_sub {
        Ok(p) => p,
        Err(e) => {
            return Err(e);
        },
    };
    let ex2 = expect_ctrl(toks, cur, '}', errors);
    let ghost ex2_delta = spec_expect(tv, cur as int, '}').1;
    proof {
        assert((errs_entry + acc2) + ex2_delta =~= errs_entry + (acc2 + ex2_delta));
    }
    let cur = match ex2 {
        Ok(p) => p,
        Err(e) => {
            return Err(e);
        },
    };
    let at_else = cur < toks.len() && match &toks[cur].0 {
        Token::Else => true,
        _ => false,
    };
    proof {
        if cur < toks.len() {
            assert(tv[cur as int] == (token_view(toks@[cur as int].0), toks@[cur as int].1));
        }
    }
    if !at_else {
        let e = Error::ParsingError { span: span_at(toks, cur) };
        let ghost ev = crate::error::error_view(e);
        let ghost before = error_seq_view(errors@);
        errors.push(e);
        proof {
            assert(error_seq_view(errors@) =~= before.push(ev));
            assert(before.push(ev) =~= errs_entry + (acc2 + seq![ev]));
        }
        return Err(());
    }
    let cur = cur + 1;
    let chained = cur < toks.len() && match &toks[cur].0 {
        Token::If => true,
        _ => false,
    };
    proof {
        if cur < toks.len() {
            assert(tv[cur as int] == (token_view(toks@[cur as int].0), toks@[cur as int].1));
        }
    }
    if chained {
        let other_sub = parse_conditional(toks, cur, errors);
        let ghost other_delta = spec_conditional(tv, cur as int).1;
        proof {
            assert((errs_entry + acc2) + other_delta =~= errs_entry + (acc2 + other_delta));
        }
        let (other, cur2) = match other_sub {
            Ok(p) => p,
            Err(e) => {
                return Err(e);
            },
        };
        let ghost condv = cond@;
        let ghost innerv = inner@;
        let ghost otherv = other@;
        let span = Span::new(cond.1.start, other.1.end);
        let node = Spanned(
            Expr::Conditional {
                condition: Box::new(cond),
                inner: Box::new(inner),
                other: Box::new(other),
            },
            span,
        );
        proof {
            assert(crate::ast::expr_view(node.0) == ExprV::Conditional {
                condition: Box::new(condv),
                inner: Box::new(innerv),
                other: Box::new(otherv),
            });
            assert(node@ == SpannedV {
                e: ExprV::Conditional {
                    condition: Box::new(condv),
                    inner: Box::new(innerv),
                    other: Box::new(otherv),
                },
                span: Span { start: condv.span.start, end: otherv.span.end },
            });
        }
        Ok((node, cur2))
    } else {
        let ex3 = expect_ctrl(toks, cur, '{', errors);
        let ghost ex3_delta = spec_expect(tv, cur as int, '{').1;
        proof {
            assert((errs_entry + acc2) + ex3_delta =~= errs_entry + (acc2 + ex3_delta));
        }
        let cur = match ex3 {
            Ok(p) => p,
            Err(e) => {
                return Err(e);
            },
        };
        let other_sub = parse_expr(toks, cur, 9, errors);
        let ghost other_delta = spec_expr(tv, cur as int, 9).1;
        proof {
            assert((errs_entry + acc2) + other_delta =~= errs_entry + (acc2 + other_delta));
        }
        let ghost acc3 = acc2 + other_delta;
        let (other, cur) = match other_sub {
            Ok(p) => p,
            Err(e) => {
                return Err(e);
            },
        };
        let ex4 = expect_ctrl(toks, cur, '}', errors);
        let ghost ex4_delta = spec_expect(tv, cur as int, '}').1;
        proof {
            assert((errs_entry + acc3) + ex4_delta =~= errs_entry + (acc3 + ex4_delta));
        }
        let cur = match ex4 {
            Ok(p) => p,
            Err(e) => {
                return Err(e);
            },
        };
        let ghost condv = cond@;
        let ghost innerv = inner@;
        let ghost otherv = other@;
        let span = Span::new(cond.1.start, other.1.end);
        let node = Spanned(
            Expr::Conditional {
                condition: Box::new(cond),
                inner: Box::new(inner),
                other: Box::new(other),
            },
            span,
        );
        proof {
            assert(crate::ast::expr_view(node.0) == ExprV::Conditional {
                condition: Box::new(condv),
                inner: Box::new(innerv),
                other: Box::new(otherv),
            });
            assert(node@ == SpannedV {
                e: ExprV::Conditional {
                    condition: Box::new(condv),
                    inner: Box::new(innerv),
                    other: Box::new(otherv),
                },
                span: Span { start: condv.span.start, end: otherv.span.end },
            });
        }
        Ok((node, cur))
    }
}

/// Parses one top-level statement exactly as [`spec_stmt`] describes: an
/// assignment `name (= name)* = expr ;`, or a bare expression.
#[verifier::loop_isolation(false)]
#[verifier::rlimit(100)]
fn parse_stmt(toks: &Vec<(Token, Span)>, pos: usize, errors: &mut Vec<Error>) -> (r: Result<
    (Spanned, usize),
    (),
>)
    requires
        pos < toks@.len(),
    ensures
        old(errors)@.len() <= final(errors)@.len(),
        r matches Ok(p) ==> pos < p.1 <= toks@.len(),
        r matches Ok(p) ==> (sv_evaluable(p.0@) || final(errors)@.len() > old(errors)@.len()),
        r is Err ==> final(errors)@.len() > old(errors)@.len(),
        ({
            let sr = spec_stmt(toks_view(toks@), pos as int);
            &&& (r matches Ok(p) ==> sr.0 == Some((p.0@, p.1 as int)))
            &&& (r is Err ==> sr.0 is None)
            &&& error_seq_view(final(errors)@) == error_seq_view(old(errors)@) + sr.1
        }),
{
    let _tokens_len = toks.len();
    let ghost tv = toks_view(toks@);
    let ghost errs0 = errors@.len();
    let ghost errs_entry = error_seq_view(errors@);
    proof {
        assert(tv[pos as int] == (token_view(toks@[pos as int].0), toks@[pos as int].1));
        if pos + 1 < toks.len() {
            assert(tv[pos as int + 1] == (
                token_view(toks@[pos as int + 1].0),
                toks@[pos as int + 1].1,
            ));
        }
    }
    let is_assign = match &toks[pos].0 {
        Token::Ident(_) => {
            if pos + 1 < toks.len() {
                match &toks[pos + 1].0 {
                    Token::Op(s) => *s == "=".to_owned(),
                    _ => false,
                }
            } else {
                false
            }
        },
        _ => false,
    };
    if !is_assign {
        return parse_expr(toks, pos, 9, errors);
    }
    let start_span = toks[pos].1;
    let mut names: Vec<String> = Vec::new();
    match &toks[pos].0 {
        Token::Ident(name) => {
            names.push(name.clone());
        },
        _ => {
            proof {
                assert(false);
            }
        },
    }
    let ghost names_target = spec_stmt_names(
        tv,
        pos as int + 2,
        seq![toks@[pos as int].0->Ident_0@],
    );
    proof {
        assert(crate::ast::names_view(names@) =~= seq![toks@[pos as int].0->Ident_0@]);
    }
    let mut cur = pos + 2;
    // Further `name =` pairs extend the target list.
    loop
        invariant
            pos < cur <= toks@.len(),
            names@.len() >= 1,
            errs0 == errors@.len(),
            error_seq_view(errors@) == errs_entry,
            spec_stmt_names(tv, cur as int, crate::ast::names_view(names@)) == names_target,
        decreases toks@.len() - cur,
    {
        let more = if cur < toks.len() && cur + 1 < toks.len() {
            proof {
                assert(tv[cur as int] == (token_view(toks@[cur as int].0), toks@[cur as int].1));
                assert(tv[cur as int + 1] == (
                    token_view(toks@[cur as int + 1].0),
                    toks@[cur as int + 1].1,
                ));
            }
            let n_ok = match &toks[cur].0 {
                Token::Ident(_) => true,
                _ => false,
            };
            let e_ok = match &toks[cur + 1].0 {
                Token::Op(s) => *s == "=".to_owned(),
                _ => false,
            };
            n_ok && e_ok
        } else {
            false
        };
        if !more {
            proof {
                assert(spec_stmt_names(tv, cur as int, crate::ast::names_view(names@)) == (
                    crate::ast::names_view(names@),
                    cur as int,
                ));
            }
            break;
        }
        let ghost old_names = crate::ast::names_view(names@);
        match &toks[cur].0 {
            Token::Ident(name) => {
                names.push(name.clone());
                proof {
                    assert(crate::ast::names_view(names@) =~= old_names.push(name@));
                }
            },
            _ => {
                proof {
                    assert(false);
                }
            },
        }
        cur = cur + 2;
    }
    let value_sub = parse_expr(toks, cur, 9, errors);
    let ghost value_delta = spec_expr(tv, cur as int, 9).1;
    let (value, cur2) = match value_sub {
        Ok(p) => p,
        Err(e) => {
            return Err(e);
        },
    };
    let semi = if cur2 < toks.len() {
        proof {
            assert(tv[cur2 as int] == (token_view(toks@[cur2 as int].0), toks@[cur2 as int].1));
        }
        match &toks[cur2].0 {
            Token::Ctrl(c) => *c == ';',
            _ => false,
        }
    } else {
        false
    };
    if !semi {
        let e = Error::ParsingError { span: span_at(toks, cur2) };
        let ghost ev = crate::error::error_view(e);
        let ghost before = error_seq_view(errors@);
        errors.push(e);
        proof {
            assert(error_seq_view(errors@) =~= before.push(ev));
            assert(before.push(ev) =~= errs_entry + (value_delta + seq![ev]));
        }
        return Err(());
    }
    let ghost namesv = crate::ast::names_view(names@);
    let ghost valuev = value@;
    let span = Span::new(start_span.start, toks[cur2].1.end);
    let node = Spanned(Expr::Assign { names, value: Box::new(value) }, span);
    proof {
        assert(crate::ast::expr_view(node.0) == ExprV::Assign {
            names: namesv,
            value: Box::new(valuev),
        });
        assert(node@ == SpannedV {
            e: ExprV::Assign { names: namesv, value: Box::new(valuev) },
            span: Span { start: start_span.start, end: toks@[cur2 as int].1.end },
        });
        if errors@.len() == errs0 {
            assert(ev_evaluable(node.0@));
        }
    }
    Ok((node, cur2 + 1))
}

/// Parses the token stream exactly as [`spec_parse`] describes: an ordered,
/// non-empty sequence of top-level statements, or the non-empty list of all
/// parse errors found. On success no recovery placeholder is left in any
/// statement, so every statement can be evaluated.
#[verifier::loop_isolation(false)]
#[verifier::rlimit(100)]
pub fn parse(toks: &Vec<(Token, Span)>) -> (r: Result<Vec<Spanned>, Vec<Error>>)
    ensures
        r matches Ok(stmts) ==> stmts@.len() >= 1 && stmts_evaluable(spanned_seq_view(stmts@)),
        r matches Err(es) ==> es@.len() >= 1,
        r matches Ok(stmts) ==> spec_parse(toks_view(toks@)) == Ok::<Seq<SpannedV>, Seq<ErrorV>>(
            spanned_seq_view(stmts@),
        ),
        r matches Err(es) ==> spec_parse(toks_view(toks@)) == Err::<Seq<SpannedV>, Seq<ErrorV>>(
            error_seq_view(es@),
        ),
{
    broadcast use crate::ast::lemma_spanned_seq_view;

    let ghost tv = toks_view(toks@);
    let ghost ptarget = spec_parse_loop(tv, 0, Seq::empty(), Seq::empty());
    let mut errors: Vec<Error> = Vec::new();
    let mut stmts: Vec<Spanned> = Vec::new();
    let mut pos: usize = 0;
    proof {
        assert(spanned_seq_view(stmts@) =~= Seq::<SpannedV>::empty());
        assert(error_seq_view(errors@) =~= Seq::<ErrorV>::empty());
    }
    while pos < toks.len()
        invariant
            0 <= pos <= toks@.len(),
            errors@.len() == 0 ==> forall|k: int|
                0 <= k < stmts@.len() ==> sv_evaluable(
                    #[trigger] crate::ast::spanned_view(stmts@[k]),
                ),
            spec_parse_loop(tv, pos as int, spanned_seq_view(stmts@), error_seq_view(errors@))
                == ptarget,
        decreases toks@.len() - pos,
    {
        let ghost errs_cur = error_seq_view(errors@);
        let stmt_sub = parse_stmt(toks, pos, &mut errors);
        let ghost stmt_delta = spec_stmt(tv, pos as int).1;
        proof {
            assert(error_seq_view(errors@) =~= errs_cur + stmt_delta);
        }
        match stmt_sub {
            Ok((s, p2)) => {
                let ghost sv = s@;
                let ghost old_stmts = spanned_seq_view(stmts@);
                stmts.push(s);
                proof {
                    assert(crate::ast::spanned_view(stmts@[stmts@.len() - 1]) == sv);
                    assert(spanned_seq_view(stmts@) =~= old_stmts.push(sv));
                }
                pos = p2;
            },
            Err(_) => {
                proof {
                    assert(ptarget == Err::<(Seq<SpannedV>, Seq<ErrorV>), Seq<ErrorV>>(
                        error_seq_view(errors@),
                    ));
                }
                return Err(errors);
            },
        }
    }
    proof {
        assert(ptarget == Ok::<(Seq<SpannedV>, Seq<ErrorV>), Seq<ErrorV>>(
            (spanned_seq_view(stmts@), error_seq_view(errors@)),
        ));
    }
    if errors.len() > 0 {
        Err(errors)
    } else if stmts.len() == 0 {
        let mut es: Vec<Error> = Vec::new();
        es.push(Error::ParsingError { span: Span::new(0, 0) });
        proof {
            assert(error_seq_view(es@) =~= seq![
                ErrorV::ParsingError { span: Span { start: 0, end: 0 } },
            ]);
        }
        Err(es)
    } else {
        proof {
            assert forall|k: int| 0 <= k < spanned_seq_view(stmts@).len() implies sv_evaluable(
                #[trigger] spanned_seq_view(stmts@)[k],
            ) by {
                assert(spanned_seq_view(stmts@)[k] == crate::ast::spanned_view(stmts@[k]));
            }
        }
        Ok(stmts)
    }
}

} // verus!
