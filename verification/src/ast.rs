use vstd::prelude::*;
use crate::number::Number;
use crate::span::Span;

verus! {

/// One lexical token. `Op` carries a maximal run of operator symbols (or one
/// of the word operators `and`, `or`, `in`), later disambiguated by the
/// parser; `Ctrl` carries a single control character from `( ) [ ] { } , ;`.
#[derive(Clone, Debug, PartialEq)]
pub enum Token {
    Ident(String),
    Ctrl(char),
    Op(String),
    If,
    Else,
    String(String),
    Num(String),
    Bool(bool),
    Null,
}

/// The mathematical model of a token.
#[verifier::ext_equal]
pub enum TokenV {
    Ident(Seq<char>),
    Ctrl(char),
    Op(Seq<char>),
    If,
    Else,
    Str(Seq<char>),
    Num(Seq<char>),
    Bool(bool),
    Null,
}

/// The model of a token.
pub open spec fn token_view(t: Token) -> TokenV {
    match t {
        Token::Ident(s) => TokenV::Ident(s@),
        Token::Ctrl(c) => TokenV::Ctrl(c),
        Token::Op(s) => TokenV::Op(s@),
        Token::If => TokenV::If,
        Token::Else => TokenV::Else,
        Token::String(s) => TokenV::Str(s@),
        Token::Num(s) => TokenV::Num(s@),
        Token::Bool(b) => TokenV::Bool(b),
        Token::Null => TokenV::Null,
    }
}

impl View for Token {
    type V = TokenV;

    open spec fn view(&self) -> TokenV {
        token_view(*self)
    }
}

/// The models of a spanned token stream, in order.
pub open spec fn toks_view(s: Seq<(Token, crate::span::Span)>) -> Seq<(TokenV, crate::span::Span)> {
    Seq::new(s.len(), |i: int| (token_view(s[i].0), s[i].1))
}

/// A literal expression: a number, a string, a boolean, an array of
/// sub-expressions, or `null`.
#[derive(Debug)]
pub enum Literal {
    Num(Number),
    String(String),
    Bool(bool),
    Array(Vec<Spanned>),
    Null,
}

/// The closed set of binary operators.
#[derive(Clone, Copy, Debug, PartialEq, Eq, Structural)]
pub enum InfixOp {
    Equals,
    NotEquals,
    Lt,
    Gt,
    Lte,
    Gte,
    And,
    Or,
    Pow,
    Mul,
    Div,
    Mod,
    Add,
    Sub,
    In,
    Range,
    IRange,
}

/// The binding power of each operator layer, loosest (`or`) to tightest
/// (`..=`); used only by the parser.
pub open spec fn spec_binding_power(op: InfixOp) -> u8 {
    match op {
        InfixOp::IRange => 68,
        InfixOp::Range => 66,
        InfixOp::Pow => 64,
        InfixOp::Mul | InfixOp::Div | InfixOp::Mod => 62,
        InfixOp::Add | InfixOp::Sub => 60,
        InfixOp::Equals | InfixOp::NotEquals | InfixOp::Lt | InfixOp::Gt | InfixOp::Lte
            | InfixOp::Gte => 58,
        InfixOp::In => 56,
        InfixOp::And => 54,
        InfixOp::Or => 52,
    }
}

impl InfixOp {
    /// The fixed binding power of this operator.
    pub fn get_binding_power(&self) -> (r: u8)
        ensures
            r == spec_binding_power(*self),
    {
        match self {
            InfixOp::IRange => 68,
            InfixOp::Range => 66,
            InfixOp::Pow => 64,
            InfixOp::Mul | InfixOp::Div | InfixOp::Mod => 62,
            InfixOp::Add | InfixOp::Sub => 60,
            InfixOp::Equals | InfixOp::NotEquals | InfixOp::Lt | InfixOp::Gt | InfixOp::Lte
                | InfixOp::Gte => 58,
            InfixOp::In => 56,
            InfixOp::And => 54,
            InfixOp::Or => 52,
        }
    }
}

/// One AST node. The tree is acyclic; each node owns its children.
/// `Error` is a placeholder inserted by parser recovery and never evaluates
/// successfully.
#[derive(Debug)]
pub enum Expr {
    Literal(Literal),
    Ident(String),
    Not(Box<Spanned>),
    InfixOp(Box<Spanned>, InfixOp, Box<Spanned>),
    Index(Box<Spanned>, Box<Spanned>),
    Conditional { condition: Box<Spanned>, inner: Box<Spanned>, other: Box<Spanned> },
    Assign { names: Vec<String>, value: Box<Spanned> },
    Error,
}

/// An expression together with the span of source text it covers.
#[derive(Debug)]
pub struct Spanned(pub Expr, pub Span);

/// The mathematical model of a literal.
#[verifier::ext_equal]
pub enum LiteralV {
    Num { n: int, d: int },
    Str(Seq<char>),
    Bool(bool),
    Array(Seq<SpannedV>),
    Null,
}

/// The mathematical model of an AST node.
#[verifier::ext_equal]
pub enum ExprV {
    Literal(LiteralV),
    Ident(Seq<char>),
    Not(Box<SpannedV>),
    InfixOp(Box<SpannedV>, InfixOp, Box<SpannedV>),
    Index(Box<SpannedV>, Box<SpannedV>),
    Conditional { condition: Box<SpannedV>, inner: Box<SpannedV>, other: Box<SpannedV> },
    Assign { names: Seq<Seq<char>>, value: Box<SpannedV> },
    Error,
}

/// The mathematical model of a spanned AST node.
#[verifier::ext_equal]
pub struct SpannedV {
    pub e: ExprV,
    pub span: Span,
}

/// The models of a sequence of spanned nodes, in order.
pub open spec fn spanned_seq_view(items: Seq<Spanned>) -> Seq<SpannedV>
    decreases items,
{
    if items.len() == 0 {
        Seq::empty()
    } else {
        seq![spanned_view(items[0])] + spanned_seq_view(items.drop_first())
    }
}

/// `spanned_seq_view` maps the sequence pointwise.
pub broadcast proof fn lemma_spanned_seq_view(items: Seq<Spanned>)
    ensures
        (#[trigger] spanned_seq_view(items)).len() == items.len(),
        forall|i: int|
            0 <= i < items.len() ==> spanned_seq_view(items)[i] == spanned_view(items[i]),
    decreases items.len(),
{
    if items.len() > 0 {
        lemma_spanned_seq_view(items.drop_first());
    }
}

/// The model of a literal.
pub open spec fn literal_view(l: Literal) -> LiteralV
    decreases l,
{
    match l {
        Literal::Num(x) => LiteralV::Num { n: x.num as int, d: x.den as int },
        Literal::String(s) => LiteralV::Str(s@),
        Literal::Bool(b) => LiteralV::Bool(b),
        Literal::Array(items) => LiteralV::Array(spanned_seq_view(items@)),
        Literal::Null => LiteralV::Null,
    }
}

/// The models of a sequence of assignment-target names.
pub open spec fn names_view(names: Seq<String>) -> Seq<Seq<char>> {
    Seq::new(names.len(), |i: int| names[i]@)
}

/// The model of an AST node.
pub open spec fn expr_view(e: Expr) -> ExprV
    decreases e,
{
    match e {
        Expr::Literal(l) => ExprV::Literal(literal_view(l)),
        Expr::Ident(name) => ExprV::Ident(name@),
        Expr::Not(inner) => ExprV::Not(Box::new(spanned_view(*inner))),
        Expr::InfixOp(lhs, op, rhs) => ExprV::InfixOp(
            Box::new(spanned_view(*lhs)),
            op,
            Box::new(spanned_view(*rhs)),
        ),
        Expr::Index(lhs, idx) => ExprV::Index(
            Box::new(spanned_view(*lhs)),
            Box::new(spanned_view(*idx)),
        ),
        Expr::Conditional { condition, inner, other } => ExprV::Conditional {
            condition: Box::new(spanned_view(*condition)),
            inner: Box::new(spanned_view(*inner)),
            other: Box::new(spanned_view(*other)),
        },
        Expr::Assign { names, value } => ExprV::Assign {
            names: names_view(names@),
            value: Box::new(spanned_view(*value)),
        },
        Expr::Error => ExprV::Error,
    }
}

/// The model of a spanned AST node.
pub open spec fn spanned_view(s: Spanned) -> SpannedV
    decreases s,
{
    SpannedV { e: expr_view(s.0), span: s.1 }
}

impl View for Literal {
    type V = LiteralV;

    open spec fn view(&self) -> LiteralV {
        literal_view(*self)
    }
}

impl View for Expr {
    type V = ExprV;

    open spec fn view(&self) -> ExprV {
        expr_view(*self)
    }
}

impl View for Spanned {
    type V = SpannedV;

    open spec fn view(&self) -> SpannedV {
        spanned_view(*self)
    }
}

/// Structural equality of two modelled literals, ignoring every span;
/// numbers compare as rationals.
pub open spec fn lv_eq(a: LiteralV, b: LiteralV) -> bool
    decreases a,
{
    match (a, b) {
        (LiteralV::Num { n: an, d: ad }, LiteralV::Num { n: bn, d: bd }) => an * bd == bn * ad,
        (LiteralV::Str(x), LiteralV::Str(y)) => x == y,
        (LiteralV::Bool(x), LiteralV::Bool(y)) => x == y,
        (LiteralV::Array(x), LiteralV::Array(y)) => x.len() == y.len() && (forall|i: int|
            0 <= i < x.len() ==> sv_eq(#[trigger] x[i], y[i])),
        (LiteralV::Null, LiteralV::Null) => true,
        _ => false,
    }
}

/// Structural equality of two modelled expressions, ignoring every span.
pub open spec fn ev_eq(a: ExprV, b: ExprV) -> bool
    decreases a,
{
    match (a, b) {
        (ExprV::Literal(x), ExprV::Literal(y)) => lv_eq(x, y),
        (ExprV::Ident(x), ExprV::Ident(y)) => x == y,
        (ExprV::Not(x), ExprV::Not(y)) => sv_eq(*x, *y),
        (ExprV::InfixOp(xl, xo, xr), ExprV::InfixOp(yl, yo, yr)) => xo == yo && sv_eq(*xl, *yl)
            && sv_eq(*xr, *yr),
        (ExprV::Index(xl, xr), ExprV::Index(yl, yr)) => sv_eq(*xl, *yl) && sv_eq(*xr, *yr),
        (
            ExprV::Conditional { condition: xc, inner: xi, other: xo },
            ExprV::Conditional { condition: yc, inner: yi, other: yo },
        ) => sv_eq(*xc, *yc) && sv_eq(*xi, *yi) && sv_eq(*xo, *yo),
        (
            ExprV::Assign { names: xn, value: xv },
            ExprV::Assign { names: yn, value: yv },
        ) => xn == yn && sv_eq(*xv, *yv),
        (ExprV::Error, ExprV::Error) => true,
        _ => false,
    }
}

/// Structural equality of two modelled spanned expressions, ignoring spans.
pub open spec fn sv_eq(a: SpannedV, b: SpannedV) -> bool
    decreases a,
{
    ev_eq(a.e, b.e)
}

/// Span-insensitive structural comparison of two literals.
#[verifier::loop_isolation(false)]
pub fn literal_eq(a: &Literal, b: &Literal) -> (r: bool)
    ensures
        r == lv_eq(a@, b@),
    decreases *a,
{
    broadcast use lemma_spanned_seq_view;

    match (a, b) {
        (Literal::Num(x), Literal::Num(y)) => *x == *y,
        (Literal::String(x), Literal::String(y)) => *x == *y,
        (Literal::Bool(x), Literal::Bool(y)) => *x == *y,
        (Literal::Array(x), Literal::Array(y)) => {
            let ghost xs = spanned_seq_view(x@);
            let ghost ys = spanned_seq_view(y@);
            if x.len() != y.len() {
                assert(xs.len() != ys.len());
                return false;
            }
            let mut i: usize = 0;
            while i < x.len()
                invariant
                    0 <= i <= x@.len(),
                    x@.len() == y@.len(),
                    forall|k: int| 0 <= k < i ==> sv_eq(#[trigger] xs[k], ys[k]),
                decreases x@.len() - i,
            {
                if !spanned_eq(&x[i], &y[i]) {
                    assert(!sv_eq(xs[i as int], ys[i as int]));
                    return false;
                }
                i = i + 1;
            }
            true
        },
        (Literal::Null, Literal::Null) => true,
        _ => false,
    }
}

/// Span-insensitive structural comparison of two expressions.
#[verifier::loop_isolation(false)]
pub fn expr_eq(a: &Expr, b: &Expr) -> (r: bool)
    ensures
        r == ev_eq(a@, b@),
    decreases *a,
{
    match (a, b) {
        (Expr::Literal(x), Expr::Literal(y)) => literal_eq(x, y),
        (Expr::Ident(x), Expr::Ident(y)) => *x == *y,
        (Expr::Not(x), Expr::Not(y)) => spanned_eq(&**x, &**y),
        (Expr::InfixOp(xl, xo, xr), Expr::InfixOp(yl, yo, yr)) => *xo == *yo && spanned_eq(
            &**xl,
            &**yl,
        ) && spanned_eq(&**xr, &**yr),
        (Expr::Index(xl, xr), Expr::Index(yl, yr)) => spanned_eq(&**xl, &**yl) && spanned_eq(
            &**xr,
            &**yr,
        ),
        (
            Expr::Conditional { condition: xc, inner: xi, other: xo },
            Expr::Conditional { condition: yc, inner: yi, other: yo },
        ) => spanned_eq(&**xc, &**yc) && spanned_eq(&**xi, &**yi) && spanned_eq(&**xo, &**yo),
        (Expr::Assign { names: xn, value: xv }, Expr::Assign { names: yn, value: yv }) => {
            if xn.len() != yn.len() {
                assert(names_view(xn@).len() != names_view(yn@).len());
                return false;
            }
            let mut i: usize = 0;
            while i < xn.len()
                invariant
                    0 <= i <= xn@.len(),
                    xn@.len() == yn@.len(),
                    forall|k: int| 0 <= k < i ==> (#[trigger] xn@[k])@ == yn@[k]@,
                decreases xn@.len() - i,
            {
                if !(xn[i] == yn[i]) {
                    assert(names_view(xn@)[i as int] != names_view(yn@)[i as int]);
                    return false;
                }
                i = i + 1;
            }
            proof {
                if forall|k: int| 0 <= k < xn@.len() ==> (#[trigger] xn@[k])@ == yn@[k]@ {
                    assert(names_view(xn@) =~= names_view(yn@));
                }
            }
            spanned_eq(&**xv, &**yv)
        },
        (Expr::Error, Expr::Error) => true,
        _ => false,
    }
}

/// Span-insensitive structural comparison of two spanned expressions.
pub fn spanned_eq(a: &Spanned, b: &Spanned) -> (r: bool)
    ensures
        r == sv_eq(a@, b@),
    decreases *a,
{
    expr_eq(&a.0, &b.0)
}

impl PartialEq for Spanned {
    /// Spanned expressions compare by structure alone; spans never take part.
    fn eq(&self, other: &Spanned) -> (r: bool) {
        spanned_eq(self, other)
    }
}

impl vstd::std_specs::cmp::PartialEqSpecImpl for Spanned {
    open spec fn obeys_eq_spec() -> bool {
        true
    }

    open spec fn eq_spec(&self, other: &Spanned) -> bool {
        sv_eq(self@, other@)
    }
}

impl PartialEq for Expr {
    /// Expressions compare by structure alone; the spans of nested nodes
    /// never take part.
    fn eq(&self, other: &Expr) -> (r: bool) {
        expr_eq(self, other)
    }
}

impl vstd::std_specs::cmp::PartialEqSpecImpl for Expr {
    open spec fn obeys_eq_spec() -> bool {
        true
    }

    open spec fn eq_spec(&self, other: &Expr) -> bool {
        ev_eq(self@, other@)
    }
}

} // verus!
