use vstd::prelude::*;
use crate::span::Span;
use crate::number::{in_i64, trunc_div, rat_pow_defined, rat_pow_num, rat_pow_den};
use crate::value::{Value, SpannedValue, SpannedValueV, ValueV, ValueType, vv_eq, vv_wf, value_eq,
    value_view};
use crate::error::{Error, ErrorV, TypeErrorCtx};
use crate::ast::InfixOp;
use crate::strutil::{spec_str_contains, spec_repeat, str_contains, repeat_str};

verus! {

/// The model of an operator result: the model of the value, or of the error.
pub open spec fn op_result_view(r: Result<Value, Error>) -> Result<ValueV, ErrorV> {
    match r {
        Ok(v) => Ok(value_view(v)),
        Err(e) => Err(crate::error::error_view(e)),
    }
}

/// The span covering a whole binary application: from the start of the left
/// operand to the end of the right one.
pub open spec fn spec_join_span(a: SpannedValueV, b: SpannedValueV) -> Span {
    Span { start: a.span.start, end: b.span.end }
}

/// A type error blaming the left operand of an operator.
pub open spec fn lhs_type_error(
    expected: Seq<ValueType>,
    a: SpannedValueV,
    op: InfixOp,
) -> Result<ValueV, ErrorV> {
    Err(
        ErrorV::TypeError {
            expected,
            got: a,
            context: TypeErrorCtx::InfixOpLhs { op },
        },
    )
}

/// A type error blaming the right operand of an operator, given the type of
/// the left one.
pub open spec fn rhs_type_error(
    expected: Seq<ValueType>,
    got: SpannedValueV,
    lhs: ValueType,
    op: InfixOp,
) -> Result<ValueV, ErrorV> {
    Err(
        ErrorV::TypeError {
            expected,
            got,
            context: TypeErrorCtx::InfixOpRhs { lhs, op },
        },
    )
}

/// The exact power `a ** b`: with an integral exponent the power is computed
/// exactly; a fractional exponent, or an unrepresentable result, is a
/// numeric error.
pub open spec fn spec_pow(a: SpannedValueV, b: SpannedValueV) -> Result<ValueV, ErrorV> {
    match (a.v, b.v) {
        (ValueV::Num { n: an, d: ad }, ValueV::Num { n: bn, d: bd }) => {
            if bn % bd == 0 {
                let e = bn / bd;
                if rat_pow_defined(an, ad, e) {
                    Ok(ValueV::Num { n: rat_pow_num(an, ad, e), d: rat_pow_den(an, ad, e) })
                } else {
                    Err(ErrorV::NumericError { span: spec_join_span(a, b) })
                }
            } else {
                Err(ErrorV::NumericError { span: spec_join_span(a, b) })
            }
        },
        (ValueV::Num { .. }, _) => rhs_type_error(
            seq![ValueType::Num],
            b,
            ValueType::Num,
            InfixOp::Pow,
        ),
        _ => lhs_type_error(seq![ValueType::Num], a, InfixOp::Pow),
    }
}

/// The product `a * b`: numbers multiply exactly; a string times an integral
/// number repeats the string that many times (by the number's magnitude),
/// on whichever side each operand stands.
pub open spec fn spec_mul(a: SpannedValueV, b: SpannedValueV) -> Result<ValueV, ErrorV> {
    match (a.v, b.v) {
        (ValueV::Num { n: an, d: ad }, ValueV::Num { n: bn, d: bd }) => {
            if in_i64(an * bn) && in_i64(ad * bd) {
                Ok(ValueV::Num { n: an * bn, d: ad * bd })
            } else {
                Err(ErrorV::NumericError { span: spec_join_span(a, b) })
            }
        },
        (ValueV::Num { n, d }, ValueV::Str(s)) => {
            if n % d == 0 {
                Ok(ValueV::Str(spec_repeat(s, spec_abs(n / d))))
            } else {
                Err(
                    ErrorV::TypeError {
                        expected: seq![ValueType::Int],
                        got: b,
                        context: TypeErrorCtx::StringMul,
                    },
                )
            }
        },
        (ValueV::Num { .. }, _) => rhs_type_error(
            seq![ValueType::Num, ValueType::String],
            b,
            ValueType::Num,
            InfixOp::Mul,
        ),
        (ValueV::Str(s), ValueV::Num { n, d }) => {
            if n % d == 0 {
                Ok(ValueV::Str(spec_repeat(s, spec_abs(n / d))))
            } else {
                Err(
                    ErrorV::TypeError {
                        expected: seq![ValueType::Int],
                        got: b,
                        context: TypeErrorCtx::StringMul,
                    },
                )
            }
        },
        (ValueV::Str(_), _) => rhs_type_error(
            seq![ValueType::Num],
            b,
            ValueType::String,
            InfixOp::Mul,
        ),
        _ => lhs_type_error(seq![ValueType::Num, ValueType::String], a, InfixOp::Mul),
    }
}

/// The magnitude of an integer, as a count.
pub open spec fn spec_abs(v: int) -> nat {
    if v < 0 {
        (-v) as nat
    } else {
        v as nat
    }
}

/// The exact quotient `a / b`; division by zero or an unrepresentable result
/// is a numeric error.
pub open spec fn spec_div(a: SpannedValueV, b: SpannedValueV) -> Result<ValueV, ErrorV> {
    match (a.v, b.v) {
        (ValueV::Num { n: an, d: ad }, ValueV::Num { n: bn, d: bd }) => {
            let qn = if bn < 0 {
                -(an * bd)
            } else {
                an * bd
            };
            let qd = if bn < 0 {
                -(ad * bn)
            } else {
                ad * bn
            };
            if bn != 0 && in_i64(qn) && in_i64(qd) {
                Ok(ValueV::Num { n: qn, d: qd })
            } else {
                Err(ErrorV::NumericError { span: spec_join_span(a, b) })
            }
        },
        (ValueV::Num { .. }, _) => rhs_type_error(
            seq![ValueType::Num],
            b,
            ValueType::Num,
            InfixOp::Div,
        ),
        _ => lhs_type_error(seq![ValueType::Num], a, InfixOp::Div),
    }
}

/// The exact remainder `a % b` (`a - b * trunc(a / b)`, the floating-style
/// remainder); a zero divisor or an unrepresentable result is a numeric
/// error.
pub open spec fn spec_rem(a: SpannedValueV, b: SpannedValueV) -> Result<ValueV, ErrorV> {
    match (a.v, b.v) {
        (ValueV::Num { n: an, d: ad }, ValueV::Num { n: bn, d: bd }) => {
            let rn = an * bd - trunc_div(an * bd, ad * bn) * (bn * ad);
            let rd = ad * bd;
            if bn != 0 && in_i64(rn) && in_i64(rd) {
                Ok(ValueV::Num { n: rn, d: rd })
            } else {
                Err(ErrorV::NumericError { span: spec_join_span(a, b) })
            }
        },
        (ValueV::Num { .. }, _) => rhs_type_error(
            seq![ValueType::Num],
            b,
            ValueType::Num,
            InfixOp::Mod,
        ),
        _ => lhs_type_error(seq![ValueType::Num], a, InfixOp::Mod),
    }
}

/// The exact sum `a + b`; an unrepresentable result is a numeric error.
pub open spec fn spec_add(a: SpannedValueV, b: SpannedValueV) -> Result<ValueV, ErrorV> {
    match (a.v, b.v) {
        (ValueV::Num { n: an, d: ad }, ValueV::Num { n: bn, d: bd }) => {
            if in_i64(an * bd + bn * ad) && in_i64(ad * bd) {
                Ok(ValueV::Num { n: an * bd + bn * ad, d: ad * bd })
            } else {
                Err(ErrorV::NumericError { span: spec_join_span(a, b) })
            }
        },
        (ValueV::Num { .. }, _) => rhs_type_error(
            seq![ValueType::Num],
            b,
            ValueType::Num,
            InfixOp::Add,
        ),
        _ => lhs_type_error(seq![ValueType::Num], a, InfixOp::Add),
    }
}

/// The exact difference `a - b`; an unrepresentable result is a numeric
/// error.
pub open spec fn spec_sub(a: SpannedValueV, b: SpannedValueV) -> Result<ValueV, ErrorV> {
    match (a.v, b.v) {
        (ValueV::Num { n: an, d: ad }, ValueV::Num { n: bn, d: bd }) => {
            if in_i64(an * bd - bn * ad) && in_i64(ad * bd) {
                Ok(ValueV::Num { n: an * bd - bn * ad, d: ad * bd })
            } else {
                Err(ErrorV::NumericError { span: spec_join_span(a, b) })
            }
        },
        (ValueV::Num { .. }, _) => rhs_type_error(
            seq![ValueType::Num],
            b,
            ValueType::Num,
            InfixOp::Sub,
        ),
        _ => lhs_type_error(seq![ValueType::Num], a, InfixOp::Sub),
    }
}

/// A numeric comparison: both operands must be numbers; the result is the
/// rational order of the two values.
pub open spec fn spec_cmp(a: SpannedValueV, b: SpannedValueV, op: InfixOp) -> Result<
    ValueV,
    ErrorV,
> {
    match (a.v, b.v) {
        (ValueV::Num { n: an, d: ad }, ValueV::Num { n: bn, d: bd }) => Ok(
            ValueV::Bool(
                match op {
                    InfixOp::Lt => an * bd < bn * ad,
                    InfixOp::Gt => an * bd > bn * ad,
                    InfixOp::Lte => an * bd <= bn * ad,
                    _ => an * bd >= bn * ad,
                },
            ),
        ),
        (ValueV::Num { .. }, _) => rhs_type_error(seq![ValueType::Num], b, ValueType::Num, op),
        _ => lhs_type_error(seq![ValueType::Num], a, op),
    }
}

/// A boolean connective: both operands must be booleans and both are always
/// evaluated (no short-circuiting happens anywhere in evaluation).
pub open spec fn spec_logic(a: SpannedValueV, b: SpannedValueV, op: InfixOp) -> Result<
    ValueV,
    ErrorV,
> {
    match (a.v, b.v) {
        (ValueV::Bool(x), ValueV::Bool(y)) => Ok(
            ValueV::Bool(
                if op == InfixOp::And {
                    x && y
                } else {
                    x || y
                },
            ),
        ),
        (ValueV::Bool(_), _) => rhs_type_error(seq![ValueType::Bool], b, ValueType::Bool, op),
        _ => lhs_type_error(seq![ValueType::Bool], a, op),
    }
}

/// Equality `a == b`: numbers, strings, booleans and arrays compare within
/// their own kind (arrays element-wise, ignoring spans); any other pairing
/// is a type error naming the left operand's type.
pub open spec fn spec_equals(a: SpannedValueV, b: SpannedValueV) -> Result<ValueV, ErrorV> {
    match (a.v, b.v) {
        (ValueV::Num { .. }, ValueV::Num { .. }) => Ok(ValueV::Bool(vv_eq(a.v, b.v))),
        (ValueV::Str(_), ValueV::Str(_)) => Ok(ValueV::Bool(vv_eq(a.v, b.v))),
        (ValueV::Bool(_), ValueV::Bool(_)) => Ok(ValueV::Bool(vv_eq(a.v, b.v))),
        (ValueV::Array(_), ValueV::Array(_)) => Ok(ValueV::Bool(vv_eq(a.v, b.v))),
        _ => rhs_type_error(
            seq![crate::value::spec_get_type(a.v)],
            b,
            crate::value::spec_get_type(a.v),
            InfixOp::Equals,
        ),
    }
}

/// Inequality `a != b`: the negation of equality, under the same typing
/// rules.
pub open spec fn spec_not_equals(a: SpannedValueV, b: SpannedValueV) -> Result<ValueV, ErrorV> {
    match spec_equals(a, b) {
        Ok(v) => Ok(ValueV::Bool(!(v matches ValueV::Bool(x) && x))),
        Err(e) => Err(e),
    }
}

/// Membership `a in b`: equality membership in an array, or substring search
/// in a string.
pub open spec fn spec_contains(a: SpannedValueV, b: SpannedValueV) -> Result<ValueV, ErrorV> {
    match b.v {
        ValueV::Array(items) => Ok(
            ValueV::Bool(
                exists|i: int| 0 <= i < items.len() && vv_eq((#[trigger] items[i]).v, a.v),
            ),
        ),
        ValueV::Str(h) => match a.v {
            ValueV::Str(nd) => Ok(ValueV::Bool(spec_str_contains(h, nd))),
            _ => rhs_type_error(seq![ValueType::String], a, ValueType::String, InfixOp::In),
        },
        _ => lhs_type_error(seq![ValueType::Array, ValueType::String], a, InfixOp::In),
    }
}

/// Logical negation: the operand must be a boolean.
pub open spec fn spec_not(a: SpannedValueV) -> Result<ValueV, ErrorV> {
    match a.v {
        ValueV::Bool(x) => Ok(ValueV::Bool(!x)),
        _ => Err(
            ErrorV::TypeError {
                expected: seq![ValueType::Bool],
                got: a,
                context: TypeErrorCtx::Not,
            },
        ),
    }
}

/// A range construction `a .. b` or `a ..= b`: both bounds must be integral
/// numbers.
pub open spec fn spec_range(a: SpannedValueV, b: SpannedValueV, inclusive: bool) -> Result<
    ValueV,
    ErrorV,
> {
    match a.v {
        ValueV::Num { n: an, d: ad } => {
            if an % ad == 0 {
                match b.v {
                    ValueV::Num { n: bn, d: bd } => {
                        if bn % bd == 0 {
                            if inclusive {
                                Ok(ValueV::IRange(an / ad, bn / bd))
                            } else {
                                Ok(ValueV::Range(an / ad, bn / bd))
                            }
                        } else {
                            Err(
                                ErrorV::TypeError {
                                    expected: seq![ValueType::Int],
                                    got: b,
                                    context: TypeErrorCtx::Range,
                                },
                            )
                        }
                    },
                    _ => Err(
                        ErrorV::TypeError {
                            expected: seq![ValueType::Num],
                            got: b,
                            context: TypeErrorCtx::Range,
                        },
                    ),
                }
            } else {
                Err(
                    ErrorV::TypeError {
                        expected: seq![ValueType::Int],
                        got: a,
                        context: TypeErrorCtx::Range,
                    },
                )
            }
        },
        _ => Err(
            ErrorV::TypeError {
                expected: seq![ValueType::Num],
                got: a,
                context: TypeErrorCtx::Range,
            },
        ),
    }
}

/// A one-element expectation list.
fn expect1(t: ValueType) -> (r: Vec<ValueType>)
    ensures
        r@ =~= seq![t],
{
    let mut v: Vec<ValueType> = Vec::new();
    v.push(t);
    v
}

/// A two-element expectation list.
fn expect2(t1: ValueType, t2: ValueType) -> (r: Vec<ValueType>)
    ensures
        r@ =~= seq![t1, t2],
{
    let mut v: Vec<ValueType> = Vec::new();
    v.push(t1);
    v.push(t2);
    v
}

impl SpannedValue {
    /// The span covering this value and `other`.
    fn join_span(&self, other: &SpannedValue) -> (r: Span)
        ensures
            r == spec_join_span(self@, other@),
    {
        Span { start: self.1.start, end: other.1.end }
    }

    /// Power: see [`spec_pow`].
    pub fn pow(self, other: Self) -> (r: Result<Value, Error>)
        requires
            vv_wf(self@.v),
            vv_wf(other@.v),
        ensures
            op_result_view(r) == spec_pow(self@, other@),
            r matches Ok(v) ==> vv_wf(v@),
    {
        let span = self.join_span(&other);
        match (&self.0, &other.0) {
            (Value::Num(lhs), Value::Num(rhs)) => {
                let lhs = *lhs;
                let rhs = *rhs;
                if rhs.is_int() {
                    let e = rhs.to_i64();
                    match lhs.checked_pow(e) {
                        Some(c) => Ok(Value::Num(c)),
                        None => Err(Error::NumericError { span }),
                    }
                } else {
                    Err(Error::NumericError { span })
                }
            },
            (Value::Num(_), _) => Err(
                Error::TypeError {
                    expected: expect1(ValueType::Num),
                    got: other,
                    context: TypeErrorCtx::InfixOpRhs { lhs: ValueType::Num, op: InfixOp::Pow },
                },
            ),
            _ => Err(
                Error::TypeError {
                    expected: expect1(ValueType::Num),
                    got: self,
                    context: TypeErrorCtx::InfixOpLhs { op: InfixOp::Pow },
                },
            ),
        }
    }

    /// Multiplication and string repetition: see [`spec_mul`].
    pub fn mul(self, other: Self) -> (r: Result<Value, Error>)
        requires
            vv_wf(self@.v),
            vv_wf(other@.v),
        ensures
            op_result_view(r) == spec_mul(self@, other@),
            r matches Ok(v) ==> vv_wf(v@),
    {
        let span = self.join_span(&other);
        match (&self.0, &other.0) {
            (Value::Num(lhs), Value::Num(rhs)) => match lhs.checked_mul(*rhs) {
                Some(c) => Ok(Value::Num(c)),
                None => Err(Error::NumericError { span }),
            },
            (Value::Num(lhs), Value::String(rhs)) => {
                let lhs = *lhs;
                if lhs.is_int() {
                    let count = abs_u64(lhs.to_i64());
                    Ok(Value::String(repeat_str(rhs, count)))
                } else {
                    Err(
                        Error::TypeError {
                            expected: expect1(ValueType::Int),
                            got: other,
                            context: TypeErrorCtx::StringMul,
                        },
                    )
                }
            },
            (Value::Num(_), _) => Err(
                Error::TypeError {
                    expected: expect2(ValueType::Num, ValueType::String),
                    got: other,
                    context: TypeErrorCtx::InfixOpRhs { lhs: ValueType::Num, op: InfixOp::Mul },
                },
            ),
            (Value::String(lhs), Value::Num(rhs)) => {
                let rhs = *rhs;
                if rhs.is_int() {
                    let count = abs_u64(rhs.to_i64());
                    Ok(Value::String(repeat_str(lhs, count)))
                } else {
                    Err(
                        Error::TypeError {
                            expected: expect1(ValueType::Int),
                            got: other,
                            context: TypeErrorCtx::StringMul,
                        },
                    )
                }
            },
            (Value::String(_), _) => Err(
                Error::TypeError {
                    expected: expect1(ValueType::Num),
                    got: other,
                    context: TypeErrorCtx::InfixOpRhs { lhs: ValueType::String, op: InfixOp::Mul },
                },
            ),
            _ => Err(
                Error::TypeError {
                    expected: expect2(ValueType::Num, ValueType::String),
                    got: self,
                    context: TypeErrorCtx::InfixOpLhs { op: InfixOp::Mul },
                },
            ),
        }
    }

    /// Division: see [`spec_div`].
    pub fn div(self, other: Self) -> (r: Result<Value, Error>)
        requires
            vv_wf(self@.v),
            vv_wf(other@.v),
        ensures
            op_result_view(r) == spec_div(self@, other@),
            r matches Ok(v) ==> vv_wf(v@),
    {
        let span = self.join_span(&other);
        match (&self.0, &other.0) {
            (Value::Num(lhs), Value::Num(rhs)) => match lhs.checked_div(*rhs) {
                Some(c) => Ok(Value::Num(c)),
                None => Err(Error::NumericError { span }),
            },
            (Value::Num(_), _) => Err(
                Error::TypeError {
                    expected: expect1(ValueType::Num),
                    got: other,
                    context: TypeErrorCtx::InfixOpRhs { lhs: ValueType::Num, op: InfixOp::Div },
                },
            ),
            _ => Err(
                Error::TypeError {
                    expected: expect1(ValueType::Num),
                    got: self,
                    context: TypeErrorCtx::InfixOpLhs { op: InfixOp::Div },
                },
            ),
        }
    }

    /// Remainder: see [`spec_rem`].
    pub fn modulus(self, other: Self) -> (r: Result<Value, Error>)
        requires
            vv_wf(self@.v),
            vv_wf(other@.v),
        ensures
            op_result_view(r) == spec_rem(self@, other@),
            r matches Ok(v) ==> vv_wf(v@),
    {
        let span = self.join_span(&other);
        match (&self.0, &other.0) {
            (Value::Num(lhs), Value::Num(rhs)) => match lhs.checked_rem(*rhs) {
                Some(c) => Ok(Value::Num(c)),
                None => Err(Error::NumericError { span }),
            },
            (Value::Num(_), _) => Err(
                Error::TypeError {
                    expected: expect1(ValueType::Num),
                    got: other,
                    context: TypeErrorCtx::InfixOpRhs { lhs: ValueType::Num, op: InfixOp::Mod },
                },
            ),
            _ => Err(
                Error::TypeError {
                    expected: expect1(ValueType::Num),
                    got: self,
                    context: TypeErrorCtx::InfixOpLhs { op: InfixOp::Mod },
                },
            ),
        }
    }

    /// Addition: see [`spec_add`].
    pub fn add(self, other: Self) -> (r: Result<Value, Error>)
        requires
            vv_wf(self@.v),
            vv_wf(other@.v),
        ensures
            op_result_view(r) == spec_add(self@, other@),
            r matches Ok(v) ==> vv_wf(v@),
    {
        let span = self.join_span(&other);
        match (&self.0, &other.0) {
            (Value::Num(lhs), Value::Num(rhs)) => match lhs.checked_add(*rhs) {
                Some(c) => Ok(Value::Num(c)),
                None => Err(Error::NumericError { span }),
            },
            (Value::Num(_), _) => Err(
                Error::TypeError {
                    expected: expect1(ValueType::Num),
                    got: other,
                    context: TypeErrorCtx::InfixOpRhs { lhs: ValueType::Num, op: InfixOp::Add },
                },
            ),
            _ => Err(
                Error::TypeError {
                    expected: expect1(ValueType::Num),
                    got: self,
                    context: TypeErrorCtx::InfixOpLhs { op: InfixOp::Add },
                },
            ),
        }
    }

    /// Subtraction: see [`spec_sub`].
    pub fn sub(self, other: Self) -> (r: Result<Value, Error>)
        requires
            vv_wf(self@.v),
            vv_wf(other@.v),
        ensures
            op_result_view(r) == spec_sub(self@, other@),
            r matches Ok(v) ==> vv_wf(v@),
    {
        let span = self.join_span(&other);
        match (&self.0, &other.0) {
            (Value::Num(lhs), Value::Num(rhs)) => match lhs.checked_sub(*rhs) {
                Some(c) => Ok(Value::Num(c)),
                None => Err(Error::NumericError { span }),
            },
            (Value::Num(_), _) => Err(
                Error::TypeError {
                    expected: expect1(ValueType::Num),
                    got: other,
                    context: TypeErrorCtx::InfixOpRhs { lhs: ValueType::Num, op: InfixOp::Sub },
                },
            ),
            _ => Err(
                Error::TypeError {
                    expected: expect1(ValueType::Num),
                    got: self,
                    context: TypeErrorCtx::InfixOpLhs { op: InfixOp::Sub },
                },
            ),
        }
    }

    /// Strict less-than: see [`spec_cmp`].
    pub fn lt(self, other: Self) -> (r: Result<Value, Error>)
        requires
            vv_wf(self@.v),
            vv_wf(other@.v),
        ensures
            op_result_view(r) == spec_cmp(self@, other@, InfixOp::Lt),
            r matches Ok(v) ==> vv_wf(v@),
    {
        match (&self.0, &other.0) {
            (Value::Num(lhs), Value::Num(rhs)) => Ok(Value::Bool(lhs.less_than(*rhs))),
            (Value::Num(_), _) => Err(
                Error::TypeError {
                    expected: expect1(ValueType::Num),
                    got: other,
                    context: TypeErrorCtx::InfixOpRhs { lhs: ValueType::Num, op: InfixOp::Lt },
                },
            ),
            _ => Err(
                Error::TypeError {
                    expected: expect1(ValueType::Num),
                    got: self,
                    context: TypeErrorCtx::InfixOpLhs { op: InfixOp::Lt },
                },
            ),
        }
    }

    /// Strict greater-than: see [`spec_cmp`].
    pub fn gt(self, other: Self) -> (r: Result<Value, Error>)
        requires
            vv_wf(self@.v),
            vv_wf(other@.v),
        ensures
            op_result_view(r) == spec_cmp(self@, other@, InfixOp::Gt),
            r matches Ok(v) ==> vv_wf(v@),
    {
        match (&self.0, &other.0) {
            (Value::Num(lhs), Value::Num(rhs)) => Ok(Value::Bool(rhs.less_than(*lhs))),
            (Value::Num(_), _) => Err(
                Error::TypeError {
                    expected: expect1(ValueType::Num),
                    got: other,
                    context: TypeErrorCtx::InfixOpRhs { lhs: ValueType::Num, op: InfixOp::Gt },
                },
            ),
            _ => Err(
                Error::TypeError {
                    expected: expect1(ValueType::Num),
                    got: self,
                    context: TypeErrorCtx::InfixOpLhs { op: InfixOp::Gt },
                },
            ),
        }
    }

    /// Less-or-equal: see [`spec_cmp`].
    pub fn lte(self, other: Self) -> (r: Result<Value, Error>)
        requires
            vv_wf(self@.v),
            vv_wf(other@.v),
        ensures
            op_result_view(r) == spec_cmp(self@, other@, InfixOp::Lte),
            r matches Ok(v) ==> vv_wf(v@),
    {
        match (&self.0, &other.0) {
            (Value::Num(lhs), Value::Num(rhs)) => Ok(Value::Bool(lhs.less_eq(*rhs))),
            (Value::Num(_), _) => Err(
                Error::TypeError {
                    expected: expect1(ValueType::Num),
                    got: other,
                    context: TypeErrorCtx::InfixOpRhs { lhs: ValueType::Num, op: InfixOp::Lte },
                },
            ),
            _ => Err(
                Error::TypeError {
                    expected: expect1(ValueType::Num),
                    got: self,
                    context: TypeErrorCtx::InfixOpLhs { op: InfixOp::Lte },
                },
            ),
        }
    }

    /// Greater-or-equal: see [`spec_cmp`].
    pub fn gte(self, other: Self) -> (r: Result<Value, Error>)
        requires
            vv_wf(self@.v),
            vv_wf(other@.v),
        ensures
            op_result_view(r) == spec_cmp(self@, other@, InfixOp::Gte),
            r matches Ok(v) ==> vv_wf(v@),
    {
        match (&self.0, &other.0) {
            (Value::Num(lhs), Value::Num(rhs)) => Ok(Value::Bool(rhs.less_eq(*lhs))),
            (Value::Num(_), _) => Err(
                Error::TypeError {
                    expected: expect1(ValueType::Num),
                    got: other,
                    context: TypeErrorCtx::InfixOpRhs { lhs: ValueType::Num, op: InfixOp::Gte },
                },
            ),
            _ => Err(
                Error::TypeError {
                    expected: expect1(ValueType::Num),
                    got: self,
                    context: TypeErrorCtx::InfixOpLhs { op: InfixOp::Gte },
                },
            ),
        }
    }

    /// Conjunction; both operands are already evaluated: see [`spec_logic`].
    pub fn and(self, other: Self) -> (r: Result<Value, Error>)
        requires
            vv_wf(self@.v),
            vv_wf(other@.v),
        ensures
            op_result_view(r) == spec_logic(self@, other@, InfixOp::And),
            r matches Ok(v) ==> vv_wf(v@),
    {
        match (&self.0, &other.0) {
            (Value::Bool(lhs), Value::Bool(rhs)) => Ok(Value::Bool(*lhs && *rhs)),
            (Value::Bool(_), _) => Err(
                Error::TypeError {
                    expected: expect1(ValueType::Bool),
                    got: other,
                    context: TypeErrorCtx::InfixOpRhs { lhs: ValueType::Bool, op: InfixOp::And },
                },
            ),
            _ => Err(
                Error::TypeError {
                    expected: expect1(ValueType::Bool),
                    got: self,
                    context: TypeErrorCtx::InfixOpLhs { op: InfixOp::And },
                },
            ),
        }
    }

    /// Disjunction; both operands are already evaluated: see [`spec_logic`].
    pub fn or(self, other: Self) -> (r: Result<Value, Error>)
        requires
            vv_wf(self@.v),
            vv_wf(other@.v),
        ensures
            op_result_view(r) == spec_logic(self@, other@, InfixOp::Or),
            r matches Ok(v) ==> vv_wf(v@),
    {
        match (&self.0, &other.0) {
            (Value::Bool(lhs), Value::Bool(rhs)) => Ok(Value::Bool(*lhs || *rhs)),
            (Value::Bool(_), _) => Err(
                Error::TypeError {
                    expected: expect1(ValueType::Bool),
                    got: other,
                    context: TypeErrorCtx::InfixOpRhs { lhs: ValueType::Bool, op: InfixOp::Or },
                },
            ),
            _ => Err(
                Error::TypeError {
                    expected: expect1(ValueType::Bool),
                    got: self,
                    context: TypeErrorCtx::InfixOpLhs { op: InfixOp::Or },
                },
            ),
        }
    }

    /// Equality: see [`spec_equals`].
    pub fn equals(self, other: Self) -> (r: Result<Value, Error>)
        requires
            vv_wf(self@.v),
            vv_wf(other@.v),
        ensures
            op_result_view(r) == spec_equals(self@, other@),
            r matches Ok(v) ==> vv_wf(v@),
    {
        let same_kind = match (&self.0, &other.0) {
            (Value::Num(_), Value::Num(_)) => true,
            (Value::String(_), Value::String(_)) => true,
            (Value::Bool(_), Value::Bool(_)) => true,
            (Value::Array(_), Value::Array(_)) => true,
            _ => false,
        };
        if same_kind {
            Ok(Value::Bool(value_eq(&self.0, &other.0)))
        } else {
            let lhs = self.0.get_type();
            Err(
                Error::TypeError {
                    expected: expect1(lhs),
                    got: other,
                    context: TypeErrorCtx::InfixOpRhs { lhs, op: InfixOp::Equals },
                },
            )
        }
    }

    /// Inequality: see [`spec_not_equals`].
    pub fn not_equals(self, other: Self) -> (r: Result<Value, Error>)
        requires
            vv_wf(self@.v),
            vv_wf(other@.v),
        ensures
            op_result_view(r) == spec_not_equals(self@, other@),
            r matches Ok(v) ==> vv_wf(v@),
    {
        match self.equals(other) {
            Ok(v) => match v {
                Value::Bool(b) => Ok(Value::Bool(!b)),
                _ => Ok(Value::Bool(true)),
            },
            Err(e) => Err(e),
        }
    }

    /// Membership: see [`spec_contains`].
    #[verifier::loop_isolation(false)]
    pub fn contains(self, other: Self) -> (r: Result<Value, Error>)
        requires
            vv_wf(self@.v),
            vv_wf(other@.v),
        ensures
            op_result_view(r) == spec_contains(self@, other@),
            r matches Ok(v) ==> vv_wf(v@),
    {
        match (&self.0, &other.0) {
            (_, Value::Array(items)) => {
                let ghost ivs = crate::value::value_seq_view(items@);
                proof {
                    crate::value::lemma_value_seq_view(items@);
                }
                let mut i: usize = 0;
                let mut found = false;
                while i < items.len()
                    invariant
                        0 <= i <= items@.len(),
                        ivs == crate::value::value_seq_view(items@),
                        ivs.len() == items@.len(),
                        forall|k: int|
                            0 <= k < items@.len() ==> ivs[k] == crate::value::spanned_value_view(
                                items@[k],
                            ),
                        found == exists|k: int|
                            0 <= k < i && vv_eq((#[trigger] ivs[k]).v, self@.v),
                    decreases items@.len() - i,
                {
                    let hit = value_eq(&items[i].0, &self.0);
                    proof {
                        assert(vv_eq((ivs[i as int]).v, self@.v) == hit);
                    }
                    if hit {
                        found = true;
                    }
                    i = i + 1;
                }
                Ok(Value::Bool(found))
            },
            (Value::String(needle), Value::String(hay)) => Ok(
                Value::Bool(str_contains(hay, needle)),
            ),
            (_, Value::String(_)) => Err(
                Error::TypeError {
                    expected: expect1(ValueType::String),
                    got: self,
                    context: TypeErrorCtx::InfixOpRhs { lhs: ValueType::String, op: InfixOp::In },
                },
            ),
            _ => Err(
                Error::TypeError {
                    expected: expect2(ValueType::Array, ValueType::String),
                    got: self,
                    context: TypeErrorCtx::InfixOpLhs { op: InfixOp::In },
                },
            ),
        }
    }


    /// Postfix indexing: see [`spec_index`].
    pub fn index(self, idx: Self) -> (r: Result<Value, Error>)
        requires
            vv_wf(self@.v),
            vv_wf(idx@.v),
        ensures
            op_result_view(r) == spec_index(self@, idx@),
            r matches Ok(v) ==> vv_wf(v@),
    {
        let len: usize;
        match &self.0 {
            Value::Array(f) => {
                len = f.len();
                proof {
                    crate::value::lemma_value_seq_view(f@);
                }
                assert(self@.v matches ValueV::Array(items) && len == items.len());
            },
            Value::String(f) => {
                len = f.as_str().unicode_len();
                assert(self@.v matches ValueV::Str(cs) && len == cs.len());
            },
            _ => {
                return Err(
                    Error::TypeError {
                        expected: expect2(ValueType::Array, ValueType::String),
                        got: self,
                        context: TypeErrorCtx::IndexOf,
                    },
                );
            },
        };
        match &idx.0 {
            Value::Num(e) => {
                let e = *e;
                if e.is_int() {
                    let i = e.to_i64();
                    match norm_index(i, len) {
                        Some(p) => match &self.0 {
                            Value::Array(f) => {
                                proof {
                                    crate::value::lemma_value_seq_view(f@);
                                }
                                Ok(crate::value::value_clone(&f[p].0))
                            },
                            Value::String(f) => {
                                let c = f.as_str().get_char(p);
                                let mut one: Vec<char> = Vec::new();
                                one.push(c);
                                proof {
                                    assert(one@ =~= seq![f@[p as int]]);
                                }
                                Ok(Value::String(crate::strutil::chars_to_string(&one)))
                            },
                            _ => {
                                assert(false);
                                Err(Error::NumericError { span: self.1 })
                            },
                        },
                        None => Err(
                            Error::IndexError { index: i, len, lspan: self.1, rspan: idx.1 },
                        ),
                    }
                } else {
                    Err(
                        Error::TypeError {
                            expected: expect2(ValueType::Num, ValueType::Range),
                            got: idx,
                            context: TypeErrorCtx::Index,
                        },
                    )
                }
            },
            Value::Range(s, e) => {
                let s = *s;
                let e = *e;
                self.slice_impl(&idx, len, s, e, false)
            },
            Value::IRange(s, e) => {
                let s = *s;
                let e = *e;
                self.slice_impl(&idx, len, s, e, true)
            },
            _ => Err(
                Error::TypeError {
                    expected: expect2(ValueType::Num, ValueType::Range),
                    got: idx,
                    context: TypeErrorCtx::Index,
                },
            ),
        }
    }

    /// Shared body of range indexing over arrays and strings.
    fn slice_impl(self, idx: &Self, len: usize, s: i64, e: i64, inclusive: bool) -> (r: Result<
        Value,
        Error,
    >)
        requires
            vv_wf(self@.v),
            self@.v is Array || self@.v is Str,
            self@.v matches ValueV::Array(items) ==> len == items.len(),
            self@.v matches ValueV::Str(cs) ==> len == cs.len(),
        ensures
            op_result_view(r) == spec_slice(self@, idx@, len as int, s as int, e as int, inclusive),
            r matches Ok(v) ==> vv_wf(v@),
    {
        let sp = norm_index(s, len);
        let ep = norm_index(e, len);
        if sp.is_none() || ep.is_none() {
            return Err(
                Error::RangeIndexError { start: s, end: e, len, lspan: self.1, rspan: idx.1 },
            );
        }
        let sp = sp.unwrap();
        let ep = ep.unwrap();
        match &self.0 {
            Value::Array(f) => {
                proof {
                    crate::value::lemma_value_seq_view(f@);
                }
                let out = if sp <= ep {
                    if inclusive {
                        array_slice(f, sp, ep + 1)
                    } else {
                        array_slice(f, sp, ep)
                    }
                } else {
                    if inclusive {
                        array_slice_rev(f, ep, sp + 1)
                    } else {
                        array_slice_rev(f, ep + 1, sp + 1)
                    }
                };
                proof {
                    let res = crate::value::value_seq_view(out@);
                    let itemsv = crate::value::value_seq_view(f@);
                    assert forall|j: int| 0 <= j < res.len() implies vv_wf(
                        (#[trigger] res[j]).v,
                    ) by {
                        assert(forall|k: int|
                            0 <= k < itemsv.len() ==> vv_wf((#[trigger] itemsv[k]).v));
                    }
                }
                Ok(Value::Array(out))
            },
            Value::String(f) => {
                let cs = crate::strutil::str_to_chars(f.as_str());
                let out = if sp <= ep {
                    if inclusive {
                        string_slice(&cs, sp, ep + 1)
                    } else {
                        string_slice(&cs, sp, ep)
                    }
                } else {
                    if inclusive {
                        string_slice_rev(&cs, ep, sp + 1)
                    } else {
                        string_slice_rev(&cs, ep + 1, sp + 1)
                    }
                };
                Ok(Value::String(out))
            },
            _ => {
                assert(false);
                Err(Error::NumericError { span: self.1 })
            },
        }
    }

    /// Logical negation: see [`spec_not`].
    pub fn not(self) -> (r: Result<Value, Error>)
        requires
            vv_wf(self@.v),
        ensures
            op_result_view(r) == spec_not(self@),
            r matches Ok(v) ==> vv_wf(v@),
    {
        match &self.0 {
            Value::Bool(b) => Ok(Value::Bool(!*b)),
            _ => Err(
                Error::TypeError {
                    expected: expect1(ValueType::Bool),
                    got: self,
                    context: TypeErrorCtx::Not,
                },
            ),
        }
    }

    /// Exclusive range construction: see [`spec_range`].
    pub fn range(self, rhs: Self) -> (r: Result<Value, Error>)
        requires
            vv_wf(self@.v),
            vv_wf(rhs@.v),
        ensures
            op_result_view(r) == spec_range(self@, rhs@, false),
            r matches Ok(v) ==> vv_wf(v@),
    {
        self.range_impl(rhs, false)
    }

    /// Inclusive range construction: see [`spec_range`].
    pub fn irange(self, rhs: Self) -> (r: Result<Value, Error>)
        requires
            vv_wf(self@.v),
            vv_wf(rhs@.v),
        ensures
            op_result_view(r) == spec_range(self@, rhs@, true),
            r matches Ok(v) ==> vv_wf(v@),
    {
        self.range_impl(rhs, true)
    }

    /// Shared body of the two range constructors.
    fn range_impl(self, rhs: Self, inclusive: bool) -> (r: Result<Value, Error>)
        requires
            vv_wf(self@.v),
            vv_wf(rhs@.v),
        ensures
            op_result_view(r) == spec_range(self@, rhs@, inclusive),
            r matches Ok(v) ==> vv_wf(v@),
    {
        match &self.0 {
            Value::Num(lhs_n) => {
                let lhs_n = *lhs_n;
                if lhs_n.is_int() {
                    match &rhs.0 {
                        Value::Num(rhs_n) => {
                            let rhs_n = *rhs_n;
                            if rhs_n.is_int() {
                                let s = lhs_n.to_i64();
                                let e = rhs_n.to_i64();
                                if inclusive {
                                    Ok(Value::IRange(s, e))
                                } else {
                                    Ok(Value::Range(s, e))
                                }
                            } else {
                                Err(
                                    Error::TypeError {
                                        expected: expect1(ValueType::Int),
                                        got: rhs,
                                        context: TypeErrorCtx::Range,
                                    },
                                )
                            }
                        },
                        _ => Err(
                            Error::TypeError {
                                expected: expect1(ValueType::Num),
                                got: rhs,
                                context: TypeErrorCtx::Range,
                            },
                        ),
                    }
                } else {
                    Err(
                        Error::TypeError {
                            expected: expect1(ValueType::Int),
                            got: self,
                            context: TypeErrorCtx::Range,
                        },
                    )
                }
            },
            _ => Err(
                Error::TypeError {
                    expected: expect1(ValueType::Num),
                    got: self,
                    context: TypeErrorCtx::Range,
                },
            ),
        }
    }
}


/// The normalized position of index `i` into a container of length `len`:
/// a negative index counts from the end; `None` when out of bounds.
pub open spec fn spec_norm_index(i: int, len: int) -> Option<int> {
    if i < 0 {
        if len >= -i {
            Some(len + i)
        } else {
            None
        }
    } else {
        if len > i {
            Some(i)
        } else {
            None
        }
    }
}

/// The element of an indexable value at a normalized position: an array
/// yields the element's value, a string a one-character string.
pub open spec fn spec_element(v: ValueV, p: int) -> ValueV {
    match v {
        ValueV::Array(items) => items[p].v,
        ValueV::Str(s) => ValueV::Str(seq![s[p]]),
        _ => ValueV::Error,
    }
}

/// The contiguous sub-sequence of an indexable value between two normalized
/// positions. An ascending selection takes `[sp, ep)` (or through `ep` when
/// inclusive); a descending one is the matching ascending slice, reversed.
pub open spec fn spec_slice_value(v: ValueV, sp: int, ep: int, inclusive: bool) -> ValueV {
    match v {
        ValueV::Array(items) => ValueV::Array(
            if sp <= ep {
                if inclusive {
                    items.subrange(sp, ep + 1)
                } else {
                    items.subrange(sp, ep)
                }
            } else {
                if inclusive {
                    items.subrange(ep, sp + 1).reverse()
                } else {
                    items.subrange(ep + 1, sp + 1).reverse()
                }
            },
        ),
        ValueV::Str(s) => ValueV::Str(
            if sp <= ep {
                if inclusive {
                    s.subrange(sp, ep + 1)
                } else {
                    s.subrange(sp, ep)
                }
            } else {
                if inclusive {
                    s.subrange(ep, sp + 1).reverse()
                } else {
                    s.subrange(ep + 1, sp + 1).reverse()
                }
            },
        ),
        _ => ValueV::Error,
    }
}

/// A range selection from an indexable value: both bounds are normalized
/// independently; a bound out of range raises a range-index error.
pub open spec fn spec_slice(
    a: SpannedValueV,
    b: SpannedValueV,
    len: int,
    s: int,
    e: int,
    inclusive: bool,
) -> Result<ValueV, ErrorV> {
    match (spec_norm_index(s, len), spec_norm_index(e, len)) {
        (Some(sp), Some(ep)) => Ok(spec_slice_value(a.v, sp, ep, inclusive)),
        _ => Err(
            ErrorV::RangeIndexError { start: s, end: e, len, lspan: a.span, rspan: b.span },
        ),
    }
}

/// Indexing a container of known length: a numeric index must be integral
/// and in bounds; a range index selects a sub-sequence.
pub open spec fn spec_index_with_len(a: SpannedValueV, b: SpannedValueV, len: int) -> Result<
    ValueV,
    ErrorV,
> {
    match b.v {
        ValueV::Num { n, d } => {
            if n % d == 0 {
                let i = n / d;
                match spec_norm_index(i, len) {
                    Some(p) => Ok(spec_element(a.v, p)),
                    None => Err(
                        ErrorV::IndexError { index: i, len, lspan: a.span, rspan: b.span },
                    ),
                }
            } else {
                Err(
                    ErrorV::TypeError {
                        expected: seq![ValueType::Num, ValueType::Range],
                        got: b,
                        context: TypeErrorCtx::Index,
                    },
                )
            }
        },
        ValueV::Range(s, e) => spec_slice(a, b, len, s, e, false),
        ValueV::IRange(s, e) => spec_slice(a, b, len, s, e, true),
        _ => Err(
            ErrorV::TypeError {
                expected: seq![ValueType::Num, ValueType::Range],
                got: b,
                context: TypeErrorCtx::Index,
            },
        ),
    }
}

/// Postfix indexing `a[b]`: the base must be an array or a string (its
/// length counted in elements or characters); see [`spec_index_with_len`].
pub open spec fn spec_index(a: SpannedValueV, b: SpannedValueV) -> Result<ValueV, ErrorV> {
    match a.v {
        ValueV::Array(items) => spec_index_with_len(a, b, items.len() as int),
        ValueV::Str(s) => spec_index_with_len(a, b, s.len() as int),
        _ => Err(
            ErrorV::TypeError {
                expected: seq![ValueType::Array, ValueType::String],
                got: a,
                context: TypeErrorCtx::IndexOf,
            },
        ),
    }
}

/// The normalized position of an index, or `None` when out of bounds.
fn norm_index(i: i64, len: usize) -> (r: Option<usize>)
    ensures
        r matches Some(p) ==> spec_norm_index(i as int, len as int) == Some(p as int),
        r is None ==> spec_norm_index(i as int, len as int) is None,
{
    if i < 0 {
        let mag = abs_u64(i);
        if (len as u64) >= mag {
            Some(len - (mag as usize))
        } else {
            None
        }
    } else {
        if (len as u64) > (i as u64) {
            Some(i as usize)
        } else {
            None
        }
    }
}

/// The elements of an array between two positions, cloned in order.
#[verifier::loop_isolation(false)]
fn array_slice(f: &Vec<SpannedValue>, from: usize, to: usize) -> (r: Vec<SpannedValue>)
    requires
        from <= to <= f@.len(),
    ensures
        crate::value::value_seq_view(r@) == crate::value::value_seq_view(f@).subrange(
            from as int,
            to as int,
        ),
{
    broadcast use crate::value::lemma_value_seq_view;

    let mut r: Vec<SpannedValue> = Vec::new();
    let mut i: usize = from;
    while i < to
        invariant
            from <= i <= to,
            r@.len() == i - from,
            forall|k: int|
                0 <= k < r@.len() ==> #[trigger] crate::value::spanned_value_view(r@[k])
                    == crate::value::spanned_value_view(f@[from + k]),
        decreases to - i,
    {
        r.push(f[i].clone());
        i = i + 1;
    }
    proof {
        assert(crate::value::value_seq_view(r@) =~= crate::value::value_seq_view(f@).subrange(
            from as int,
            to as int,
        ));
    }
    r
}

/// The elements of an array between two positions, cloned in reverse order.
#[verifier::loop_isolation(false)]
fn array_slice_rev(f: &Vec<SpannedValue>, from: usize, to: usize) -> (r: Vec<SpannedValue>)
    requires
        from <= to <= f@.len(),
    ensures
        crate::value::value_seq_view(r@) == crate::value::value_seq_view(f@).subrange(
            from as int,
            to as int,
        ).reverse(),
{
    broadcast use crate::value::lemma_value_seq_view;

    let mut r: Vec<SpannedValue> = Vec::new();
    let mut i: usize = to;
    while i > from
        invariant
            from <= i <= to,
            to <= f@.len(),
            r@.len() == to - i,
            forall|k: int|
                0 <= k < r@.len() ==> #[trigger] crate::value::spanned_value_view(r@[k])
                    == crate::value::spanned_value_view(f@[to - 1 - k]),
        decreases i - from,
    {
        i = i - 1;
        r.push(f[i].clone());
    }
    proof {
        assert(crate::value::value_seq_view(r@) =~= crate::value::value_seq_view(f@).subrange(
            from as int,
            to as int,
        ).reverse());
    }
    r
}

/// The characters of a string between two positions, as a new string.
fn string_slice(chars: &Vec<char>, from: usize, to: usize) -> (r: String)
    requires
        from <= to <= chars@.len(),
    ensures
        r@ == chars@.subrange(from as int, to as int),
{
    let mut out: Vec<char> = Vec::new();
    let mut i: usize = from;
    while i < to
        invariant
            from <= i <= to,
            to <= chars@.len(),
            out@ =~= chars@.subrange(from as int, i as int),
        decreases to - i,
    {
        out.push(chars[i]);
        proof {
            assert(out@ =~= chars@.subrange(from as int, i as int + 1));
        }
        i = i + 1;
    }
    crate::strutil::chars_to_string(&out)
}

/// The characters of a string between two positions, reversed, as a new
/// string.
fn string_slice_rev(chars: &Vec<char>, from: usize, to: usize) -> (r: String)
    requires
        from <= to <= chars@.len(),
    ensures
        r@ == chars@.subrange(from as int, to as int).reverse(),
{
    let mut out: Vec<char> = Vec::new();
    let mut i: usize = to;
    while i > from
        invariant
            from <= i <= to,
            to <= chars@.len(),
            out@.len() == to - i,
            forall|k: int| 0 <= k < out@.len() ==> out@[k] == chars@[to - 1 - k],
        decreases i - from,
    {
        i = i - 1;
        out.push(chars[i]);
    }
    proof {
        assert(out@ =~= chars@.subrange(from as int, to as int).reverse());
    }
    crate::strutil::chars_to_string(&out)
}

/// The magnitude of an `i64`, widened.
fn abs_u64(v: i64) -> (r: u64)
    ensures
        r == spec_abs(v as int),
{
    if v < 0 {
        (-(v as i128)) as u64
    } else {
        v as u64
    }
}

} // verus!
