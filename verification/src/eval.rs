use vstd::prelude::*;
use crate::span::Span;
use crate::ast::{Expr, Literal, InfixOp, Spanned, SpannedV, ExprV, LiteralV, spanned_seq_view};
use crate::value::{Value, SpannedValue, ValueV, SpannedValueV, ValueType, ValueMap, vv_wf,
    value_clone};
use crate::error::{Error, ErrorV, TypeErrorCtx, error_seq_view};
use crate::operators::{spec_pow, spec_mul, spec_div, spec_rem, spec_add, spec_sub, spec_cmp,
    spec_logic, spec_equals, spec_not_equals, spec_contains, spec_not, spec_range, spec_index};

verus! {

/// Whether every value in an environment is well-formed.
pub open spec fn env_wf(env: Map<Seq<char>, ValueV>) -> bool {
    forall|k: Seq<char>| env.dom().contains(k) ==> vv_wf(#[trigger] env[k])
}

/// Whether a literal can be evaluated: its numbers are well-formed and no
/// recovery placeholder hides inside it.
pub open spec fn lv_evaluable(l: LiteralV) -> bool
    decreases l,
{
    match l {
        LiteralV::Num { n, d } => 1 <= d,
        LiteralV::Array(items) => forall|i: int|
            0 <= i < items.len() ==> sv_evaluable(#[trigger] items[i]),
        _ => true,
    }
}

/// Whether an expression can be evaluated: it holds no recovery placeholder
/// (`Error` node) and every number literal in it is well-formed.
pub open spec fn ev_evaluable(e: ExprV) -> bool
    decreases e,
{
    match e {
        ExprV::Literal(l) => lv_evaluable(l),
        ExprV::Ident(_) => true,
        ExprV::Not(x) => sv_evaluable(*x),
        ExprV::InfixOp(l, _, r) => sv_evaluable(*l) && sv_evaluable(*r),
        ExprV::Index(l, r) => sv_evaluable(*l) && sv_evaluable(*r),
        ExprV::Conditional { condition, inner, other } => sv_evaluable(*condition) && sv_evaluable(
            *inner,
        ) && sv_evaluable(*other),
        ExprV::Assign { names: _, value } => sv_evaluable(*value),
        ExprV::Error => false,
    }
}

/// Whether a spanned expression can be evaluated.
pub open spec fn sv_evaluable(s: SpannedV) -> bool
    decreases s,
{
    ev_evaluable(s.e)
}

/// The internal error sentinel substituted for a failed operand.
pub open spec fn spec_sentinel(span: Span) -> SpannedValueV {
    SpannedValueV { v: ValueV::Error, span }
}

/// One binary operator applied to two evaluated operands.
pub open spec fn spec_apply(op: InfixOp, a: SpannedValueV, b: SpannedValueV) -> Result<
    ValueV,
    ErrorV,
> {
    match op {
        InfixOp::Pow => spec_pow(a, b),
        InfixOp::Mul => spec_mul(a, b),
        InfixOp::Div => spec_div(a, b),
        InfixOp::Mod => spec_rem(a, b),
        InfixOp::Add => spec_add(a, b),
        InfixOp::Sub => spec_sub(a, b),
        InfixOp::Equals => spec_equals(a, b),
        InfixOp::NotEquals => spec_not_equals(a, b),
        InfixOp::Lt => spec_cmp(a, b, InfixOp::Lt),
        InfixOp::Gt => spec_cmp(a, b, InfixOp::Gt),
        InfixOp::Lte => spec_cmp(a, b, InfixOp::Lte),
        InfixOp::Gte => spec_cmp(a, b, InfixOp::Gte),
        InfixOp::And => spec_logic(a, b, InfixOp::And),
        InfixOp::Or => spec_logic(a, b, InfixOp::Or),
        InfixOp::In => spec_contains(a, b),
        InfixOp::Range => spec_range(a, b, false),
        InfixOp::IRange => spec_range(a, b, true),
    }
}

/// Evaluation of one expression in a read-only environment: the resulting
/// spanned value, or the full list of errors found in it. Sub-evaluations of
/// composite nodes are all attempted and their errors concatenated; a failed
/// operand is replaced by the internal error sentinel so the parent reports
/// no spurious secondary type error.
pub open spec fn spec_eval(s: SpannedV, env: Map<Seq<char>, ValueV>) -> Result<
    SpannedValueV,
    Seq<ErrorV>,
>
    decreases s,
{
    match s.e {
        ExprV::Literal(lit) => match lit {
            LiteralV::Array(items) => {
                let (vals, errs, errored) = spec_eval_items(items, env);
                if errored {
                    Err(errs)
                } else {
                    Ok(SpannedValueV { v: ValueV::Array(vals), span: s.span })
                }
            },
            LiteralV::Num { n, d } => Ok(SpannedValueV { v: ValueV::Num { n, d }, span: s.span }),
            LiteralV::Str(t) => Ok(SpannedValueV { v: ValueV::Str(t), span: s.span }),
            LiteralV::Bool(b) => Ok(SpannedValueV { v: ValueV::Bool(b), span: s.span }),
            LiteralV::Null => Ok(SpannedValueV { v: ValueV::Null, span: s.span }),
        },
        ExprV::Assign { names, value } => match spec_eval(*value, env) {
            Ok(v) => Ok(
                SpannedValueV { v: ValueV::Assign(names, Box::new(v.v)), span: s.span },
            ),
            Err(errs) => Err(errs),
        },
        ExprV::InfixOp(lhs, op, rhs) => {
            let (lv, lerrs) = match spec_eval(*lhs, env) {
                Ok(v) => (v, Seq::<ErrorV>::empty()),
                Err(es) => (spec_sentinel(Span { start: 0, end: 1 }), es),
            };
            let (rv, rerrs) = match spec_eval(*rhs, env) {
                Ok(v) => (v, Seq::<ErrorV>::empty()),
                Err(es) => (spec_sentinel(Span { start: 0, end: 1 }), es),
            };
            let errs = lerrs + rerrs;
            if lv.v is Error || rv.v is Error {
                Err(errs)
            } else {
                match spec_apply(op, lv, rv) {
                    Ok(v) => Ok(SpannedValueV { v, span: s.span }),
                    Err(e) => Err(errs.push(e)),
                }
            }
        },
        ExprV::Not(inner) => match spec_eval(*inner, env) {
            Err(errs) => Err(errs),
            Ok(v) => match spec_not(v) {
                Ok(out) => Ok(SpannedValueV { v: out, span: s.span }),
                Err(e) => Err(seq![e]),
            },
        },
        ExprV::Index(lhs, rhs) => {
            let (lv, lerrs) = match spec_eval(*lhs, env) {
                Ok(v) => (v, Seq::<ErrorV>::empty()),
                Err(es) => (spec_sentinel(Span { start: 0, end: 1 }), es),
            };
            let (rv, rerrs) = match spec_eval(*rhs, env) {
                Ok(v) => (v, Seq::<ErrorV>::empty()),
                Err(es) => (spec_sentinel(Span { start: 0, end: 1 }), es),
            };
            let errs = lerrs + rerrs;
            if lv.v is Error || rv.v is Error {
                Err(errs)
            } else {
                match spec_index(lv, rv) {
                    Ok(v) => Ok(SpannedValueV { v, span: s.span }),
                    Err(e) => Err(errs.push(e)),
                }
            }
        },
        ExprV::Ident(name) => {
            if env.contains_key(name) {
                Ok(SpannedValueV { v: env[name], span: s.span })
            } else {
                Err(seq![ErrorV::ReferenceError { name, span: s.span }])
            }
        },
        ExprV::Conditional { condition, inner, other } => match spec_eval(*condition, env) {
            Err(errs) => Err(errs),
            Ok(cv) => match cv.v {
                ValueV::Bool(enter) => if enter {
                    spec_eval(*inner, env)
                } else {
                    spec_eval(*other, env)
                },
                _ => Err(
                    seq![
                        ErrorV::TypeError {
                            expected: seq![ValueType::Bool],
                            got: cv,
                            context: TypeErrorCtx::Condition,
                        },
                    ],
                ),
            },
        },
        ExprV::Error => Err(Seq::empty()),
    }
}

/// Evaluation of the elements of an array literal, in order: the element
/// values (a failed element is replaced by the sentinel, carrying that
/// element's span), the concatenated errors, and whether any element failed.
pub open spec fn spec_eval_items(items: Seq<SpannedV>, env: Map<Seq<char>, ValueV>) -> (
    Seq<SpannedValueV>,
    Seq<ErrorV>,
    bool,
)
    decreases items,
{
    if items.len() == 0 {
        (Seq::empty(), Seq::empty(), false)
    } else {
        let (vals, errs, errored) = spec_eval_items(items.drop_last(), env);
        match spec_eval(items.last(), env) {
            Ok(v) => (vals.push(v), errs, errored),
            Err(es) => (vals.push(spec_sentinel(items.last().span)), errs + es, true),
        }
    }
}

/// The model of an evaluation result.
pub open spec fn eval_result_view(r: Result<SpannedValue, Vec<Error>>) -> Result<
    SpannedValueV,
    Seq<ErrorV>,
> {
    match r {
        Ok(v) => Ok(crate::value::spanned_value_view(v)),
        Err(es) => Err(error_seq_view(es@)),
    }
}

/// Evaluates one expression against a read-only environment, exactly as
/// [`spec_eval`] describes: the spanned value of the expression, or every
/// error found in it.
#[verifier::loop_isolation(false)]
pub fn eval(input: &Spanned, vars: &ValueMap) -> (r: Result<SpannedValue, Vec<Error>>)
    requires
        vars.wf(),
        env_wf(vars@),
        sv_evaluable(input@),
    ensures
        eval_result_view(r) == spec_eval(input@, vars@),
        r matches Ok(v) ==> vv_wf(v@.v),
    decreases *input,
{
    broadcast use crate::ast::lemma_spanned_seq_view, crate::value::lemma_value_seq_view;

    match &input.0 {
        Expr::Literal(lit) => match lit {
            Literal::Array(items) => {
                let ghost itemviews = spanned_seq_view(items@);
                proof {
                    assert(input.0 == Expr::Literal(*lit));
                    assert(*lit == Literal::Array(*items));
                    assert(crate::ast::expr_view(input.0) == ExprV::Literal(
                        crate::ast::literal_view(*lit),
                    ));
                    assert(crate::ast::literal_view(*lit) == LiteralV::Array(itemviews));
                    assert(input@.e == ExprV::Literal(LiteralV::Array(itemviews)));
                }
                let mut vals: Vec<SpannedValue> = Vec::new();
                let mut errors: Vec<Error> = Vec::new();
                let mut errored = false;
                let mut i: usize = 0;
                proof {
                    assert(itemviews.take(0) =~= Seq::<SpannedV>::empty());
                    assert(crate::value::value_seq_view(vals@) =~= Seq::<SpannedValueV>::empty());
                    assert(error_seq_view(errors@) =~= Seq::<ErrorV>::empty());
                }
                while i < items.len()
                    invariant
                        0 <= i <= items@.len(),
                        crate::value::value_seq_view(vals@) == spec_eval_items(
                            itemviews.take(i as int),
                            vars@,
                        ).0,
                        error_seq_view(errors@) == spec_eval_items(
                            itemviews.take(i as int),
                            vars@,
                        ).1,
                        errored == spec_eval_items(itemviews.take(i as int), vars@).2,
                        forall|k: int|
                            0 <= k < vals@.len() ==> vv_wf(
                                #[trigger] crate::value::value_seq_view(vals@)[k].v,
                            ),
                    decreases items@.len() - i,
                {
                    let ghost old_vals = crate::value::value_seq_view(vals@);
                    let ghost old_errs = error_seq_view(errors@);
                    let ghost step = itemviews.take(i as int + 1);
                    proof {
                        assert(ev_evaluable(input@.e));
                        assert(lv_evaluable(LiteralV::Array(itemviews)));
                        assert(sv_evaluable(itemviews[i as int]));
                        assert(step.drop_last() =~= itemviews.take(i as int));
                        assert(step.last() == itemviews[i as int]);
                    }
                    match eval(&items[i], vars) {
                        Ok(v) => {
                            let ghost vv = v@;
                            proof {
                                crate::value::lemma_value_seq_view(vals@.push(v));
                                assert(vals@.push(v).drop_last() =~= vals@);
                                assert(crate::value::value_seq_view(vals@.push(v)) =~= old_vals.push(
                                    vv,
                                ));
                            }
                            vals.push(v);
                        },
                        Err(mut es) => {
                            let ghost esv = error_seq_view(es@);
                            errored = true;
                            errors.append(&mut es);
                            proof {
                                assert(error_seq_view(errors@) =~= old_errs + esv);
                            }
                            let sentinel = SpannedValue(Value::Error, items[i].1);
                            proof {
                                crate::value::lemma_value_seq_view(vals@.push(sentinel));
                                assert(vals@.push(sentinel).drop_last() =~= vals@);
                                assert(crate::value::value_seq_view(vals@.push(sentinel))
                                    =~= old_vals.push(spec_sentinel(itemviews[i as int].span)));
                            }
                            vals.push(sentinel);
                        },
                    }
                    i = i + 1;
                }
                proof {
                    assert(itemviews.take(items@.len() as int) =~= itemviews);
                }
                if errored {
                    Err(errors)
                } else {
                    proof {
                        assert(vv_wf(ValueV::Array(crate::value::value_seq_view(vals@))));
                    }
                    Ok(SpannedValue(Value::Array(vals), input.1))
                }
            },
            Literal::Num(x) => {
                proof {
                    assert(input.0 == Expr::Literal(*lit));
                    assert(input@.e == ExprV::Literal(
                        LiteralV::Num { n: x.num as int, d: x.den as int },
                    ));
                    assert(lv_evaluable(LiteralV::Num { n: x.num as int, d: x.den as int }));
                }
                Ok(SpannedValue(Value::Num(*x), input.1))
            },
            Literal::String(t) => Ok(SpannedValue(Value::String(t.clone()), input.1)),
            Literal::Bool(b) => Ok(SpannedValue(Value::Bool(*b), input.1)),
            Literal::Null => Ok(SpannedValue(Value::Null, input.1)),
        },
        Expr::Assign { names, value } => {
            match eval(&**value, vars) {
                Ok(v) => {
                    let mut out_names: Vec<String> = Vec::new();
                    let mut i: usize = 0;
                    while i < names.len()
                        invariant
                            0 <= i <= names@.len(),
                            out_names@.len() == i,
                            forall|k: int| 0 <= k < i ==> (#[trigger] out_names@[k])@ == names@[k]@,
                        decreases names@.len() - i,
                    {
                        out_names.push(names[i].clone());
                        i = i + 1;
                    }
                    proof {
                        assert(crate::ast::names_view(out_names@) =~= crate::ast::names_view(
                            names@,
                        ));
                        assert(vv_wf(v@.v));
                        assert(crate::value::value_view(v.0) == v@.v);
                    }
                    Ok(SpannedValue(Value::Assign(out_names, Box::new(v.0)), input.1))
                },
                Err(es) => Err(es),
            }
        },
        Expr::InfixOp(lhs, op, rhs) => {
            let mut errors: Vec<Error> = Vec::new();
            let lv = match eval(&**lhs, vars) {
                Ok(v) => v,
                Err(mut es) => {
                    errors.append(&mut es);
                    SpannedValue(Value::Error, Span::new(0, 1))
                },
            };
            let ghost errs_after_l = error_seq_view(errors@);
            let rv = match eval(&**rhs, vars) {
                Ok(v) => v,
                Err(mut es) => {
                    let ghost esv = error_seq_view(es@);
                    errors.append(&mut es);
                    proof {
                        assert(error_seq_view(errors@) =~= errs_after_l + esv);
                    }
                    SpannedValue(Value::Error, Span::new(0, 1))
                },
            };
            proof {
                if errors@.len() == 0 {
                    assert(error_seq_view(errors@) =~= Seq::<ErrorV>::empty());
                }
            }
            let lhs_failed = matches!(&lv.0, Value::Error);
            let rhs_failed = matches!(&rv.0, Value::Error);
            if lhs_failed || rhs_failed {
                return Err(errors);
            }
            let out = match op {
                InfixOp::Pow => lv.pow(rv),
                InfixOp::Mul => lv.mul(rv),
                InfixOp::Div => lv.div(rv),
                InfixOp::Mod => lv.modulus(rv),
                InfixOp::Add => lv.add(rv),
                InfixOp::Sub => lv.sub(rv),
                InfixOp::Equals => lv.equals(rv),
                InfixOp::NotEquals => lv.not_equals(rv),
                InfixOp::Lt => lv.lt(rv),
                InfixOp::Gt => lv.gt(rv),
                InfixOp::Lte => lv.lte(rv),
                InfixOp::Gte => lv.gte(rv),
                InfixOp::And => lv.and(rv),
                InfixOp::Or => lv.or(rv),
                InfixOp::In => lv.contains(rv),
                InfixOp::Range => lv.range(rv),
                InfixOp::IRange => lv.irange(rv),
            };
            match out {
                Ok(v) => Ok(SpannedValue(v, input.1)),
                Err(e) => {
                    let ghost before = error_seq_view(errors@);
                    let ghost ev = crate::error::error_view(e);
                    errors.push(e);
                    proof {
                        assert(error_seq_view(errors@) =~= before.push(ev));
                    }
                    Err(errors)
                },
            }
        },
        Expr::Not(inner) => {
            let v = match eval(&**inner, vars) {
                Ok(v) => v,
                Err(es) => {
                    return Err(es);
                },
            };
            match v.not() {
                Ok(out) => Ok(SpannedValue(out, input.1)),
                Err(e) => {
                    let mut errors: Vec<Error> = Vec::new();
                    let ghost ev = crate::error::error_view(e);
                    errors.push(e);
                    proof {
                        assert(error_seq_view(errors@) =~= seq![ev]);
                    }
                    Err(errors)
                },
            }
        },
        Expr::Index(lhs, rhs) => {
            let mut errors: Vec<Error> = Vec::new();
            let lv = match eval(&**lhs, vars) {
                Ok(v) => v,
                Err(mut es) => {
                    errors.append(&mut es);
                    SpannedValue(Value::Error, Span::new(0, 1))
                },
            };
            let ghost errs_after_l = error_seq_view(errors@);
            let rv = match eval(&**rhs, vars) {
                Ok(v) => v,
                Err(mut es) => {
                    let ghost esv = error_seq_view(es@);
                    errors.append(&mut es);
                    proof {
                        assert(error_seq_view(errors@) =~= errs_after_l + esv);
                    }
                    SpannedValue(Value::Error, Span::new(0, 1))
                },
            };
            proof {
                if errors@.len() == 0 {
                    assert(error_seq_view(errors@) =~= Seq::<ErrorV>::empty());
                }
            }
            let lhs_failed = matches!(&lv.0, Value::Error);
            let rhs_failed = matches!(&rv.0, Value::Error);
            if lhs_failed || rhs_failed {
                return Err(errors);
            }
            match lv.index(rv) {
                Ok(v) => Ok(SpannedValue(v, input.1)),
                Err(e) => {
                    let ghost before = error_seq_view(errors@);
                    let ghost ev = crate::error::error_view(e);
                    errors.push(e);
                    proof {
                        assert(error_seq_view(errors@) =~= before.push(ev));
                    }
                    Err(errors)
                },
            }
        },
        Expr::Ident(name) => {
            match vars.get(name) {
                Some(v) => Ok(SpannedValue(value_clone(v), input.1)),
                None => {
                    let mut errors: Vec<Error> = Vec::new();
                    let e = Error::ReferenceError { name: name.clone(), span: input.1 };
                    let ghost ev = crate::error::error_view(e);
                    errors.push(e);
                    proof {
                        assert(error_seq_view(errors@) =~= seq![ev]);
                    }
                    Err(errors)
                },
            }
        },
        Expr::Conditional { condition, inner, other } => {
            let cv = match eval(&**condition, vars) {
                Ok(v) => v,
                Err(es) => {
                    return Err(es);
                },
            };
            match &cv.0 {
                Value::Bool(enter) => {
                    if *enter {
                        eval(&**inner, vars)
                    } else {
                        eval(&**other, vars)
                    }
                },
                _ => {
                    let mut expected: Vec<ValueType> = Vec::new();
                    expected.push(ValueType::Bool);
                    let mut errors: Vec<Error> = Vec::new();
                    let e = Error::TypeError {
                        expected,
                        got: cv,
                        context: TypeErrorCtx::Condition,
                    };
                    let ghost ev = crate::error::error_view(e);
                    errors.push(e);
                    proof {
                        assert(error_seq_view(errors@) =~= seq![ev]);
                    }
                    Err(errors)
                },
            }
        },
        Expr::Error => {
            proof {
                assert(false);
            }
            Err(Vec::new())
        },
    }
}


} // verus!
