use vstd::prelude::*;
use vstd::arithmetic::power::pow;
use crate::span::Span;
use crate::number::{in_i64, pow_ok, rat_pow_defined, rat_pow_num, rat_pow_den};
use crate::value::{ValueV, SpannedValueV, vv_eq};
use crate::error::ErrorV;
use crate::ast::SpannedV;
use crate::operators::{spec_add, spec_mul, spec_pow, spec_slice_value, spec_index,
    spec_norm_index};
use crate::interpreter::{spec_resolve, spec_interpret, spec_collect, spec_collect_names,
    has_entry, find_entry, lemma_find_entry, EntryV};

verus! {

/// One raised to any power is one.
proof fn lemma_one_pow(e: nat)
    ensures
        pow(1, e) == 1,
    decreases e,
{
    reveal(pow);
    if e > 0 {
        lemma_one_pow((e - 1) as nat);
    }
}

/// The sum of two integer number values is exactly their integer sum:
/// `n + m` evaluates to the number `n + m` whenever it is representable.
pub proof fn lemma_integer_addition_exact(a: SpannedValueV, b: SpannedValueV, x: int, y: int)
    requires
        a.v == (ValueV::Num { n: x, d: 1 }),
        b.v == (ValueV::Num { n: y, d: 1 }),
        in_i64(x + y),
    ensures
        spec_add(a, b) == Ok::<ValueV, ErrorV>(ValueV::Num { n: x + y, d: 1 }),
{
}

/// The power of two integer number values with a non-negative exponent is
/// the exact integer power: `3 ** 2` is the number `9`, with denominator
/// one — never an approximation.
pub proof fn lemma_integer_power_exact(a: SpannedValueV, b: SpannedValueV, x: int, y: int)
    requires
        a.v == (ValueV::Num { n: x, d: 1 }),
        b.v == (ValueV::Num { n: y, d: 1 }),
        0 <= y,
        pow_ok(x, 1, y as nat),
    ensures
        spec_pow(a, b) == Ok::<ValueV, ErrorV>(ValueV::Num { n: pow(x, y as nat), d: 1 }),
{
    vstd::arithmetic::div_mod::lemma_fundamental_div_mod(y, 1);
    vstd::arithmetic::div_mod::lemma_mod_division_less_than_divisor(y, 1);
    assert(y % 1 == 0 && y / 1 == y);
    lemma_one_pow(y as nat);
    assert(rat_pow_defined(x, 1, y));
    assert(rat_pow_num(x, 1, y) == pow(x, y as nat));
    assert(rat_pow_den(x, 1, y) == pow(1, y as nat));
}

/// Multiplication is commutative across its valid operand kinds: whenever
/// `a * b` yields a value, `b * a` yields an equal value — in particular a
/// string times a number and a number times a string repeat alike.
pub proof fn lemma_multiplication_commutative(a: SpannedValueV, b: SpannedValueV)
    requires
        spec_mul(a, b) is Ok,
    ensures
        spec_mul(b, a) is Ok,
        vv_eq(spec_mul(a, b)->Ok_0, spec_mul(b, a)->Ok_0),
{
    match (a.v, b.v) {
        (ValueV::Num { n: an, d: ad }, ValueV::Num { n: bn, d: bd }) => {
            assert(an * bn == bn * an);
            assert(ad * bd == bd * ad);
            let m = spec_mul(a, b)->Ok_0;
            assert(vv_eq(m, m));
        },
        _ => {},
    }
}

/// The reversal of an indexable value: an array or string with its elements
/// in the opposite order.
pub open spec fn vv_reversed(v: ValueV) -> ValueV {
    match v {
        ValueV::Array(x) => ValueV::Array(x.reverse()),
        ValueV::Str(s) => ValueV::Str(s.reverse()),
        _ => v,
    }
}

/// A descending range selection is exactly the reverse of the matching
/// ascending one: `s..=e` descending selects the reverse of `e..=s`, and
/// `s..e` descending the reverse of `(e+1)..=s`; so reversing a descending
/// range yields the same elements as manually reversing the forward slice.
pub proof fn lemma_descending_slice_reverses(v: ValueV, sp: int, ep: int, inclusive: bool)
    requires
        ep < sp,
    ensures
        inclusive ==> spec_slice_value(v, sp, ep, true) == vv_reversed(
            spec_slice_value(v, ep, sp, true),
        ),
        !inclusive ==> spec_slice_value(v, sp, ep, false) == vv_reversed(
            spec_slice_value(v, ep + 1, sp, true),
        ),
{
}

/// Resolution and evaluation is a pure function of the statement sequence:
/// the contract of `resolve_and_evaluate` pins its whole result to
/// `spec_resolve`, so re-running it on the same statements with no shared
/// mutable state produces an identical outcome.
pub proof fn lemma_resolve_and_evaluate_deterministic(
    stmts: Seq<SpannedV>,
    r1: Result<(Map<Seq<char>, ValueV>, Seq<(Seq<char>, Seq<Seq<char>>)>), Seq<ErrorV>>,
    r2: Result<(Map<Seq<char>, ValueV>, Seq<(Seq<char>, Seq<Seq<char>>)>), Seq<ErrorV>>,
)
    requires
        r1 == spec_resolve(stmts),
        r2 == spec_resolve(stmts),
    ensures
        r1 == r2,
{
}

/// Interpretation is a pure function of the source text: the contract of
/// `interpret_full` pins its whole result to `spec_interpret`, so running it
/// twice on the same source with no shared mutable state produces identical
/// results.
pub proof fn lemma_interpret_deterministic(
    src: Seq<char>,
    r1: Result<(Map<Seq<char>, ValueV>, Seq<(Seq<char>, Seq<Seq<char>>)>), Seq<ErrorV>>,
    r2: Result<(Map<Seq<char>, ValueV>, Seq<(Seq<char>, Seq<Seq<char>>)>), Seq<ErrorV>>,
)
    requires
        r1 == spec_interpret(src),
        r2 == spec_interpret(src),
    ensures
        r1 == r2,
{
}

/// Whether a statement assigns this name.
pub open spec fn stmt_assigns(s: SpannedV, nm: Seq<char>) -> bool {
    match s.e {
        crate::ast::ExprV::Assign { names, value: _ } => names.contains(nm),
        _ => false,
    }
}

/// Whether the error list holds a reassignment error for this name.
pub open spec fn has_reassign_error(errs: Seq<ErrorV>, nm: Seq<char>) -> bool {
    exists|i: int|
        0 <= i < errs.len() && ((#[trigger] errs[i]) matches ErrorV::ReassignError {
            name,
            old_span: _,
            new_span: _,
        } && name == nm)
}

/// Facts about collecting one statement's targets: the entry names afterward
/// are the old ones plus the targets; errors are only appended; a target
/// already bound yields a reassignment error for it.
proof fn lemma_collect_names_facts(
    names: Seq<Seq<char>>,
    ds: Seq<Seq<char>>,
    value: SpannedV,
    span: Span,
    entries: Seq<EntryV>,
    errs: Seq<ErrorV>,
    nm: Seq<char>,
)
    ensures
        ({
            let (e2, r2) = spec_collect_names(names, ds, value, span, entries, errs);
            &&& (has_entry(e2, nm) <==> has_entry(entries, nm) || names.contains(nm))
            &&& (has_reassign_error(errs, nm) ==> has_reassign_error(r2, nm))
            &&& (has_entry(entries, nm) && names.contains(nm) ==> has_reassign_error(r2, nm))
        }),
    decreases names.len(),
{
    if names.len() == 0 {
        assert(!names.contains(nm));
    } else {
        let n0 = names[0];
        let idx = find_entry(entries, n0);
        lemma_find_entry(entries, n0);
        assert(names.contains(n0)) by {
            assert(names[0] == n0);
        }
        assert(forall|m: Seq<char>|
            names.drop_first().contains(m) ==> #[trigger] names.contains(m)) by {
            assert(forall|k: int|
                0 <= k < names.drop_first().len() ==> names.drop_first()[k] == #[trigger] names[
                    k + 1
                ]);
        }
        if idx >= 0 {
            let e = ErrorV::ReassignError { name: n0, old_span: entries[idx].span, new_span: span };
            lemma_collect_names_facts(names.drop_first(), ds, value, span, entries, errs.push(e), nm);
            assert(has_reassign_error(errs.push(e), n0)) by {
                assert(errs.push(e)[errs.len() as int] == e);
            }
            if has_reassign_error(errs, nm) {
                let i = choose|i: int|
                    0 <= i < errs.len() && ((#[trigger] errs[i]) matches ErrorV::ReassignError {
                        name,
                        old_span: _,
                        new_span: _,
                    } && name == nm);
                assert(errs.push(e)[i] == errs[i]);
            }
            if names.contains(nm) && !names.drop_first().contains(nm) && nm != n0 {
                let k = choose|k: int| 0 <= k < names.len() && names[k] == nm;
                assert(names.drop_first()[k - 1] == nm);
            }
        } else {
            assert(!has_entry(entries, n0));
            let entry = EntryV { name: n0, deps: ds, span, value };
            lemma_collect_names_facts(
                names.drop_first(),
                ds,
                value,
                span,
                entries.push(entry),
                errs,
                nm,
            );
            assert(has_entry(entries.push(entry), n0)) by {
                assert(entries.push(entry)[entries.len() as int] == entry);
            }
            assert forall|m: Seq<char>| #[trigger]
                has_entry(entries, m) implies has_entry(entries.push(entry), m) by {
                let i = choose|i: int|
                    0 <= i < entries.len() && (#[trigger] entries[i]).name == m;
                assert(entries.push(entry)[i] == entries[i]);
            }
            assert forall|m: Seq<char>| #[trigger]
                has_entry(entries.push(entry), m) implies has_entry(entries, m) || m == n0 by {
                let i = choose|i: int|
                    0 <= i < entries.push(entry).len() && (#[trigger] entries.push(entry)[i]).name
                        == m;
                if i < entries.len() {
                    assert(entries[i].name == m);
                }
            }
            if names.contains(nm) && !names.drop_first().contains(nm) && nm != n0 {
                let k = choose|k: int| 0 <= k < names.len() && names[k] == nm;
                assert(names.drop_first()[k - 1] == nm);
            }
        }
    }
}

/// Facts about collecting a statement sequence: a name assigned by two
/// statements always yields a reassignment error, and errors are never
/// dropped.
proof fn lemma_collect_facts(
    stmts: Seq<SpannedV>,
    entries: Seq<EntryV>,
    errs: Seq<ErrorV>,
    nm: Seq<char>,
)
    ensures
        ({
            let (e2, r2) = spec_collect(stmts, entries, errs);
            &&& (has_reassign_error(errs, nm) ==> has_reassign_error(r2, nm))
            &&& (has_entry(entries, nm) || (exists|i: int|
                0 <= i < stmts.len() && stmt_assigns(#[trigger] stmts[i], nm)) ==> has_entry(
                e2,
                nm,
            ))
            &&& ((has_entry(entries, nm) && exists|i: int|
                0 <= i < stmts.len() && stmt_assigns(#[trigger] stmts[i], nm)) ==> has_reassign_error(
                r2,
                nm,
            ))
            &&& ((exists|i: int, j: int|
                0 <= i < j < stmts.len() && stmt_assigns(#[trigger] stmts[i], nm) && stmt_assigns(
                    #[trigger] stmts[j],
                    nm,
                )) ==> has_reassign_error(r2, nm))
        }),
    decreases stmts.len(),
{
    if stmts.len() == 0 {
    } else {
        let s = stmts[0];
        assert(forall|i: int|
            1 <= i < stmts.len() ==> #[trigger] stmts[i] == stmts.drop_first()[i - 1]);
        match s.e {
            crate::ast::ExprV::Assign { names, value } => {
                let ds = crate::interpreter::spec_deps(*value);
                let (e1, r1) = spec_collect_names(names, ds, *value, s.span, entries, errs);
                lemma_collect_names_facts(names, ds, *value, s.span, entries, errs, nm);
                lemma_collect_facts(stmts.drop_first(), e1, r1, nm);
            },
            _ => {
                lemma_collect_facts(stmts.drop_first(), entries, errs, nm);
            },
        }
    }
}

/// A name assigned by two different statements is always rejected: the whole
/// resolution fails and the reported errors include a reassignment error for
/// that name, regardless of anything else in the program.
pub proof fn lemma_reassignment_rejected(stmts: Seq<SpannedV>, nm: Seq<char>, i: int, j: int)
    requires
        0 <= i < j < stmts.len(),
        stmt_assigns(stmts[i], nm),
        stmt_assigns(stmts[j], nm),
    ensures
        spec_resolve(stmts) is Err,
        has_reassign_error(spec_resolve(stmts)->Err_0, nm),
{
    lemma_collect_facts(stmts, Seq::empty(), Seq::empty(), nm);
    let (e2, r2) = spec_collect(stmts, Seq::empty(), Seq::empty());
    assert(has_reassign_error(r2, nm));
    assert(r2.len() > 0);
}

/// Multiplying two strings is always a type error — the operands are never
/// silently coerced.
pub proof fn lemma_string_multiplication_never_coerces(a: SpannedValueV, b: SpannedValueV)
    requires
        a.v is Str,
        b.v is Str,
    ensures
        spec_mul(a, b) is Err,
        spec_mul(a, b)->Err_0 is TypeError,
{
}

/// An out-of-bounds numeric index on an array reports exactly the requested
/// index and the array's length, with the spans of both operands.
pub proof fn lemma_index_error_reports_length(
    a: SpannedValueV,
    b: SpannedValueV,
    items: Seq<crate::value::SpannedValueV>,
    n: int,
    d: int,
)
    requires
        a.v == ValueV::Array(items),
        b.v == (ValueV::Num { n, d }),
        n % d == 0,
        spec_norm_index(n / d, items.len() as int) is None,
    ensures
        spec_index(a, b) == Err::<ValueV, ErrorV>(
            ErrorV::IndexError {
                index: n / d,
                len: items.len() as int,
                lspan: a.span,
                rspan: b.span,
            },
        ),
{
}

} // verus!
