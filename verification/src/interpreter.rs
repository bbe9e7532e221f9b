use vstd::prelude::*;
use crate::span::Span;
use crate::ast::{Expr, Literal, Spanned, SpannedV, ExprV, LiteralV, names_view, spanned_seq_view};
use crate::value::{ValueV, ValueMap};
use crate::error::{Error, ErrorV, error_seq_view};
use crate::eval::{eval, spec_eval, sv_evaluable, env_wf};

verus! {

/// A name together with the span of the statement that assigned it; used in
/// the evaluation order and in dependency-cycle reports.
#[derive(Debug)]
pub struct SpannedIdent {
    pub name: String,
    pub span: Span,
}

/// The mathematical model of a spanned name.
#[verifier::ext_equal]
pub struct SpannedIdentV {
    pub name: Seq<char>,
    pub span: Span,
}

impl View for SpannedIdent {
    type V = SpannedIdentV;

    open spec fn view(&self) -> SpannedIdentV {
        SpannedIdentV { name: self.name@, span: self.span }
    }
}

impl Clone for SpannedIdent {
    /// A copy with the same model.
    fn clone(&self) -> (r: SpannedIdent)
        ensures
            r@ == self@,
    {
        SpannedIdent { name: self.name.clone(), span: self.span }
    }
}

/// The models of a list of spanned names, in order.
pub open spec fn idents_view(s: Seq<SpannedIdent>) -> Seq<SpannedIdentV> {
    Seq::new(s.len(), |i: int| s[i]@)
}

/// The model of one dependency-map entry: an assigned name, the names its
/// right-hand side references, the span of its statement, and the
/// right-hand-side expression itself.
#[verifier::ext_equal]
pub struct EntryV {
    pub name: Seq<char>,
    pub deps: Seq<Seq<char>>,
    pub span: Span,
    pub value: SpannedV,
}

/// The free identifier references of an expression, in left-to-right order,
/// duplicates kept.
pub open spec fn spec_deps(s: SpannedV) -> Seq<Seq<char>>
    decreases s,
{
    match s.e {
        ExprV::Ident(name) => seq![name],
        ExprV::InfixOp(l, _, r) => spec_deps(*l) + spec_deps(*r),
        ExprV::Index(l, r) => spec_deps(*l) + spec_deps(*r),
        ExprV::Not(x) => spec_deps(*x),
        ExprV::Literal(lit) => match lit {
            LiteralV::Array(items) => spec_deps_items(items),
            _ => Seq::empty(),
        },
        ExprV::Conditional { condition, inner, other } => spec_deps(*condition) + spec_deps(*inner)
            + spec_deps(*other),
        ExprV::Assign { names: _, value } => spec_deps(*value),
        ExprV::Error => Seq::empty(),
    }
}

/// The references of a sequence of expressions, concatenated in order.
pub open spec fn spec_deps_items(items: Seq<SpannedV>) -> Seq<Seq<char>>
    decreases items,
{
    if items.len() == 0 {
        Seq::empty()
    } else {
        spec_deps(items[0]) + spec_deps_items(items.drop_first())
    }
}

/// The free identifier references of an expression.
#[verifier::loop_isolation(false)]
pub fn get_deps(expr: &Spanned) -> (r: Vec<String>)
    ensures
        names_view(r@) == spec_deps(expr@),
    decreases *expr,
{
    broadcast use crate::ast::lemma_spanned_seq_view;

    let mut out: Vec<String> = Vec::new();
    match &expr.0 {
        Expr::Ident(name) => {
            out.push(name.clone());
            proof {
                assert(names_view(out@) =~= spec_deps(expr@));
            }
        },
        Expr::InfixOp(l, _, r) => {
            let mut a = get_deps(&**l);
            let mut b = get_deps(&**r);
            let ghost av = names_view(a@);
            let ghost bv = names_view(b@);
            out.append(&mut a);
            out.append(&mut b);
            proof {
                assert(names_view(out@) =~= av + bv);
            }
        },
        Expr::Index(l, r) => {
            let mut a = get_deps(&**l);
            let mut b = get_deps(&**r);
            let ghost av = names_view(a@);
            let ghost bv = names_view(b@);
            out.append(&mut a);
            out.append(&mut b);
            proof {
                assert(names_view(out@) =~= av + bv);
            }
        },
        Expr::Not(x) => {
            let mut a = get_deps(&**x);
            let ghost av = names_view(a@);
            out.append(&mut a);
            proof {
                assert(names_view(out@) =~= av);
            }
        },
        Expr::Literal(lit) => match lit {
            Literal::Array(items) => {
                let ghost itemviews = spanned_seq_view(items@);
                proof {
                    assert(expr.0 == Expr::Literal(*lit));
                    assert(*lit == Literal::Array(*items));
                    assert(crate::ast::expr_view(expr.0) == ExprV::Literal(
                        crate::ast::literal_view(*lit),
                    ));
                    assert(crate::ast::literal_view(*lit) == LiteralV::Array(itemviews));
                    assert(expr@.e == ExprV::Literal(LiteralV::Array(itemviews)));
                    assert(names_view(out@) =~= Seq::<Seq<char>>::empty());
                    assert(itemviews.skip(0) =~= itemviews);
                }
                let mut i: usize = 0;
                while i < items.len()
                    invariant
                        0 <= i <= items@.len(),
                        names_view(out@) + spec_deps_items(itemviews.skip(i as int))
                            == spec_deps_items(itemviews),
                    decreases items@.len() - i,
                {
                    let mut a = get_deps(&items[i]);
                    let ghost av = names_view(a@);
                    let ghost before = names_view(out@);
                    out.append(&mut a);
                    proof {
                        assert(itemviews.skip(i as int).drop_first() =~= itemviews.skip(
                            i as int + 1,
                        ));
                        assert(names_view(out@) =~= before + av);
                        assert(names_view(out@) + spec_deps_items(itemviews.skip(i as int + 1))
                            =~= spec_deps_items(itemviews));
                    }
                    i = i + 1;
                }
                proof {
                    assert(itemviews.skip(items@.len() as int) =~= Seq::<SpannedV>::empty());
                    assert(names_view(out@) =~= spec_deps_items(itemviews));
                }
            },
            _ => {
                proof {
                    assert(expr.0 == Expr::Literal(*lit));
                    assert(crate::ast::expr_view(expr.0) == ExprV::Literal(
                        crate::ast::literal_view(*lit),
                    ));
                    assert(names_view(out@) =~= Seq::<Seq<char>>::empty());
                    assert(spec_deps(expr@) =~= Seq::<Seq<char>>::empty());
                }
            },
        },
        Expr::Conditional { condition, inner, other } => {
            let mut a = get_deps(&**condition);
            let mut b = get_deps(&**inner);
            let mut c = get_deps(&**other);
            let ghost av = names_view(a@);
            let ghost bv = names_view(b@);
            let ghost cv = names_view(c@);
            out.append(&mut a);
            out.append(&mut b);
            out.append(&mut c);
            proof {
                assert(names_view(out@) =~= av + bv + cv);
            }
        },
        Expr::Assign { names: _, value } => {
            let mut a = get_deps(&**value);
            let ghost av = names_view(a@);
            out.append(&mut a);
            proof {
                assert(names_view(out@) =~= av);
            }
        },
        Expr::Error => {
            proof {
                assert(names_view(out@) =~= Seq::<Seq<char>>::empty());
            }
        },
    }
    out
}

/// Whether some entry in the list binds this name.
pub open spec fn has_entry(entries: Seq<EntryV>, name: Seq<char>) -> bool {
    exists|i: int| 0 <= i < entries.len() && (#[trigger] entries[i]).name == name
}

/// The position of the first entry binding this name, or `-1`.
pub open spec fn find_entry(entries: Seq<EntryV>, name: Seq<char>) -> int
    decreases entries.len(),
{
    if entries.len() == 0 {
        -1
    } else if entries[0].name == name {
        0
    } else {
        let r = find_entry(entries.drop_first(), name);
        if r == -1 {
            -1
        } else {
            r + 1
        }
    }
}

/// `find_entry` finds the first binding, and `-1` means there is none.
pub proof fn lemma_find_entry(entries: Seq<EntryV>, name: Seq<char>)
    ensures
        find_entry(entries, name) == -1 ==> !has_entry(entries, name),
        find_entry(entries, name) != -1 ==> 0 <= find_entry(entries, name) < entries.len()
            && entries[find_entry(entries, name)].name == name && (forall|j: int|
            0 <= j < find_entry(entries, name) ==> (#[trigger] entries[j]).name != name),
    decreases entries.len(),
{
    if entries.len() > 0 && entries[0].name != name {
        lemma_find_entry(entries.drop_first(), name);
        assert(forall|j: int|
            1 <= j < entries.len() ==> (#[trigger] entries[j]) == entries.drop_first()[j - 1]);
    }
}

/// Whether the chain already holds this name.
pub open spec fn chain_has(chain: Seq<SpannedIdentV>, name: Seq<char>) -> bool {
    exists|i: int| 0 <= i < chain.len() && (#[trigger] chain[i]).name == name
}

/// The classification of one unresolved reference, mirroring the recursive
/// walk of the remaining dependency map: a name already on the chain is a
/// detected cycle; a name bound by a remaining entry is walked into; a name
/// bound nowhere is undefined. `fuel` bounds the walk depth; callers pass
/// more fuel than entries exist, so it never runs out.
pub open spec fn spec_gather(
    name: Seq<char>,
    chain: Seq<SpannedIdentV>,
    entries: Seq<EntryV>,
    pspan: Span,
    fuel: nat,
) -> (Seq<ErrorV>, Seq<SpannedIdentV>)
    decreases fuel, 0nat, 0nat,
{
    if chain_has(chain, name) {
        (seq![ErrorV::RecursionError { chain }], chain)
    } else {
        let idx = find_entry(entries, name);
        if idx >= 0 {
            if fuel == 0 {
                (Seq::empty(), chain)
            } else {
                spec_gather_list(
                    entries[idx].deps,
                    chain.push(SpannedIdentV { name, span: entries[idx].span }),
                    entries,
                    pspan,
                    (fuel - 1) as nat,
                )
            }
        } else {
            (seq![ErrorV::ReferenceError { name, span: pspan }], chain)
        }
    }
}

/// Classification of a list of references, threading the chain through from
/// one sibling to the next and concatenating the errors.
pub open spec fn spec_gather_list(
    names: Seq<Seq<char>>,
    chain: Seq<SpannedIdentV>,
    entries: Seq<EntryV>,
    pspan: Span,
    fuel: nat,
) -> (Seq<ErrorV>, Seq<SpannedIdentV>)
    decreases fuel, 1nat, names.len(),
{
    if names.len() == 0 {
        (Seq::empty(), chain)
    } else {
        let (e1, c1) = spec_gather(names[0], chain, entries, pspan, fuel);
        let (e2, c2) = spec_gather_list(names.drop_first(), c1, entries, pspan, fuel);
        (e1 + e2, c2)
    }
}

/// Whether the chain holds this name.
#[verifier::loop_isolation(false)]
fn chain_contains(chain: &Vec<SpannedIdent>, name: &String) -> (r: bool)
    ensures
        r == chain_has(idents_view(chain@), name@),
{
    let mut i: usize = 0;
    while i < chain.len()
        invariant
            0 <= i <= chain@.len(),
            forall|j: int| 0 <= j < i ==> (#[trigger] idents_view(chain@)[j]).name != name@,
        decreases chain@.len() - i,
    {
        if chain[i].name == *name {
            proof {
                assert(idents_view(chain@)[i as int].name == name@);
            }
            return true;
        }
        i = i + 1;
    }
    false
}

/// One entry of the dependency map: an assigned name, its references, the
/// span of its statement, and the index of that statement (whose assignment
/// value is the entry's right-hand side).
struct DepEntry {
    name: String,
    deps: Vec<String>,
    span: Span,
    stmt: usize,
}

/// The right-hand-side expression of the assignment statement at `i`.
pub open spec fn stmt_value(stmts: Seq<Spanned>, i: int) -> SpannedV {
    match crate::ast::spanned_view(stmts[i]).e {
        ExprV::Assign { names: _, value } => *value,
        _ => crate::ast::spanned_view(stmts[i]),
    }
}

/// The model of one dependency entry, against the statement list.
spec fn dep_entry_view(d: DepEntry, stmts: Seq<Spanned>) -> EntryV {
    EntryV {
        name: d.name@,
        deps: names_view(d.deps@),
        span: d.span,
        value: stmt_value(stmts, d.stmt as int),
    }
}

/// The models of a list of dependency entries.
spec fn dep_entries_view(ds: Seq<DepEntry>, stmts: Seq<Spanned>) -> Seq<EntryV> {
    Seq::new(ds.len(), |i: int| dep_entry_view(ds[i], stmts))
}

/// Collection of the assignment targets of one statement: each fresh name
/// becomes an entry carrying the statement's references and span; a name
/// already bound is a reassignment error naming both spans.
pub open spec fn spec_collect_names(
    names: Seq<Seq<char>>,
    ds: Seq<Seq<char>>,
    value: SpannedV,
    span: Span,
    entries: Seq<EntryV>,
    errs: Seq<ErrorV>,
) -> (Seq<EntryV>, Seq<ErrorV>)
    decreases names.len(),
{
    if names.len() == 0 {
        (entries, errs)
    } else {
        let n = names[0];
        let idx = find_entry(entries, n);
        if idx >= 0 {
            spec_collect_names(
                names.drop_first(),
                ds,
                value,
                span,
                entries,
                errs.push(
                    ErrorV::ReassignError { name: n, old_span: entries[idx].span, new_span: span },
                ),
            )
        } else {
            spec_collect_names(
                names.drop_first(),
                ds,
                value,
                span,
                entries.push(EntryV { name: n, deps: ds, span, value }),
                errs,
            )
        }
    }
}

/// Collection of the dependency map over a statement sequence: every
/// assignment contributes its targets; bare expressions contribute nothing.
pub open spec fn spec_collect(
    stmts: Seq<SpannedV>,
    entries: Seq<EntryV>,
    errs: Seq<ErrorV>,
) -> (Seq<EntryV>, Seq<ErrorV>)
    decreases stmts.len(),
{
    if stmts.len() == 0 {
        (entries, errs)
    } else {
        let s = stmts[0];
        match s.e {
            ExprV::Assign { names, value } => {
                let (e2, r2) = spec_collect_names(
                    names,
                    spec_deps(*value),
                    *value,
                    s.span,
                    entries,
                    errs,
                );
                spec_collect(stmts.drop_first(), e2, r2)
            },
            _ => spec_collect(stmts.drop_first(), entries, errs),
        }
    }
}

/// Whether every reference in `ds` is bound by some already-ordered entry.
pub open spec fn all_deps_done(ds: Seq<Seq<char>>, done: Seq<EntryV>) -> bool {
    forall|j: int| 0 <= j < ds.len() ==> has_entry(done, #[trigger] ds[j])
}

/// One round over the pending entries: each entry whose references are all
/// already ordered moves, in order, to the end of the ordered list (later
/// entries of the same round see the earlier ones already ordered).
pub open spec fn spec_pass(pending: Seq<EntryV>, done: Seq<EntryV>) -> (Seq<EntryV>, Seq<EntryV>)
    decreases pending.len(),
{
    if pending.len() == 0 {
        (Seq::empty(), done)
    } else {
        if all_deps_done(pending[0].deps, done) {
            spec_pass(pending.drop_first(), done.push(pending[0]))
        } else {
            let (np, nd) = spec_pass(pending.drop_first(), done);
            (seq![pending[0]] + np, nd)
        }
    }
}

/// Repeated rounds until every entry is ordered; a round that orders nothing
/// classifies the remaining entries' references into undefined-reference and
/// circular-dependency errors, starting from the first remaining entry.
pub open spec fn spec_rounds(pending: Seq<EntryV>, done: Seq<EntryV>) -> Result<
    Seq<EntryV>,
    Seq<ErrorV>,
>
    decreases pending.len(),
{
    if pending.len() == 0 {
        Ok(done)
    } else {
        let (np, nd) = spec_pass(pending, done);
        if np.len() < pending.len() {
            spec_rounds(np, nd)
        } else {
            Err(
                spec_gather(
                    pending[0].name,
                    Seq::empty(),
                    pending,
                    pending[0].span,
                    pending.len(),
                ).0,
            )
        }
    }
}

/// Evaluation of the ordered entries: each value is evaluated against the
/// environment built so far; a success binds the name, a failure adds its
/// errors and the pipeline carries on to report everything it can.
pub open spec fn spec_run(
    done: Seq<EntryV>,
    env: Map<Seq<char>, ValueV>,
    errs: Seq<ErrorV>,
) -> (Map<Seq<char>, ValueV>, Seq<ErrorV>)
    decreases done.len(),
{
    if done.len() == 0 {
        (env, errs)
    } else {
        match spec_eval(done[0].value, env) {
            Ok(v) => spec_run(done.drop_first(), env.insert(done[0].name, v.v), errs),
            Err(es) => spec_run(done.drop_first(), env, errs + es),
        }
    }
}

/// The dependency pairs reported on success: each assigned name with the
/// references of its right-hand side, in definition order.
pub open spec fn spec_dep_pairs(entries: Seq<EntryV>) -> Seq<(Seq<char>, Seq<Seq<char>>)> {
    Seq::new(entries.len(), |i: int| (entries[i].name, entries[i].deps))
}

/// Resolution and evaluation of a statement sequence: collect the dependency
/// map (rejecting reassignment), linearize it (rejecting undefined references
/// and cycles), then evaluate every assignment in the chosen order.
pub open spec fn spec_resolve(stmts: Seq<SpannedV>) -> Result<
    (Map<Seq<char>, ValueV>, Seq<(Seq<char>, Seq<Seq<char>>)>),
    Seq<ErrorV>,
> {
    let (entries, rerrs) = spec_collect(stmts, Seq::empty(), Seq::empty());
    if rerrs.len() > 0 {
        Err(rerrs)
    } else {
        match spec_rounds(entries, Seq::empty()) {
            Err(es) => Err(es),
            Ok(done) => {
                let (env, errs) = spec_run(done, Map::empty(), Seq::empty());
                if errs.len() > 0 {
                    Err(errs)
                } else {
                    Ok((env, spec_dep_pairs(entries)))
                }
            },
        }
    }
}

/// The resolved program: the final name-to-value environment and, for each
/// assigned name, the names its definition references.
#[derive(Debug)]
pub struct VarStore {
    pub values: ValueMap,
    pub deps: Vec<(String, Vec<String>)>,
}

/// The models of the reported dependency pairs.
pub open spec fn dep_pairs_view(s: Seq<(String, Vec<String>)>) -> Seq<(Seq<char>, Seq<Seq<char>>)> {
    Seq::new(s.len(), |i: int| (s[i].0@, names_view(s[i].1@)))
}

impl VarStore {
    /// An empty store.
    pub fn new() -> (r: VarStore)
        ensures
            r.values@ == Map::<Seq<char>, ValueV>::empty(),
            r.values.wf(),
            r.deps@.len() == 0,
    {
        VarStore { values: ValueMap::new(), deps: Vec::new() }
    }
}

/// The model of a resolution result.
pub open spec fn resolve_result_view(r: Result<VarStore, Vec<Error>>) -> Result<
    (Map<Seq<char>, ValueV>, Seq<(Seq<char>, Seq<Seq<char>>)>),
    Seq<ErrorV>,
> {
    match r {
        Ok(vs) => Ok((vs.values@, dep_pairs_view(vs.deps@))),
        Err(es) => Err(error_seq_view(es@)),
    }
}

/// Whether every statement in the sequence can be evaluated.
pub open spec fn stmts_evaluable(stmts: Seq<SpannedV>) -> bool {
    forall|i: int| 0 <= i < stmts.len() ==> sv_evaluable(#[trigger] stmts[i])
}

/// A deep copy of a list of names.
#[verifier::loop_isolation(false)]
fn clone_names(v: &Vec<String>) -> (r: Vec<String>)
    ensures
        r@ =~= v@,
{
    let mut r: Vec<String> = Vec::new();
    let mut i: usize = 0;
    while i < v.len()
        invariant
            0 <= i <= v@.len(),
            r@ =~= v@.take(i as int),
        decreases v@.len() - i,
    {
        r.push(v[i].clone());
        proof {
            assert(r@ =~= v@.take(i as int + 1));
        }
        i = i + 1;
    }
    proof {
        assert(v@.take(v@.len() as int) =~= v@);
    }
    r
}

/// The position of the first pending entry binding this name, or none.
#[verifier::loop_isolation(false)]
fn find_dep_entry(entries: &Vec<DepEntry>, name: &String, stmts: &Vec<Spanned>) -> (r: Option<
    usize,
>)
    ensures
        r matches Some(i) ==> i < entries@.len() && find_entry(
            dep_entries_view(entries@, stmts@),
            name@,
        ) == i as int,
        r is None ==> find_entry(dep_entries_view(entries@, stmts@), name@) == -1,
{
    proof {
        lemma_find_entry(dep_entries_view(entries@, stmts@), name@);
    }
    let mut i: usize = 0;
    while i < entries.len()
        invariant
            0 <= i <= entries@.len(),
            forall|j: int|
                0 <= j < i ==> (#[trigger] dep_entries_view(entries@, stmts@)[j]).name != name@,
        decreases entries@.len() - i,
    {
        if entries[i].name == *name {
            proof {
                assert(dep_entries_view(entries@, stmts@)[i as int].name == name@);
                lemma_find_entry_found(dep_entries_view(entries@, stmts@), name@, i as int);
            }
            return Some(i);
        }
        i = i + 1;
    }
    proof {
        if find_entry(dep_entries_view(entries@, stmts@), name@) != -1 {
            assert(false);
        }
    }
    None
}

/// The first match under `find_entry` is the first binding position.
proof fn lemma_find_entry_found(entries: Seq<EntryV>, name: Seq<char>, i: int)
    requires
        0 <= i < entries.len(),
        entries[i].name == name,
        forall|j: int| 0 <= j < i ==> (#[trigger] entries[j]).name != name,
    ensures
        find_entry(entries, name) == i,
{
    lemma_find_entry(entries, name);
    let f = find_entry(entries, name);
    if f == -1 {
        assert(!has_entry(entries, name));
        assert(has_entry(entries, name)) by {
            assert(entries[i].name == name);
        }
    } else {
        if f < i {
            assert(entries[f].name != name);
        }
        if f > i {
            assert((forall|j: int| 0 <= j < f ==> (#[trigger] entries[j]).name != name));
            assert(entries[i].name != name);
        }
    }
}

/// A deep copy of a chain of spanned names.
#[verifier::loop_isolation(false)]
fn clone_idents(v: &Vec<SpannedIdent>) -> (r: Vec<SpannedIdent>)
    ensures
        idents_view(r@) =~= idents_view(v@),
{
    let mut r: Vec<SpannedIdent> = Vec::new();
    let mut i: usize = 0;
    while i < v.len()
        invariant
            0 <= i <= v@.len(),
            r@.len() == i,
            forall|j: int| 0 <= j < i ==> (#[trigger] r@[j])@ == v@[j]@,
        decreases v@.len() - i,
    {
        r.push(v[i].clone());
        i = i + 1;
    }
    r
}

/// A deep copy of one dependency entry.
fn clone_dep_entry(d: &DepEntry, stmts: &Vec<Spanned>) -> (r: DepEntry)
    ensures
        dep_entry_view(r, stmts@) == dep_entry_view(*d, stmts@),
        r.stmt == d.stmt,
{
    let r = DepEntry {
        name: d.name.clone(),
        deps: clone_names(&d.deps),
        span: d.span,
        stmt: d.stmt,
    };
    proof {
        assert(names_view(r.deps@) =~= names_view(d.deps@));
    }
    r
}

/// Whether every reference is bound by an already-ordered entry.
#[verifier::loop_isolation(false)]
fn deps_all_done(ds: &Vec<String>, done: &Vec<DepEntry>, stmts: &Vec<Spanned>) -> (r: bool)
    ensures
        r == all_deps_done(names_view(ds@), dep_entries_view(done@, stmts@)),
{
    let mut i: usize = 0;
    while i < ds.len()
        invariant
            0 <= i <= ds@.len(),
            forall|j: int|
                0 <= j < i ==> has_entry(
                    dep_entries_view(done@, stmts@),
                    #[trigger] names_view(ds@)[j],
                ),
        decreases ds@.len() - i,
    {
        match find_dep_entry(done, &ds[i], stmts) {
            Some(_) => {
                proof {
                    lemma_find_entry(dep_entries_view(done@, stmts@), ds@[i as int]@);
                }
            },
            None => {
                proof {
                    lemma_find_entry(dep_entries_view(done@, stmts@), ds@[i as int]@);
                    assert(!has_entry(dep_entries_view(done@, stmts@), names_view(ds@)[i as int]));
                }
                return false;
            },
        }
        i = i + 1;
    }
    true
}

/// Classification of one unresolved name, exactly as [`spec_gather`]
/// describes: a cycle back into the chain, a walk into a remaining entry, or
/// an undefined reference.
#[verifier::loop_isolation(false)]
fn gather_deps_errors(
    name: &String,
    chain: &mut Vec<SpannedIdent>,
    entries: &Vec<DepEntry>,
    parent_span: Span,
    stmts: &Vec<Spanned>,
    fuel: usize,
) -> (errs: Vec<Error>)
    ensures
        error_seq_view(errs@) == spec_gather(
            name@,
            idents_view(old(chain)@),
            dep_entries_view(entries@, stmts@),
            parent_span,
            fuel as nat,
        ).0,
        idents_view(final(chain)@) == spec_gather(
            name@,
            idents_view(old(chain)@),
            dep_entries_view(entries@, stmts@),
            parent_span,
            fuel as nat,
        ).1,
    decreases fuel,
{
    let ghost entriesv = dep_entries_view(entries@, stmts@);
    if chain_contains(chain, name) {
        let chain_copy = clone_idents(chain);
        let mut errs: Vec<Error> = Vec::new();
        let e = Error::RecursionError { chain: chain_copy };
        let ghost ev = crate::error::error_view(e);
        errs.push(e);
        proof {
            assert(ev == ErrorV::RecursionError { chain: idents_view(old(chain)@) }) by {
                assert(Seq::new(chain_copy@.len(), |i: int| chain_copy@[i]@) =~= idents_view(
                    old(chain)@,
                ));
            }
            assert(error_seq_view(errs@) =~= seq![ev]);
        }
        errs
    } else {
        match find_dep_entry(entries, name, stmts) {
            Some(idx) => {
                proof {
                    lemma_find_entry(entriesv, name@);
                }
                if fuel == 0 {
                    let errs: Vec<Error> = Vec::new();
                    proof {
                        assert(error_seq_view(errs@) =~= Seq::<ErrorV>::empty());
                    }
                    errs
                } else {
                    chain.push(SpannedIdent { name: name.clone(), span: entries[idx].span });
                    proof {
                        assert(idents_view(chain@) =~= idents_view(old(chain)@).push(
                            SpannedIdentV { name: name@, span: entriesv[idx as int].span },
                        ));
                    }
                    let deps = clone_names(&entries[idx].deps);
                    proof {
                        assert(names_view(deps@) =~= entriesv[idx as int].deps);
                    }
                    let ghost fuelm1 = (fuel - 1) as nat;
                    let ghost chain0 = idents_view(chain@);
                    let ghost full = spec_gather_list(
                        names_view(deps@),
                        chain0,
                        entriesv,
                        parent_span,
                        fuelm1,
                    );
                    let mut errs: Vec<Error> = Vec::new();
                    let mut j: usize = 0;
                    proof {
                        assert(names_view(deps@).skip(0) =~= names_view(deps@));
                        assert(error_seq_view(errs@) =~= Seq::<ErrorV>::empty());
                    }
                    while j < deps.len()
                        invariant
                            0 <= j <= deps@.len(),
                            fuel >= 1,
                            fuelm1 == (fuel - 1) as nat,
                            entriesv == dep_entries_view(entries@, stmts@),
                            ({
                                let (re, rc) = spec_gather_list(
                                    names_view(deps@).skip(j as int),
                                    idents_view(chain@),
                                    entriesv,
                                    parent_span,
                                    fuelm1,
                                );
                                error_seq_view(errs@) + re == full.0 && rc == full.1
                            }),
                        decreases deps@.len() - j,
                    {
                        let ghost before_chain = idents_view(chain@);
                        let ghost before_errs = error_seq_view(errs@);
                        proof {
                            assert(names_view(deps@).skip(j as int).drop_first()
                                =~= names_view(deps@).skip(j as int + 1));
                            assert(names_view(deps@).skip(j as int)[0] == names_view(
                                deps@,
                            )[j as int]);
                        }
                        let mut e = gather_deps_errors(
                            &deps[j],
                            chain,
                            entries,
                            parent_span,
                            stmts,
                            fuel - 1,
                        );
                        let ghost esub = error_seq_view(e@);
                        errs.append(&mut e);
                        proof {
                            assert(error_seq_view(errs@) =~= before_errs + esub);
                        }
                        j = j + 1;
                    }
                    proof {
                        assert(names_view(deps@).skip(deps@.len() as int)
                            =~= Seq::<Seq<char>>::empty());
                    }
                    errs
                }
            },
            None => {
                let mut errs: Vec<Error> = Vec::new();
                let e = Error::ReferenceError { name: name.clone(), span: parent_span };
                let ghost ev = crate::error::error_view(e);
                errs.push(e);
                proof {
                    lemma_find_entry(entriesv, name@);
                    assert(error_seq_view(errs@) =~= seq![ev]);
                }
                errs
            },
        }
    }
}

/// Structural facts carried about a dependency-entry list: names are
/// pairwise distinct, and every entry points at an assignment statement
/// whose right-hand side can be evaluated.
spec fn entries_ok(ds: Seq<DepEntry>, stmts: Seq<Spanned>) -> bool {
    &&& forall|i: int, j: int|
        0 <= i < j < ds.len() ==> (#[trigger] ds[i]).name@ != (#[trigger] ds[j]).name@
    &&& forall|i: int|
        0 <= i < ds.len() ==> (#[trigger] ds[i]).stmt < stmts.len()
    &&& forall|i: int|
        0 <= i < ds.len() ==> (crate::ast::spanned_view(
            stmts[(#[trigger] ds[i]).stmt as int],
        ).e matches ExprV::Assign { names: _, value: _ })
    &&& forall|i: int|
        0 <= i < ds.len() ==> sv_evaluable(stmt_value(stmts, (#[trigger] ds[i]).stmt as int))
}

/// Stage one of resolution: collect the dependency map over the statement
/// sequence, rejecting reassignment, exactly as [`spec_collect`] describes.
#[verifier::loop_isolation(false)]
fn collect_entries(stmts: &Vec<Spanned>) -> (r: (Vec<DepEntry>, Vec<Error>))
    requires
        stmts_evaluable(spanned_seq_view(stmts@)),
    ensures
        (dep_entries_view(r.0@, stmts@), error_seq_view(r.1@)) == spec_collect(
            spanned_seq_view(stmts@),
            Seq::empty(),
            Seq::empty(),
        ),
        entries_ok(r.0@, stmts@),
{
    broadcast use crate::ast::lemma_spanned_seq_view;

    let ghost stmtsv = spanned_seq_view(stmts@);
    let ghost collect_target = spec_collect(stmtsv, Seq::empty(), Seq::empty());
    let mut entries: Vec<DepEntry> = Vec::new();
    let mut rerrs: Vec<Error> = Vec::new();
    let mut i: usize = 0;
    proof {
        assert(stmtsv.skip(0) =~= stmtsv);
        assert(dep_entries_view(entries@, stmts@) =~= Seq::<EntryV>::empty());
        assert(error_seq_view(rerrs@) =~= Seq::<ErrorV>::empty());
    }
    while i < stmts.len()
        invariant
            0 <= i <= stmts@.len(),
            spec_collect(
                stmtsv.skip(i as int),
                dep_entries_view(entries@, stmts@),
                error_seq_view(rerrs@),
            ) == collect_target,
            entries_ok(entries@, stmts@),
        decreases stmts@.len() - i,
    {
        let ghost entriesv = dep_entries_view(entries@, stmts@);
        proof {
            assert(stmtsv.skip(i as int)[0] == stmtsv[i as int]);
            assert(stmtsv.skip(i as int).drop_first() =~= stmtsv.skip(i as int + 1));
        }
        match &stmts[i].0 {
            Expr::Assign { names, value } => {
                proof {
                    assert(stmts@[i as int].0 == Expr::Assign { names: *names, value: *value });
                    assert(stmtsv[i as int].e == ExprV::Assign {
                        names: names_view(names@),
                        value: Box::new(crate::ast::spanned_view(**value)),
                    });
                    assert(stmt_value(stmts@, i as int) == crate::ast::spanned_view(**value));
                    assert(sv_evaluable(stmtsv[i as int]));
                }
                let ds = get_deps(&**value);
                let ghost names_target = spec_collect_names(
                    names_view(names@),
                    names_view(ds@),
                    crate::ast::spanned_view(**value),
                    stmts@[i as int].1,
                    entriesv,
                    error_seq_view(rerrs@),
                );
                let mut k: usize = 0;
                proof {
                    assert(names_view(names@).skip(0) =~= names_view(names@));
                }
                while k < names.len()
                    invariant
                        0 <= k <= names@.len(),
                        spec_collect_names(
                            names_view(names@).skip(k as int),
                            names_view(ds@),
                            crate::ast::spanned_view(**value),
                            stmts@[i as int].1,
                            dep_entries_view(entries@, stmts@),
                            error_seq_view(rerrs@),
                        ) == names_target,
                        entries_ok(entries@, stmts@),
                        names_view(ds@) == spec_deps(crate::ast::spanned_view(**value)),
                    decreases names@.len() - k,
                {
                    let ghost cur_entriesv = dep_entries_view(entries@, stmts@);
                    let ghost cur_errsv = error_seq_view(rerrs@);
                    proof {
                        assert(names_view(names@).skip(k as int)[0] == names_view(
                            names@,
                        )[k as int]);
                        assert(names_view(names@).skip(k as int).drop_first() =~= names_view(
                            names@,
                        ).skip(k as int + 1));
                    }
                    match find_dep_entry(&entries, &names[k], stmts) {
                        Some(j) => {
                            let e = Error::ReassignError {
                                name: names[k].clone(),
                                old_span: entries[j].span,
                                new_span: stmts[i].1,
                            };
                            let ghost ev = crate::error::error_view(e);
                            rerrs.push(e);
                            proof {
                                assert(error_seq_view(rerrs@) =~= cur_errsv.push(ev));
                            }
                        },
                        None => {
                            proof {
                                lemma_find_entry(cur_entriesv, names@[k as int]@);
                                assert(!has_entry(cur_entriesv, names@[k as int]@));
                                assert forall|j: int| 0 <= j < entries@.len() implies (
                                #[trigger] entries@[j]).name@ != names@[k as int]@ by {
                                    assert(cur_entriesv[j].name == entries@[j].name@);
                                }
                            }
                            let entry = DepEntry {
                                name: names[k].clone(),
                                deps: clone_names(&ds),
                                span: stmts[i].1,
                                stmt: i,
                            };
                            proof {
                                assert(names_view(entry.deps@) =~= names_view(ds@));
                                assert(dep_entries_view(entries@.push(entry), stmts@)
                                    =~= cur_entriesv.push(
                                    EntryV {
                                        name: names@[k as int]@,
                                        deps: names_view(ds@),
                                        span: stmts@[i as int].1,
                                        value: crate::ast::spanned_view(**value),
                                    },
                                ));
                            }
                            entries.push(entry);
                        },
                    }
                    k = k + 1;
                }
                proof {
                    assert(names_view(names@).skip(names@.len() as int)
                        =~= Seq::<Seq<char>>::empty());
                }
            },
            _ => {
                proof {
                    assert(!(stmtsv[i as int].e is Assign));
                }
            },
        }
        i = i + 1;
    }
    proof {
        assert(stmtsv.skip(stmts@.len() as int) =~= Seq::<SpannedV>::empty());
    }
    (entries, rerrs)
}

/// Stage two of resolution: order the entries by repeated rounds, exactly as
/// [`spec_rounds`] describes.
#[verifier::loop_isolation(false)]
fn order_entries(entries: Vec<DepEntry>, stmts: &Vec<Spanned>) -> (r: Result<
    Vec<DepEntry>,
    Vec<Error>,
>)
    requires
        entries_ok(entries@, stmts@),
    ensures
        r matches Ok(done) ==> spec_rounds(dep_entries_view(entries@, stmts@), Seq::empty())
            == Ok::<Seq<EntryV>, Seq<ErrorV>>(dep_entries_view(done@, stmts@)) && entries_ok(
            done@,
            stmts@,
        ),
        r matches Err(es) ==> spec_rounds(dep_entries_view(entries@, stmts@), Seq::empty())
            == Err::<Seq<EntryV>, Seq<ErrorV>>(error_seq_view(es@)),
{
    let ghost rounds_target = spec_rounds(dep_entries_view(entries@, stmts@), Seq::empty());
    let mut pending = entries;
    let mut done: Vec<DepEntry> = Vec::new();
    proof {
        assert(dep_entries_view(done@, stmts@) =~= Seq::<EntryV>::empty());
    }
    while pending.len() > 0
        invariant
            spec_rounds(dep_entries_view(pending@, stmts@), dep_entries_view(done@, stmts@))
                == rounds_target,
            entries_ok(pending@, stmts@),
            entries_ok(done@, stmts@),
            forall|a: int, b: int|
                0 <= a < pending@.len() && 0 <= b < done@.len() ==> (
                #[trigger] pending@[a]).name@ != (#[trigger] done@[b]).name@,
        decreases pending@.len(),
    {
        let ghost pass_start_pending = dep_entries_view(pending@, stmts@);
        let ghost pass_start_done = dep_entries_view(done@, stmts@);
        let ghost pass_target = spec_pass(pass_start_pending, pass_start_done);
        let ghost done0_len = done@.len();
        let mut next: Vec<DepEntry> = Vec::new();
        let mut j: usize = 0;
        proof {
            assert(pass_start_pending.skip(0) =~= pass_start_pending);
            assert(dep_entries_view(next@, stmts@) =~= Seq::<EntryV>::empty());
            assert(dep_entries_view(next@, stmts@) + spec_pass(
                pass_start_pending,
                pass_start_done,
            ).0 =~= pass_target.0);
        }
        while j < pending.len()
            invariant
                0 <= j <= pending@.len(),
                pass_start_pending == dep_entries_view(pending@, stmts@),
                done0_len <= done@.len(),
                next@.len() + (done@.len() - done0_len) == j,
                ({
                    let (fp, fd) = spec_pass(
                        pass_start_pending.skip(j as int),
                        dep_entries_view(done@, stmts@),
                    );
                    dep_entries_view(next@, stmts@) + fp == pass_target.0 && fd == pass_target.1
                }),
                entries_ok(pending@, stmts@),
                entries_ok(done@, stmts@),
                entries_ok(next@, stmts@),
                forall|a: int, b: int|
                    j <= a < pending@.len() && 0 <= b < done@.len() ==> (
                    #[trigger] pending@[a]).name@ != (#[trigger] done@[b]).name@,
                forall|a: int, b: int|
                    0 <= a < next@.len() && 0 <= b < done@.len() ==> (#[trigger] next@[a]).name@
                        != (#[trigger] done@[b]).name@,
                forall|a: int, b: int|
                    j <= a < pending@.len() && 0 <= b < next@.len() ==> (
                    #[trigger] pending@[a]).name@ != (#[trigger] next@[b]).name@,
                forall|b: int|
                    0 <= b < next@.len() ==> exists|a: int|
                        0 <= a < j && (#[trigger] next@[b]).name@ == pending@[a].name@,
            decreases pending@.len() - j,
        {
            let ghost dcur = dep_entries_view(done@, stmts@);
            proof {
                assert(pass_start_pending.skip(j as int)[0] == pass_start_pending[j as int]);
                assert(pass_start_pending.skip(j as int).drop_first() =~= pass_start_pending.skip(
                    j as int + 1,
                ));
            }
            let entry = clone_dep_entry(&pending[j], stmts);
            proof {
                assert(entry.name@ == pending@[j as int].name@);
            }
            if deps_all_done(&entry.deps, &done, stmts) {
                proof {
                    assert(dep_entry_view(entry, stmts@) == pass_start_pending[j as int]);
                    assert(dep_entries_view(done@.push(entry), stmts@) =~= dcur.push(
                        pass_start_pending[j as int],
                    ));
                }
                done.push(entry);
            } else {
                let ghost nv = dep_entries_view(next@, stmts@);
                proof {
                    assert(dep_entry_view(entry, stmts@) == pass_start_pending[j as int]);
                    assert(dep_entries_view(next@.push(entry), stmts@) =~= nv.push(
                        pass_start_pending[j as int],
                    ));
                    let (fp, fd) = spec_pass(pass_start_pending.skip(j as int + 1), dcur);
                    assert(nv.push(pass_start_pending[j as int]) + fp =~= nv + (seq![
                        pass_start_pending[j as int],
                    ] + fp));
                }
                next.push(entry);
            }
            j = j + 1;
        }
        proof {
            assert(pass_start_pending.skip(pending@.len() as int) =~= Seq::<EntryV>::empty());
            assert(dep_entries_view(next@, stmts@) + Seq::<EntryV>::empty() =~= dep_entries_view(
                next@,
                stmts@,
            ));
            assert(dep_entries_view(next@, stmts@) == pass_target.0);
            assert(dep_entries_view(done@, stmts@) == pass_target.1);
        }
        if next.len() == pending.len() {
            // No round progress: classify the remaining names, starting from
            // the first remaining entry.
            let mut chain: Vec<SpannedIdent> = Vec::new();
            proof {
                assert(idents_view(chain@) =~= Seq::<SpannedIdentV>::empty());
            }
            let fuel = pending.len();
            let errs = gather_deps_errors(
                &pending[0].name,
                &mut chain,
                &pending,
                pending[0].span,
                stmts,
                fuel,
            );
            proof {
                assert(pass_target.0.len() == pass_start_pending.len());
            }
            return Err(errs);
        }
        proof {
            assert(next@.len() < pending@.len());
            assert(pass_target.0.len() < pass_start_pending.len());
            assert(spec_rounds(pass_start_pending, pass_start_done) == spec_rounds(
                pass_target.0,
                pass_target.1,
            ));
        }
        pending = next;
    }
    proof {
        assert(dep_entries_view(pending@, stmts@) =~= Seq::<EntryV>::empty());
    }
    Ok(done)
}

/// Stage three of resolution: evaluate every ordered assignment, exactly as
/// [`spec_run`] describes.
#[verifier::loop_isolation(false)]
fn run_entries(done: &Vec<DepEntry>, stmts: &Vec<Spanned>) -> (r: (ValueMap, Vec<Error>))
    requires
        entries_ok(done@, stmts@),
    ensures
        (r.0@, error_seq_view(r.1@)) == spec_run(
            dep_entries_view(done@, stmts@),
            Map::empty(),
            Seq::empty(),
        ),
        r.0.wf(),
        env_wf(r.0@),
{
    let ghost donev = dep_entries_view(done@, stmts@);
    let ghost run_target = spec_run(donev, Map::empty(), Seq::empty());
    let mut vars = ValueMap::new();
    let mut errs: Vec<Error> = Vec::new();
    let mut q: usize = 0;
    proof {
        assert(donev.skip(0) =~= donev);
        assert(error_seq_view(errs@) =~= Seq::<ErrorV>::empty());
    }
    while q < done.len()
        invariant
            0 <= q <= done@.len(),
            donev == dep_entries_view(done@, stmts@),
            spec_run(donev.skip(q as int), vars@, error_seq_view(errs@)) == run_target,
            vars.wf(),
            env_wf(vars@),
            forall|n: Seq<char>|
                vars@.dom().contains(n) ==> exists|a: int|
                    0 <= a < q && (#[trigger] donev[a]).name == n,
        decreases done@.len() - q,
    {
        proof {
            assert(donev.skip(q as int)[0] == donev[q as int]);
            assert(donev.skip(q as int).drop_first() =~= donev.skip(q as int + 1));
            assert(sv_evaluable(donev[q as int].value));
        }
        let si = done[q].stmt;
        match &stmts[si].0 {
            Expr::Assign { names: _, value } => {
                proof {
                    assert(stmt_value(stmts@, si as int) == crate::ast::spanned_view(**value));
                }
                match eval(&**value, &vars) {
                    Ok(v) => {
                        proof {
                            if vars@.contains_key(done@[q as int].name@) {
                                assert(false);
                            }
                        }
                        vars.insert(done[q].name.clone(), v.0);
                    },
                    Err(mut es) => {
                        let ghost before = error_seq_view(errs@);
                        let ghost esv = error_seq_view(es@);
                        errs.append(&mut es);
                        proof {
                            assert(error_seq_view(errs@) =~= before + esv);
                        }
                    },
                }
            },
            _ => {
                proof {
                    assert(false);
                }
            },
        }
        q = q + 1;
    }
    proof {
        assert(donev.skip(done@.len() as int) =~= Seq::<EntryV>::empty());
    }
    (vars, errs)
}

/// Resolves and evaluates a parsed statement sequence, exactly as
/// [`spec_resolve`] describes: reassignment is rejected first, then the
/// assignments are linearized (undefined references and circular
/// dependencies are rejected), and finally every assignment is evaluated in
/// the chosen order. On success the store holds every assigned name's value
/// and the names its definition references.
#[verifier::loop_isolation(false)]
pub fn resolve_and_evaluate(stmts: &Vec<Spanned>) -> (r: Result<VarStore, Vec<Error>>)
    requires
        stmts_evaluable(spanned_seq_view(stmts@)),
    ensures
        resolve_result_view(r) == spec_resolve(spanned_seq_view(stmts@)),
        r matches Ok(vs) ==> vs.values.wf() && env_wf(vs.values@),
{
    let ghost stmtsv = spanned_seq_view(stmts@);
    let (entries, rerrs) = collect_entries(stmts);
    if rerrs.len() > 0 {
        return Err(rerrs);
    }
    let ghost entries0v = dep_entries_view(entries@, stmts@);

    // The reported dependency pairs, fixed before ordering consumes the map.
    let mut deps_out: Vec<(String, Vec<String>)> = Vec::new();
    let mut p: usize = 0;
    while p < entries.len()
        invariant
            0 <= p <= entries@.len(),
            deps_out@.len() == p,
            entries0v == dep_entries_view(entries@, stmts@),
            forall|j: int|
                0 <= j < p ==> #[trigger] dep_pairs_view(deps_out@)[j] == (
                    entries0v[j].name,
                    entries0v[j].deps,
                ),
        decreases entries@.len() - p,
    {
        let pair = (entries[p].name.clone(), clone_names(&entries[p].deps));
        proof {
            assert(names_view(pair.1@) =~= entries0v[p as int].deps);
        }
        let ghost pv = (pair.0@, names_view(pair.1@));
        let ghost old_out = deps_out@;
        deps_out.push(pair);
        proof {
            assert(dep_pairs_view(deps_out@)[p as int] == pv);
            assert(pv == (entries0v[p as int].name, entries0v[p as int].deps));
            assert(forall|j: int|
                0 <= j < p ==> #[trigger] dep_pairs_view(deps_out@)[j] == dep_pairs_view(
                    old_out,
                )[j]);
        }
        p = p + 1;
    }
    proof {
        assert(dep_pairs_view(deps_out@) =~= spec_dep_pairs(entries0v));
    }

    let done = match order_entries(entries, stmts) {
        Ok(done) => done,
        Err(es) => {
            return Err(es);
        },
    };
    let (vars, errs) = run_entries(&done, stmts);
    if errs.len() > 0 {
        Err(errs)
    } else {
        Ok(VarStore { values: vars, deps: deps_out })
    }
}

/// Interpretation of source text end to end: the lexical errors if there
/// are any, else the parse errors if there are any, else resolution and
/// evaluation of the parsed statements.
pub open spec fn spec_interpret(src: Seq<char>) -> Result<
    (Map<Seq<char>, ValueV>, Seq<(Seq<char>, Seq<Seq<char>>)>),
    Seq<ErrorV>,
> {
    let lexed = crate::lexer::spec_lex(src);
    if lexed.1.len() > 0 {
        Err(lexed.1)
    } else {
        match crate::parser::spec_parse(lexed.0) {
            Err(errs) => Err(errs),
            Ok(stmts) => spec_resolve(stmts),
        }
    }
}

/// Interprets source text end to end, exactly as [`spec_interpret`]
/// describes: lexes, parses, then resolves and evaluates, halting at the
/// first stage that reports errors.
pub fn interpret_full(source: &str) -> (r: Result<VarStore, Vec<Error>>)
    ensures
        resolve_result_view(r) == spec_interpret(source@),
        r matches Ok(vs) ==> vs.values.wf() && env_wf(vs.values@),
{
    let toks = match crate::lexer::lexer(source) {
        Ok(t) => t,
        Err(es) => {
            return Err(es);
        },
    };
    let stmts = match crate::parser::parse(&toks) {
        Ok(s) => s,
        Err(es) => {
            return Err(es);
        },
    };
    resolve_and_evaluate(&stmts)
}

/// Interprets source text and keeps only the final name-to-value mapping,
/// exactly the success component of [`spec_interpret`].
pub fn interpret(source: &str) -> (r: Result<ValueMap, Vec<Error>>)
    ensures
        r matches Ok(vs) ==> spec_interpret(source@) is Ok && vs@ == spec_interpret(
            source@,
        )->Ok_0.0 && vs.wf() && env_wf(vs@),
        r matches Err(es) ==> spec_interpret(source@) is Err && error_seq_view(es@)
            == spec_interpret(source@)->Err_0,
{
    match interpret_full(source) {
        Ok(vs) => Ok(vs.values),
        Err(es) => Err(es),
    }
}

} // verus!
