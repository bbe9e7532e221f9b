use vstd::prelude::*;
use crate::number::Number;
use crate::span::Span;

verus! {

/// One runtime value. `Error` is an internal sentinel marking "this
/// sub-expression already failed", used only to suppress cascading
/// diagnostics within one evaluation pass. `Assign` carries the ordered
/// target names and the assigned value. Ranges carry signed integer bounds;
/// `Range` excludes its end, `IRange` includes it.
#[derive(Debug)]
pub enum Value {
    Num(Number),
    String(String),
    Bool(bool),
    Array(Vec<SpannedValue>),
    Error,
    Assign(Vec<String>, Box<Value>),
    Range(i64, i64),
    IRange(i64, i64),
    Null,
}

/// A runtime value together with the span of the expression it came from.
#[derive(Debug)]
pub struct SpannedValue(pub Value, pub Span);

/// The runtime type of a value, as reported in type errors. `Int` and `Any`
/// never name a value's own type; they only describe expectations.
#[derive(Clone, Copy, Debug, PartialEq, Eq, Structural)]
pub enum ValueType {
    Num,
    Int,
    String,
    Bool,
    Array,
    Error,
    Assign,
    Range,
    IRange,
    Any,
    Null,
}

/// The mathematical model of a runtime value.
#[verifier::ext_equal]
pub enum ValueV {
    Num { n: int, d: int },
    Str(Seq<char>),
    Bool(bool),
    Array(Seq<SpannedValueV>),
    Error,
    Assign(Seq<Seq<char>>, Box<ValueV>),
    Range(int, int),
    IRange(int, int),
    Null,
}

/// The mathematical model of a spanned runtime value.
#[verifier::ext_equal]
pub struct SpannedValueV {
    pub v: ValueV,
    pub span: Span,
}

/// The models of a sequence of spanned values, in order.
pub open spec fn value_seq_view(items: Seq<SpannedValue>) -> Seq<SpannedValueV>
    decreases items,
{
    if items.len() == 0 {
        Seq::empty()
    } else {
        seq![spanned_value_view(items[0])] + value_seq_view(items.drop_first())
    }
}

/// `value_seq_view` maps the sequence pointwise.
pub broadcast proof fn lemma_value_seq_view(items: Seq<SpannedValue>)
    ensures
        (#[trigger] value_seq_view(items)).len() == items.len(),
        forall|i: int|
            0 <= i < items.len() ==> value_seq_view(items)[i] == spanned_value_view(items[i]),
    decreases items.len(),
{
    if items.len() > 0 {
        lemma_value_seq_view(items.drop_first());
    }
}

/// The model of a runtime value.
pub open spec fn value_view(v: Value) -> ValueV
    decreases v,
{
    match v {
        Value::Num(x) => ValueV::Num { n: x.num as int, d: x.den as int },
        Value::String(s) => ValueV::Str(s@),
        Value::Bool(b) => ValueV::Bool(b),
        Value::Array(items) => ValueV::Array(value_seq_view(items@)),
        Value::Error => ValueV::Error,
        Value::Assign(names, inner) => ValueV::Assign(
            crate::ast::names_view(names@),
            Box::new(value_view(*inner)),
        ),
        Value::Range(s, e) => ValueV::Range(s as int, e as int),
        Value::IRange(s, e) => ValueV::IRange(s as int, e as int),
        Value::Null => ValueV::Null,
    }
}

/// The model of a spanned runtime value.
pub open spec fn spanned_value_view(sv: SpannedValue) -> SpannedValueV
    decreases sv,
{
    SpannedValueV { v: value_view(sv.0), span: sv.1 }
}

impl View for Value {
    type V = ValueV;

    open spec fn view(&self) -> ValueV {
        value_view(*self)
    }
}

impl View for SpannedValue {
    type V = SpannedValueV;

    open spec fn view(&self) -> SpannedValueV {
        spanned_value_view(*self)
    }
}

/// Well-formedness of a modelled value: every number in it has a positive
/// denominator.
pub open spec fn vv_wf(v: ValueV) -> bool
    decreases v,
{
    match v {
        ValueV::Num { n, d } => 1 <= d,
        ValueV::Array(items) => forall|i: int| 0 <= i < items.len() ==> vv_wf((#[trigger] items[i]).v),
        ValueV::Assign(_, inner) => vv_wf(*inner),
        _ => true,
    }
}

/// Equality of two modelled values, ignoring every span; numbers compare as
/// rationals, arrays element-wise.
pub open spec fn vv_eq(a: ValueV, b: ValueV) -> bool
    decreases a,
{
    match (a, b) {
        (ValueV::Num { n: an, d: ad }, ValueV::Num { n: bn, d: bd }) => an * bd == bn * ad,
        (ValueV::Str(x), ValueV::Str(y)) => x == y,
        (ValueV::Bool(x), ValueV::Bool(y)) => x == y,
        (ValueV::Array(x), ValueV::Array(y)) => x.len() == y.len() && (forall|i: int|
            0 <= i < x.len() ==> vv_eq((#[trigger] x[i]).v, y[i].v)),
        (ValueV::Error, ValueV::Error) => true,
        (ValueV::Assign(xn, xv), ValueV::Assign(yn, yv)) => xn == yn && vv_eq(*xv, *yv),
        (ValueV::Range(xs, xe), ValueV::Range(ys, ye)) => xs == ys && xe == ye,
        (ValueV::IRange(xs, xe), ValueV::IRange(ys, ye)) => xs == ys && xe == ye,
        (ValueV::Null, ValueV::Null) => true,
        _ => false,
    }
}

/// Span-insensitive comparison of two values.
#[verifier::loop_isolation(false)]
pub fn value_eq(a: &Value, b: &Value) -> (r: bool)
    ensures
        r == vv_eq(a@, b@),
    decreases *a,
{
    broadcast use lemma_value_seq_view;

    match (a, b) {
        (Value::Num(x), Value::Num(y)) => *x == *y,
        (Value::String(x), Value::String(y)) => *x == *y,
        (Value::Bool(x), Value::Bool(y)) => *x == *y,
        (Value::Array(x), Value::Array(y)) => {
            let ghost xs = value_seq_view(x@);
            let ghost ys = value_seq_view(y@);
            if x.len() != y.len() {
                assert(xs.len() != ys.len());
                return false;
            }
            let mut i: usize = 0;
            while i < x.len()
                invariant
                    0 <= i <= x@.len(),
                    x@.len() == y@.len(),
                    forall|k: int| 0 <= k < i ==> vv_eq((#[trigger] xs[k]).v, ys[k].v),
                decreases x@.len() - i,
            {
                if !value_eq(&x[i].0, &y[i].0) {
                    assert(!vv_eq(xs[i as int].v, ys[i as int].v));
                    return false;
                }
                i = i + 1;
            }
            true
        },
        (Value::Error, Value::Error) => true,
        (Value::Assign(xn, xv), Value::Assign(yn, yv)) => {
            if xn.len() != yn.len() {
                assert(crate::ast::names_view(xn@).len() != crate::ast::names_view(yn@).len());
                return false;
            }
            let mut i: usize = 0;
            while i < xn.len()
                invariant
                    0 <= i <= xn@.len(),
                    xn@.len() == yn@.len(),
                    forall|k: int| 0 <= k < i ==> (#[trigger] xn@[k])@ == yn@[k]@,
                decreases xn@.len() - i,
            {
                if !(xn[i] == yn[i]) {
                    assert(crate::ast::names_view(xn@)[i as int] != crate::ast::names_view(
                        yn@,
                    )[i as int]);
                    return false;
                }
                i = i + 1;
            }
            proof {
                if forall|k: int| 0 <= k < xn@.len() ==> (#[trigger] xn@[k])@ == yn@[k]@ {
                    assert(crate::ast::names_view(xn@) =~= crate::ast::names_view(yn@));
                }
            }
            value_eq(&**xv, &**yv)
        },
        (Value::Range(xs, xe), Value::Range(ys, ye)) => *xs == *ys && *xe == *ye,
        (Value::IRange(xs, xe), Value::IRange(ys, ye)) => *xs == *ys && *xe == *ye,
        (Value::Null, Value::Null) => true,
        _ => false,
    }
}

impl PartialEq for Value {
    /// Values compare by content, ignoring the spans inside arrays; numbers
    /// compare as rationals.
    fn eq(&self, other: &Value) -> (r: bool) {
        value_eq(self, other)
    }
}

impl vstd::std_specs::cmp::PartialEqSpecImpl for Value {
    open spec fn obeys_eq_spec() -> bool {
        true
    }

    open spec fn eq_spec(&self, other: &Value) -> bool {
        vv_eq(self@, other@)
    }
}

impl PartialEq for SpannedValue {
    /// Spanned values compare by their values alone; spans never take part.
    fn eq(&self, other: &SpannedValue) -> (r: bool) {
        value_eq(&self.0, &other.0)
    }
}

impl vstd::std_specs::cmp::PartialEqSpecImpl for SpannedValue {
    open spec fn obeys_eq_spec() -> bool {
        true
    }

    open spec fn eq_spec(&self, other: &SpannedValue) -> bool {
        vv_eq(self@.v, other@.v)
    }
}

/// The runtime type tag of a modelled value.
pub open spec fn spec_get_type(v: ValueV) -> ValueType {
    match v {
        ValueV::Num { .. } => ValueType::Num,
        ValueV::Str(_) => ValueType::String,
        ValueV::Bool(_) => ValueType::Bool,
        ValueV::Array(_) => ValueType::Array,
        ValueV::Error => ValueType::Error,
        ValueV::Assign(_, _) => ValueType::Assign,
        ValueV::Range(_, _) => ValueType::Range,
        ValueV::IRange(_, _) => ValueType::IRange,
        ValueV::Null => ValueType::Null,
    }
}

impl Value {
    /// The runtime type of this value, as named in diagnostics.
    pub fn get_type(&self) -> (r: ValueType)
        ensures
            r == spec_get_type(self@),
    {
        match self {
            Value::Num(_) => ValueType::Num,
            Value::String(_) => ValueType::String,
            Value::Bool(_) => ValueType::Bool,
            Value::Array(_) => ValueType::Array,
            Value::Error => ValueType::Error,
            Value::Assign(_, _) => ValueType::Assign,
            Value::Range(_, _) => ValueType::Range,
            Value::IRange(_, _) => ValueType::IRange,
            Value::Null => ValueType::Null,
        }
    }
}

/// A deep copy of a value; the copy has the same model.
#[verifier::loop_isolation(false)]
pub fn value_clone(v: &Value) -> (r: Value)
    ensures
        r@ == v@,
    decreases *v,
{
    broadcast use lemma_value_seq_view;

    match v {
        Value::Num(x) => Value::Num(*x),
        Value::String(s) => Value::String(s.clone()),
        Value::Bool(b) => Value::Bool(*b),
        Value::Array(items) => {
            let mut out: Vec<SpannedValue> = Vec::new();
            let mut i: usize = 0;
            while i < items.len()
                invariant
                    0 <= i <= items@.len(),
                    out@.len() == i,
                    forall|k: int|
                        0 <= k < i ==> #[trigger] spanned_value_view(out@[k]) == spanned_value_view(
                            items@[k],
                        ),
                decreases items@.len() - i,
            {
                let cloned = value_clone(&items[i].0);
                out.push(SpannedValue(cloned, items[i].1));
                i = i + 1;
            }
            proof {
                assert(value_seq_view(out@) =~= value_seq_view(items@));
            }
            Value::Array(out)
        },
        Value::Error => Value::Error,
        Value::Assign(names, inner) => {
            let mut out_names: Vec<String> = Vec::new();
            let mut i: usize = 0;
            while i < names.len()
                invariant
                    0 <= i <= names@.len(),
                    out_names@.len() == i,
                    forall|k: int| 0 <= k < i ==> (#[trigger] out_names@[k])@ == names@[k]@,
                decreases names@.len() - i,
            {
                out_names.push(names[i].clone());
                i = i + 1;
            }
            proof {
                assert(crate::ast::names_view(out_names@) =~= crate::ast::names_view(names@));
            }
            Value::Assign(out_names, Box::new(value_clone(&**inner)))
        },
        Value::Range(s, e) => Value::Range(*s, *e),
        Value::IRange(s, e) => Value::IRange(*s, *e),
        Value::Null => Value::Null,
    }
}

impl Clone for Value {
    /// A deep copy with the same model.
    fn clone(&self) -> (r: Value)
        ensures
            r@ == self@,
    {
        value_clone(self)
    }
}

impl Clone for SpannedValue {
    /// A deep copy with the same model, span included.
    fn clone(&self) -> (r: SpannedValue)
        ensures
            r@ == self@,
    {
        SpannedValue(value_clone(&self.0), self.1)
    }
}


/// The model of an ordered list of name/value bindings: later bindings win
/// (in use every name is bound at most once).
pub open spec fn entries_map(s: Seq<(String, Value)>) -> Map<Seq<char>, ValueV>
    decreases s.len(),
{
    if s.len() == 0 {
        Map::empty()
    } else {
        entries_map(s.drop_last()).insert(s.last().0@, value_view(s.last().1))
    }
}

/// The name-to-value environment: a single-assignment store built one entry
/// per resolved name, in dependency order, and never mutated after a name is
/// inserted.
#[derive(Debug)]
pub struct ValueMap {
    entries: Vec<(String, Value)>,
}

impl View for ValueMap {
    type V = Map<Seq<char>, ValueV>;

    closed spec fn view(&self) -> Map<Seq<char>, ValueV> {
        entries_map(self.entries@)
    }
}

/// A key bound nowhere in the list is not in the model.
proof fn lemma_entries_map_miss(s: Seq<(String, Value)>, k: Seq<char>)
    requires
        forall|j: int| 0 <= j < s.len() ==> (#[trigger] s[j]).0@ != k,
    ensures
        !entries_map(s).contains_key(k),
    decreases s.len(),
{
    if s.len() > 0 {
        lemma_entries_map_miss(s.drop_last(), k);
    }
}

/// With no later binding of the same name, the model maps the name to the
/// value bound at position `i`.
proof fn lemma_entries_map_get(s: Seq<(String, Value)>, i: int)
    requires
        0 <= i < s.len(),
        forall|j: int| i < j < s.len() ==> (#[trigger] s[j]).0@ != s[i].0@,
    ensures
        entries_map(s).contains_key(s[i].0@),
        entries_map(s)[s[i].0@] == value_view(s[i].1),
    decreases s.len(),
{
    if i == s.len() - 1 {
    } else {
        lemma_entries_map_get(s.drop_last(), i);
    }
}

impl ValueMap {
    /// The bound names, in insertion order.
    pub closed spec fn key_seq(self) -> Seq<Seq<char>> {
        Seq::new(self.entries@.len(), |i: int| self.entries@[i].0@)
    }

    /// All bound values are well-formed and every name is bound at most once.
    pub closed spec fn wf(self) -> bool {
        &&& forall|i: int, j: int|
            0 <= i < j < self.entries@.len() ==> (#[trigger] self.entries@[i]).0@ != (
            #[trigger] self.entries@[j]).0@
        &&& forall|i: int|
            0 <= i < self.entries@.len() ==> vv_wf(value_view((#[trigger] self.entries@[i]).1))
    }

    /// An empty environment.
    pub fn new() -> (r: ValueMap)
        ensures
            r@ == Map::<Seq<char>, ValueV>::empty(),
            r.key_seq() == Seq::<Seq<char>>::empty(),
            r.wf(),
    {
        let r = ValueMap { entries: Vec::new() };
        proof {
            assert(r.key_seq() =~= Seq::<Seq<char>>::empty());
        }
        r
    }

    /// The number of bound names.
    pub fn len(&self) -> (r: usize)
        requires
            self.wf(),
        ensures
            r == self@.dom().len(),
    {
        proof {
            lemma_entries_len(self.entries@);
        }
        self.entries.len()
    }

    /// The value bound to a name, if any.
    #[verifier::loop_isolation(false)]
    pub fn get(&self, name: &String) -> (r: Option<&Value>)
        requires
            self.wf(),
        ensures
            r matches Some(v) ==> self@.contains_key(name@) && v@ == self@[name@] && vv_wf(v@),
            r is None ==> !self@.contains_key(name@),
    {
        let n = self.entries.len();
        let mut i: usize = 0;
        while i < n
            invariant
                0 <= i <= n,
                n == self.entries@.len(),
                forall|j: int| 0 <= j < i ==> (#[trigger] self.entries@[j]).0@ != name@,
            decreases n - i,
        {
            if self.entries[i].0 == *name {
                proof {
                    lemma_entries_map_get(self.entries@, i as int);
                }
                return Some(&self.entries[i].1);
            }
            i = i + 1;
        }
        proof {
            lemma_entries_map_miss(self.entries@, name@);
        }
        None
    }

    /// Binds a fresh name; the environment grows by exactly this entry.
    pub fn insert(&mut self, name: String, value: Value)
        requires
            old(self).wf(),
            !old(self)@.contains_key(name@),
            vv_wf(value@),
        ensures
            final(self)@ == old(self)@.insert(name@, value@),
            final(self).key_seq() == old(self).key_seq().push(name@),
            final(self).wf(),
    {
        proof {
            lemma_entries_map_miss_converse(self.entries@, name@);
            assert(self.entries@.push((name, value)).drop_last() =~= self.entries@);
        }
        let ghost old_keys = self.key_seq();
        self.entries.push((name, value));
        proof {
            assert(self.key_seq() =~= old_keys.push(name@));
        }
    }

    /// The bound names: exactly the keys of the model, in insertion order.
    #[verifier::loop_isolation(false)]
    pub fn names(&self) -> (r: Vec<String>)
        requires
            self.wf(),
        ensures
            r@.len() == self.key_seq().len(),
            forall|i: int| 0 <= i < r@.len() ==> (#[trigger] r@[i])@ == self.key_seq()[i],
            forall|n: Seq<char>| #[trigger] self@.contains_key(n) <==> self.key_seq().contains(n),
    {
        proof {
            lemma_entries_map_dom(self.entries@);
            assert forall|n: Seq<char>| #[trigger]
                self@.contains_key(n) <==> self.key_seq().contains(n) by {
                if self@.contains_key(n) {
                    let j = choose|j: int|
                        0 <= j < self.entries@.len() && (#[trigger] self.entries@[j]).0@ == n;
                    assert(self.key_seq()[j] == n);
                }
                if self.key_seq().contains(n) {
                    let j = choose|j: int|
                        0 <= j < self.key_seq().len() && self.key_seq()[j] == n;
                    assert(self.entries@[j].0@ == n);
                }
            }
        }
        let n = self.entries.len();
        let mut r: Vec<String> = Vec::new();
        let mut i: usize = 0;
        while i < n
            invariant
                0 <= i <= n,
                n == self.entries@.len(),
                r@.len() == i,
                forall|j: int| 0 <= j < i ==> (#[trigger] r@[j])@ == self.key_seq()[j],
            decreases n - i,
        {
            r.push(self.entries[i].0.clone());
            i = i + 1;
        }
        r
    }
}

/// A name is in the model's domain exactly when some entry binds it.
proof fn lemma_entries_map_dom(s: Seq<(String, Value)>)
    ensures
        forall|n: Seq<char>|
            #[trigger] entries_map(s).contains_key(n) <==> exists|j: int|
                0 <= j < s.len() && (#[trigger] s[j]).0@ == n,
    decreases s.len(),
{
    if s.len() > 0 {
        lemma_entries_map_dom(s.drop_last());
        assert forall|n: Seq<char>| #[trigger]
            entries_map(s).contains_key(n) implies exists|j: int|
            0 <= j < s.len() && (#[trigger] s[j]).0@ == n by {
            if n != s.last().0@ {
                assert(entries_map(s) == entries_map(s.drop_last()).insert(s.last().0@, value_view(s.last().1)));
                assert(entries_map(s.drop_last()).contains_key(n));
                let j = choose|j: int|
                    0 <= j < s.drop_last().len() && (#[trigger] s.drop_last()[j]).0@ == n;
                assert(s.drop_last()[j] == s[j]);
                assert(0 <= j < s.len() && s[j].0@ == n);
            } else {
                assert(0 <= s.len() - 1 < s.len() && (#[trigger] s[s.len() - 1]).0@ == n);
            }
        }
        assert forall|n: Seq<char>|
            (exists|j: int| 0 <= j < s.len() && (#[trigger] s[j]).0@ == n) implies #[trigger]
            entries_map(s).contains_key(n) by {
            let j = choose|j: int| 0 <= j < s.len() && (#[trigger] s[j]).0@ == n;
            if j < s.len() - 1 {
                assert(s.drop_last()[j].0@ == n);
            }
        }
    }
}

/// A name absent from the model is bound nowhere in the list.
proof fn lemma_entries_map_miss_converse(s: Seq<(String, Value)>, k: Seq<char>)
    requires
        !entries_map(s).contains_key(k),
    ensures
        forall|j: int| 0 <= j < s.len() ==> (#[trigger] s[j]).0@ != k,
    decreases s.len(),
{
    if s.len() > 0 {
        lemma_entries_map_miss_converse(s.drop_last(), k);
        assert(forall|j: int|
            0 <= j < s.len() - 1 ==> #[trigger] s[j] == s.drop_last()[j]);
    }
}

/// With unique keys, the model's domain is as large as the list.
proof fn lemma_entries_len(s: Seq<(String, Value)>)
    requires
        forall|i: int, j: int|
            0 <= i < j < s.len() ==> (#[trigger] s[i]).0@ != (#[trigger] s[j]).0@,
    ensures
        entries_map(s).dom().len() == s.len(),
        entries_map(s).dom().finite(),
    decreases s.len(),
{
    if s.len() > 0 {
        lemma_entries_len(s.drop_last());
        lemma_entries_map_miss(s.drop_last(), s.last().0@);
    }
}

} // verus!
