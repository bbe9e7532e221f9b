use vstd::prelude::*;
use crate::span::Span;
use crate::value::{SpannedValue, SpannedValueV, ValueType, spanned_value_view};
use crate::ast::InfixOp;
use crate::interpreter::{SpannedIdent, SpannedIdentV};

verus! {

/// Which operand/operator position a type error arose in; this drives
/// targeted diagnostics without the renderer re-deriving context.
#[derive(Clone, Copy, Debug, PartialEq, Eq, Structural)]
pub enum TypeErrorCtx {
    /// The left operand is invalid for this operator in any use.
    InfixOpLhs { op: InfixOp },
    /// The right operand is invalid for this operator with this left type.
    InfixOpRhs { lhs: ValueType, op: InfixOp },
    Not,
    StringMul,
    Index,
    IndexOf,
    AssignToAssign,
    Condition,
    Range,
}

/// One diagnostic. Every stage accumulates all the errors it can detect
/// before returning; errors are values, never control flow.
#[derive(Debug)]
pub enum Error {
    TypeError { expected: Vec<ValueType>, got: SpannedValue, context: TypeErrorCtx },
    IndexError { index: i64, len: usize, lspan: Span, rspan: Span },
    SyntaxError { span: Span },
    ParsingError { span: Span },
    ReferenceError { name: String, span: Span },
    ReassignError { name: String, old_span: Span, new_span: Span },
    RecursionError { chain: Vec<SpannedIdent> },
    RangeIndexError { start: i64, end: i64, len: usize, lspan: Span, rspan: Span },
    NumericError { span: Span },
}

/// The mathematical model of a diagnostic.
#[verifier::ext_equal]
pub enum ErrorV {
    TypeError { expected: Seq<ValueType>, got: SpannedValueV, context: TypeErrorCtx },
    IndexError { index: int, len: int, lspan: Span, rspan: Span },
    SyntaxError { span: Span },
    ParsingError { span: Span },
    ReferenceError { name: Seq<char>, span: Span },
    ReassignError { name: Seq<char>, old_span: Span, new_span: Span },
    RecursionError { chain: Seq<SpannedIdentV> },
    RangeIndexError { start: int, end: int, len: int, lspan: Span, rspan: Span },
    NumericError { span: Span },
}

/// The model of a diagnostic.
pub open spec fn error_view(e: Error) -> ErrorV {
    match e {
        Error::TypeError { expected, got, context } => ErrorV::TypeError {
            expected: expected@,
            got: spanned_value_view(got),
            context,
        },
        Error::IndexError { index, len, lspan, rspan } => ErrorV::IndexError {
            index: index as int,
            len: len as int,
            lspan,
            rspan,
        },
        Error::SyntaxError { span } => ErrorV::SyntaxError { span },
        Error::ParsingError { span } => ErrorV::ParsingError { span },
        Error::ReferenceError { name, span } => ErrorV::ReferenceError { name: name@, span },
        Error::ReassignError { name, old_span, new_span } => ErrorV::ReassignError {
            name: name@,
            old_span,
            new_span,
        },
        Error::RecursionError { chain } => ErrorV::RecursionError {
            chain: Seq::new(chain@.len(), |i: int| chain@[i]@),
        },
        Error::RangeIndexError { start, end, len, lspan, rspan } => ErrorV::RangeIndexError {
            start: start as int,
            end: end as int,
            len: len as int,
            lspan,
            rspan,
        },
        Error::NumericError { span } => ErrorV::NumericError { span },
    }
}

impl View for Error {
    type V = ErrorV;

    open spec fn view(&self) -> ErrorV {
        error_view(*self)
    }
}

/// The models of a list of diagnostics, in order.
pub open spec fn error_seq_view(errors: Seq<Error>) -> Seq<ErrorV> {
    Seq::new(errors.len(), |i: int| error_view(errors[i]))
}

/// The display name of a runtime type, as it appears in diagnostics.
pub open spec fn spec_type_name(t: ValueType) -> Seq<char> {
    match t {
        ValueType::Num => "Num"@,
        ValueType::Int => "Int"@,
        ValueType::String => "String"@,
        ValueType::Bool => "Bool"@,
        ValueType::Array => "Array"@,
        ValueType::Error => "[ERROR]"@,
        ValueType::Assign => "Assign"@,
        ValueType::Range => "Range"@,
        ValueType::IRange => "IRange"@,
        ValueType::Any => "Any"@,
        ValueType::Null => "Null"@,
    }
}

impl ValueType {
    /// The display name of this type.
    pub fn name(&self) -> (r: String)
        ensures
            r@ == spec_type_name(*self),
    {
        match self {
            ValueType::Num => "Num".to_owned(),
            ValueType::Int => "Int".to_owned(),
            ValueType::String => "String".to_owned(),
            ValueType::Bool => "Bool".to_owned(),
            ValueType::Array => "Array".to_owned(),
            ValueType::Error => "[ERROR]".to_owned(),
            ValueType::Assign => "Assign".to_owned(),
            ValueType::Range => "Range".to_owned(),
            ValueType::IRange => "IRange".to_owned(),
            ValueType::Any => "Any".to_owned(),
            ValueType::Null => "Null".to_owned(),
        }
    }
}

/// The expected-type names joined with a comma-space separator.
pub open spec fn spec_joined_names(ts: Seq<ValueType>) -> Seq<char>
    decreases ts.len(),
{
    if ts.len() == 0 {
        Seq::empty()
    } else if ts.len() == 1 {
        spec_type_name(ts[0])
    } else {
        spec_type_name(ts[0]) + ", "@ + spec_joined_names(ts.drop_first())
    }
}

/// Every type name is at least one character long.
proof fn lemma_type_name_len(t: ValueType)
    ensures
        spec_type_name(t).len() >= 3,
{
    reveal_strlit("Num");
    reveal_strlit("Int");
    reveal_strlit("String");
    reveal_strlit("Bool");
    reveal_strlit("Array");
    reveal_strlit("[ERROR]");
    reveal_strlit("Assign");
    reveal_strlit("Range");
    reveal_strlit("IRange");
    reveal_strlit("Any");
    reveal_strlit("Null");
}

/// The joined names of a non-empty list are at least three characters long.
proof fn lemma_joined_names_len(ts: Seq<ValueType>)
    requires
        ts.len() >= 1,
    ensures
        spec_joined_names(ts).len() >= 3,
    decreases ts.len(),
{
    lemma_type_name_len(ts[0]);
    if ts.len() > 1 {
        lemma_joined_names_len(ts.drop_first());
    }
}

/// The expected-type list of a type error, rendered for display: the names
/// joined with a comma-space separator, with the final two characters cut
/// off (as the diagnostic renderer has always done).
#[verifier::loop_isolation(false)]
pub fn stringify_expected(expected: &Vec<ValueType>) -> (r: String)
    requires
        expected@.len() >= 1,
    ensures
        r@ == spec_joined_names(expected@).take(spec_joined_names(expected@).len() - 2),
{
    let mut out = String::new();
    let mut i: usize = 0;
    proof {
        lemma_joined_names_len(expected@);
        assert(expected@.skip(0) =~= expected@);
        assert(Seq::<char>::empty() + spec_joined_names(expected@) =~= spec_joined_names(
            expected@,
        ));
    }
    while i < expected.len()
        invariant
            0 <= i <= expected@.len(),
            expected@.len() >= 1,
            out@ + spec_joined_names(expected@.skip(i as int)) == spec_joined_names(expected@),
        decreases expected@.len() - i,
    {
        let name = expected[i].name();
        out.append(name.as_str());
        if i + 1 < expected.len() {
            out.append(", ");
        }
        proof {
            assert(expected@.skip(i as int).drop_first() =~= expected@.skip(i as int + 1));
            assert(expected@.skip(i as int).len() > 1 ==> spec_joined_names(
                expected@.skip(i as int),
            ) == spec_type_name(expected@[i as int]) + ", "@ + spec_joined_names(
                expected@.skip(i as int + 1),
            ));
            assert(out@ + spec_joined_names(expected@.skip(i as int + 1)) =~= spec_joined_names(
                expected@,
            ));
        }
        i = i + 1;
    }
    proof {
        assert(expected@.skip(expected@.len() as int) =~= Seq::<ValueType>::empty());
        assert(out@ =~= spec_joined_names(expected@));
    }
    let total = out.as_str().unicode_len();
    let cut = out.as_str().substring_char(0, total - 2).to_owned();
    proof {
        assert(cut@ =~= spec_joined_names(expected@).take(
            spec_joined_names(expected@).len() - 2,
        ));
    }
    cut
}

} // verus!
