use vstd::prelude::*;

verus! {

/// A half-open byte-offset range `[start, end)` into the source text. Every
/// token, AST node and runtime value carries one; spans are used only for
/// diagnostics, never for semantics.
#[derive(Clone, Copy, Debug, PartialEq, Eq, Structural)]
pub struct Span {
    pub start: usize,
    pub end: usize,
}

impl Span {
    pub fn new(start: usize, end: usize) -> (r: Span)
        ensures
            r.start == start,
            r.end == end,
    {
        Span { start, end }
    }

    /// The span covering two spans: from the start of `self` to the end of
    /// `other`. Used by the parser to give a binary node the union of its
    /// operands' spans.
    pub fn to(self, other: Span) -> (r: Span)
        ensures
            r.start == self.start,
            r.end == other.end,
    {
        Span { start: self.start, end: other.end }
    }
}

} // verus!
