use vstd::prelude::*;

verus! {

/// A source range used to tag tokens, syntax-tree nodes and diagnostics:
/// a line number together with the start and end character offsets.
#[derive(Debug, Clone, Copy, PartialEq, Eq, Structural)]
pub struct Span {
    pub line: usize,
    pub start: usize,
    pub end: usize,
}

impl Span {
    /// The sentinel range used for synthetic items such as end of input.
    pub fn zero() -> (s: Span)
        ensures
            s == (Span { line: 0, start: 0, end: 0 }),
    {
        Span { line: 0, start: 0, end: 0 }
    }

    /// The smallest range that covers both `self` and `other`.
    pub fn merge(&self, other: &Span) -> (s: Span)
        ensures
            s == self.spec_merge(*other),
    {
        let line = if self.line < other.line {
            self.line
        } else {
            other.line
        };
        let start = if self.start < other.start {
            self.start
        } else {
            other.start
        };
        let end = if self.end > other.end {
            self.end
        } else {
            other.end
        };
        Span { line, start, end }
    }

    pub open spec fn spec_merge(self, other: Span) -> Span {
        Span {
            line: if self.line <= other.line {
                self.line
            } else {
                other.line
            },
            start: if self.start <= other.start {
                self.start
            } else {
                other.start
            },
            end: if self.end >= other.end {
                self.end
            } else {
                other.end
            },
        }
    }
}

} // verus!
