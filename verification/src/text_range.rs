//! Source positions, measured in characters from the start of the
//! input. Characters, not bytes, are the deliberate unit here: the
//! whole pipeline reasons about text as character sequences, and on
//! ASCII sources the two coincide.

use vstd::prelude::*;

verus! {

/// A contiguous range of the source text: `start` is inclusive, `end`
/// exclusive. Every node and token of the syntax tree carries one.
#[derive(Debug, Clone, Copy, PartialEq, Eq, Structural)]
pub struct TextRange {
    /// offset of the first character covered
    pub start: usize,
    /// offset one past the last character covered
    pub end: usize,
}

impl TextRange {
    /// True when the range does not run backwards.
    pub open spec fn wf(self) -> bool {
        self.start <= self.end
    }

    /// The number of characters covered.
    pub open spec fn spec_len(self) -> int {
        self.end - self.start
    }

    /// Builds the range `start..end`.
    pub fn new(start: usize, end: usize) -> (r: TextRange)
        requires
            start <= end,
        ensures
            r.start == start,
            r.end == end,
    {
        TextRange { start, end }
    }

    /// An empty range at offset zero.
    pub fn empty() -> (r: TextRange)
        ensures
            r.start == 0,
            r.end == 0,
    {
        TextRange { start: 0, end: 0 }
    }

    /// The number of characters covered.
    pub fn len(&self) -> (n: usize)
        requires
            self.wf(),
        ensures
            n == self.spec_len(),
    {
        self.end - self.start
    }

    /// True when `self` lies entirely within `other`.
    pub open spec fn spec_within(self, other: TextRange) -> bool {
        other.start <= self.start && self.end <= other.end
    }
}

} // verus!
