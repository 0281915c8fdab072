//! Source locations.

use vstd::prelude::*;

verus! {

/// An interned name.
#[derive(Clone, Copy, Debug, PartialEq, Eq, Structural)]
pub struct Ident(pub u64);

/// Identifies one source file.
#[derive(Clone, Copy, Debug, PartialEq, Eq, Structural)]
pub struct SrcId(pub u64);

/// A half-open range of character offsets inside one source file.
#[derive(Clone, Copy, Debug, PartialEq, Eq, Structural)]
pub struct Span {
    pub src: SrcId,
    pub start: usize,
    pub end: usize,
}

impl Span {
    /// The span `start..end` of the source `src`.
    pub fn new(src: SrcId, start: usize, end: usize) -> (s: Span)
        ensures
            s == (Span { src, start, end }),
    {
        Span { src, start, end }
    }

    /// The smallest range that covers both spans.
    pub open spec fn union_spec(self, other: Span) -> Span {
        Span {
            src: self.src,
            start: if self.start <= other.start { self.start } else { other.start },
            end: if self.end >= other.end { self.end } else { other.end },
        }
    }

    /// The smallest span that covers both `self` and `other`; it keeps the source of `self`.
    pub fn union(self, other: Span) -> (s: Span)
        ensures
            s == self.union_spec(other),
    {
        Span {
            src: self.src,
            start: if self.start <= other.start { self.start } else { other.start },
            end: if self.end >= other.end { self.end } else { other.end },
        }
    }
}

} // verus!
