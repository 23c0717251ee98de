//! Source positions.

use vstd::prelude::*;

verus! {

/// A range of the source text: a byte offset and a byte length.
#[derive(Clone, Copy, Debug, PartialEq, Eq, Structural)]
pub struct Span {
    pub offset: usize,
    pub len: usize,
}

/// The range that starts where `start` starts and ends where `end` ends.
/// When `end` stops before `start` begins the result is the empty range at
/// the start of `start`.
pub open spec fn covering(start: Span, end: Span) -> Span {
    if end.end() >= start.offset {
        Span { offset: start.offset, len: (end.end() - start.offset) as usize }
    } else {
        Span { offset: start.offset, len: 0 }
    }
}

/// The empty range directly behind `span`.
pub open spec fn just_after(span: Span) -> Span {
    Span { offset: span.end() as usize, len: 0 }
}

impl Span {
    /// The offset just past the last byte of the range.
    pub open spec fn end(self) -> int {
        self.offset + self.len
    }

    /// Whether the end of the range is representable as an offset.
    pub open spec fn bounded(self) -> bool {
        self.end() <= usize::MAX
    }

    /// The range of `len` bytes that begins at `offset`.
    pub fn new(offset: usize, len: usize) -> (s: Span)
        ensures
            s == (Span { offset, len }),
    {
        Span { offset, len }
    }
}

} // verus!
