//! Source locations: half-open byte ranges over the original input buffer.

use vstd::prelude::*;

verus! {

/// A half-open byte range `[start, end)` locating a lexeme in the source
/// buffer.  Offsets are measured in bytes of the UTF-8 encoding of the
/// original input, never in code points, so a span is always a valid slice
/// boundary pair.  A span is immutable once created.
#[derive(Debug, Clone, Copy, PartialEq, Eq, Structural)]
pub struct Span {
    /// Byte offset of the first byte of the lexeme.
    pub start: usize,
    /// Byte offset one past the last byte of the lexeme.
    pub end: usize,
}

impl Span {
    /// A span is well formed when it describes a non-negative range.
    pub open spec fn wf(&self) -> bool {
        self.start <= self.end
    }

    /// Build a span from its two byte offsets.
    pub fn new(start: usize, end: usize) -> (s: Span)
        requires
            start <= end,
        ensures
            s.start == start,
            s.end == end,
            s.wf(),
    {
        Span { start, end }
    }

    /// The placeholder "no location" span, used for tokens that are built
    /// outside of any scan of a source buffer.
    pub fn dummy() -> (s: Span)
        ensures
            s.start == 0,
            s.end == 0,
            s.wf(),
    {
        Span { start: 0, end: 0 }
    }
}

} // verus!
