//! Half-open ranges of byte offsets into a source text.

use vstd::prelude::*;

verus! {

/// A half-open interval `[start, end)` of byte offsets.
///
/// A range is well formed when `start <= end`; every range that this library
/// hands out is.
#[derive(Clone, Copy, Debug, PartialEq, Eq, Hash, Structural)]
pub struct TextRange {
    pub start: u32,
    pub end: u32,
}

impl TextRange {
    /// The validity of a range: its start does not lie behind its end.
    pub open spec fn wf(self) -> bool {
        self.start <= self.end
    }

    /// Whether the range covers no offset at all.
    pub open spec fn empty(self) -> bool {
        self.start == self.end
    }

    /// Whether `offset` lies in `[start, end)`.
    pub open spec fn covers(self, offset: u32) -> bool {
        self.start <= offset < self.end
    }

    /// Whether `other` lies within this range, shared boundaries included.
    pub open spec fn encloses(self, other: TextRange) -> bool {
        self.start <= other.start && other.end <= self.end
    }

    /// Whether the two ranges touch or overlap, so that their common part is
    /// a range, possibly an empty one.
    pub open spec fn meets(self, other: TextRange) -> bool {
        self.start <= other.end && other.start <= self.end
    }

    /// The common part of two ranges that meet: from the later start to the
    /// earlier end.
    pub open spec fn common(self, other: TextRange) -> TextRange {
        TextRange {
            start: if self.start >= other.start { self.start } else { other.start },
            end: if self.end <= other.end { self.end } else { other.end },
        }
    }

    /// The common part of the two ranges, if no gap lies between them.
    pub open spec fn overlap(self, other: TextRange) -> Option<TextRange> {
        if self.common(other).wf() {
            Some(self.common(other))
        } else {
            None
        }
    }

    /// The range moved to the right by `delta`.
    pub open spec fn shifted(self, delta: u32) -> TextRange {
        TextRange { start: (self.start + delta) as u32, end: (self.end + delta) as u32 }
    }

    pub fn new(start: u32, end: u32) -> (r: TextRange)
        requires
            start <= end,
        ensures
            r == (TextRange { start, end }),
            r.wf(),
    {
        TextRange { start, end }
    }

    pub fn start(&self) -> (s: u32)
        ensures
            s == self.start,
    {
        self.start
    }

    pub fn end(&self) -> (e: u32)
        ensures
            e == self.end,
    {
        self.end
    }

    pub fn len(&self) -> (n: u32)
        requires
            self.wf(),
        ensures
            n == self.end - self.start,
    {
        self.end - self.start
    }

    pub fn is_empty(&self) -> (b: bool)
        ensures
            b == self.empty(),
    {
        self.start == self.end
    }

    pub fn contains(&self, offset: u32) -> (b: bool)
        ensures
            b == self.covers(offset),
    {
        self.start <= offset && offset < self.end
    }

    pub fn contains_range(&self, other: TextRange) -> (b: bool)
        ensures
            b == self.encloses(other),
    {
        self.start <= other.start && other.end <= self.end
    }

    /// The common part of the two ranges, or `None` when a gap lies between
    /// them. Ranges that only touch have an empty common part.
    pub fn intersect(&self, other: TextRange) -> (r: Option<TextRange>)
        ensures
            r == self.overlap(other),
            r matches Some(common) ==> common.wf(),
    {
        let start: u32 = if self.start >= other.start { self.start } else { other.start };
        let end: u32 = if self.end <= other.end { self.end } else { other.end };
        if end < start {
            None
        } else {
            Some(TextRange { start, end })
        }
    }

    /// The range moved to the right by `delta`.
    pub fn offset_by(&self, delta: u32) -> (r: TextRange)
        requires
            self.wf(),
            self.end + delta <= u32::MAX,
        ensures
            r == self.shifted(delta),
            r.wf(),
            r.end - r.start == self.end - self.start,
    {
        TextRange { start: self.start + delta, end: self.end + delta }
    }
}

} // verus!
