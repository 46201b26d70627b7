//! Source locations.

use vstd::prelude::*;

verus! {

/// A location in the source code.
#[derive(Debug, Clone, Copy, PartialEq, Eq, Structural, Hash)]
pub struct Span {
    /// Where the location starts and ends.
    pub data: SpanData,
}

impl Span {
    /// A span over `data`.
    pub fn new(data: SpanData) -> (r: Self)
        ensures
            r.data == data,
    {
        Self { data }
    }

    /// The span that points nowhere.
    pub fn dummy() -> (r: Self)
        ensures
            r.data == SpanData::dummy_spec(),
    {
        Self { data: SpanData::dummy() }
    }
}

/// The bytes a span covers.
#[derive(Debug, Clone, Copy, PartialEq, Eq, Structural, Hash)]
pub struct SpanData {
    /// The first byte.
    pub lo: BytePos,
    /// The byte after the last.
    pub hi: BytePos,
}

impl SpanData {
    /// The data of the span that points nowhere: both ends at byte 0.
    pub open spec fn dummy_spec() -> SpanData {
        SpanData { lo: BytePos(0), hi: BytePos(0) }
    }

    /// The bytes from `lo` up to `hi`.
    pub fn new(lo: BytePos, hi: BytePos) -> (r: Self)
        ensures
            r.lo == lo,
            r.hi == hi,
    {
        Self { lo, hi }
    }

    /// Both ends at byte 0.
    pub fn dummy() -> (r: Self)
        ensures
            r == Self::dummy_spec(),
    {
        Self { lo: BytePos(0), hi: BytePos(0) }
    }
}

/// A byte offset in the source code.
#[derive(Debug, Clone, Copy, PartialEq, Eq, Structural, Hash, PartialOrd, Ord)]
pub struct BytePos(pub u32);

} // verus!
