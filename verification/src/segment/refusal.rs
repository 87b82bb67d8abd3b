//! Every way a segment can fail to be built or read, and the code for each.

use vstd::prelude::*;

use crate::identity::{Handle, NotAuthentic};
use crate::wire::Incomplete;

verus! {

/// Why a segment could not be built or read.
#[derive(Debug, Clone, Copy, PartialEq, Eq)]
#[allow(inconsistent_fields)]
pub enum SegmentError {
    /// The input ended in the middle of a field.
    Truncated(Incomplete),
    /// `count` bytes remain after a complete segment.
    TrailingBytes { count: usize },
    /// The leading tag is neither genesis nor follows.
    UnknownTag { tag: u8 },
    /// The purpose byte is none this build knows.
    UnknownPurpose { purpose: u8 },
    /// A genesis segment declared a non-zero height.
    GenesisIndexNotZero { index: u64 },
    /// A following segment declared height zero.
    FollowsIndexZero,
    /// A payload of `len` bytes exceeds the `limit` one segment carries.
    PayloadTooLarge { len: usize, limit: u32 },
    /// One message of `len` bytes needs more segments than the caller allows;
    /// `limit` is the most it may carry, in bytes.
    MessageTooLarge { len: usize, limit: usize },
    /// The declared payload length cannot be held by this platform.
    PayloadUnrepresentable { len: u32 },
    /// The segment names an author other than the one the caller expected.
    NotTheAuthor { expected: Handle, found: Handle },
    /// The signature does not cover these bytes under this author.
    NotAuthentic(NotAuthentic),
    /// The predecessor already sits at the last representable height.
    ChainExhausted,
}

impl SegmentError {
    /// A stable code for machine callers. Never changes once published.
    pub fn code(&self) -> (code: &'static str)
        ensures
            code@ == self.code_spec(),
    {
        match self {
            SegmentError::Truncated(_) => "segment.truncated",
            SegmentError::TrailingBytes { .. } => "segment.trailing",
            SegmentError::UnknownTag { .. } => "segment.tag",
            SegmentError::UnknownPurpose { .. } => "segment.purpose",
            SegmentError::GenesisIndexNotZero { .. } => "segment.genesis_index",
            SegmentError::FollowsIndexZero => "segment.follows_index",
            SegmentError::PayloadTooLarge { .. } => "segment.payload_too_large",
            SegmentError::MessageTooLarge { .. } => "segment.message_too_large",
            SegmentError::PayloadUnrepresentable { .. } => "segment.payload_unrepresentable",
            SegmentError::NotTheAuthor { .. } => "segment.not_the_author",
            SegmentError::NotAuthentic(_) => "segment.not_authentic",
            SegmentError::ChainExhausted => "segment.exhausted",
        }
    }

    /// The code of each failure.
    pub open spec fn code_spec(&self) -> Seq<char> {
        match self {
            SegmentError::Truncated(_) => "segment.truncated"@,
            SegmentError::TrailingBytes { .. } => "segment.trailing"@,
            SegmentError::UnknownTag { .. } => "segment.tag"@,
            SegmentError::UnknownPurpose { .. } => "segment.purpose"@,
            SegmentError::GenesisIndexNotZero { .. } => "segment.genesis_index"@,
            SegmentError::FollowsIndexZero => "segment.follows_index"@,
            SegmentError::PayloadTooLarge { .. } => "segment.payload_too_large"@,
            SegmentError::MessageTooLarge { .. } => "segment.message_too_large"@,
            SegmentError::PayloadUnrepresentable { .. } => "segment.payload_unrepresentable"@,
            SegmentError::NotTheAuthor { .. } => "segment.not_the_author"@,
            SegmentError::NotAuthentic(_) => "segment.not_authentic"@,
            SegmentError::ChainExhausted => "segment.exhausted"@,
        }
    }
}

} // verus!
