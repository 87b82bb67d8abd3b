//! Where a segment sits in its chain, and the witness that lets the next one
//! say so.
//!
//! A genesis segment cannot carry a predecessor or a reveal, and a following
//! segment cannot carry a signature: the two shapes of [`Link`] hold different
//! authenticators because they answer different questions.

use vstd::prelude::*;

use crate::identity::Signature;
use crate::segment::SegmentId;
use crate::trail::{Commitment, Reveal};

verus! {

/// A witness that a particular segment exists, and where it sits.
///
/// Outside this crate the only ways to hold one are [`crate::Segment::head`]
/// and [`ChainHead::recorded`], an endpoint's own note of a segment it held.
#[derive(Clone, Copy, PartialEq, Eq, Debug)]
pub struct ChainHead {
    id: SegmentId,
    index: u64,
    awaited: Commitment,
}

impl ChainHead {
    /// The segment this head witnesses, for specifications.
    pub closed spec fn id_spec(&self) -> SegmentId {
        self.id
    }

    /// How high that segment sits, for specifications.
    pub closed spec fn index_spec(&self) -> u64 {
        self.index
    }

    /// The commitment that segment made, for specifications.
    pub closed spec fn awaited_spec(&self) -> Commitment {
        self.awaited
    }

    /// Mints a witness; crate-private so that a head is a witness rather than
    /// three fields anybody can assert.
    pub(crate) fn new(id: SegmentId, index: u64, awaited: Commitment) -> (head: Self)
        ensures
            head.id_spec() == id,
            head.index_spec() == index,
            head.awaited_spec() == awaited,
    {
        ChainHead { id, index, awaited }
    }

    /// Rebuilds a head from a note this endpoint wrote about a segment it held.
    ///
    /// A false head cannot cause anything to be accepted: every use of a head
    /// is a comparison, so a corrupted record can only make this endpoint
    /// refuse a chain it should have accepted.
    pub fn recorded(id: SegmentId, index: u64, awaited: Commitment) -> (head: Self)
        ensures
            head.id_spec() == id,
            head.index_spec() == index,
            head.awaited_spec() == awaited,
    {
        ChainHead { id, index, awaited }
    }

    /// The segment this head witnesses.
    pub fn id(&self) -> (id: SegmentId)
        ensures
            id == self.id_spec(),
    {
        self.id
    }

    /// How high that segment sits.
    pub fn index(&self) -> (index: u64)
        ensures
            index == self.index_spec(),
    {
        self.index
    }

    /// The commitment that segment made about the one above it.
    pub fn awaited(&self) -> (awaited: Commitment)
        ensures
            awaited == self.awaited_spec(),
    {
        self.awaited
    }
}

/// Where a segment sits in its chain, and what authenticates it there.
#[derive(Clone, Copy, PartialEq, Eq, Debug)]
pub enum Link {
    /// The first segment of a chain: what it promises about height one, and
    /// the author's signature.
    Genesis { commit: Commitment, signature: Signature },
    /// Every later segment: its height (at least one), the segment directly
    /// beneath it, the proof that segment committed to, and what this one
    /// promises about the height above it.
    Follows { index: u64, previous: SegmentId, reveal: Reveal, commit: Commitment },
}

} // verus!
