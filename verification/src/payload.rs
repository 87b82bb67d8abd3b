//! How much a segment may carry, and the type that establishes it once.

use vstd::prelude::*;

use crate::segment::SegmentError;
use crate::wire::{be_bytes, push_be};

verus! {

/// The fixed part of a segment's canonical bytes, in bytes. Above genesis: tag
/// 1, index 8, previous 32, author 32, reveal 32, commitment 32, then the
/// acknowledgement 8, purpose 1 and payload length 4. A genesis segment has no
/// previous and no reveal, and its 64-byte signature takes their place.
pub const OVERHEAD: u32 = 150;

/// The largest canonical byte string a segment can have, in bytes.
pub const MAX_SEGMENT: usize = 126_489;

/// The largest payload a single segment may carry, in bytes.
pub const MAX_PAYLOAD: u32 = 126_339;

/// The two numbers describe one segment.
pub proof fn lemma_payload_fits_segment()
    ensures
        OVERHEAD + MAX_PAYLOAD == MAX_SEGMENT,
{
}

/// A validated payload: at most [`MAX_PAYLOAD`] bytes, with its length held
/// once as the four bytes that go on the wire.
#[derive(PartialEq, Eq, Debug)]
pub(crate) struct Payload {
    bytes: Vec<u8>,
    len: u32,
}

impl View for Payload {
    type V = Seq<u8>;

    closed spec fn view(&self) -> Seq<u8> {
        self.bytes@
    }
}

impl Clone for Payload {
    fn clone(&self) -> (copy: Self)
        ensures
            copy@ == self@,
    {
        proof {
            use_type_invariant(self);
        }
        let bytes = self.bytes.clone();
        assert(bytes@ =~= self.bytes@);
        Payload { bytes, len: self.len }
    }
}

impl Payload {
    #[verifier::type_invariant]
    pub(crate) closed spec fn fits(self) -> bool {
        &&& self.len == self.bytes@.len()
        &&& self.len <= MAX_PAYLOAD
    }

    /// Accepts `bytes` when they fit in one segment.
    pub(crate) fn new(bytes: Vec<u8>) -> (made: Result<Self, SegmentError>)
        ensures
            bytes@.len() <= MAX_PAYLOAD ==> (made matches Ok(payload) && payload@ == bytes@),
            bytes@.len() > MAX_PAYLOAD ==> made == Err::<Self, SegmentError>(
                SegmentError::PayloadTooLarge { len: bytes@.len() as usize, limit: MAX_PAYLOAD },
            ),
    {
        let len = bytes.len();
        if len > MAX_PAYLOAD as usize {
            return Err(SegmentError::PayloadTooLarge { len, limit: MAX_PAYLOAD });
        }
        Ok(Payload { bytes, len: len as u32 })
    }

    /// The opaque bytes themselves.
    pub(crate) fn bytes(&self) -> (bytes: &[u8])
        ensures
            bytes@ == self@,
            self@.len() <= MAX_PAYLOAD,
    {
        proof {
            use_type_invariant(self);
        }
        self.bytes.as_slice()
    }

    /// How many of them, as the four big-endian bytes that go on the wire.
    pub(crate) fn push_declared_len(&self, out: &mut Vec<u8>)
        ensures
            final(out)@ == old(out)@ + be_bytes(self@.len(), 4),
            self@.len() <= MAX_PAYLOAD,
    {
        proof {
            use_type_invariant(self);
        }
        push_be(out, self.len as u64, 4);
    }
}

} // verus!
