//! What a segment carries, apart from the chain that holds it in place.
//!
//! Three facts travel together because a caller decides all three at once:
//! the bytes, whether they are anything anybody meant to say, and how far the
//! author had verified the other side when they wrote.

use vstd::prelude::*;

use crate::payload::{Payload, MAX_PAYLOAD};
use crate::segment::SegmentError;
use crate::wire::{
    be_bytes, be_value, lemma_be_bytes_len, lemma_be_value_of_bytes, lemma_be_value_spells, lemma_pow256_widths,
    push_be, Incomplete, Reader,
};

verus! {

/// Why a segment exists.
#[derive(Clone, Copy, PartialEq, Eq, Structural, Debug)]
pub enum Purpose {
    /// The author meant to say this.
    Message,
    /// The author had nothing to say and the slot came round anyway. Sealed,
    /// chained and counted exactly like a message, and never reported.
    Filler,
    /// One piece of a message too large for one segment; its payload starts
    /// with the header [`crate::Part::of`] reads.
    Part,
}

impl Purpose {
    /// The byte each purpose is written as.
    pub open spec fn byte_spec(self) -> u8 {
        match self {
            Purpose::Message => 0,
            Purpose::Filler => 1,
            Purpose::Part => 2,
        }
    }

    /// What reading a purpose byte answers.
    pub open spec fn of_spec(byte: u8) -> Result<Purpose, SegmentError> {
        if byte == 0 {
            Ok(Purpose::Message)
        } else if byte == 1 {
            Ok(Purpose::Filler)
        } else if byte == 2 {
            Ok(Purpose::Part)
        } else {
            Err(SegmentError::UnknownPurpose { purpose: byte })
        }
    }

    /// The byte this purpose is written as.
    pub(crate) fn byte(self) -> (byte: u8)
        ensures
            byte == self.byte_spec(),
    {
        match self {
            Purpose::Message => 0,
            Purpose::Filler => 1,
            Purpose::Part => 2,
        }
    }

    /// Reads the byte back, refusing one this build does not know.
    pub(crate) fn of(byte: u8) -> (purpose: Result<Purpose, SegmentError>)
        ensures
            purpose == Self::of_spec(byte),
    {
        if byte == 0 {
            Ok(Purpose::Message)
        } else if byte == 1 {
            Ok(Purpose::Filler)
        } else if byte == 2 {
            Ok(Purpose::Part)
        } else {
            Err(SegmentError::UnknownPurpose { purpose: byte })
        }
    }
}

/// Each purpose reads back as itself, and only the three bytes are purposes.
pub proof fn lemma_purpose_byte_round_trip(purpose: Purpose)
    ensures
        Purpose::of_spec(purpose.byte_spec()) == Ok::<Purpose, SegmentError>(purpose),
{
}

/// Everything a segment carries that the chain does not decide, as a value.
pub struct FreightView {
    /// The opaque bytes.
    pub payload: Seq<u8>,
    /// Whether the author meant them.
    pub purpose: Purpose,
    /// How many of the reader's segments the author had verified.
    pub acknowledged: u64,
}

/// The three freight fields in their fixed order: acknowledgement, purpose,
/// declared length, then the payload itself.
pub open spec fn freight_bytes_spec(freight: FreightView) -> Seq<u8> {
    be_bytes(freight.acknowledged as nat, 8) + seq![freight.purpose.byte_spec()]
        + be_bytes(freight.payload.len(), 4) + freight.payload
}

/// The refusal for a field of `count` bytes starting at `at` that the input
/// does not hold.
pub open spec fn short(bytes: Seq<u8>, at: int, count: nat) -> SegmentError {
    SegmentError::Truncated(Incomplete { wanted: count as usize, had: (bytes.len() - at) as usize })
}

/// Reading the freight that starts at `at`: the freight and where it ends,
/// or the first refusal, in the order the fields are read.
pub open spec fn freight_spec(bytes: Seq<u8>, at: int) -> Result<(FreightView, int), SegmentError> {
    let n = bytes.len() as int;
    if n - at < 8 {
        Err(short(bytes, at, 8))
    } else if n - at - 8 < 1 {
        Err(short(bytes, at + 8, 1))
    } else {
        match Purpose::of_spec(bytes[at + 8]) {
            Err(error) => Err(error),
            Ok(purpose) => {
                if n - at - 9 < 4 {
                    Err(short(bytes, at + 9, 4))
                } else {
                    let declared = be_value(bytes.subrange(at + 9, at + 13));
                    let start = at + 13;
                    if n - start < declared {
                        Err(short(bytes, start, declared))
                    } else if declared > MAX_PAYLOAD {
                        Err(SegmentError::PayloadTooLarge { len: declared as usize, limit: MAX_PAYLOAD })
                    } else {
                        Ok(
                            (
                                FreightView {
                                    payload: bytes.subrange(start, start + declared),
                                    purpose,
                                    acknowledged: be_value(bytes.subrange(at, at + 8)) as u64,
                                },
                                start + declared,
                            ),
                        )
                    }
                }
            },
        }
    }
}

/// The freight's bytes read back as the freight, wherever they stand and
/// whatever follows them, and the reading ends where they end.
pub proof fn lemma_freight_round_trip(prefix: Seq<u8>, freight: FreightView, suffix: Seq<u8>)
    requires
        freight.payload.len() <= MAX_PAYLOAD,
    ensures
        freight_spec(prefix + freight_bytes_spec(freight) + suffix, prefix.len() as int) == Ok::<
            (FreightView, int),
            SegmentError,
        >((freight, (prefix.len() + freight_bytes_spec(freight).len()) as int)),
{
    let body = freight_bytes_spec(freight);
    let bytes = prefix + body + suffix;
    let at = prefix.len() as int;
    let ack = be_bytes(freight.acknowledged as nat, 8);
    let len = be_bytes(freight.payload.len(), 4);
    lemma_pow256_widths();
    lemma_be_bytes_len(freight.acknowledged as nat, 8);
    lemma_be_bytes_len(freight.payload.len(), 4);
    lemma_be_value_of_bytes(freight.acknowledged as nat, 8);
    lemma_be_value_of_bytes(freight.payload.len(), 4);
    lemma_purpose_byte_round_trip(freight.purpose);
    assert(bytes.subrange(at, at + 8) =~= ack);
    assert(bytes[at + 8] == freight.purpose.byte_spec());
    assert(bytes.subrange(at + 9, at + 13) =~= len);
    assert(bytes.subrange(at + 13, at + 13 + freight.payload.len()) =~= freight.payload);
    assert(body.len() == 13 + freight.payload.len());
}

/// Whatever reads as freight is spelled exactly by the bytes it was read
/// from, and holds no more than one segment carries.
pub proof fn lemma_freight_spelled(bytes: Seq<u8>, at: int)
    requires
        0 <= at <= bytes.len(),
        freight_spec(bytes, at) is Ok,
    ensures
        ({
            let (freight, end) = freight_spec(bytes, at)->Ok_0;
            &&& at <= end <= bytes.len()
            &&& freight.payload.len() <= MAX_PAYLOAD
            &&& bytes.subrange(at, end) == freight_bytes_spec(freight)
        }),
{
    let (freight, end) = freight_spec(bytes, at)->Ok_0;
    let ack = bytes.subrange(at, at + 8);
    let len = bytes.subrange(at + 9, at + 13);
    lemma_pow256_widths();
    lemma_be_value_spells(ack);
    lemma_be_value_spells(len);
    assert(freight.acknowledged as nat == be_value(ack));
    let purpose = freight.purpose;
    assert(purpose.byte_spec() == bytes[at + 8]);
    assert(bytes.subrange(at, end) =~= freight_bytes_spec(freight));
}

/// Everything a segment carries that the chain does not decide.
#[derive(PartialEq, Eq, Debug)]
pub struct Freight {
    pub(crate) payload: Payload,
    pub(crate) purpose: Purpose,
    pub(crate) acknowledged: u64,
}

impl View for Freight {
    type V = FreightView;

    closed spec fn view(&self) -> FreightView {
        FreightView {
            payload: self.payload@,
            purpose: self.purpose,
            acknowledged: self.acknowledged,
        }
    }
}

impl Freight {
    /// Something the author meant to send, acknowledging nothing yet.
    pub fn message(payload: Vec<u8>) -> (made: Result<Self, SegmentError>)
        ensures
            payload@.len() <= MAX_PAYLOAD ==> (made matches Ok(freight) && freight@ == (FreightView {
                payload: payload@,
                purpose: Purpose::Message,
                acknowledged: 0,
            })),
            payload@.len() > MAX_PAYLOAD ==> made == Err::<Self, SegmentError>(
                SegmentError::PayloadTooLarge { len: payload@.len() as usize, limit: MAX_PAYLOAD },
            ),
    {
        match Payload::new(payload) {
            Ok(payload) => Ok(Freight { payload, purpose: Purpose::Message, acknowledged: 0 }),
            Err(error) => Err(error),
        }
    }

    /// A slot filled because it came round, carrying nothing.
    pub fn filler() -> (made: Result<Self, SegmentError>)
        ensures
            made matches Ok(freight) && freight@ == (FreightView {
                payload: Seq::empty(),
                purpose: Purpose::Filler,
                acknowledged: 0,
            }),
    {
        let empty: Vec<u8> = Vec::new();
        match Payload::new(empty) {
            Ok(payload) => Ok(Freight { payload, purpose: Purpose::Filler, acknowledged: 0 }),
            Err(error) => Err(error),
        }
    }

    /// One piece of a divided message, whose payload already holds its header.
    pub(crate) fn parted(payload: Vec<u8>) -> (made: Result<Self, SegmentError>)
        ensures
            payload@.len() <= MAX_PAYLOAD ==> (made matches Ok(freight) && freight@ == (FreightView {
                payload: payload@,
                purpose: Purpose::Part,
                acknowledged: 0,
            })),
            payload@.len() > MAX_PAYLOAD ==> made == Err::<Self, SegmentError>(
                SegmentError::PayloadTooLarge { len: payload@.len() as usize, limit: MAX_PAYLOAD },
            ),
    {
        match Payload::new(payload) {
            Ok(payload) => Ok(Freight { payload, purpose: Purpose::Part, acknowledged: 0 }),
            Err(error) => Err(error),
        }
    }

    /// Says how many of the reader's segments this author had verified.
    pub fn acknowledging(self, verified: u64) -> (said: Self)
        ensures
            said@ == (FreightView { acknowledged: verified, ..self@ }),
    {
        Freight { acknowledged: verified, ..self }
    }
}

impl Clone for Freight {
    fn clone(&self) -> (copy: Self)
        ensures
            copy@ == self@,
    {
        Freight { payload: self.payload.clone(), purpose: self.purpose, acknowledged: self.acknowledged }
    }
}

impl Freight {
    /// The bytes carried, never more than one segment holds.
    pub(crate) fn payload_bytes(&self) -> (bytes: &[u8])
        ensures
            bytes@ == self@.payload,
            self@.payload.len() <= MAX_PAYLOAD,
    {
        self.payload.bytes()
    }

    /// Why the author wrote it.
    pub(crate) fn purpose_of(&self) -> (purpose: Purpose)
        ensures
            purpose == self@.purpose,
    {
        self.purpose
    }

    /// How many of the reader's segments the author had verified.
    pub(crate) fn acknowledged_count(&self) -> (count: u64)
        ensures
            count == self@.acknowledged,
    {
        self.acknowledged
    }

    /// Appends the three fields in their fixed order.
    pub(crate) fn push_onto(&self, out: &mut Vec<u8>)
        ensures
            final(out)@ == old(out)@ + freight_bytes_spec(self@),
    {
        push_be(out, self.acknowledged, 8);
        out.push(self.purpose.byte());
        self.payload.push_declared_len(out);
        out.extend_from_slice(self.payload.bytes());
        assert(out@ =~= old(out)@ + freight_bytes_spec(self@));
    }

    /// Reads the three fields back at the reader's position, refusing a
    /// purpose this build does not know and a payload larger than one segment
    /// carries.
    pub(crate) fn take_from(reader: &mut Reader<'_>) -> (taken: Result<Freight, SegmentError>)
        ensures
            final(reader).input() == old(reader).input(),
            final(reader).position() <= final(reader).input().len(),
            match (taken, freight_spec(old(reader).input(), old(reader).position() as int)) {
                (Ok(freight), Ok((expected, end))) => freight@ == expected && final(reader).position() == end,
                (Err(error), Err(expected)) => error == expected,
                _ => false,
            },
    {
        let ghost bytes = reader.input();
        let ghost at = reader.position() as int;
        let acknowledged = match reader.take_u64() {
            Ok(value) => value,
            Err(error) => return Err(SegmentError::Truncated(error)),
        };
        proof {
            lemma_pow256_widths();
            lemma_be_value_of_bytes(acknowledged as nat, 8);
            assert(be_value(bytes.subrange(at, at + 8)) == acknowledged);
        }
        let byte = match reader.take_byte() {
            Ok(byte) => byte,
            Err(error) => return Err(SegmentError::Truncated(error)),
        };
        proof {
            assert(bytes.subrange(at + 8, at + 9)[0] == bytes[at + 8]);
            assert(seq![byte][0] == byte);
        }
        let purpose = match Purpose::of(byte) {
            Ok(purpose) => purpose,
            Err(error) => return Err(error),
        };
        let declared = match reader.take_u32() {
            Ok(value) => value,
            Err(error) => return Err(SegmentError::Truncated(error)),
        };
        proof {
            lemma_be_value_of_bytes(declared as nat, 4);
            assert(be_value(bytes.subrange(at + 9, at + 13)) == declared);
        }
        let slice = match reader.take(declared as usize) {
            Ok(slice) => slice,
            Err(error) => return Err(SegmentError::Truncated(error)),
        };
        let payload = match Payload::new(vstd::slice::slice_to_vec(slice)) {
            Ok(payload) => payload,
            Err(error) => return Err(error),
        };
        Ok(Freight { payload, purpose, acknowledged })
    }
}

} // verus!
