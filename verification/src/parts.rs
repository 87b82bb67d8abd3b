//! How something larger than one segment is said in several, and read back as
//! one.
//!
//! A drop is one fixed size, so a message larger than [`MAX_PAYLOAD`] becomes a
//! run of segments on the author's own lane, each an ordinary segment to any
//! host. Four bytes at the front of each part say which part it is and how many
//! there are: the chain already implies both, and the header is there so that a
//! run interrupted by a killed writer is detected rather than joined to
//! whatever the author says next.

use vstd::prelude::*;

use crate::payload::MAX_PAYLOAD;
use crate::segment::{Freight, FreightView, Purpose, SegmentError};
use crate::wire::{be_bytes, be_value, lemma_be_bytes_len, lemma_be_value_of_bytes, lemma_pow256_widths, push_be};

verus! {

/// How much of one part is the message rather than the four-byte header.
///
/// Four bytes less than a whole segment carries, which is why a message that
/// fits in one segment is never divided.
pub const PART_ROOM: u32 = 126_335;

/// The room and the header together fill one segment.
pub proof fn lemma_part_room()
    ensures
        PART_ROOM + 4 == MAX_PAYLOAD,
{
}

/// One part of a run, as it was read off a segment.
#[derive(Clone, Copy, Debug, PartialEq, Eq)]
pub struct Part<'a> {
    /// Where it sits, counting from zero.
    pub index: u16,
    /// How many parts the whole message has, always at least two.
    pub total: u16,
    /// The bytes of the message this part carries.
    pub bytes: &'a [u8],
}

/// The payload of part `index` of `total`, carrying `bytes`.
pub open spec fn part_bytes(index: u16, total: u16, bytes: Seq<u8>) -> Seq<u8> {
    be_bytes(index as nat, 2) + be_bytes(total as nat, 2) + bytes
}

/// What reading a part's header off `payload` answers: where it sits, how many
/// there are, and what it carries, or nothing when the header is not coherent.
pub open spec fn part_spec(payload: Seq<u8>) -> Option<(u16, u16, Seq<u8>)> {
    if payload.len() < 4 {
        None
    } else {
        let index = be_value(payload.subrange(0, 2));
        let total = be_value(payload.subrange(2, 4));
        if total < 2 || index >= total {
            None
        } else {
            Some((index as u16, total as u16, payload.subrange(4, payload.len() as int)))
        }
    }
}

/// A header reads back as the place it was written with.
pub proof fn lemma_part_round_trip(index: u16, total: u16, bytes: Seq<u8>)
    requires
        2 <= total,
        index < total,
    ensures
        part_spec(part_bytes(index, total, bytes)) == Some((index, total, bytes)),
{
    let payload = part_bytes(index, total, bytes);
    lemma_pow256_widths();
    lemma_be_bytes_len(index as nat, 2);
    lemma_be_bytes_len(total as nat, 2);
    lemma_be_value_of_bytes(index as nat, 2);
    lemma_be_value_of_bytes(total as nat, 2);
    assert(payload.subrange(0, 2) =~= be_bytes(index as nat, 2));
    assert(payload.subrange(2, 4) =~= be_bytes(total as nat, 2));
    assert(payload.subrange(4, payload.len() as int) =~= bytes);
}

impl<'a> Part<'a> {
    /// Reads a part's header off the payload of a [`Purpose::Part`] segment.
    ///
    /// [`None`] for a payload without a coherent header: a run of one is a
    /// message that was not divided, and a part that claims to sit at or past
    /// the end of its own run is nothing a reader can place.
    pub fn of(payload: &'a [u8]) -> (part: Option<Self>)
        ensures
            match part_spec(payload@) {
                None => part is None,
                Some((index, total, bytes)) => part matches Some(found) && found.index == index
                    && found.total == total && found.bytes@ == bytes,
            },
    {
        if payload.len() < 4 {
            return None;
        }
        let index = payload[0] as u16 * 256 + payload[1] as u16;
        let total = payload[2] as u16 * 256 + payload[3] as u16;
        proof {
            reveal_with_fuel(be_value, 3);
            assert(payload@.subrange(0, 2).drop_last() =~= seq![payload@[0]]);
            assert(seq![payload@[0]].drop_last() =~= Seq::<u8>::empty());
            assert(payload@.subrange(2, 4).drop_last() =~= seq![payload@[2]]);
            assert(seq![payload@[2]].drop_last() =~= Seq::<u8>::empty());
        }
        if total < 2 || index >= total {
            return None;
        }
        let bytes = vstd::slice::slice_subrange(payload, 4, payload.len());
        Some(Part { index, total, bytes })
    }
}

impl Freight {
    /// One part of a run, carrying `bytes` as part `index` of `total`.
    ///
    /// [`SegmentError::PayloadTooLarge`] when `bytes` exceeds [`PART_ROOM`].
    pub fn part(index: u16, total: u16, bytes: &[u8]) -> (made: Result<Self, SegmentError>)
        requires
            bytes@.len() + 4 <= usize::MAX,
        ensures
            bytes@.len() <= PART_ROOM ==> (made matches Ok(freight) && freight@ == (FreightView {
                payload: part_bytes(index, total, bytes@),
                purpose: Purpose::Part,
                acknowledged: 0,
            })),
            bytes@.len() > PART_ROOM ==> made == Err::<Self, SegmentError>(
                SegmentError::PayloadTooLarge { len: (bytes@.len() + 4) as usize, limit: MAX_PAYLOAD },
            ),
    {
        let mut payload: Vec<u8> = Vec::new();
        push_be(&mut payload, index as u64, 2);
        push_be(&mut payload, total as u64, 2);
        payload.extend_from_slice(bytes);
        proof {
            lemma_be_bytes_len(index as nat, 2);
            lemma_be_bytes_len(total as nat, 2);
        }
        assert(payload@ =~= part_bytes(index, total, bytes@));
        Self::parted(payload)
    }
}

/// How many parts a message of `len` bytes becomes: `len / PART_ROOM`, rounded
/// up.
pub open spec fn part_count(len: nat) -> nat {
    ((len + PART_ROOM - 1) / (PART_ROOM as int)) as nat
}

/// The bytes part `at` of a run carries: the `at`-th stretch of
/// [`PART_ROOM`] bytes, the last one shorter.
pub open spec fn chunk(payload: Seq<u8>, at: int) -> Seq<u8> {
    let start = at * PART_ROOM;
    let end = if payload.len() - start > PART_ROOM { start + PART_ROOM } else { payload.len() as int };
    payload.subrange(start, end)
}

/// The most bytes a run of `most` parts carries, or the largest `usize` where
/// that many would not fit one.
pub open spec fn run_limit(most: u16) -> nat {
    if PART_ROOM * most > usize::MAX {
        usize::MAX as nat
    } else {
        (PART_ROOM * most) as nat
    }
}

/// What dividing `payload` for a ward that allows `most` segments per message
/// answers: the message itself when it fits in one segment, else the run of
/// parts that carries it, or the refusal with the limit in it.
pub open spec fn divide_spec(payload: Seq<u8>, most: u16) -> Result<Seq<FreightView>, SegmentError> {
    let limit = run_limit(most);
    if payload.len() <= MAX_PAYLOAD {
        Ok(seq![FreightView { payload, purpose: Purpose::Message, acknowledged: 0 }])
    } else if payload.len() > limit {
        Err(SegmentError::MessageTooLarge { len: payload.len() as usize, limit: limit as usize })
    } else {
        let total = part_count(payload.len());
        Ok(
            Seq::new(
                total,
                |at: int|
                    FreightView {
                        payload: part_bytes(at as u16, total as u16, chunk(payload, at)),
                        purpose: Purpose::Part,
                        acknowledged: 0,
                    },
            ),
        )
    }
}

/// The arithmetic of a run: it has at least two parts and at most `most`, the
/// last part holds the end of the message, and every part fits its room.
proof fn lemma_run_shape(len: nat, most: u16)
    requires
        MAX_PAYLOAD < len <= PART_ROOM * most,
    ensures
        2 <= part_count(len) <= most,
        (part_count(len) - 1) * PART_ROOM < len <= part_count(len) * PART_ROOM,
{
    let room = PART_ROOM as nat;
    let total = part_count(len);
    assert(total * room <= len + room - 1 < total * room + room) by (nonlinear_arith)
        requires
            total == (len + room - 1) / (room as int),
            room > 0,
    ;
    assert(total <= most) by (nonlinear_arith)
        requires
            total * room <= len + room - 1,
            len <= room * most,
            room > 0,
    ;
    assert(2 <= total) by (nonlinear_arith)
        requires
            total * room + room > len + room - 1,
            len > room + 4,
            room > 0,
    ;
    assert((total - 1) * room == total * room - room) by (nonlinear_arith);
}

/// Rounding up by division and remainder is the same count as [`part_count`].
proof fn lemma_part_count_by_division(len: nat)
    ensures
        part_count(len) == len / (PART_ROOM as nat) + if len % (PART_ROOM as nat) == 0 { 0nat } else { 1nat },
{
    let room = PART_ROOM as nat;
    let q = len / room;
    let r = len % room;
    assert(len == q * room + r && r < room) by (nonlinear_arith)
        requires
            room > 0,
            q == len / room,
            r == len % room,
    ;
    if r == 0 {
        assert((len + room - 1) / (room as int) == q) by (nonlinear_arith)
            requires
                len == q * room,
                room > 0,
        ;
    } else {
        assert((len + room - 1) / (room as int) == q + 1) by (nonlinear_arith)
            requires
                len == q * room + r,
                0 < r < room,
        ;
    }
}

/// The segments one message becomes: itself, or the run that carries it.
///
/// `most` is how many segments the caller's ward may take for one message;
/// [`SegmentError::MessageTooLarge`] when `payload` needs more than `most`
/// parts, refused before anything is written and with the limit in it.
pub fn divide(payload: &[u8], most: u16) -> (divided: Result<Vec<Freight>, SegmentError>)
    ensures
        match (divided, divide_spec(payload@, most)) {
            (Ok(freights), Ok(expected)) => freights@.len() == expected.len() && forall|at: int|
                0 <= at < expected.len() ==> #[trigger] freights@[at]@ == expected[at],
            (Err(error), Err(expected)) => error == expected,
            _ => false,
        },
{
    let len = payload.len();
    if len <= MAX_PAYLOAD as usize {
        let whole = match Freight::message(vstd::slice::slice_to_vec(payload)) {
            Ok(whole) => whole,
            Err(error) => return Err(error),
        };
        let mut one: Vec<Freight> = Vec::new();
        one.push(whole);
        return Ok(one);
    }
    let room: usize = PART_ROOM as usize;
    let limit: usize = match room.checked_mul(most as usize) {
        Some(product) => product,
        None => usize::MAX,
    };
    assert(limit == run_limit(most));
    if len > limit {
        return Err(SegmentError::MessageTooLarge { len, limit });
    }
    proof {
        lemma_run_shape(len as nat, most);
    }
    let whole_parts: usize = len / room;
    let total: u16 = if len % room == 0 {
        whole_parts as u16
    } else {
        (whole_parts + 1) as u16
    };
    proof {
        lemma_part_count_by_division(len as nat);
    }
    let ghost expected = divide_spec(payload@, most)->Ok_0;
    let mut out: Vec<Freight> = Vec::new();
    let mut at: u16 = 0;
    let mut start: usize = 0;
    while at < total
        invariant
            len == payload@.len(),
            room == PART_ROOM,
            MAX_PAYLOAD < len <= PART_ROOM * most,
            total == part_count(len as nat),
            2 <= total <= most,
            (total - 1) * PART_ROOM < len <= total * PART_ROOM,
            expected == divide_spec(payload@, most)->Ok_0,
            expected.len() == total,
            at <= total,
            at < total ==> start == at * PART_ROOM,
            out@.len() == at,
            forall|i: int| 0 <= i < at ==> #[trigger] out@[i]@ == expected[i],
        decreases total - at,
    {
        proof {
            assert(at * PART_ROOM <= (total - 1) * PART_ROOM) by (nonlinear_arith)
                requires
                    at < total,
            ;
            assert((at + 1) * PART_ROOM == at * PART_ROOM + PART_ROOM) by (nonlinear_arith);
        }
        let end = if len - start > room {
            start + room
        } else {
            len
        };
        let piece = vstd::slice::slice_subrange(payload, start, end);
        assert(piece@ == chunk(payload@, at as int));
        let freight = match Freight::part(at, total, piece) {
            Ok(freight) => freight,
            Err(error) => return Err(error),
        };
        out.push(freight);
        at = at + 1;
        start = end;
        proof {
            if at < total {
                assert(start == at * PART_ROOM);
            }
        }
    }
    Ok(out)
}

/// A message of at most one segment's payload is never divided: it travels as
/// itself, one message, unchanged.
pub proof fn lemma_one_segment_is_never_divided(payload: Seq<u8>, most: u16)
    requires
        payload.len() <= MAX_PAYLOAD,
    ensures
        divide_spec(payload, most) == Ok::<Seq<FreightView>, SegmentError>(
            seq![FreightView { payload, purpose: Purpose::Message, acknowledged: 0 }],
        ),
{
}

/// A larger message becomes a run whose every part reads back, in order, as
/// part `at` of the run's length, fits one segment, and whose pieces joined
/// in order are the message.
pub proof fn lemma_parts_reassemble(payload: Seq<u8>, most: u16)
    requires
        MAX_PAYLOAD < payload.len() <= PART_ROOM * most,
        payload.len() <= usize::MAX,
    ensures
        divide_spec(payload, most) is Ok,
        ({
            let run = divide_spec(payload, most)->Ok_0;
            let total = run.len();
            &&& 2 <= total <= most
            &&& forall|at: int|
                0 <= at < total ==> {
                    &&& #[trigger] part_spec(run[at].payload) == Some((at as u16, total as u16, chunk(payload, at)))
                    &&& run[at].purpose == Purpose::Part
                    &&& run[at].payload.len() <= MAX_PAYLOAD
                }
            &&& Seq::new(total, |at: int| chunk(payload, at)).flatten_alt() == payload
        }),
{
    let len = payload.len();
    lemma_run_shape(len, most);
    let total = part_count(len);
    let run = divide_spec(payload, most)->Ok_0;
    assert forall|at: int| 0 <= at < total implies {
        &&& #[trigger] part_spec(run[at].payload) == Some((at as u16, total as u16, chunk(payload, at)))
        &&& run[at].purpose == Purpose::Part
        &&& run[at].payload.len() <= MAX_PAYLOAD
    } by {
        lemma_part_round_trip(at as u16, total as u16, chunk(payload, at));
        lemma_be_bytes_len(at as nat, 2);
        lemma_be_bytes_len(total as nat, 2);
        assert(at * PART_ROOM <= (total - 1) * PART_ROOM) by (nonlinear_arith)
            requires
                at < total,
        ;
    }
    lemma_chunks_join(payload, total);
    assert(payload.subrange(0, len as int) =~= payload);
}

/// A message on a channel, which may take 32 segments, is carried whole up to
/// 4 042 720 bytes, and one in a room, which may take 64, up to 8 085 440: as
/// itself or as a run of at most that many parts, none larger than one
/// segment's payload.
pub proof fn lemma_channel_and_room_sizes(payload: Seq<u8>, most: u16)
    requires
        (most == 32 && payload.len() <= 4_042_720) || (most == 64 && payload.len() <= 8_085_440),
    ensures
        divide_spec(payload, most) is Ok,
        1 <= divide_spec(payload, most)->Ok_0.len() <= most,
        forall|at: int|
            0 <= at < divide_spec(payload, most)->Ok_0.len() ==> (#[trigger] divide_spec(payload, most)->Ok_0[at]).payload.len()
                <= MAX_PAYLOAD,
{
    if payload.len() > MAX_PAYLOAD {
        lemma_parts_reassemble(payload, most);
        let run = divide_spec(payload, most)->Ok_0;
        assert forall|at: int| 0 <= at < run.len() implies (#[trigger] run[at]).payload.len() <= MAX_PAYLOAD by {
            assert(part_spec(run[at].payload) is Some);
        }
    }
}

/// The first `count` pieces of a message, joined, are its first
/// `count * PART_ROOM` bytes, or all of it.
proof fn lemma_chunks_join(payload: Seq<u8>, count: nat)
    requires
        (count - 1) * PART_ROOM < payload.len() || count == 0,
    ensures
        Seq::new(count, |at: int| chunk(payload, at)).flatten_alt() == payload.subrange(
            0,
            if payload.len() - count * PART_ROOM > 0 { count * PART_ROOM } else { payload.len() as int },
        ),
    decreases count,
{
    let pieces = Seq::new(count, |at: int| chunk(payload, at));
    if count == 0 {
        assert(pieces.flatten_alt() =~= payload.subrange(0, 0));
    } else {
        let before = (count - 1) as nat;
        assert(before * PART_ROOM == count * PART_ROOM - PART_ROOM) by (nonlinear_arith)
            requires
                before == count - 1,
        ;
        assert(before == 0 || (before - 1) * PART_ROOM < payload.len()) by (nonlinear_arith)
            requires
                (count - 1) * PART_ROOM < payload.len(),
                before == count - 1,
        ;
        lemma_chunks_join(payload, before);
        assert(pieces.drop_last() =~= Seq::new(before, |at: int| chunk(payload, at)));
        assert(pieces.flatten_alt() == pieces.drop_last().flatten_alt() + pieces.last());
        assert(pieces.flatten_alt() =~= payload.subrange(
            0,
            if payload.len() - count * PART_ROOM > 0 { count * PART_ROOM } else { payload.len() as int },
        ));
    }
}

} // verus!
