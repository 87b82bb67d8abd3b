//! The only thing that travels, and the bytes that define it.
//!
//! A segment's identity is the hash of its canonical bytes, so the encoding is
//! canonical in the strict sense: one segment, one byte string.
//!
//! ```text
//! genesis:  tag 1 + index 8 + author 32 + commit 32
//!           + ack 8 + purpose 1 + payload_len 4 + payload + signature 64
//! follows:  tag 1 + index 8 + previous 32 + author 32 + reveal 32 + commit 32
//!           + ack 8 + purpose 1 + payload_len 4 + payload
//! ```
//!
//! **Only the first segment of a chain is signed**, and the signature covers
//! only the author and the first commitment. Every segment above genesis shows
//! the one-time proof the segment below it committed to, which convinces the
//! reader who holds that commitment and nobody afterwards.

use vstd::prelude::*;
use vstd::std_specs::cmp::PartialEqSpecImpl;
use vstd::string::StringSliceAdditionalSpecFns;

use crate::digest::{digest_parse_spec, Digest, DigestParseError};
use crate::text::ascii_chars;
use crate::wire::hex_of;
use crate::hash::{blake3_hash, hash};
use crate::identity::{ed25519_public_key, ed25519_signature, handle_of_key, Handle, Signer};
use crate::link::{ChainHead, Link};
use crate::payload::MAX_PAYLOAD;
use crate::trail::{commitment_of, revealed_at, Commitment, Reveal, Trail};

pub mod canonical;
pub mod freight;
pub mod refusal;

pub use canonical::{canonical_bytes, decode_spec, signed_bytes_spec, SIGNING_DOMAIN};
pub use freight::{Freight, FreightView, Purpose};
pub use refusal::SegmentError;

verus! {

/// Domain separation for segment identity.
pub const SEGMENT_DOMAIN: &'static str = "kusanagi.segment.v4";

/// The content address of a segment: the hash of its canonical bytes.
#[derive(Clone, Copy, PartialOrd, Ord, Hash, Debug)]
pub struct SegmentId(Digest<32>);

impl View for SegmentId {
    type V = Seq<u8>;

    closed spec fn view(&self) -> Seq<u8> {
        self.0@
    }
}

impl PartialEq for SegmentId {
    fn eq(&self, other: &Self) -> (same: bool) {
        self.0 == other.0
    }
}

impl PartialEqSpecImpl for SegmentId {
    open spec fn obeys_eq_spec() -> bool {
        true
    }

    open spec fn eq_spec(&self, other: &Self) -> bool {
        self@ == other@
    }
}

impl Eq for SegmentId {
}

impl SegmentId {
    /// Wraps the raw bytes.
    pub fn from_bytes(bytes: [u8; 32]) -> (made: Self)
        ensures
            made@ == bytes@,
            made@.len() == 32,
    {
        SegmentId(Digest::from_bytes(bytes))
    }

    /// Borrows the raw bytes.
    pub fn as_bytes(&self) -> (bytes: &[u8; 32])
        ensures
            bytes@ == self@,
    {
        self.0.as_bytes()
    }

    /// The one text form: lowercase hexadecimal of the full width.
    pub fn to_string(&self) -> (text: String)
        ensures
            text@ == ascii_chars(hex_of(self@)),
    {
        self.0.to_string()
    }

    /// Reads back exactly what [`SegmentId::to_string`] writes, and nothing else.
    pub fn parse(text: &str) -> (parsed: Result<Self, DigestParseError>)
        ensures
            match (parsed, digest_parse_spec(text.spec_bytes(), 32)) {
                (Ok(made), Ok(bytes)) => made@ == bytes,
                (Err(error), Err(expected)) => error == expected,
                _ => false,
            },
    {
        match Digest::parse(text) {
            Ok(digest) => Ok(SegmentId(digest)),
            Err(error) => Err(error),
        }
    }
}

impl core::str::FromStr for SegmentId {
    type Err = DigestParseError;

    fn from_str(text: &str) -> (parsed: Result<Self, DigestParseError>)
        ensures
            match (parsed, digest_parse_spec(text.spec_bytes(), 32)) {
                (Ok(made), Ok(bytes)) => made@ == bytes,
                (Err(error), Err(expected)) => error == expected,
                _ => false,
            },
    {
        Self::parse(text)
    }
}

impl SegmentId {
    /// Every value holds exactly 32 bytes.
    pub proof fn lemma_width(value: Self)
        ensures
            value@.len() == 32,
    {
        Digest::<32>::lemma_width(value.0);
    }

    /// The value whose bytes are `bytes`, for specifications.
    pub closed spec fn spec_from(bytes: Seq<u8>) -> Self {
        SegmentId(Digest::spec_from(bytes))
    }

    /// A value built from 32 bytes holds exactly those bytes.
    pub proof fn lemma_spec_from(bytes: Seq<u8>)
        requires
            bytes.len() == 32,
        ensures
            Self::spec_from(bytes)@ == bytes,
    {
        Digest::<32>::lemma_spec_from(bytes);
    }

    /// Two values with the same bytes are the same value.
    pub proof fn lemma_same_bytes(a: Self, b: Self)
        requires
            a@ == b@,
        ensures
            a == b,
    {
        Digest::<32>::lemma_same_bytes(a.0, b.0);
    }
}

/// A segment as a value: where it sits, who wrote it, and what it carries.
pub struct SegmentView {
    /// Its place in the chain and what authenticates it there.
    pub link: Link,
    /// The handle it names as its author.
    pub author: Handle,
    /// What it carries.
    pub freight: FreightView,
}

impl SegmentView {
    /// What every segment value holds: a payload that fits in one segment,
    /// and a following segment above height zero.
    pub open spec fn well_formed(self) -> bool {
        &&& self.freight.payload.len() <= MAX_PAYLOAD
        &&& match self.link {
            Link::Genesis { .. } => true,
            Link::Follows { index, .. } => index >= 1,
        }
    }

    /// Its height; zero at genesis.
    pub open spec fn index(self) -> u64 {
        match self.link {
            Link::Genesis { .. } => 0,
            Link::Follows { index, .. } => index,
        }
    }

    /// What it promises about the height above it.
    pub open spec fn commit(self) -> Commitment {
        match self.link {
            Link::Genesis { commit, .. } => commit,
            Link::Follows { commit, .. } => commit,
        }
    }
}

/// What a segment made from the trail of `seed` holds: at genesis, the
/// commitment to the trail's proof at height one; above it, the trail's proof
/// at its own height and the commitment to the next.
pub open spec fn made_from(segment: SegmentView, seed: Seq<u8>) -> bool {
    match segment.link {
        Link::Genesis { commit, .. } => commit@ == commitment_of(revealed_at(seed, 1)),
        Link::Follows { index, reveal, commit, .. } => {
            &&& reveal@ == revealed_at(seed, index)
            &&& commit@ == commitment_of(revealed_at(seed, (index + 1) as u64))
        },
    }
}

/// A segment of a trail, one height above another of the same trail, shows
/// exactly the proof the one below committed to. That comparison is what a
/// reader walking the chain makes, and the only authentication a following
/// segment has.
pub proof fn lemma_trail_links(below: SegmentView, above: SegmentView, seed: Seq<u8>)
    requires
        made_from(below, seed),
        made_from(above, seed),
        above.link matches Link::Follows { index, .. } && index == below.index() + 1,
    ensures
        above.link matches Link::Follows { reveal, .. } && commitment_of(reveal@) == below.commit()@,
{
}

/// The content address of the segment `segment`.
pub open spec fn segment_id_of(segment: SegmentView) -> Seq<u8> {
    blake3_hash(SEGMENT_DOMAIN.spec_bytes() + canonical_bytes(segment))
}

/// The only thing that crosses a boundary.
#[derive(PartialEq, Eq, Debug)]
pub struct Segment {
    link: Link,
    author: Handle,
    freight: Freight,
}

impl View for Segment {
    type V = SegmentView;

    closed spec fn view(&self) -> SegmentView {
        SegmentView { link: self.link, author: self.author, freight: self.freight@ }
    }
}

impl Clone for Segment {
    fn clone(&self) -> (copy: Self)
        ensures
            copy@ == self@,
    {
        proof {
            use_type_invariant(self);
        }
        Segment { link: self.link, author: self.author, freight: self.freight.clone() }
    }
}

impl Segment {
    #[verifier::type_invariant]
    pub(crate) closed spec fn placed(self) -> bool {
        match self.link {
            Link::Genesis { .. } => true,
            Link::Follows { index, .. } => index >= 1,
        }
    }

    /// Every segment value is well formed.
    pub fn check_well_formed(&self)
        ensures
            self@.well_formed(),
    {
        proof {
            use_type_invariant(self);
        }
        let _ = self.freight.payload_bytes();
    }

    /// Starts a chain: the one signed segment, and the one that fixes what
    /// height one must show.
    ///
    /// The signature covers the author and the first commitment, never the
    /// freight.
    pub fn genesis(signer: &Signer, trail: &Trail, freight: Freight) -> (started: Result<Self, SegmentError>)
        ensures
            started matches Ok(segment) && made_from(segment@, trail.seed()) && {
                &&& segment@.author@ == handle_of_key(ed25519_public_key(signer.seed()))
                &&& segment@.freight == freight@
                &&& segment@.link matches Link::Genesis { commit, signature }
                &&& commit@ == commitment_of(revealed_at(trail.seed(), 1))
                &&& signature@ == ed25519_signature(
                    signer.seed(),
                    signed_bytes_spec(segment@.author, commit),
                )
            },
    {
        let author = signer.handle();
        let commit = trail.commitment(1);
        let signature = signer.sign(canonical::signed_bytes(&author, commit).as_slice());
        Ok(Segment { link: Link::Genesis { commit, signature }, author, freight })
    }

    /// Extends a chain by one, from a head rather than the predecessor itself.
    ///
    /// No signer: the trail is the authority, and the reveal it produces at
    /// this height is what the segment below already promised.
    /// [`SegmentError::ChainExhausted`] when the head sits at the last
    /// representable height, or the height above it has no successor to commit
    /// to.
    pub fn extend(trail: &Trail, author: Handle, freight: Freight, head: ChainHead) -> (extended: Result<Self, SegmentError>)
        ensures
            head.index_spec() >= u64::MAX - 1 ==> extended == Err::<Self, SegmentError>(SegmentError::ChainExhausted),
            head.index_spec() < u64::MAX - 1 ==> (extended matches Ok(segment) && made_from(segment@, trail.seed()) && {
                &&& segment@.author == author
                &&& segment@.freight == freight@
                &&& segment@.link matches Link::Follows { index, previous, reveal, commit }
                &&& index == head.index_spec() + 1
                &&& previous == head.id_spec()
                &&& reveal@ == revealed_at(trail.seed(), index)
                &&& commit@ == commitment_of(revealed_at(trail.seed(), (index + 1) as u64))
            }),
    {
        let height = match head.index().checked_add(1) {
            Some(height) => height,
            None => return Err(SegmentError::ChainExhausted),
        };
        let next = match height.checked_add(1) {
            Some(next) => next,
            None => return Err(SegmentError::ChainExhausted),
        };
        Ok(Segment {
            link: Link::Follows {
                index: height,
                previous: head.id(),
                reveal: trail.reveal_at(height),
                commit: trail.commitment(next),
            },
            author,
            freight,
        })
    }

    /// This segment's content address.
    pub fn id(&self) -> (id: SegmentId)
        ensures
            id@ == segment_id_of(self@),
    {
        let domain = SEGMENT_DOMAIN.as_bytes();
        let mut input = vstd::slice::slice_to_vec(domain);
        let canonical = self.to_canonical_bytes();
        input.extend_from_slice(canonical.as_slice());
        assert(input@ =~= SEGMENT_DOMAIN.spec_bytes() + canonical_bytes(self@));
        SegmentId::from_bytes(hash(input.as_slice()))
    }

    /// A witness of this segment, for whoever extends the chain next.
    pub fn head(&self) -> (head: ChainHead)
        ensures
            head.id_spec()@ == segment_id_of(self@),
            head.index_spec() == self@.index(),
            head.awaited_spec() == self@.commit(),
    {
        ChainHead::new(self.id(), self.index(), self.commit())
    }

    /// This segment's height in its chain; zero for a genesis segment.
    pub fn index(&self) -> (index: u64)
        ensures
            index == self@.index(),
    {
        match self.link {
            Link::Genesis { .. } => 0,
            Link::Follows { index, .. } => index,
        }
    }

    /// The segment directly beneath this one, absent only at genesis.
    pub fn previous(&self) -> (previous: Option<SegmentId>)
        ensures
            previous == match self@.link {
                Link::Genesis { .. } => None,
                Link::Follows { previous, .. } => Some(previous),
            },
    {
        match self.link {
            Link::Genesis { .. } => None,
            Link::Follows { previous, .. } => Some(previous),
        }
    }

    /// What this segment promises about the one above it.
    pub fn commit(&self) -> (commit: Commitment)
        ensures
            commit == self@.commit(),
    {
        match self.link {
            Link::Genesis { commit, .. } => commit,
            Link::Follows { commit, .. } => commit,
        }
    }

    /// The proof this segment shows, absent only at genesis.
    pub fn reveal_shown(&self) -> (shown: Option<Reveal>)
        ensures
            shown == match self@.link {
                Link::Genesis { .. } => None,
                Link::Follows { reveal, .. } => Some(reveal),
            },
    {
        match self.link {
            Link::Genesis { .. } => None,
            Link::Follows { reveal, .. } => Some(reveal),
        }
    }

    /// Who wrote it.
    pub fn author(&self) -> (author: Handle)
        ensures
            author == self@.author,
    {
        self.author
    }

    /// The opaque bytes this segment carries.
    pub fn payload(&self) -> (payload: &[u8])
        ensures
            payload@ == self@.freight.payload,
    {
        self.freight.payload_bytes()
    }

    /// Whether the author meant to say anything, or was filling a slot.
    pub fn purpose(&self) -> (purpose: Purpose)
        ensures
            purpose == self@.freight.purpose,
    {
        self.freight.purpose_of()
    }

    /// How many of the reader's segments the author had verified when they
    /// wrote this; a count, so zero means none.
    pub fn acknowledged(&self) -> (count: u64)
        ensures
            count == self@.freight.acknowledged,
    {
        self.freight.acknowledged_count()
    }
}

/// The height the first segment of a run stands at: zero on a chain not yet
/// started, else one above its head.
pub open spec fn run_start(head: Option<ChainHead>) -> int {
    match head {
        None => 0,
        Some(head) => head.index_spec() + 1,
    }
}

/// Whether `count` segments fit above `head`: every one of them stands below
/// the last height, which has no successor to commit to.
pub open spec fn run_fits(head: Option<ChainHead>, count: nat) -> bool {
    count == 0 || run_start(head) + count - 1 <= u64::MAX - 1
}

/// What segment `at` of a run made by `signer` on `trail` above `head` is,
/// given the segment below it in the run.
#[verifier::opaque]
pub open spec fn run_member(
    segment: SegmentView,
    at: int,
    below: Option<SegmentView>,
    signer_seed: Seq<u8>,
    seed: Seq<u8>,
    head: Option<ChainHead>,
    freight: FreightView,
) -> bool {
    &&& made_from(segment, seed)
    &&& segment.index() == run_start(head) + at
    &&& segment.freight == freight
    &&& segment.author@ == handle_of_key(ed25519_public_key(signer_seed))
    &&& match (head, below) {
        (None, None) => segment.link matches Link::Genesis { commit, signature } && signature@ == ed25519_signature(
            signer_seed,
            signed_bytes_spec(segment.author, commit),
        ),
        (Some(head), None) => segment.link matches Link::Follows { previous, .. } && previous == head.id_spec(),
        (_, Some(below)) => segment.link matches Link::Follows { previous, .. } && previous@ == segment_id_of(below),
    }
}

impl Segment {
    /// The segments that carry `freights`, in order, on `signer`'s chain: a
    /// genesis first when there is no `head` yet, and each one after it
    /// extending the one before, so their heights follow one another.
    ///
    /// [`SegmentError::ChainExhausted`] when the run would need a height past
    /// the last one a chain can extend to.
    pub fn run(signer: &Signer, trail: &Trail, freights: Vec<Freight>, head: Option<ChainHead>) -> (made: Result<Vec<Self>, SegmentError>)
        ensures
            !run_fits(head, freights@.len()) ==> made == Err::<Vec<Self>, SegmentError>(SegmentError::ChainExhausted),
            run_fits(head, freights@.len()) ==> (made matches Ok(run) && run@.len() == freights@.len() && forall|at: int|
                0 <= at < run@.len() ==> run_member(
                    #[trigger] run@[at]@,
                    at,
                    if at == 0 { None } else { Some(run@[at - 1]@) },
                    signer.seed(),
                    trail.seed(),
                    head,
                    freights@[at]@,
                )),
    {
        let ghost all = freights@;
        let ghost count = freights@.len();
        let author = signer.handle();
        let mut rest = freights;
        let mut current: Option<ChainHead> = head;
        let mut out: Vec<Segment> = Vec::new();
        while rest.len() > 0
            invariant
                out@.len() + rest@.len() == count,
                count == all.len(),
                all == freights@,
                rest@ == all.subrange(out@.len() as int, count as int),
                author@ == handle_of_key(ed25519_public_key(signer.seed())),
                current is None ==> out@.len() == 0 && head is None,
                out@.len() == 0 ==> current == head,
                current matches Some(now) ==> now.index_spec() == run_start(head) + out@.len() - 1,
                out@.len() > 0 ==> run_start(head) + out@.len() - 1 <= u64::MAX - 1,
                out@.len() > 0 ==> (current matches Some(now) && now.id_spec()@ == segment_id_of(
                    out@[out@.len() - 1]@,
                )),
                forall|at: int|
                    0 <= at < out@.len() ==> run_member(
                        #[trigger] out@[at]@,
                        at,
                        if at == 0 { None } else { Some(out@[at - 1]@) },
                        signer.seed(),
                        trail.seed(),
                        head,
                        all[at]@,
                    ),
            decreases rest@.len(),
        {
            let ghost at = out@.len() as int;
            let freight = rest.remove(0);
            assert(freight == all[at]);
            let segment = match current {
                None => match Segment::genesis(signer, trail, freight) {
                    Ok(segment) => segment,
                    Err(error) => return Err(error),
                },
                Some(now) => match Segment::extend(trail, author, freight, now) {
                    Ok(segment) => segment,
                    Err(error) => {
                        assert(!run_fits(head, count));
                        return Err(error);
                    },
                },
            };
            let ghost before = out@;
            assert(run_member(
                segment@,
                at,
                if at == 0 { None } else { Some(before[at - 1]@) },
                signer.seed(),
                trail.seed(),
                head,
                all[at]@,
            )) by {
                reveal(run_member);
            }
            current = Some(segment.head());
            out.push(segment);
            proof {
                assert forall|a: int| 0 <= a < out@.len() implies run_member(
                    #[trigger] out@[a]@,
                    a,
                    if a == 0 { None } else { Some(out@[a - 1]@) },
                    signer.seed(),
                    trail.seed(),
                    head,
                    all[a]@,
                ) by {
                    if a < at {
                        assert(out@[a] == before[a]);
                        if a > 0 {
                            assert(out@[a - 1] == before[a - 1]);
                        }
                    } else if a > 0 {
                        assert(out@[a - 1] == before[a - 1]);
                    }
                }
            }
            assert(rest@ =~= all.subrange(out@.len() as int, count as int));
        }
        Ok(out)
    }
}

} // verus!
