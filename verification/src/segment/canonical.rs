//! The one byte string a segment has, and the only door back out of it.

use vstd::prelude::*;
use vstd::string::StringSliceAdditionalSpecFns;

use crate::identity::{ed25519_accepts, handle_of_key, Handle, NotAuthentic, Signature, VerifyingKey};
use crate::link::Link;
use crate::segment::freight::{
    freight_bytes_spec, freight_spec, lemma_freight_round_trip, lemma_freight_spelled, short, Freight, FreightView,
};
use crate::hash::blake3_hash;
use crate::payload::{MAX_PAYLOAD, MAX_SEGMENT, OVERHEAD};
use crate::segment::{segment_id_of, Segment, SegmentError, SegmentId, SegmentView, SEGMENT_DOMAIN};
use crate::trail::{Commitment, Reveal};
use crate::wire::{
    be_bytes, be_value, lemma_be_bytes_len, lemma_be_value_of_bytes, lemma_be_value_spells, lemma_pow256_widths,
    push_be, Reader,
};

verus! {

/// Domain separation for what the author signs.
pub const SIGNING_DOMAIN: &'static str = "kusanagi.segment.v4.sign";

/// The tag of a segment that starts a chain.
pub const TAG_GENESIS: u8 = 0;

/// The tag of every segment above it.
pub const TAG_FOLLOWS: u8 = 1;

/// Everything a genesis segment is, except the signature over it.
pub open spec fn genesis_body_spec(author: Handle, commit: Commitment, freight: FreightView) -> Seq<u8> {
    seq![TAG_GENESIS] + be_bytes(0, 8) + author@ + commit@ + freight_bytes_spec(freight)
}

/// The exact message an author signs, once, at the foot of a chain: the
/// domain, the author, the first commitment, and eight zero bytes. The
/// freight is deliberately outside it.
pub open spec fn signed_bytes_spec(author: Handle, commit: Commitment) -> Seq<u8> {
    SIGNING_DOMAIN.spec_bytes() + author@ + commit@ + be_bytes(0, 8)
}

/// The one canonical byte string of a segment.
pub open spec fn canonical_bytes(segment: SegmentView) -> Seq<u8> {
    match segment.link {
        Link::Genesis { commit, signature } => genesis_body_spec(segment.author, commit, segment.freight)
            + signature@,
        Link::Follows { index, previous, reveal, commit } => seq![TAG_FOLLOWS] + be_bytes(
            index as nat,
            8,
        ) + previous@ + segment.author@ + reveal@ + commit@ + freight_bytes_spec(segment.freight),
    }
}

/// What decoding `bytes` as a segment by the holder of `key` answers: the
/// segment, or the first thing wrong with the bytes, in the order they are
/// read.
pub open spec fn decode_spec(bytes: Seq<u8>, key: Seq<u8>) -> Result<SegmentView, SegmentError> {
    let n = bytes.len() as int;
    if n < 1 {
        Err(short(bytes, 0, 1))
    } else if n < 9 {
        Err(short(bytes, 1, 8))
    } else {
        let tag = bytes[0];
        let height = be_value(bytes.subrange(1, 9));
        if tag == TAG_GENESIS && height != 0 {
            Err(SegmentError::GenesisIndexNotZero { index: height as u64 })
        } else if tag != TAG_GENESIS && tag != TAG_FOLLOWS {
            Err(SegmentError::UnknownTag { tag })
        } else if tag == TAG_FOLLOWS && n < 41 {
            Err(short(bytes, 9, 32))
        } else {
            decode_named_spec(bytes, key, tag, height as u64, if tag == TAG_FOLLOWS { 41 } else { 9 })
        }
    }
}

/// The rest of [`decode_spec`], from the author field at `at` onwards.
pub open spec fn decode_named_spec(bytes: Seq<u8>, key: Seq<u8>, tag: u8, height: u64, at: int) -> Result<SegmentView, SegmentError> {
    let n = bytes.len() as int;
    if n - at < 32 {
        Err(short(bytes, at, 32))
    } else {
        let named = bytes.subrange(at, at + 32);
        if named != handle_of_key(key) {
            Err(
                SegmentError::NotTheAuthor {
                    expected: Handle::spec_from(handle_of_key(key)),
                    found: Handle::spec_from(named),
                },
            )
        } else {
            let commit_at = if tag == TAG_FOLLOWS { at + 64 } else { at + 32 };
            if tag == TAG_FOLLOWS && n - at - 32 < 32 {
                Err(short(bytes, at + 32, 32))
            } else if n - commit_at < 32 {
                Err(short(bytes, commit_at, 32))
            } else {
                let author = Handle::spec_from(named);
                let commit = Commitment::spec_from(bytes.subrange(commit_at, commit_at + 32));
                match freight_spec(bytes, commit_at + 32) {
                    Err(error) => Err(error),
                    Ok((freight, end)) => {
                        if tag == TAG_GENESIS {
                            if n - end < 64 {
                                Err(short(bytes, end, 64))
                            } else if !ed25519_accepts(
                                key,
                                signed_bytes_spec(author, commit),
                                bytes.subrange(end, end + 64),
                            ) {
                                Err(SegmentError::NotAuthentic(NotAuthentic))
                            } else if n != end + 64 {
                                Err(SegmentError::TrailingBytes { count: (n - end - 64) as usize })
                            } else {
                                Ok(
                                    SegmentView {
                                        link: Link::Genesis {
                                            commit,
                                            signature: Signature::spec_from(
                                                bytes.subrange(end, end + 64),
                                            ),
                                        },
                                        author,
                                        freight,
                                    },
                                )
                            }
                        } else {
                            if height == 0 {
                                Err(SegmentError::FollowsIndexZero)
                            } else if n != end {
                                Err(SegmentError::TrailingBytes { count: (n - end) as usize })
                            } else {
                                Ok(
                                    SegmentView {
                                        link: Link::Follows {
                                            index: height,
                                            previous: SegmentId::spec_from(bytes.subrange(9, 41)),
                                            reveal: Reveal::spec_from(bytes.subrange(at + 32, at + 64)),
                                            commit,
                                        },
                                        author,
                                        freight,
                                    },
                                )
                            }
                        }
                    },
                }
            }
        }
    }
}

/// Everything a genesis segment is, except the signature over it.
pub(crate) fn genesis_body(author: &Handle, commit: Commitment, freight: &Freight) -> (body: Vec<u8>)
    ensures
        body@ == genesis_body_spec(*author, commit, freight@),
{
    let mut out: Vec<u8> = Vec::new();
    out.push(TAG_GENESIS);
    push_be(&mut out, 0, 8);
    out.extend_from_slice(author.as_bytes().as_slice());
    out.extend_from_slice(commit.as_bytes().as_slice());
    freight.push_onto(&mut out);
    assert(out@ =~= genesis_body_spec(*author, commit, freight@));
    out
}

/// The exact message an author signs at the foot of a chain.
pub(crate) fn signed_bytes(author: &Handle, commit: Commitment) -> (signed: Vec<u8>)
    ensures
        signed@ == signed_bytes_spec(*author, commit),
{
    let mut out = vstd::slice::slice_to_vec(SIGNING_DOMAIN.as_bytes());
    out.extend_from_slice(author.as_bytes().as_slice());
    out.extend_from_slice(commit.as_bytes().as_slice());
    push_be(&mut out, 0, 8);
    assert(out@ =~= signed_bytes_spec(*author, commit));
    out
}

/// A well-formed segment reads back as itself from its canonical bytes, by
/// the holder of the key its author field names. At genesis that holds where
/// the signature it carries is one the key accepts over what was signed.
pub proof fn lemma_decode_canonical(segment: SegmentView, key: Seq<u8>)
    requires
        segment.well_formed(),
        segment.author@ == handle_of_key(key),
        segment.link matches Link::Genesis { commit, signature } ==> ed25519_accepts(
            key,
            signed_bytes_spec(segment.author, commit),
            signature@,
        ),
    ensures
        decode_spec(canonical_bytes(segment), key) == Ok::<SegmentView, SegmentError>(segment),
{
    let bytes = canonical_bytes(segment);
    let freight = segment.freight;
    let author = segment.author;
    Handle::lemma_width(author);
    Handle::lemma_spec_from(author@);
    Handle::lemma_same_bytes(author, Handle::spec_from(author@));
    lemma_pow256_widths();
    match segment.link {
        Link::Genesis { commit, signature } => {
            Commitment::lemma_width(commit);
            Commitment::lemma_spec_from(commit@);
            Commitment::lemma_same_bytes(commit, Commitment::spec_from(commit@));
            Signature::lemma_width(signature);
            Signature::lemma_spec_from(signature@);
            Signature::lemma_same_bytes(signature, Signature::spec_from(signature@));
            lemma_be_bytes_len(0, 8);
            lemma_be_value_of_bytes(0, 8);
            let prefix = seq![TAG_GENESIS] + be_bytes(0, 8) + author@ + commit@;
            assert(bytes =~= prefix + freight_bytes_spec(freight) + signature@);
            lemma_freight_round_trip(prefix, freight, signature@);
            assert(bytes.subrange(1, 9) =~= be_bytes(0, 8));
            assert(bytes.subrange(9, 41) =~= author@);
            assert(bytes.subrange(41, 73) =~= commit@);
            let end: int = 73 + freight_bytes_spec(freight).len() as int;
            assert(bytes.subrange(end, end + 64) =~= signature@);
        },
        Link::Follows { index, previous, reveal, commit } => {
            SegmentId::lemma_width(previous);
            SegmentId::lemma_spec_from(previous@);
            SegmentId::lemma_same_bytes(previous, SegmentId::spec_from(previous@));
            Reveal::lemma_width(reveal);
            Reveal::lemma_spec_from(reveal@);
            Reveal::lemma_same_bytes(reveal, Reveal::spec_from(reveal@));
            Commitment::lemma_width(commit);
            Commitment::lemma_spec_from(commit@);
            Commitment::lemma_same_bytes(commit, Commitment::spec_from(commit@));
            lemma_be_bytes_len(index as nat, 8);
            lemma_be_value_of_bytes(index as nat, 8);
            let prefix = seq![TAG_FOLLOWS] + be_bytes(index as nat, 8) + previous@ + author@ + reveal@ + commit@;
            assert(bytes =~= prefix + freight_bytes_spec(freight) + Seq::<u8>::empty());
            lemma_freight_round_trip(prefix, freight, Seq::<u8>::empty());
            assert(bytes.subrange(1, 9) =~= be_bytes(index as nat, 8));
            assert(bytes.subrange(9, 41) =~= previous@);
            assert(bytes.subrange(41, 73) =~= author@);
            assert(bytes.subrange(73, 105) =~= reveal@);
            assert(bytes.subrange(105, 137) =~= commit@);
        },
    }
}

/// Every segment's canonical bytes are its payload and [`OVERHEAD`] more, so
/// a well-formed one is never longer than [`MAX_SEGMENT`].
pub proof fn lemma_canonical_width(segment: SegmentView)
    ensures
        canonical_bytes(segment).len() == OVERHEAD + segment.freight.payload.len(),
        segment.well_formed() ==> canonical_bytes(segment).len() <= MAX_SEGMENT,
{
    let freight = segment.freight;
    Handle::lemma_width(segment.author);
    lemma_be_bytes_len(freight.acknowledged as nat, 8);
    lemma_be_bytes_len(freight.payload.len(), 4);
    assert(freight_bytes_spec(freight).len() == 13 + freight.payload.len());
    match segment.link {
        Link::Genesis { commit, signature } => {
            Commitment::lemma_width(commit);
            Signature::lemma_width(signature);
            lemma_be_bytes_len(0, 8);
        },
        Link::Follows { index, previous, reveal, commit } => {
            SegmentId::lemma_width(previous);
            Reveal::lemma_width(reveal);
            Commitment::lemma_width(commit);
            lemma_be_bytes_len(index as nat, 8);
        },
    }
}

/// Decoding does not authenticate the freight: a segment that reads back from
/// its bytes reads back the same with any other freight that fits in one
/// segment, which is why a changed payload is not refused here. At genesis the
/// signature covers the author and the first commitment, and nothing else.
pub proof fn lemma_freight_is_not_signed(segment: SegmentView, freight: FreightView, key: Seq<u8>)
    requires
        decode_spec(canonical_bytes(segment), key) == Ok::<SegmentView, SegmentError>(segment),
        freight.payload.len() <= MAX_PAYLOAD,
    ensures
        ({
            let moved = SegmentView { link: segment.link, author: segment.author, freight };
            decode_spec(canonical_bytes(moved), key) == Ok::<SegmentView, SegmentError>(moved)
        }),
{
    let bytes = canonical_bytes(segment);
    let moved = SegmentView { link: segment.link, author: segment.author, freight };
    lemma_decoded_is_canonical(bytes, key);
    let tag = bytes[0];
    let at: int = if tag == TAG_FOLLOWS { 41 } else { 9 };
    let commit_at = if tag == TAG_FOLLOWS { at + 64 } else { at + 32 };
    let named = bytes.subrange(at, at + 32);
    Handle::lemma_spec_from(named);
    Commitment::lemma_spec_from(bytes.subrange(commit_at, commit_at + 32));
    if tag == TAG_GENESIS {
        lemma_freight_spelled(bytes, commit_at + 32);
        let end = freight_spec(bytes, commit_at + 32)->Ok_0.1;
        Signature::lemma_spec_from(bytes.subrange(end, end + 64));
    }
    lemma_decode_canonical(moved, key);
}

/// Whatever decodes is well formed and is spelled by exactly the bytes it was
/// read from: a segment has one spelling, so its identity is one hash.
pub proof fn lemma_decoded_is_canonical(bytes: Seq<u8>, key: Seq<u8>)
    requires
        decode_spec(bytes, key) is Ok,
    ensures
        decode_spec(bytes, key)->Ok_0.well_formed(),
        canonical_bytes(decode_spec(bytes, key)->Ok_0) == bytes,
{
    let segment = decode_spec(bytes, key)->Ok_0;
    let tag = bytes[0];
    let height = be_value(bytes.subrange(1, 9));
    let at: int = if tag == TAG_FOLLOWS { 41 } else { 9 };
    let commit_at = if tag == TAG_FOLLOWS { at + 64 } else { at + 32 };
    lemma_pow256_widths();
    lemma_be_value_spells(bytes.subrange(1, 9));
    lemma_freight_spelled(bytes, commit_at + 32);
    let (freight, end) = freight_spec(bytes, commit_at + 32)->Ok_0;
    let named = bytes.subrange(at, at + 32);
    Handle::lemma_spec_from(named);
    let commit = bytes.subrange(commit_at, commit_at + 32);
    Commitment::lemma_spec_from(commit);
    if tag == TAG_GENESIS {
        let signature = bytes.subrange(end, end + 64);
        Signature::lemma_spec_from(signature);
        assert(be_bytes(0, 8) == bytes.subrange(1, 9));
        assert(bytes =~= seq![TAG_GENESIS] + bytes.subrange(1, 9) + named + commit + bytes.subrange(commit_at + 32, end)
            + signature);
    } else {
        let previous = bytes.subrange(9, 41);
        SegmentId::lemma_spec_from(previous);
        let reveal = bytes.subrange(at + 32, at + 64);
        Reveal::lemma_spec_from(reveal);
        assert(bytes =~= seq![TAG_FOLLOWS] + bytes.subrange(1, 9) + previous + named + reveal + commit
            + bytes.subrange(commit_at + 32, end));
    }
}

/// A decoded segment's identity is the hash of exactly the bytes it was read
/// from, so whoever holds the bytes knows the identity before reading them.
pub proof fn lemma_decoded_id(bytes: Seq<u8>, key: Seq<u8>)
    requires
        decode_spec(bytes, key) is Ok,
    ensures
        segment_id_of(decode_spec(bytes, key)->Ok_0) == blake3_hash(SEGMENT_DOMAIN.spec_bytes() + bytes),
{
    lemma_decoded_is_canonical(bytes, key);
}

impl Segment {
    /// Encodes this segment into its one canonical byte string.
    pub fn to_canonical_bytes(&self) -> (bytes: Vec<u8>)
        ensures
            bytes@ == canonical_bytes(self@),
    {
        match self.link {
            Link::Genesis { commit, signature } => {
                let mut out = genesis_body(&self.author, commit, &self.freight);
                out.extend_from_slice(signature.as_bytes().as_slice());
                assert(out@ =~= canonical_bytes(self@));
                out
            },
            Link::Follows { index, previous, reveal, commit } => {
                let mut out: Vec<u8> = Vec::new();
                out.push(TAG_FOLLOWS);
                push_be(&mut out, index, 8);
                out.extend_from_slice(previous.as_bytes().as_slice());
                out.extend_from_slice(self.author.as_bytes().as_slice());
                out.extend_from_slice(reveal.as_bytes().as_slice());
                out.extend_from_slice(commit.as_bytes().as_slice());
                self.freight.push_onto(&mut out);
                assert(out@ =~= canonical_bytes(self@));
                out
            },
        }
    }

    /// Decodes a segment from its canonical byte string, by the holder of
    /// `author`.
    ///
    /// A segment naming anybody else is refused before anything else is
    /// looked at. A genesis segment is checked against its signature; a
    /// following segment is read but not believed here, because what
    /// authenticates it is the commitment made by the segment beneath it.
    /// Trailing bytes are refused so that one segment keeps one spelling.
    pub fn from_canonical_bytes(bytes: &[u8], author: &VerifyingKey) -> (decoded: Result<Self, SegmentError>)
        ensures
            match (decoded, decode_spec(bytes@, author@)) {
                (Ok(segment), Ok(expected)) => segment@ == expected,
                (Err(error), Err(expected)) => error == expected,
                _ => false,
            },
    {
        let mut reader = Reader::new(bytes);
        let tag = match reader.take_byte() {
            Ok(tag) => tag,
            Err(error) => return Err(SegmentError::Truncated(error)),
        };
        proof {
            assert(seq![tag][0] == tag);
            assert(bytes@.subrange(0, 1)[0] == bytes@[0]);
        }
        let height = match reader.take_u64() {
            Ok(height) => height,
            Err(error) => return Err(SegmentError::Truncated(error)),
        };
        proof {
            lemma_pow256_widths();
            lemma_be_value_of_bytes(height as nat, 8);
            assert(be_value(bytes@.subrange(1, 9)) == height);
        }
        let previous = if tag == TAG_GENESIS {
            if height != 0 {
                return Err(SegmentError::GenesisIndexNotZero { index: height });
            }
            None
        } else if tag == TAG_FOLLOWS {
            match reader.take_array::<32>() {
                Ok(array) => Some(SegmentId::from_bytes(array)),
                Err(error) => return Err(SegmentError::Truncated(error)),
            }
        } else {
            return Err(SegmentError::UnknownTag { tag });
        };
        decode_named(&mut reader, author, tag, height, previous)
    }
}

/// The rest of [`Segment::from_canonical_bytes`], from the author field on.
fn decode_named(
    reader: &mut Reader<'_>,
    author: &VerifyingKey,
    tag: u8,
    height: u64,
    previous: Option<SegmentId>,
) -> (decoded: Result<Segment, SegmentError>)
    requires
        tag == TAG_GENESIS || tag == TAG_FOLLOWS,
        tag == TAG_GENESIS ==> previous is None && old(reader).position() == 9,
        tag == TAG_FOLLOWS ==> (previous matches Some(p) && p@ == old(reader).input().subrange(9, 41)
            && old(reader).position() == 41),
    ensures
        match (decoded, decode_named_spec(old(reader).input(), author@, tag, height, old(reader).position() as int)) {
            (Ok(segment), Ok(expected)) => segment@ == expected,
            (Err(error), Err(expected)) => error == expected,
            _ => false,
        },
{
    let ghost bytes = reader.input();
    let ghost at = reader.position() as int;
    let named = match reader.take_array::<32>() {
        Ok(array) => Handle::from_bytes(array),
        Err(error) => return Err(SegmentError::Truncated(error)),
    };
    let expected = author.handle();
    proof {
        Handle::lemma_spec_from(bytes.subrange(at, at + 32));
        Handle::lemma_same_bytes(named, Handle::spec_from(bytes.subrange(at, at + 32)));
        Handle::lemma_spec_from(handle_of_key(author@));
        Handle::lemma_same_bytes(expected, Handle::spec_from(handle_of_key(author@)));
    }
    if !(named == expected) {
        return Err(SegmentError::NotTheAuthor { expected, found: named });
    }
    let reveal = if tag == TAG_FOLLOWS {
        match reader.take_array::<32>() {
            Ok(array) => Some(Reveal::from_bytes(array)),
            Err(error) => return Err(SegmentError::Truncated(error)),
        }
    } else {
        None
    };
    let ghost commit_at = reader.position() as int;
    let commit = match reader.take_array::<32>() {
        Ok(array) => Commitment::from_bytes(array),
        Err(error) => return Err(SegmentError::Truncated(error)),
    };
    proof {
        Commitment::lemma_spec_from(bytes.subrange(commit_at, commit_at + 32));
        Commitment::lemma_same_bytes(commit, Commitment::spec_from(bytes.subrange(commit_at, commit_at + 32)));
    }
    let freight = match Freight::take_from(reader) {
        Ok(freight) => freight,
        Err(error) => return Err(error),
    };
    let ghost end = reader.position() as int;
    let link = if tag == TAG_GENESIS {
        let signature = match reader.take_array::<64>() {
            Ok(array) => Signature::from_bytes(array),
            Err(error) => return Err(SegmentError::Truncated(error)),
        };
        let signed = signed_bytes(&named, commit);
        if author.verify(signed.as_slice(), &signature).is_err() {
            return Err(SegmentError::NotAuthentic(NotAuthentic));
        }
        proof {
            Signature::lemma_spec_from(bytes.subrange(end, end + 64));
            Signature::lemma_same_bytes(signature, Signature::spec_from(bytes.subrange(end, end + 64)));
        }
        Link::Genesis { commit, signature }
    } else {
        if height == 0 {
            return Err(SegmentError::FollowsIndexZero);
        }
        match (previous, reveal) {
            (Some(previous), Some(reveal)) => {
                proof {
                    SegmentId::lemma_spec_from(bytes.subrange(9, 41));
                    SegmentId::lemma_same_bytes(previous, SegmentId::spec_from(bytes.subrange(9, 41)));
                    Reveal::lemma_spec_from(bytes.subrange(at + 32, at + 64));
                    Reveal::lemma_same_bytes(reveal, Reveal::spec_from(bytes.subrange(at + 32, at + 64)));
                }
                Link::Follows { index: height, previous, reveal, commit }
            },
            _ => return Err(SegmentError::FollowsIndexZero),
        }
    };
    let left = reader.remaining();
    if left != 0 {
        return Err(SegmentError::TrailingBytes { count: left });
    }
    Ok(Segment { link, author: named, freight })
}

} // verus!
