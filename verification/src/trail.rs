//! One author's private sequence of one-time proofs for one stream.
//!
//! ```text
//! secret(i)  = KDF("…trail…", seed ‖ i)
//! commit(i)  = H("…commit…" ‖ secret(i))
//! segment i  carries reveal = secret(i) and commit = commit(i + 1)
//! a reader   accepts segment i when H(reveal) is the commitment segment i − 1 made
//! ```
//!
//! Forging segment *i* needs a preimage of the commitment the segment below it
//! published; anybody who has read a stream can fabricate another that checks
//! just as well, so a quotation proves nothing about whoever is quoted.

use vstd::prelude::*;
use vstd::std_specs::cmp::PartialEqSpecImpl;
use vstd::string::StringSliceAdditionalSpecFns;

use crate::digest::{digest_parse_spec, Digest, DigestParseError};
use crate::text::ascii_chars;
use crate::wire::hex_of;
use crate::hash::{blake3_derive_key, blake3_hash, derive_key, hash};
use crate::wire::{be_bytes, push_be};

verus! {

/// Context for the per-height secret, in BLAKE3's key-derivation mode.
pub const SECRET_CONTEXT: &'static str = "kusanagi 2026-01-01 trail: one author's one-time proofs";

/// Domain separation for a commitment.
pub const COMMIT_DOMAIN: &'static str = "kusanagi.trail.commit.v1";

/// The commitment a reveal answers: `BLAKE3("kusanagi.trail.commit.v1" ‖ reveal)`.
pub open spec fn commitment_of(reveal: Seq<u8>) -> Seq<u8> {
    blake3_hash(COMMIT_DOMAIN.spec_bytes() + reveal)
}

/// The proof an author with `seed` shows at `index`:
/// `derive_key(context, seed ‖ index as eight big-endian bytes)`.
pub open spec fn revealed_at(seed: Seq<u8>, index: u64) -> Seq<u8> {
    blake3_derive_key(SECRET_CONTEXT@, seed + be_bytes(index as nat, 8))
}

/// Overwrites thirty-two bytes with zeros.
///
/// Calls `zeroize::Zeroize::zeroize` on the array, whose source writes each
/// byte's default, zero, with a volatile write the compiler may not remove.
#[verifier::external_body]
fn erase(bytes: &mut [u8; 32])
    ensures
        final(bytes)@ == Seq::new(32, |i: int| 0u8),
{
    zeroize::Zeroize::zeroize(bytes)
}

/// What a segment shows to prove that its author wrote the one below it.
///
/// Published, and therefore worthless afterwards: the address at its height is
/// taken.
#[derive(Clone, Copy, PartialOrd, Ord, Hash, Debug)]
pub struct Reveal(Digest<32>);

impl View for Reveal {
    type V = Seq<u8>;

    closed spec fn view(&self) -> Seq<u8> {
        self.0@
    }
}

impl PartialEq for Reveal {
    fn eq(&self, other: &Self) -> (same: bool) {
        self.0 == other.0
    }
}

impl PartialEqSpecImpl for Reveal {
    open spec fn obeys_eq_spec() -> bool {
        true
    }

    open spec fn eq_spec(&self, other: &Self) -> bool {
        self@ == other@
    }
}

impl Eq for Reveal {
}

impl Reveal {
    /// Wraps the raw bytes.
    pub fn from_bytes(bytes: [u8; 32]) -> (made: Self)
        ensures
            made@ == bytes@,
            made@.len() == 32,
    {
        Reveal(Digest::from_bytes(bytes))
    }

    /// Borrows the raw bytes.
    pub fn as_bytes(&self) -> (bytes: &[u8; 32])
        ensures
            bytes@ == self@,
    {
        self.0.as_bytes()
    }

    /// The one text form: lowercase hexadecimal of the full width.
    pub fn to_string(&self) -> (text: String)
        ensures
            text@ == ascii_chars(hex_of(self@)),
    {
        self.0.to_string()
    }

    /// Reads back exactly what [`Reveal::to_string`] writes, and nothing else.
    pub fn parse(text: &str) -> (parsed: Result<Self, DigestParseError>)
        ensures
            match (parsed, digest_parse_spec(text.spec_bytes(), 32)) {
                (Ok(made), Ok(bytes)) => made@ == bytes,
                (Err(error), Err(expected)) => error == expected,
                _ => false,
            },
    {
        match Digest::parse(text) {
            Ok(digest) => Ok(Reveal(digest)),
            Err(error) => Err(error),
        }
    }
}

impl core::str::FromStr for Reveal {
    type Err = DigestParseError;

    fn from_str(text: &str) -> (parsed: Result<Self, DigestParseError>)
        ensures
            match (parsed, digest_parse_spec(text.spec_bytes(), 32)) {
                (Ok(made), Ok(bytes)) => made@ == bytes,
                (Err(error), Err(expected)) => error == expected,
                _ => false,
            },
    {
        Self::parse(text)
    }
}

impl Reveal {
    /// Every value holds exactly 32 bytes.
    pub proof fn lemma_width(value: Self)
        ensures
            value@.len() == 32,
    {
        Digest::<32>::lemma_width(value.0);
    }

    /// The value whose bytes are `bytes`, for specifications.
    pub closed spec fn spec_from(bytes: Seq<u8>) -> Self {
        Reveal(Digest::spec_from(bytes))
    }

    /// A value built from 32 bytes holds exactly those bytes.
    pub proof fn lemma_spec_from(bytes: Seq<u8>)
        requires
            bytes.len() == 32,
        ensures
            Self::spec_from(bytes)@ == bytes,
    {
        Digest::<32>::lemma_spec_from(bytes);
    }

    /// Two values with the same bytes are the same value.
    pub proof fn lemma_same_bytes(a: Self, b: Self)
        requires
            a@ == b@,
        ensures
            a == b,
    {
        Digest::<32>::lemma_same_bytes(a.0, b.0);
    }
}

/// What a segment promises about the segment above it.
#[derive(Clone, Copy, PartialOrd, Ord, Hash, Debug)]
pub struct Commitment(Digest<32>);

impl View for Commitment {
    type V = Seq<u8>;

    closed spec fn view(&self) -> Seq<u8> {
        self.0@
    }
}

impl PartialEq for Commitment {
    fn eq(&self, other: &Self) -> (same: bool) {
        self.0 == other.0
    }
}

impl PartialEqSpecImpl for Commitment {
    open spec fn obeys_eq_spec() -> bool {
        true
    }

    open spec fn eq_spec(&self, other: &Self) -> bool {
        self@ == other@
    }
}

impl Eq for Commitment {
}

impl Commitment {
    /// Wraps the raw bytes.
    pub fn from_bytes(bytes: [u8; 32]) -> (made: Self)
        ensures
            made@ == bytes@,
            made@.len() == 32,
    {
        Commitment(Digest::from_bytes(bytes))
    }

    /// Borrows the raw bytes.
    pub fn as_bytes(&self) -> (bytes: &[u8; 32])
        ensures
            bytes@ == self@,
    {
        self.0.as_bytes()
    }

    /// The one text form: lowercase hexadecimal of the full width.
    pub fn to_string(&self) -> (text: String)
        ensures
            text@ == ascii_chars(hex_of(self@)),
    {
        self.0.to_string()
    }

    /// Reads back exactly what [`Commitment::to_string`] writes, and nothing else.
    pub fn parse(text: &str) -> (parsed: Result<Self, DigestParseError>)
        ensures
            match (parsed, digest_parse_spec(text.spec_bytes(), 32)) {
                (Ok(made), Ok(bytes)) => made@ == bytes,
                (Err(error), Err(expected)) => error == expected,
                _ => false,
            },
    {
        match Digest::parse(text) {
            Ok(digest) => Ok(Commitment(digest)),
            Err(error) => Err(error),
        }
    }
}

impl core::str::FromStr for Commitment {
    type Err = DigestParseError;

    fn from_str(text: &str) -> (parsed: Result<Self, DigestParseError>)
        ensures
            match (parsed, digest_parse_spec(text.spec_bytes(), 32)) {
                (Ok(made), Ok(bytes)) => made@ == bytes,
                (Err(error), Err(expected)) => error == expected,
                _ => false,
            },
    {
        Self::parse(text)
    }
}

impl Commitment {
    /// Every value holds exactly 32 bytes.
    pub proof fn lemma_width(value: Self)
        ensures
            value@.len() == 32,
    {
        Digest::<32>::lemma_width(value.0);
    }

    /// The value whose bytes are `bytes`, for specifications.
    pub closed spec fn spec_from(bytes: Seq<u8>) -> Self {
        Commitment(Digest::spec_from(bytes))
    }

    /// A value built from 32 bytes holds exactly those bytes.
    pub proof fn lemma_spec_from(bytes: Seq<u8>)
        requires
            bytes.len() == 32,
        ensures
            Self::spec_from(bytes)@ == bytes,
    {
        Digest::<32>::lemma_spec_from(bytes);
    }

    /// Two values with the same bytes are the same value.
    pub proof fn lemma_same_bytes(a: Self, b: Self)
        requires
            a@ == b@,
        ensures
            a == b,
    {
        Digest::<32>::lemma_same_bytes(a.0, b.0);
    }
}

impl Reveal {
    /// The commitment this reveal answers.
    pub fn commitment(&self) -> (answered: Commitment)
        ensures
            answered@ == commitment_of(self@),
    {
        let domain = COMMIT_DOMAIN.as_bytes();
        let mut input = vstd::slice::slice_to_vec(domain);
        input.extend_from_slice(self.as_bytes().as_slice());
        assert(input@ =~= COMMIT_DOMAIN.spec_bytes() + self@);
        Commitment::from_bytes(hash(input.as_slice()))
    }
}

/// The seed every proof on one stream comes from.
///
/// Deliberately not comparable and not printable: a trail that reaches a log
/// has handed somebody the ability to write the rest of a stream.
#[derive(Clone)]
pub struct Trail([u8; 32]);

impl Trail {
    /// The seed, for specifications.
    pub closed spec fn seed(&self) -> Seq<u8> {
        self.0@
    }

    /// Wraps a derived seed.
    pub fn from_seed(seed: [u8; 32]) -> (trail: Self)
        ensures
            trail.seed() == seed@,
    {
        Trail(seed)
    }

    /// The proof this author shows at `index`.
    ///
    /// The derived bytes are erased once they have been copied into the
    /// reveal.
    pub fn reveal_at(&self, index: u64) -> (shown: Reveal)
        ensures
            shown@ == revealed_at(self.seed(), index),
    {
        let mut material = vstd::slice::slice_to_vec(self.0.as_slice());
        push_be(&mut material, index, 8);
        let mut derived = derive_key(SECRET_CONTEXT, material.as_slice());
        let shown = Reveal::from_bytes(derived);
        erase(&mut derived);
        shown
    }

    /// What a segment at `index - 1` promises about `index`.
    pub fn commitment(&self, index: u64) -> (promised: Commitment)
        ensures
            promised@ == commitment_of(revealed_at(self.seed(), index)),
    {
        self.reveal_at(index).commitment()
    }

    /// How a trail describes itself anywhere it might be printed: never by
    /// its seed.
    pub fn redacted(&self) -> (text: String)
        ensures
            text@ == "Trail(redacted)"@,
    {
        String::from_str("Trail(redacted)")
    }
}

} // verus!
