//! Where a segment is left for its reader.
//!
//! This module declares the address and deliberately does not know how one is
//! produced: derivation needs a shared secret, and a secret in the noun layer
//! would put the one fact that makes this network private into the crate with
//! the widest reach.

use vstd::prelude::*;
use vstd::std_specs::cmp::PartialEqSpecImpl;
use vstd::string::StringSliceAdditionalSpecFns;

use crate::digest::{digest_parse_spec, Digest, DigestParseError};
use crate::text::ascii_chars;
use crate::wire::hex_of;

verus! {

/// An opaque address that receives exactly one segment.
///
/// 160 bits: wide enough that two independently derived addresses do not
/// collide, narrow enough that the text form is 40 characters.
#[derive(Clone, Copy, PartialOrd, Ord, Hash, Debug)]
pub struct DropAddr(Digest<20>);

impl View for DropAddr {
    type V = Seq<u8>;

    closed spec fn view(&self) -> Seq<u8> {
        self.0@
    }
}

impl PartialEq for DropAddr {
    fn eq(&self, other: &Self) -> (same: bool) {
        self.0 == other.0
    }
}

impl PartialEqSpecImpl for DropAddr {
    open spec fn obeys_eq_spec() -> bool {
        true
    }

    open spec fn eq_spec(&self, other: &Self) -> bool {
        self@ == other@
    }
}

impl Eq for DropAddr {
}

impl DropAddr {
    /// Wraps the raw bytes.
    pub fn from_bytes(bytes: [u8; 20]) -> (made: Self)
        ensures
            made@ == bytes@,
            made@.len() == 20,
    {
        DropAddr(Digest::from_bytes(bytes))
    }

    /// Borrows the raw bytes.
    pub fn as_bytes(&self) -> (bytes: &[u8; 20])
        ensures
            bytes@ == self@,
    {
        self.0.as_bytes()
    }

    /// The one text form: lowercase hexadecimal of the full width.
    pub fn to_string(&self) -> (text: String)
        ensures
            text@ == ascii_chars(hex_of(self@)),
    {
        self.0.to_string()
    }

    /// Reads back exactly what [`DropAddr::to_string`] writes, and nothing else.
    pub fn parse(text: &str) -> (parsed: Result<Self, DigestParseError>)
        ensures
            match (parsed, digest_parse_spec(text.spec_bytes(), 20)) {
                (Ok(made), Ok(bytes)) => made@ == bytes,
                (Err(error), Err(expected)) => error == expected,
                _ => false,
            },
    {
        match Digest::parse(text) {
            Ok(digest) => Ok(DropAddr(digest)),
            Err(error) => Err(error),
        }
    }
}

impl DropAddr {
    /// Every value holds exactly 20 bytes.
    pub proof fn lemma_width(value: Self)
        ensures
            value@.len() == 20,
    {
        Digest::<20>::lemma_width(value.0);
    }

    /// The value whose bytes are `bytes`, for specifications.
    pub closed spec fn spec_from(bytes: Seq<u8>) -> Self {
        DropAddr(Digest::spec_from(bytes))
    }

    /// A value built from 20 bytes holds exactly those bytes.
    pub proof fn lemma_spec_from(bytes: Seq<u8>)
        requires
            bytes.len() == 20,
        ensures
            Self::spec_from(bytes)@ == bytes,
    {
        Digest::<20>::lemma_spec_from(bytes);
    }

    /// Two values with the same bytes are the same value.
    pub proof fn lemma_same_bytes(a: Self, b: Self)
        requires
            a@ == b@,
        ensures
            a == b,
    {
        Digest::<20>::lemma_same_bytes(a.0, b.0);
    }
}

impl DropAddr {
    /// [`DropAddr::parse`] on the bytes of a piece of text.
    pub(crate) fn parse_bytes(text: &[u8]) -> (parsed: Result<Self, DigestParseError>)
        ensures
            match (parsed, digest_parse_spec(text@, 20)) {
                (Ok(made), Ok(bytes)) => made@ == bytes,
                (Err(error), Err(expected)) => error == expected,
                _ => false,
            },
    {
        match Digest::parse_bytes(text) {
            Ok(digest) => Ok(DropAddr(digest)),
            Err(error) => Err(error),
        }
    }
}

impl core::str::FromStr for DropAddr {
    type Err = DigestParseError;

    fn from_str(text: &str) -> (parsed: Result<Self, DigestParseError>)
        ensures
            match (parsed, digest_parse_spec(text.spec_bytes(), 20)) {
                (Ok(made), Ok(bytes)) => made@ == bytes,
                (Err(error), Err(expected)) => error == expected,
                _ => false,
            },
    {
        Self::parse(text)
    }
}

} // verus!
