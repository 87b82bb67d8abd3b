//! A fixed-width opaque identifier and its one textual form.
//!
//! Several things in this network are fixed-width opaque identifiers of
//! different widths: a handle, a segment id, a drop address, a signature. They
//! share one rule — the text form is lowercase hexadecimal of the full width,
//! and nothing else parses — and one comparison, which takes a time that does
//! not depend on where two identifiers differ.

use vstd::prelude::*;
use vstd::string::StringSliceAdditionalSpecFns;

use crate::text::ascii_chars;
use crate::wire::{hex_of, lemma_hex_round_trip, unhex_bytes, unhex_spec, Hex, HexError};

verus! {

/// Compares two byte strings in a time that does not depend on their contents.
///
/// Calls `subtle::ConstantTimeEq::ct_eq` on the two slices and turns the
/// `Choice` into a `bool`. Its source answers 0 when the lengths differ and
/// otherwise ANDs the byte-wise comparisons, so the answer is whether the two
/// slices hold the same bytes.
#[verifier::external_body]
pub(crate) fn constant_time_equal(left: &[u8], right: &[u8]) -> (same: bool)
    ensures
        same == (left@ == right@),
{
    subtle::ConstantTimeEq::ct_eq(left, right).into()
}

/// A fixed-width opaque identifier, rendered and parsed as lowercase
/// hexadecimal, compared in constant time.
#[derive(Clone, Copy, PartialOrd, Ord, Hash, Debug)]
pub struct Digest<const N: usize>([u8; N]);

impl<const N: usize> View for Digest<N> {
    type V = Seq<u8>;

    closed spec fn view(&self) -> Seq<u8> {
        self.0@
    }
}

impl<const N: usize> PartialEq for Digest<N> {
    fn eq(&self, other: &Self) -> (same: bool) {
        constant_time_equal(self.0.as_slice(), other.0.as_slice())
    }
}

impl<const N: usize> vstd::std_specs::cmp::PartialEqSpecImpl for Digest<N> {
    open spec fn obeys_eq_spec() -> bool {
        true
    }

    open spec fn eq_spec(&self, other: &Self) -> bool {
        self@ == other@
    }
}

impl<const N: usize> Eq for Digest<N> {
}

/// What parsing `text` as an `N`-byte identifier answers.
pub open spec fn digest_parse_spec(text: Seq<u8>, width: nat) -> Result<Seq<u8>, DigestParseError> {
    if 2 * width > usize::MAX {
        Err(DigestParseError::WidthUnrepresentable)
    } else if text.len() != 2 * width {
        Err(DigestParseError::Length { expected: (2 * width) as usize, found: text.len() as usize })
    } else {
        match unhex_spec(text) {
            Ok(bytes) => Ok(bytes),
            Err(error) => Err(DigestParseError::Hex(error)),
        }
    }
}

impl<const N: usize> Digest<N> {
    /// Wraps `N` raw bytes.
    pub fn from_bytes(bytes: [u8; N]) -> (digest: Self)
        ensures
            digest@ == bytes@,
            digest@.len() == N,
    {
        Digest(bytes)
    }

    /// Borrows the raw bytes.
    pub fn as_bytes(&self) -> (bytes: &[u8; N])
        ensures
            bytes@ == self@,
    {
        &self.0
    }

    /// The one text form: lowercase hexadecimal of the full width.
    pub fn to_string(&self) -> (text: String)
        ensures
            text@ == ascii_chars(hex_of(self@)),
    {
        Hex(self.0.as_slice()).to_string()
    }

    /// Reads back exactly what [`Digest::to_string`] writes, and nothing else.
    pub fn parse(text: &str) -> (parsed: Result<Self, DigestParseError>)
        ensures
            match (parsed, digest_parse_spec(text.spec_bytes(), N as nat)) {
                (Ok(digest), Ok(bytes)) => digest@ == bytes,
                (Err(error), Err(expected)) => error == expected,
                _ => false,
            },
    {
        Self::parse_bytes(text.as_bytes())
    }

    /// [`Digest::parse`] on the bytes of a piece of text.
    pub(crate) fn parse_bytes(text: &[u8]) -> (parsed: Result<Self, DigestParseError>)
        ensures
            match (parsed, digest_parse_spec(text@, N as nat)) {
                (Ok(digest), Ok(bytes)) => digest@ == bytes,
                (Err(error), Err(expected)) => error == expected,
                _ => false,
            },
    {
        let expected = match N.checked_mul(2) {
            Some(expected) => expected,
            None => return Err(DigestParseError::WidthUnrepresentable),
        };
        assert(expected == 2 * N);
        let found = text.len();
        if found != expected {
            return Err(DigestParseError::Length { expected, found });
        }
        let bytes = match unhex_bytes(text) {
            Ok(bytes) => bytes,
            Err(error) => return Err(DigestParseError::Hex(error)),
        };
        assert(bytes@ == crate::wire::bytes_of_hex(text@));
        assert(bytes@.len() == N);
        let mut out = [0u8; N];
        let mut i: usize = 0;
        while i < N
            invariant
                bytes@.len() == N,
                out@.len() == N,
                i <= N,
                forall|j: int| 0 <= j < i ==> out@[j] == bytes@[j],
            decreases N - i,
        {
            out[i] = bytes[i];
            i = i + 1;
        }
        assert(out@ =~= bytes@);
        Ok(Digest(out))
    }
}

impl<const N: usize> core::str::FromStr for Digest<N> {
    type Err = DigestParseError;

    fn from_str(text: &str) -> (parsed: Result<Self, DigestParseError>)
        ensures
            match (parsed, digest_parse_spec(text.spec_bytes(), N as nat)) {
                (Ok(made), Ok(bytes)) => made@ == bytes,
                (Err(error), Err(expected)) => error == expected,
                _ => false,
            },
    {
        Self::parse(text)
    }
}

/// The `N`-byte array whose bytes are the first `count` of `bytes`, zero after.
pub open spec fn filled<const N: usize>(bytes: Seq<u8>, count: nat) -> [u8; N]
    decreases count,
{
    if count == 0 {
        vstd::array::spec_array_fill_for_copy_type::<u8, N>(0u8)
    } else {
        vstd::array::spec_array_update(
            filled::<N>(bytes, (count - 1) as nat),
            count - 1,
            bytes[count - 1],
        )
    }
}

/// The `N`-byte array that holds `bytes`.
pub open spec fn array_of<const N: usize>(bytes: Seq<u8>) -> [u8; N] {
    filled::<N>(bytes, N as nat)
}

proof fn lemma_filled<const N: usize>(bytes: Seq<u8>, count: nat)
    requires
        count <= N,
    ensures
        filled::<N>(bytes, count)@.len() == N,
        forall|i: int|
            0 <= i < N ==> #[trigger] filled::<N>(bytes, count)@[i] == if i < count {
                bytes[i]
            } else {
                0u8
            },
    decreases count,
{
    if count > 0 {
        lemma_filled::<N>(bytes, (count - 1) as nat);
    }
}

/// The array built from `N` bytes holds exactly those bytes.
pub proof fn lemma_array_of<const N: usize>(bytes: Seq<u8>)
    requires
        bytes.len() == N,
    ensures
        array_of::<N>(bytes)@ == bytes,
{
    lemma_filled::<N>(bytes, N as nat);
    assert(array_of::<N>(bytes)@ =~= bytes);
}

impl<const N: usize> Digest<N> {
    /// The identifier whose bytes are `bytes`, for specifications.
    pub closed spec fn spec_from(bytes: Seq<u8>) -> Self {
        Digest(array_of::<N>(bytes))
    }

    /// An identifier built from `N` bytes holds exactly those bytes.
    pub proof fn lemma_spec_from(bytes: Seq<u8>)
        requires
            bytes.len() == N,
        ensures
            Self::spec_from(bytes)@ == bytes,
    {
        lemma_array_of::<N>(bytes);
    }

    /// Every identifier holds exactly `N` bytes.
    pub proof fn lemma_width(digest: Self)
        ensures
            digest@.len() == N,
    {
    }

    /// Two identifiers with the same bytes are the same identifier.
    pub proof fn lemma_same_bytes(a: Self, b: Self)
        requires
            a@ == b@,
        ensures
            a == b,
    {
        assert(a.0 =~= b.0);
    }
}

/// An identifier survives a trip through its text form.
pub proof fn lemma_digest_text_round_trip(bytes: Seq<u8>)
    requires
        2 * bytes.len() <= usize::MAX,
    ensures
        digest_parse_spec(hex_of(bytes), bytes.len()) == Ok::<Seq<u8>, DigestParseError>(bytes),
{
    lemma_hex_round_trip(bytes);
}

/// Why a piece of text is not an identifier.
#[derive(Debug, Clone, Copy, PartialEq, Eq)]
pub enum DigestParseError {
    /// The text is not exactly twice the identifier's width.
    Length { expected: usize, found: usize },
    /// The text is the right length but is not lowercase hexadecimal.
    Hex(HexError),
    /// The identifier's width cannot be expressed as a character count.
    WidthUnrepresentable,
}

impl DigestParseError {
    /// A stable code for machine callers. Never changes once published.
    pub fn code(&self) -> (code: &'static str)
        ensures
            code@ == self.code_spec(),
    {
        match self {
            DigestParseError::Length { .. } => "digest.length",
            DigestParseError::Hex(error) => error.code(),
            DigestParseError::WidthUnrepresentable => "digest.width",
        }
    }

    /// The code of each failure.
    pub open spec fn code_spec(&self) -> Seq<char> {
        match self {
            DigestParseError::Length { .. } => "digest.length"@,
            DigestParseError::Hex(error) => error.code_spec(),
            DigestParseError::WidthUnrepresentable => "digest.width"@,
        }
    }
}

} // verus!
