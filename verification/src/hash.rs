//! The two BLAKE3 functions this crate calls, each named by what it returns.

use vstd::prelude::*;

verus! {

/// What `blake3::hash` returns for `input`: thirty-two bytes that depend on
/// `input` alone.
pub uninterp spec fn blake3_hash(input: Seq<u8>) -> Seq<u8>;

/// What `blake3::derive_key` returns for `context` and `material`: thirty-two
/// bytes that depend on those two alone.
pub uninterp spec fn blake3_derive_key(context: Seq<char>, material: Seq<u8>) -> Seq<u8>;

/// Hashes `input` with BLAKE3's default hash function.
///
/// Calls `blake3::hash` and copies out its 32 bytes. The function is
/// deterministic, so the result is [`blake3_hash`] of the input; nothing else
/// is claimed of it. Its documentation states that it equals feeding the same
/// bytes through `Hasher::update` in any number of pieces.
#[verifier::external_body]
pub(crate) fn hash(input: &[u8]) -> (digest: [u8; 32])
    ensures
        digest@ == blake3_hash(input@),
{
    *blake3::hash(input).as_bytes()
}

/// Derives a 32-byte key from `material` under the hard-coded `context`.
///
/// Calls `blake3::derive_key`, which is deterministic in its two arguments;
/// the result is [`blake3_derive_key`] of them and nothing else is claimed.
#[verifier::external_body]
pub(crate) fn derive_key(context: &str, material: &[u8]) -> (key: [u8; 32])
    ensures
        key@ == blake3_derive_key(context@, material@),
{
    blake3::derive_key(context, material)
}

} // verus!
