//! Who wrote something, who can prove it, and what the proof looks like.
//!
//! A [`Handle`] is a name; a [`VerifyingKey`] is what checks a signature made
//! under that name; a [`Signer`] is the private half; a [`Signature`] is what
//! the third produces and the second checks.
//!
//! **A handle is the hash of a key, not the key.** That keeps the width of a
//! signature scheme out of the wire format: a handle is 32 bytes whatever
//! scheme is behind it.

use vstd::prelude::*;
use vstd::std_specs::cmp::PartialEqSpecImpl;
use vstd::string::StringSliceAdditionalSpecFns;

use crate::digest::{digest_parse_spec, Digest, DigestParseError};
use crate::hash::{blake3_hash, hash};
use crate::text::{ascii_chars, labelled};
use crate::wire::hex_of;

verus! {

/// Domain separation for the one mapping from a key to a name.
pub const HANDLE_DOMAIN: &'static str = "kusanagi.handle.v1";

/// The name a key answers to: `BLAKE3("kusanagi.handle.v1" ‖ key)`.
pub open spec fn handle_of_key(key: Seq<u8>) -> Seq<u8> {
    blake3_hash(HANDLE_DOMAIN.spec_bytes() + key)
}

/// The Ed25519 public key that `ed25519_dalek` derives from a 32-byte seed.
pub uninterp spec fn ed25519_public_key(seed: Seq<u8>) -> Seq<u8>;

/// The Ed25519 signature that `ed25519_dalek` makes over `message` with the
/// key of `seed`. Ed25519 signing is deterministic.
pub uninterp spec fn ed25519_signature(seed: Seq<u8>, message: Seq<u8>) -> Seq<u8>;

/// Whether `ed25519_dalek`'s strict verification accepts `signature` over
/// `message` under the public key `key`.
pub uninterp spec fn ed25519_accepts(key: Seq<u8>, message: Seq<u8>, signature: Seq<u8>) -> bool;

/// The public half of the key a seed makes.
///
/// Calls `SigningKey::from_bytes(seed).verifying_key().to_bytes()`. The
/// public key is a function of the seed alone; nothing else is claimed.
#[verifier::external_body]
fn public_key_of(seed: &[u8; 32]) -> (key: [u8; 32])
    ensures
        key@ == ed25519_public_key(seed@),
{
    ed25519_dalek::SigningKey::from_bytes(seed).verifying_key().to_bytes()
}

/// Signs `message` with the key a seed makes.
///
/// Calls `ed25519_dalek::Signer::sign` on `SigningKey::from_bytes(seed)` and
/// copies out the 64 bytes. Ed25519 signing is deterministic, so the
/// signature is a function of the seed and the message. Nothing is claimed
/// here about whether verification accepts it.
#[verifier::external_body]
fn signature_of(seed: &[u8; 32], message: &[u8]) -> (signature: [u8; 64])
    ensures
        signature@ == ed25519_signature(seed@, message@),
{
    ed25519_dalek::Signer::sign(&ed25519_dalek::SigningKey::from_bytes(seed), message).to_bytes()
}

/// Checks `signature` over `message` under the 32 bytes of `key`.
///
/// Calls `ed25519_dalek::VerifyingKey::from_bytes`, and when the bytes are a
/// point, `verify_strict` with `ed25519_dalek::Signature::from_bytes`. Bytes
/// that are not a key verify nothing. The answer is a function of the three
/// inputs, [`ed25519_accepts`]; which inputs it accepts is not stated here.
#[verifier::external_body]
fn accepts(key: &[u8; 32], message: &[u8], signature: &[u8; 64]) -> (accepted: bool)
    ensures
        accepted == ed25519_accepts(key@, message@, signature@),
{
    match ed25519_dalek::VerifyingKey::from_bytes(key) {
        Ok(key) => key.verify_strict(message, &ed25519_dalek::Signature::from_bytes(signature)).is_ok(),
        Err(_) => false,
    }
}

/// The name an identity answers to: the hash of its key.
///
/// Any 32 bytes can be spelled as a handle, and one that names nobody simply
/// never matches a key. A handle carries no authority by itself.
#[derive(Clone, Copy, PartialOrd, Ord, Hash, Debug)]
pub struct Handle(Digest<32>);

impl View for Handle {
    type V = Seq<u8>;

    closed spec fn view(&self) -> Seq<u8> {
        self.0@
    }
}

impl PartialEq for Handle {
    fn eq(&self, other: &Self) -> (same: bool) {
        self.0 == other.0
    }
}

impl PartialEqSpecImpl for Handle {
    open spec fn obeys_eq_spec() -> bool {
        true
    }

    open spec fn eq_spec(&self, other: &Self) -> bool {
        self@ == other@
    }
}

impl Eq for Handle {
}

impl Handle {
    /// Wraps the raw bytes.
    pub fn from_bytes(bytes: [u8; 32]) -> (made: Self)
        ensures
            made@ == bytes@,
            made@.len() == 32,
    {
        Handle(Digest::from_bytes(bytes))
    }

    /// Borrows the raw bytes.
    pub fn as_bytes(&self) -> (bytes: &[u8; 32])
        ensures
            bytes@ == self@,
    {
        self.0.as_bytes()
    }

    /// The one text form: lowercase hexadecimal of the full width.
    pub fn to_string(&self) -> (text: String)
        ensures
            text@ == ascii_chars(hex_of(self@)),
    {
        self.0.to_string()
    }

    /// Reads back exactly what [`Handle::to_string`] writes, and nothing else.
    pub fn parse(text: &str) -> (parsed: Result<Self, DigestParseError>)
        ensures
            match (parsed, digest_parse_spec(text.spec_bytes(), 32)) {
                (Ok(made), Ok(bytes)) => made@ == bytes,
                (Err(error), Err(expected)) => error == expected,
                _ => false,
            },
    {
        match Digest::parse(text) {
            Ok(digest) => Ok(Handle(digest)),
            Err(error) => Err(error),
        }
    }
}

impl Handle {
    /// The handle a name derives: `BLAKE3("kusanagi.handle.v1" ‖ name)`.
    ///
    /// A handle made this way names a writer and proves nothing about one; the
    /// same domain that names a key names a name, and a name is not a key.
    pub fn from_name(name: &str) -> (handle: Self)
        ensures
            handle@ == blake3_hash(HANDLE_DOMAIN.spec_bytes() + name.spec_bytes()),
            handle@.len() == 32,
    {
        let mut input = vstd::slice::slice_to_vec(HANDLE_DOMAIN.as_bytes());
        input.extend_from_slice(name.as_bytes());
        assert(input@ =~= HANDLE_DOMAIN.spec_bytes() + name.spec_bytes());
        Handle::from_bytes(hash(input.as_slice()))
    }

    /// Every value holds exactly 32 bytes.
    pub proof fn lemma_width(value: Self)
        ensures
            value@.len() == 32,
    {
        Digest::<32>::lemma_width(value.0);
    }

    /// The value whose bytes are `bytes`, for specifications.
    pub closed spec fn spec_from(bytes: Seq<u8>) -> Self {
        Handle(Digest::spec_from(bytes))
    }

    /// A value built from 32 bytes holds exactly those bytes.
    pub proof fn lemma_spec_from(bytes: Seq<u8>)
        requires
            bytes.len() == 32,
        ensures
            Self::spec_from(bytes)@ == bytes,
    {
        Digest::<32>::lemma_spec_from(bytes);
    }

    /// Two values with the same bytes are the same value.
    pub proof fn lemma_same_bytes(a: Self, b: Self)
        requires
            a@ == b@,
        ensures
            a == b,
    {
        Digest::<32>::lemma_same_bytes(a.0, b.0);
    }
}

impl core::str::FromStr for Handle {
    type Err = DigestParseError;

    fn from_str(text: &str) -> (parsed: Result<Self, DigestParseError>)
        ensures
            match (parsed, digest_parse_spec(text.spec_bytes(), 32)) {
                (Ok(made), Ok(bytes)) => made@ == bytes,
                (Err(error), Err(expected)) => error == expected,
                _ => false,
            },
    {
        Self::parse(text)
    }
}

/// An Ed25519 signature over some exact byte string.
#[derive(Clone, Copy, PartialOrd, Ord, Hash, Debug)]
pub struct Signature(Digest<64>);

impl View for Signature {
    type V = Seq<u8>;

    closed spec fn view(&self) -> Seq<u8> {
        self.0@
    }
}

impl PartialEq for Signature {
    fn eq(&self, other: &Self) -> (same: bool) {
        self.0 == other.0
    }
}

impl PartialEqSpecImpl for Signature {
    open spec fn obeys_eq_spec() -> bool {
        true
    }

    open spec fn eq_spec(&self, other: &Self) -> bool {
        self@ == other@
    }
}

impl Eq for Signature {
}

impl Signature {
    /// Wraps the raw bytes.
    pub fn from_bytes(bytes: [u8; 64]) -> (made: Self)
        ensures
            made@ == bytes@,
            made@.len() == 64,
    {
        Signature(Digest::from_bytes(bytes))
    }

    /// Borrows the raw bytes.
    pub fn as_bytes(&self) -> (bytes: &[u8; 64])
        ensures
            bytes@ == self@,
    {
        self.0.as_bytes()
    }

    /// The one text form: lowercase hexadecimal of the full width.
    pub fn to_string(&self) -> (text: String)
        ensures
            text@ == ascii_chars(hex_of(self@)),
    {
        self.0.to_string()
    }

    /// Reads back exactly what [`Signature::to_string`] writes, and nothing else.
    pub fn parse(text: &str) -> (parsed: Result<Self, DigestParseError>)
        ensures
            match (parsed, digest_parse_spec(text.spec_bytes(), 64)) {
                (Ok(made), Ok(bytes)) => made@ == bytes,
                (Err(error), Err(expected)) => error == expected,
                _ => false,
            },
    {
        match Digest::parse(text) {
            Ok(digest) => Ok(Signature(digest)),
            Err(error) => Err(error),
        }
    }
}

impl Signature {
    /// Every value holds exactly 64 bytes.
    pub proof fn lemma_width(value: Self)
        ensures
            value@.len() == 64,
    {
        Digest::<64>::lemma_width(value.0);
    }

    /// The value whose bytes are `bytes`, for specifications.
    pub closed spec fn spec_from(bytes: Seq<u8>) -> Self {
        Signature(Digest::spec_from(bytes))
    }

    /// A value built from 64 bytes holds exactly those bytes.
    pub proof fn lemma_spec_from(bytes: Seq<u8>)
        requires
            bytes.len() == 64,
        ensures
            Self::spec_from(bytes)@ == bytes,
    {
        Digest::<64>::lemma_spec_from(bytes);
    }

    /// Two values with the same bytes are the same value.
    pub proof fn lemma_same_bytes(a: Self, b: Self)
        requires
            a@ == b@,
        ensures
            a == b,
    {
        Digest::<64>::lemma_same_bytes(a.0, b.0);
    }
}

impl core::str::FromStr for Signature {
    type Err = DigestParseError;

    fn from_str(text: &str) -> (parsed: Result<Self, DigestParseError>)
        ensures
            match (parsed, digest_parse_spec(text.spec_bytes(), 64)) {
                (Ok(made), Ok(bytes)) => made@ == bytes,
                (Err(error), Err(expected)) => error == expected,
                _ => false,
            },
    {
        Self::parse(text)
    }
}

/// The public half of an identity: the only thing that can check a signature.
#[derive(Clone, Copy, PartialEq, Eq, Debug)]
pub struct VerifyingKey([u8; 32]);

impl View for VerifyingKey {
    type V = Seq<u8>;

    closed spec fn view(&self) -> Seq<u8> {
        self.0@
    }
}

impl VerifyingKey {
    /// How many bytes one key occupies on the wire and on disk.
    pub const WIDTH: usize = 32;

    /// Wraps the raw bytes. Bytes that are not a point on the curve are
    /// accepted here and refused in [`VerifyingKey::verify`].
    pub fn from_bytes(bytes: [u8; 32]) -> (key: Self)
        ensures
            key@ == bytes@,
            key@.len() == 32,
    {
        VerifyingKey(bytes)
    }

    /// Borrows the raw bytes.
    pub fn as_bytes(&self) -> (bytes: &[u8; 32])
        ensures
            bytes@ == self@,
    {
        &self.0
    }

    /// Every key holds exactly 32 bytes.
    pub proof fn lemma_width(value: Self)
        ensures
            value@.len() == 32,
    {
    }

    /// The name this key answers to.
    pub fn handle(&self) -> (handle: Handle)
        ensures
            handle@ == handle_of_key(self@),
            handle@.len() == 32,
    {
        let domain = HANDLE_DOMAIN.as_bytes();
        let mut input = vstd::slice::slice_to_vec(domain);
        input.extend_from_slice(self.0.as_slice());
        assert(input@ =~= HANDLE_DOMAIN.spec_bytes() + self@);
        Handle::from_bytes(hash(input.as_slice()))
    }

    /// How a key names itself in a report: by its handle, the name it shares
    /// with every other mention, never by its bytes.
    pub fn describe(&self) -> (text: String)
        ensures
            text@ == "VerifyingKey("@ + ascii_chars(hex_of(handle_of_key(self@))) + seq![')'],
    {
        proof {
            reveal_strlit("VerifyingKey(");
        }
        labelled("VerifyingKey(", self.handle().as_bytes().as_slice())
    }

    /// Checks that `signature` covers `message` and was produced by this key.
    ///
    /// Every way this can fail — a wrong signature, a tampered message, bytes
    /// that are not a key — is one answer, [`NotAuthentic`].
    pub fn verify(&self, message: &[u8], signature: &Signature) -> (checked: Result<(), NotAuthentic>)
        ensures
            checked is Ok <==> ed25519_accepts(self@, message@, signature@),
    {
        if accepts(&self.0, message, signature.as_bytes()) {
            Ok(())
        } else {
            Err(NotAuthentic)
        }
    }
}

/// The private half of an identity: a 32-byte seed and nothing else.
///
/// Deliberately not `Clone`: a signing key that is easy to copy is a signing
/// key that ends up in two places.
pub struct Signer {
    seed: [u8; 32],
}

impl Signer {
    /// The seed this signer was made from.
    pub closed spec fn seed(&self) -> Seq<u8> {
        self.seed@
    }

    /// Rebuilds a signer from the seed it was created with.
    pub fn from_seed(seed: &[u8; 32]) -> (signer: Self)
        ensures
            signer.seed() == seed@,
    {
        Signer { seed: *seed }
    }

    /// How a signer names itself in a report: by the handle of its public
    /// half. Nothing it prints is derived from the seed by anything but that
    /// hash, so a log line cannot leak the key.
    pub fn describe(&self) -> (text: String)
        ensures
            text@ == "Signer("@ + ascii_chars(hex_of(handle_of_key(ed25519_public_key(self.seed())))) + seq![')'],
    {
        proof {
            reveal_strlit("Signer(");
        }
        labelled("Signer(", self.handle().as_bytes().as_slice())
    }

    /// The public half.
    pub fn verifying_key(&self) -> (key: VerifyingKey)
        ensures
            key@ == ed25519_public_key(self.seed()),
    {
        VerifyingKey::from_bytes(public_key_of(&self.seed))
    }

    /// The name the public half answers to.
    pub fn handle(&self) -> (handle: Handle)
        ensures
            handle@ == handle_of_key(ed25519_public_key(self.seed())),
            handle@.len() == 32,
    {
        self.verifying_key().handle()
    }

    /// Signs `message`.
    pub fn sign(&self, message: &[u8]) -> (signature: Signature)
        ensures
            signature@ == ed25519_signature(self.seed(), message@),
            signature@.len() == 64,
    {
        Signature::from_bytes(signature_of(&self.seed, message))
    }
}

/// A signature did not check out.
#[derive(Debug, Clone, Copy, PartialEq, Eq)]
pub struct NotAuthentic;

impl NotAuthentic {
    /// A stable code for machine callers. Never changes once published.
    pub fn code(&self) -> (code: &'static str)
        ensures
            code@ == "identity.not_authentic"@,
    {
        "identity.not_authentic"
    }
}

} // verus!
