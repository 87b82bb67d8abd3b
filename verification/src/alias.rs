//! What an identity calls itself, signed so that the claim travels with the key.
//!
//! A handle is a hash and reads like one. An [`Alias`] is the word a person
//! chose, and a [`Declaration`] is that word signed by the key it belongs to, so
//! the same key reporting a name on five channels reports one name every reader
//! can check.
//!
//! **An alias is one printable line.** No control character, no bidirectional
//! override, no whitespace at either end, at most [`Alias::MOST`] bytes: it is
//! shown beside program output and must not be able to rewrite the line it is
//! shown on.

use vstd::prelude::*;
use vstd::string::{StrSliceExecFns, StringSliceAdditionalSpecFns};
use vstd::utf8::{decode_utf8, encode_utf8, valid_utf8};

use crate::identity::{ed25519_accepts, ed25519_public_key, ed25519_signature, handle_of_key, Handle, Signature, Signer, VerifyingKey};
use crate::wire::Reader;

verus! {

broadcast use {vstd::utf8::encode_utf8_decode_utf8, vstd::utf8::encode_utf8_valid_utf8};

/// Domain separation for the signature over a declaration.
pub const NAME_DOMAIN: &'static str = "kusanagi/name/1";

/// How wide a signature is on the wire.
pub const SIGNATURE: usize = 64;

/// Unicode's control characters, the general category `Cc`: what
/// `char::is_control` answers true for.
pub open spec fn is_control_char(c: char) -> bool {
    ('\u{0}' <= c <= '\u{1f}') || ('\u{7f}' <= c <= '\u{9f}')
}

/// The bidirectional embeddings, overrides and isolates, which reorder the
/// text around them when displayed.
pub open spec fn is_bidi_override(c: char) -> bool {
    ('\u{202a}' <= c <= '\u{202e}') || ('\u{2066}' <= c <= '\u{2069}')
}

/// Unicode's `White_Space` property: what `char::is_whitespace` answers true
/// for, and what `str::trim` removes from either end.
pub open spec fn is_white_space(c: char) -> bool {
    ||| '\u{9}' <= c <= '\u{d}'
    ||| c == ' '
    ||| c == '\u{85}'
    ||| c == '\u{a0}'
    ||| c == '\u{1680}'
    ||| '\u{2000}' <= c <= '\u{200a}'
    ||| c == '\u{2028}'
    ||| c == '\u{2029}'
    ||| c == '\u{202f}'
    ||| c == '\u{205f}'
    ||| c == '\u{3000}'
}

/// A character a name may not hold anywhere.
pub open spec fn breaks_the_line(c: char) -> bool {
    is_control_char(c) || is_bidi_override(c)
}

/// Why `text` cannot be a name, in the order the rules are checked, or
/// nothing when it can.
pub open spec fn unfit_reason(text: Seq<char>) -> Option<Seq<char>> {
    if text.len() == 0 {
        Some("a name has at least one character"@)
    } else if encode_utf8(text).len() > Alias::MOST {
        Some("a name is at most 32 bytes"@)
    } else if exists|i: int| 0 <= i < text.len() && breaks_the_line(#[trigger] text[i]) {
        Some("a name is one printable line: no control character or bidirectional override"@)
    } else if is_white_space(text[0]) || is_white_space(text.last()) {
        Some("a name does not begin or end with whitespace"@)
    } else {
        None
    }
}

/// Why a name was refused, as a value.
pub enum AliasRefusal {
    /// The text broke the rule whose words these are.
    Unfit(Seq<char>),
    /// The bytes are not a declaration.
    Malformed,
    /// The signature is not the named key's over this name.
    Forged,
}

/// Why a name was refused.
#[derive(Debug, Clone, Copy, PartialEq, Eq)]
pub enum AliasError {
    /// The text is not one an alias may be; `reason` says which rule it broke.
    Unfit { reason: &'static str },
    /// The bytes are not a declaration.
    Malformed,
    /// The signature is not the named key's over this name.
    Forged,
}

impl View for AliasError {
    type V = AliasRefusal;

    open spec fn view(&self) -> AliasRefusal {
        match self {
            AliasError::Unfit { reason } => AliasRefusal::Unfit(reason@),
            AliasError::Malformed => AliasRefusal::Malformed,
            AliasError::Forged => AliasRefusal::Forged,
        }
    }
}

/// A self-chosen name, fit to print beside program output.
#[derive(PartialEq, Eq, Debug)]
pub struct Alias(String);

impl View for Alias {
    type V = Seq<char>;

    closed spec fn view(&self) -> Seq<char> {
        self.0@
    }
}

impl Clone for Alias {
    fn clone(&self) -> (copy: Self)
        ensures
            copy@ == self@,
    {
        proof {
            use_type_invariant(self);
        }
        Alias(self.0.clone())
    }
}

/// The refusal `reason` names.
fn unfit(reason: &'static str) -> (error: AliasError)
    ensures
        error@ == AliasRefusal::Unfit(reason@),
{
    AliasError::Unfit { reason }
}

impl Alias {
    /// The most bytes an alias may have: one byte of length prefix, and room
    /// for a readable name in any script.
    pub const MOST: usize = 32;

    #[verifier::type_invariant]
    closed spec fn fit(self) -> bool {
        unfit_reason(self.0@) is None
    }

    /// Accepts `text` as an alias when it is one printable line of at most
    /// [`Alias::MOST`] bytes, with no whitespace at either end;
    /// [`AliasError::Unfit`] with the rule it broke, when it is not.
    pub fn new(text: &str) -> (made: Result<Self, AliasError>)
        ensures
            match unfit_reason(text@) {
                None => made matches Ok(alias) && alias@ == text@,
                Some(reason) => made matches Err(error) && error@ == AliasRefusal::Unfit(reason),
            },
    {
        if text.is_empty() {
            return Err(unfit("a name has at least one character"));
        }
        if text.as_bytes().len() > Self::MOST {
            return Err(unfit("a name is at most 32 bytes"));
        }
        let count = text.unicode_len();
        let mut at: usize = 0;
        while at < count
            invariant
                count == text@.len(),
                0 < count,
                encode_utf8(text@).len() <= Alias::MOST,
                at <= count,
                forall|i: int| 0 <= i < at ==> !breaks_the_line(#[trigger] text@[i]),
            decreases count - at,
        {
            let c = text.get_char(at);
            if ('\u{0}' <= c && c <= '\u{1f}') || ('\u{7f}' <= c && c <= '\u{9f}') || ('\u{202a}' <= c
                && c <= '\u{202e}') || ('\u{2066}' <= c && c <= '\u{2069}') {
                assert(breaks_the_line(text@[at as int]));
                return Err(
                    unfit(
                        "a name is one printable line: no control character or bidirectional override",
                    ),
                );
            }
            at = at + 1;
        }
        let first = text.get_char(0);
        let last = text.get_char(count - 1);
        if white_space(first) || white_space(last) {
            return Err(unfit("a name does not begin or end with whitespace"));
        }
        Ok(Alias(text.to_owned()))
    }

    /// The name itself, which is always fit to be one.
    pub fn as_str(&self) -> (text: &str)
        ensures
            text@ == self@,
            unfit_reason(self@) is None,
    {
        proof {
            use_type_invariant(self);
        }
        self.0.as_str()
    }
}

/// Whether `c` has Unicode's `White_Space` property.
pub(crate) fn white_space(c: char) -> (white: bool)
    ensures
        white == is_white_space(c),
{
    ('\u{9}' <= c && c <= '\u{d}') || c == ' ' || c == '\u{85}' || c == '\u{a0}' || c == '\u{1680}'
        || ('\u{2000}' <= c && c <= '\u{200a}') || c == '\u{2028}' || c == '\u{2029}' || c
        == '\u{202f}' || c == '\u{205f}' || c == '\u{3000}'
}

/// A declaration as a value: the name claimed, and the signature over it.
pub struct DeclarationView {
    /// The name, as claimed.
    pub alias: Seq<char>,
    /// The signature's bytes.
    pub signature: Seq<u8>,
}

/// An alias signed by the key it is claimed for.
#[derive(PartialEq, Eq, Debug)]
pub struct Declaration {
    alias: Alias,
    signature: Signature,
}

impl View for Declaration {
    type V = DeclarationView;

    closed spec fn view(&self) -> DeclarationView {
        DeclarationView { alias: self.alias@, signature: self.signature@ }
    }
}

impl Clone for Declaration {
    fn clone(&self) -> (copy: Self)
        ensures
            copy@ == self@,
    {
        Declaration { alias: self.alias.clone(), signature: self.signature }
    }
}

/// The bytes a declaration signs: domain, name, and the handle it is about.
pub open spec fn claimed_name(alias: Seq<char>, handle: Seq<u8>) -> Seq<u8> {
    NAME_DOMAIN.spec_bytes() + encode_utf8(alias) + handle
}

/// The wire form of a declaration: `len u8 ‖ alias ‖ signature`.
pub open spec fn declaration_bytes(declared: DeclarationView) -> Seq<u8> {
    seq![encode_utf8(declared.alias).len() as u8] + encode_utf8(declared.alias) + declared.signature
}

/// What reading `bytes` as a declaration answers, without believing it.
pub open spec fn declaration_spec(bytes: Seq<u8>) -> Result<DeclarationView, AliasRefusal> {
    if bytes.len() < 1 {
        Err(AliasRefusal::Malformed)
    } else {
        let len = bytes[0] as int;
        if bytes.len() - 1 < len {
            Err(AliasRefusal::Malformed)
        } else {
            let name = bytes.subrange(1, 1 + len);
            if !valid_utf8(name) {
                Err(AliasRefusal::Malformed)
            } else {
                match unfit_reason(decode_utf8(name)) {
                    Some(reason) => Err(AliasRefusal::Unfit(reason)),
                    None => {
                        if bytes.len() - 1 - len < SIGNATURE {
                            Err(AliasRefusal::Malformed)
                        } else if bytes.len() != 1 + len + SIGNATURE {
                            Err(AliasRefusal::Malformed)
                        } else {
                            Ok(
                                DeclarationView {
                                    alias: decode_utf8(name),
                                    signature: bytes.subrange(1 + len, bytes.len() as int),
                                },
                            )
                        }
                    },
                }
            }
        }
    }
}

/// Reads `bytes` as UTF-8 text.
///
/// Calls `core::str::from_utf8`, which the standard library documents as
/// succeeding exactly when the bytes are valid UTF-8, and then borrowing them
/// unchanged as a string slice.
#[verifier::external_body]
pub(crate) fn utf8_text(bytes: &[u8]) -> (text: Option<&str>)
    ensures
        text is Some <==> valid_utf8(bytes@),
        text matches Some(text) ==> text.spec_bytes() == bytes@,
{
    core::str::from_utf8(bytes).ok()
}

/// The bytes a declaration signs, built.
fn claimed(alias: &Alias, handle: &Handle) -> (bytes: Vec<u8>)
    ensures
        bytes@ == claimed_name(alias@, handle@),
{
    let mut out = vstd::slice::slice_to_vec(NAME_DOMAIN.as_bytes());
    out.extend_from_slice(alias.as_str().as_bytes());
    out.extend_from_slice(handle.as_bytes().as_slice());
    assert(out@ =~= claimed_name(alias@, handle@));
    out
}

impl Declaration {
    /// Signs `alias` as the name of `signer`'s identity.
    pub fn sign(signer: &Signer, alias: Alias) -> (declared: Self)
        ensures
            declared@.alias == alias@,
            declared@.signature == ed25519_signature(
                signer.seed(),
                claimed_name(alias@, handle_of_key(ed25519_public_key(signer.seed()))),
            ),
            declared@.signature.len() == SIGNATURE,
    {
        let signature = signer.sign(claimed(&alias, &signer.handle()).as_slice());
        Declaration { alias, signature }
    }

    /// The name, as claimed; [`Declaration::verify`] is what makes it believed.
    pub fn alias(&self) -> (alias: &Alias)
        ensures
            alias@ == self@.alias,
    {
        &self.alias
    }

    /// The wire form: `len u8 ‖ alias ‖ signature`.
    ///
    /// What it writes reads back as this declaration.
    pub fn to_bytes(&self) -> (bytes: Vec<u8>)
        ensures
            bytes@ == declaration_bytes(self@),
            declaration_spec(bytes@) == Ok::<DeclarationView, AliasRefusal>(self@),
    {
        proof {
            Signature::lemma_width(self.signature);
        }
        let name = self.alias.as_str().as_bytes();
        let mut out: Vec<u8> = Vec::new();
        out.push(name.len() as u8);
        out.extend_from_slice(name);
        out.extend_from_slice(self.signature.as_bytes().as_slice());
        assert(out@ =~= declaration_bytes(self@));
        proof {
            lemma_declaration_round_trip(self@);
        }
        out
    }

    /// Reads what [`Declaration::to_bytes`] wrote, without believing it:
    /// [`AliasError::Malformed`] when the bytes are not exactly a declaration,
    /// and [`AliasError::Unfit`] when the name inside is not one an alias may
    /// be.
    pub fn from_bytes(bytes: &[u8]) -> (read: Result<Self, AliasError>)
        ensures
            match (read, declaration_spec(bytes@)) {
                (Ok(declared), Ok(expected)) => declared@ == expected,
                (Err(error), Err(expected)) => error@ == expected,
                _ => false,
            },
    {
        let mut reader = Reader::new(bytes);
        let len = match reader.take_byte() {
            Ok(len) => len,
            Err(_) => return Err(AliasError::Malformed),
        };
        proof {
            assert(seq![len][0] == len);
            assert(bytes@.subrange(0, 1)[0] == bytes@[0]);
        }
        let name = match reader.take(len as usize) {
            Ok(name) => name,
            Err(_) => return Err(AliasError::Malformed),
        };
        let text = match utf8_text(name) {
            Some(text) => text,
            None => return Err(AliasError::Malformed),
        };
        proof {
            vstd::utf8::decode_utf8_encode_utf8(name@);
            assert(text@ == decode_utf8(name@));
        }
        let alias = match Alias::new(text) {
            Ok(alias) => alias,
            Err(error) => return Err(error),
        };
        let signature = match reader.take_array::<64>() {
            Ok(array) => Signature::from_bytes(array),
            Err(_) => return Err(AliasError::Malformed),
        };
        if reader.remaining() != 0 {
            return Err(AliasError::Malformed);
        }
        Ok(Declaration { alias, signature })
    }

    /// The name, once `key` is shown to have signed it for its own handle;
    /// [`AliasError::Forged`] when the signature is not `key`'s over this name
    /// and `key`'s handle, which is also what a declaration moved from one
    /// identity to another fails with.
    pub fn verify(&self, key: &VerifyingKey) -> (verified: Result<&Alias, AliasError>)
        ensures
            ed25519_accepts(key@, claimed_name(self@.alias, handle_of_key(key@)), self@.signature)
                ==> (verified matches Ok(alias) && alias@ == self@.alias),
            !ed25519_accepts(key@, claimed_name(self@.alias, handle_of_key(key@)), self@.signature)
                ==> (verified matches Err(error) && error@ == AliasRefusal::Forged),
    {
        let signed = claimed(&self.alias, &key.handle());
        match key.verify(signed.as_slice(), &self.signature) {
            Ok(()) => Ok(&self.alias),
            Err(_) => Err(AliasError::Forged),
        }
    }
}

/// A declaration reads back as itself from its wire form.
pub proof fn lemma_declaration_round_trip(declared: DeclarationView)
    requires
        unfit_reason(declared.alias) is None,
        declared.signature.len() == SIGNATURE,
    ensures
        declaration_spec(declaration_bytes(declared)) == Ok::<DeclarationView, AliasRefusal>(declared),
{
    let name = encode_utf8(declared.alias);
    let bytes = declaration_bytes(declared);
    let len = name.len() as int;
    assert(bytes[0] as int == len);
    assert(bytes.subrange(1, 1 + len) =~= name);
    assert(bytes.subrange(1 + len, bytes.len() as int) =~= declared.signature);
}

} // verus!
