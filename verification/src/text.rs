//! Text that is ASCII by construction: the one place bytes become a `String`.

use vstd::prelude::*;
use vstd::utf8::is_ascii_chars;

use crate::wire::{hex_bytes, hex_of, lemma_hex_is_ascii};

verus! {

/// Whether every byte is a seven-bit ASCII character.
pub open spec fn is_ascii_bytes(bytes: Seq<u8>) -> bool {
    forall|i: int| 0 <= i < bytes.len() ==> #[trigger] bytes[i] < 128
}

/// The characters a run of ASCII bytes spells, one per byte.
pub open spec fn ascii_chars(bytes: Seq<u8>) -> Seq<char> {
    Seq::new(bytes.len(), |i: int| bytes[i] as char)
}

/// Wraps ASCII bytes as a `String`.
///
/// Calls `String::from_utf8`, which the standard library documents as taking
/// ownership of the bytes unchanged when they are valid UTF-8. ASCII always
/// is, and each ASCII byte is one character, so the string holds exactly the
/// characters the bytes spell. The fallback to an empty string is for the
/// error that the precondition rules out.
#[verifier::external_body]
pub(crate) fn ascii_string(bytes: Vec<u8>) -> (text: String)
    requires
        is_ascii_bytes(bytes@),
    ensures
        text@ == ascii_chars(bytes@),
{
    String::from_utf8(bytes).unwrap_or_default()
}

/// `label`, then the hexadecimal of `bytes`, then a closing bracket: how a
/// value names itself in a report without printing what it holds.
pub(crate) fn labelled(label: &str, bytes: &[u8]) -> (text: String)
    requires
        is_ascii_chars(label@),
    ensures
        text@ == label@ + ascii_chars(hex_of(bytes@)) + seq![')'],
{
    proof {
        vstd::string::is_ascii_spec_bytes(label);
        lemma_hex_is_ascii(bytes@);
    }
    let mut out = vstd::slice::slice_to_vec(label.as_bytes());
    let ghost front = out@;
    let hex = hex_bytes(bytes);
    out.extend_from_slice(hex.as_slice());
    out.push(41);
    proof {
        assert(front =~= Seq::new(label@.len(), |i: int| label@[i] as u8));
        assert forall|i: int| 0 <= i < out@.len() implies #[trigger] out@[i] < 128 by {
            if i < front.len() {
                assert('\0' <= label@[i] <= '\u{7f}');
            } else if i < front.len() + hex@.len() {
                assert(out@[i] == hex_of(bytes@)[i - front.len()]);
            }
        }
        assert forall|i: int| 0 <= i < label@.len() implies #[trigger] ascii_chars(out@)[i] == label@[i] by {
            assert('\0' <= label@[i] <= '\u{7f}');
            assert(out@[i] == label@[i] as u8);
        }
        assert(ascii_chars(out@) =~= label@ + ascii_chars(hex_of(bytes@)) + seq![')']);
    }
    ascii_string(out)
}

} // verus!
