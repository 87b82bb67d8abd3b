//! How bytes become text, and how bytes are read back without stepping off the end.
//!
//! Every identifier, segment and declaration in this network is hashed or
//! signed, so each has exactly one spelling. The text form is lowercase
//! hexadecimal of the full width and nothing else parses.

use vstd::prelude::*;
use vstd::string::StringSliceAdditionalSpecFns;

use crate::text::{ascii_chars, ascii_string, is_ascii_bytes};

verus! {

/// The ASCII character of a four-bit value: `0-9` then `a-f`.
pub open spec fn hex_digit(value: u8) -> u8 {
    if value < 10 {
        (value + 48) as u8
    } else {
        (value + 87) as u8
    }
}

/// The four-bit value of one lowercase hexadecimal character, if it is one.
pub open spec fn nibble_of(character: u8) -> Option<u8> {
    if 48 <= character <= 57 {
        Some((character - 48) as u8)
    } else if 97 <= character <= 102 {
        Some((character - 87) as u8)
    } else {
        None
    }
}

/// The lowercase hexadecimal spelling of `bytes`, two characters per byte.
pub open spec fn hex_of(bytes: Seq<u8>) -> Seq<u8> {
    Seq::new(
        (2 * bytes.len()) as nat,
        |i: int|
            if i % 2 == 0 {
                hex_digit(bytes[i / 2] / 16)
            } else {
                hex_digit(bytes[i / 2] % 16)
            },
    )
}

/// Whether every character of `text` is lowercase hexadecimal.
pub open spec fn is_hex(text: Seq<u8>) -> bool {
    forall|i: int| 0 <= i < text.len() ==> (#[trigger] nibble_of(text[i])) is Some
}

/// The bytes a run of hexadecimal characters spells, pair by pair.
pub open spec fn bytes_of_hex(text: Seq<u8>) -> Seq<u8> {
    Seq::new(
        text.len() / 2,
        |i: int| (nibble_of(text[2 * i])->0 * 16 + nibble_of(text[2 * i + 1])->0) as u8,
    )
}

/// What [`unhex`] answers for the bytes of a piece of text.
pub open spec fn unhex_spec(text: Seq<u8>) -> Result<Seq<u8>, HexError> {
    if text.len() % 2 != 0 {
        Err(HexError::OddLength { found: text.len() as usize })
    } else if !is_hex(text) {
        Err(HexError::Charset)
    } else {
        Ok(bytes_of_hex(text))
    }
}

/// Why a piece of text is not hexadecimal.
#[derive(Debug, Clone, Copy, PartialEq, Eq)]
pub enum HexError {
    /// The text does not divide into pairs of characters; `found` is how many
    /// characters it had.
    OddLength { found: usize },
    /// The text contains something other than `0-9` or `a-f`.
    Charset,
}

impl HexError {
    /// A stable code for machine callers. Never changes once published.
    pub fn code(&self) -> (code: &'static str)
        ensures
            code@ == self.code_spec(),
    {
        match self {
            HexError::OddLength { .. } => "hex.odd_length",
            HexError::Charset => "hex.charset",
        }
    }

    /// The code of each failure.
    pub open spec fn code_spec(&self) -> Seq<char> {
        match self {
            HexError::OddLength { .. } => "hex.odd_length"@,
            HexError::Charset => "hex.charset"@,
        }
    }
}

/// Decodes one lowercase hexadecimal character.
fn nibble(character: u8) -> (value: Option<u8>)
    ensures
        value == nibble_of(character),
{
    if 48 <= character && character <= 57 {
        Some(character - 48)
    } else if 97 <= character && character <= 102 {
        Some(character - 87)
    } else {
        None
    }
}

/// Parses lowercase hexadecimal back into bytes.
///
/// An odd number of characters is [`HexError::OddLength`] and anything outside
/// `0-9a-f` is [`HexError::Charset`]. Uppercase is refused rather than folded:
/// a value with two spellings is a value with two identities.
pub fn unhex(text: &str) -> (result: Result<Vec<u8>, HexError>)
    ensures
        match (result, unhex_spec(text.spec_bytes())) {
            (Ok(bytes), Ok(spelled)) => bytes@ == spelled,
            (Err(error), Err(expected)) => error == expected,
            _ => false,
        },
{
    unhex_bytes(text.as_bytes())
}

/// [`unhex`] on the bytes of a piece of text.
pub(crate) fn unhex_bytes(bytes: &[u8]) -> (result: Result<Vec<u8>, HexError>)
    ensures
        match (result, unhex_spec(bytes@)) {
            (Ok(decoded), Ok(spelled)) => decoded@ == spelled,
            (Err(error), Err(expected)) => error == expected,
            _ => false,
        },
{
    let len = bytes.len();
    if len % 2 != 0 {
        return Err(HexError::OddLength { found: len });
    }
    let mut out: Vec<u8> = Vec::with_capacity(len / 2);
    let mut at: usize = 0;
    while at < len / 2
        invariant
            len == bytes@.len(),
            len % 2 == 0,
            at <= len / 2,
            out@.len() == at,
            forall|j: int| 0 <= j < 2 * at ==> (#[trigger] nibble_of(bytes@[j])) is Some,
            forall|j: int| 0 <= j < at ==> out@[j] == #[trigger] bytes_of_hex(bytes@)[j],
        decreases len / 2 - at,
    {
        let high = nibble(bytes[2 * at]);
        let low = nibble(bytes[2 * at + 1]);
        match (high, low) {
            (Some(high), Some(low)) => {
                out.push(high * 16 + low);
            },
            _ => {
                proof {
                    if high is None {
                        assert(!(nibble_of(bytes@[2 * at as int]) is Some));
                    } else {
                        assert(!(nibble_of(bytes@[2 * at + 1]) is Some));
                    }
                }
                return Err(HexError::Charset);
            },
        }
        at = at + 1;
    }
    assert(out@ =~= bytes_of_hex(bytes@));
    Ok(out)
}


/// Every byte survives a trip through its spelling and back.
pub proof fn lemma_hex_round_trip(bytes: Seq<u8>)
    ensures
        is_hex(hex_of(bytes)),
        unhex_spec(hex_of(bytes)) == Ok::<Seq<u8>, HexError>(bytes),
{
    let text = hex_of(bytes);
    assert forall|i: int| 0 <= i < text.len() implies (#[trigger] nibble_of(text[i])) is Some by {
    }
    assert(bytes_of_hex(text) =~= bytes);
}

/// Text that parses is the one spelling of what it parses to.
pub proof fn lemma_hex_one_spelling(text: Seq<u8>)
    requires
        unhex_spec(text) is Ok,
    ensures
        hex_of(bytes_of_hex(text)) == text,
{
    let bytes = bytes_of_hex(text);
    assert forall|i: int| 0 <= i < text.len() implies #[trigger] hex_of(bytes)[i] == text[i] by {
        assert(nibble_of(text[i]) is Some);
        let pair = i / 2;
        assert(nibble_of(text[2 * pair]) is Some);
        assert(nibble_of(text[2 * pair + 1]) is Some);
    }
    assert(hex_of(bytes) =~= text);
}

/// Every spelled character is a lowercase hexadecimal digit, hence ASCII.
pub proof fn lemma_hex_is_ascii(bytes: Seq<u8>)
    ensures
        is_ascii_bytes(hex_of(bytes)),
        hex_of(bytes).len() == 2 * bytes.len(),
{
}

/// Bytes rendered as lowercase hexadecimal.
pub struct Hex<'a>(pub &'a [u8]);

impl<'a> Hex<'a> {
    /// The text: two lowercase hexadecimal characters per byte.
    pub fn to_string(&self) -> (text: String)
        ensures
            text@ == ascii_chars(hex_of(self.0@)),
    {
        let out = hex_bytes(self.0);
        proof {
            lemma_hex_is_ascii(self.0@);
        }
        ascii_string(out)
    }
}

/// The lowercase hexadecimal spelling of `bytes`, as bytes.
pub(crate) fn hex_bytes(bytes: &[u8]) -> (out: Vec<u8>)
    ensures
        out@ == hex_of(bytes@),
{
    let mut out: Vec<u8> = Vec::with_capacity(bytes.len());
    let mut at: usize = 0;
    while at < bytes.len()
        invariant
            at <= bytes@.len(),
            out@ =~= hex_of(bytes@.subrange(0, at as int)),
        decreases bytes@.len() - at,
    {
        let byte = bytes[at];
        out.push(hex_char(byte / 16));
        out.push(hex_char(byte % 16));
        at = at + 1;
        assert(out@ =~= hex_of(bytes@.subrange(0, at as int)));
    }
    assert(bytes@.subrange(0, bytes@.len() as int) =~= bytes@);
    out
}

/// The character of one four-bit value.
pub(crate) fn hex_char(value: u8) -> (character: u8)
    requires
        value < 16,
    ensures
        character == hex_digit(value),
{
    if value < 10 {
        value + 48
    } else {
        value + 87
    }
}


/// `256` to the power `n`: how many values `n` bytes can hold.
pub open spec fn pow256(n: nat) -> nat
    decreases n,
{
    if n == 0 {
        1
    } else {
        256 * pow256((n - 1) as nat)
    }
}

/// The `width` big-endian bytes that spell `value`, most significant first.
///
/// Bytes above `width` are dropped, so this is the spelling of
/// `value % 256^width`; every caller writes a value that fits.
pub open spec fn be_bytes(value: nat, width: nat) -> Seq<u8>
    decreases width,
{
    if width == 0 {
        Seq::empty()
    } else {
        be_bytes(value / 256, (width - 1) as nat).push((value % 256) as u8)
    }
}

/// The number a run of big-endian bytes spells.
pub open spec fn be_value(bytes: Seq<u8>) -> nat
    decreases bytes.len(),
{
    if bytes.len() == 0 {
        0
    } else {
        be_value(bytes.drop_last()) * 256 + bytes.last() as nat
    }
}

/// A spelling has the width it was asked for.
pub proof fn lemma_be_bytes_len(value: nat, width: nat)
    ensures
        be_bytes(value, width).len() == width,
    decreases width,
{
    if width > 0 {
        lemma_be_bytes_len(value / 256, (width - 1) as nat);
    }
}

/// Reading bytes as a number and spelling the number gives the bytes back.
pub proof fn lemma_be_value_spells(bytes: Seq<u8>)
    ensures
        be_value(bytes) < pow256(bytes.len()),
        be_bytes(be_value(bytes), bytes.len()) == bytes,
    decreases bytes.len(),
{
    if bytes.len() > 0 {
        let front = bytes.drop_last();
        lemma_be_value_spells(front);
        let v = be_value(front);
        let p = pow256(front.len());
        let last = bytes.last();
        assert(v * 256 + last < p * 256) by (nonlinear_arith)
            requires
                v < p,
                last < 256,
        ;
        assert((v * 256 + last) / 256 == v);
        assert((v * 256 + last) % 256 == last);
        assert(be_bytes(be_value(bytes), bytes.len()) =~= front.push(last));
        assert(front.push(last) =~= bytes);
    }
}

/// Two values that fit in `width` bytes have one spelling each.
pub proof fn lemma_be_bytes_injective(a: nat, b: nat, width: nat)
    requires
        a < pow256(width),
        b < pow256(width),
        be_bytes(a, width) == be_bytes(b, width),
    ensures
        a == b,
    decreases width,
{
    if width > 0 {
        let w = (width - 1) as nat;
        lemma_be_bytes_len(a / 256, w);
        lemma_be_bytes_len(b / 256, w);
        assert(be_bytes(a, width).last() == be_bytes(b, width).last());
        assert(be_bytes(a / 256, w) =~= be_bytes(a, width).drop_last());
        assert(be_bytes(b / 256, w) =~= be_bytes(b, width).drop_last());
        let p = pow256(w);
        assert(a / 256 < p && b / 256 < p) by (nonlinear_arith)
            requires
                a < 256 * p,
                b < 256 * p,
        ;
        lemma_be_bytes_injective(a / 256, b / 256, w);
        let (x, y) = ((a % 256) as u8, (b % 256) as u8);
        assert(be_bytes(a, width) == be_bytes(a / 256, w).push(x));
        assert(be_bytes(b, width) == be_bytes(b / 256, w).push(y));
        assert(be_bytes(a, width).last() == x);
        assert(be_bytes(b, width).last() == y);
        assert(x == y);
        assert(a % 256 == x as nat);
        assert(b % 256 == y as nat);
    }
}

/// A number that fits in `width` bytes is the number its spelling reads as.
pub proof fn lemma_be_value_of_bytes(value: nat, width: nat)
    requires
        value < pow256(width),
    ensures
        be_value(be_bytes(value, width)) == value,
{
    lemma_be_bytes_len(value, width);
    lemma_be_value_spells(be_bytes(value, width));
    lemma_be_bytes_injective(be_value(be_bytes(value, width)), value, width);
}

/// The powers this crate writes integers at.
pub proof fn lemma_pow256_widths()
    ensures
        pow256(1) == 0x100,
        pow256(2) == 0x1_0000,
        pow256(4) == 0x1_0000_0000,
        pow256(8) == 0x1_0000_0000_0000_0000,
{
    reveal_with_fuel(pow256, 9);
}

/// Appends `value` as `width` big-endian bytes.
pub(crate) fn push_be(out: &mut Vec<u8>, value: u64, width: usize)
    requires
        width <= 8,
    ensures
        final(out)@ == old(out)@ + be_bytes(value as nat, width as nat),
    decreases width,
{
    if width > 0 {
        push_be(out, value / 256, width - 1);
        out.push((value % 256) as u8);
        proof {
            let w = (width - 1) as nat;
            assert(be_bytes(value as nat, width as nat) == be_bytes((value / 256) as nat, w).push((value % 256) as u8));
        }
        assert(out@ =~= old(out)@ + be_bytes(value as nat, width as nat));
    } else {
        assert(out@ =~= old(out)@ + be_bytes(value as nat, width as nat));
    }
}

/// The number at most eight big-endian bytes spell.
pub(crate) fn read_be(bytes: &[u8]) -> (value: u64)
    requires
        bytes@.len() <= 8,
    ensures
        value as nat == be_value(bytes@),
        be_bytes(value as nat, bytes@.len()) == bytes@,
{
    let mut value: u64 = 0;
    let mut at: usize = 0;
    while at < bytes.len()
        invariant
            at <= bytes@.len() <= 8,
            value as nat == be_value(bytes@.subrange(0, at as int)),
        decreases bytes@.len() - at,
    {
        proof {
            lemma_be_value_spells(bytes@.subrange(0, at as int));
            lemma_pow256_widths();
            lemma_pow256_monotone(at as nat, 7);
            assert(bytes@.subrange(0, at + 1).drop_last() =~= bytes@.subrange(0, at as int));
        }
        value = value * 256 + bytes[at] as u64;
        at = at + 1;
    }
    assert(bytes@.subrange(0, bytes@.len() as int) =~= bytes@);
    proof {
        lemma_be_value_spells(bytes@);
    }
    value
}

/// A smaller width holds fewer values.
pub proof fn lemma_pow256_monotone(small: nat, large: nat)
    requires
        small <= large,
    ensures
        pow256(small) <= pow256(large),
    decreases large,
{
    if small < large {
        lemma_pow256_monotone(small, (large - 1) as nat);
    }
}


/// The input ended in the middle of a field: `wanted` bytes were asked for and
/// only `had` remained.
#[derive(Debug, Clone, Copy, PartialEq, Eq)]
pub struct Incomplete {
    /// How many bytes the field required.
    pub wanted: usize,
    /// How many bytes were actually left.
    pub had: usize,
}

/// A cursor that cannot walk off the end of its input.
///
/// Every decoder in this crate reads bytes that arrived from somewhere
/// untrusted, so the cursor owns the rule that a read past the end is a named
/// failure rather than a panic, and that a failed read consumes nothing.
pub struct Reader<'a> {
    bytes: &'a [u8],
    at: usize,
}

impl<'a> Reader<'a> {
    #[verifier::type_invariant]
    spec fn within(self) -> bool {
        self.at <= self.bytes@.len()
    }

    /// Everything this reader was given.
    pub closed spec fn input(&self) -> Seq<u8> {
        self.bytes@
    }

    /// How many bytes have been taken.
    pub closed spec fn position(&self) -> nat {
        self.at as nat
    }

    /// How many bytes are left, as a number.
    pub open spec fn left(&self) -> int {
        self.input().len() - self.position()
    }

    /// What a take of `count` bytes answers from here, and where it leaves the
    /// reader: the next `count` bytes, or a refusal that moves nothing.
    pub open spec fn take_spec(&self, count: nat) -> Result<Seq<u8>, Incomplete> {
        if count <= self.left() {
            Ok(self.input().subrange(self.position() as int, (self.position() + count) as int))
        } else {
            Err(Incomplete { wanted: count as usize, had: self.left() as usize })
        }
    }

    /// Starts at the beginning of `bytes`.
    pub fn new(bytes: &'a [u8]) -> (reader: Self)
        ensures
            reader.input() == bytes@,
            reader.position() == 0,
    {
        Reader { bytes, at: 0 }
    }

    /// Takes the next `count` bytes, or consumes nothing and says how many
    /// were wanted and how many remained.
    pub fn take(&mut self, count: usize) -> (taken: Result<&'a [u8], Incomplete>)
        ensures
            final(self).input() == old(self).input(),
            final(self).position() <= final(self).input().len(),
            match (taken, old(self).take_spec(count as nat)) {
                (Ok(slice), Ok(expected)) => slice@ == expected
                    && final(self).position() == old(self).position() + count,
                (Err(error), Err(expected)) => error == expected
                    && final(self).position() == old(self).position(),
                _ => false,
            },
    {
        proof {
            use_type_invariant(&*self);
        }
        let had = self.bytes.len() - self.at;
        if count > had {
            return Err(Incomplete { wanted: count, had });
        }
        let end = self.at + count;
        let slice = vstd::slice::slice_subrange(self.bytes, self.at, end);
        self.at = end;
        Ok(slice)
    }

    /// Takes the next `N` bytes as a fixed-width array.
    pub fn take_array<const N: usize>(&mut self) -> (taken: Result<[u8; N], Incomplete>)
        ensures
            final(self).input() == old(self).input(),
            final(self).position() <= final(self).input().len(),
            match (taken, old(self).take_spec(N as nat)) {
                (Ok(array), Ok(expected)) => array@ == expected
                    && final(self).position() == old(self).position() + N,
                (Err(error), Err(expected)) => error == expected
                    && final(self).position() == old(self).position(),
                _ => false,
            },
    {
        let slice = match self.take(N) {
            Ok(slice) => slice,
            Err(error) => return Err(error),
        };
        let mut out = [0u8; N];
        let mut i: usize = 0;
        while i < N
            invariant
                slice@.len() == N,
                out@.len() == N,
                i <= N,
                forall|j: int| 0 <= j < i ==> out@[j] == slice@[j],
            decreases N - i,
        {
            out[i] = slice[i];
            i = i + 1;
        }
        assert(out@ =~= slice@);
        Ok(out)
    }

    /// Takes the next byte.
    pub fn take_byte(&mut self) -> (taken: Result<u8, Incomplete>)
        ensures
            final(self).input() == old(self).input(),
            final(self).position() <= final(self).input().len(),
            match (taken, old(self).take_spec(1)) {
                (Ok(byte), Ok(expected)) => seq![byte] == expected
                    && final(self).position() == old(self).position() + 1,
                (Err(error), Err(expected)) => error == expected
                    && final(self).position() == old(self).position(),
                _ => false,
            },
    {
        let slice = match self.take(1) {
            Ok(slice) => slice,
            Err(error) => return Err(error),
        };
        let byte = slice[0];
        assert(seq![byte] =~= slice@);
        Ok(byte)
    }

    /// Takes the next eight bytes as a big-endian `u64`.
    pub fn take_u64(&mut self) -> (taken: Result<u64, Incomplete>)
        ensures
            final(self).input() == old(self).input(),
            final(self).position() <= final(self).input().len(),
            match (taken, old(self).take_spec(8)) {
                (Ok(value), Ok(expected)) => be_bytes(value as nat, 8) == expected
                    && final(self).position() == old(self).position() + 8,
                (Err(error), Err(expected)) => error == expected
                    && final(self).position() == old(self).position(),
                _ => false,
            },
    {
        let slice = match self.take(8) {
            Ok(slice) => slice,
            Err(error) => return Err(error),
        };
        Ok(read_be(slice))
    }

    /// Takes the next four bytes as a big-endian `u32`.
    pub fn take_u32(&mut self) -> (taken: Result<u32, Incomplete>)
        ensures
            final(self).input() == old(self).input(),
            final(self).position() <= final(self).input().len(),
            match (taken, old(self).take_spec(4)) {
                (Ok(value), Ok(expected)) => be_bytes(value as nat, 4) == expected
                    && final(self).position() == old(self).position() + 4,
                (Err(error), Err(expected)) => error == expected
                    && final(self).position() == old(self).position(),
                _ => false,
            },
    {
        let slice = match self.take(4) {
            Ok(slice) => slice,
            Err(error) => return Err(error),
        };
        let value = read_be(slice);
        proof {
            lemma_be_value_spells(slice@);
            lemma_pow256_widths();
        }
        Ok(value as u32)
    }

    /// How many bytes are left.
    pub fn remaining(&self) -> (count: usize)
        ensures
            count == self.left(),
    {
        proof {
            use_type_invariant(self);
        }
        self.bytes.len() - self.at
    }
}

} // verus!
