//! How a host files a drop, and how a reader asks for a set of them.
//!
//! A read names a **bin** rather than an address: a public period and a ward,
//! taken whole, so what a reader asks for is a function of public data and of
//! nothing it knows.
//!
//! - a [`Ward`] is the sixteen-bit number a reader picks once, when its
//!   identity is made, and hands to a writer inside an invitation;
//! - a [`Period`] is which stretch of public time a drop was written in, so
//!   that a bin is finite and a host can expire one whole;
//! - an [`Object`] is those two and an address: the whole of what a host is
//!   told, spelled `period/ward/address` on every adapter.
//!
//! A [`Sweep`] names a set of bins by the leading hex digits of their ward.

use vstd::prelude::*;
use vstd::string::StringSliceAdditionalSpecFns;

use crate::address::DropAddr;
use crate::digest::{digest_parse_spec, lemma_digest_text_round_trip};
use crate::text::{ascii_chars, ascii_string};
use crate::wire::{hex_bytes, hex_char, hex_digit, hex_of, lemma_hex_is_ascii};

pub mod sweep;

pub use sweep::{Overfull, Sweep, SweepView, CAP};


verus! {

/// The byte `/` that separates the components of a key.
pub open spec fn is_separator(byte: u8) -> bool {
    byte == 47
}

/// `16` to the power `n`: how many values `n` hexadecimal digits can hold.
pub open spec fn pow16(n: nat) -> nat
    decreases n,
{
    if n == 0 {
        1
    } else {
        16 * pow16((n - 1) as nat)
    }
}

/// The powers keys are written at.
pub proof fn lemma_pow16_widths()
    ensures
        pow16(4) == 0x1_0000,
        pow16(15) == 0x1000_0000_0000_0000,
        pow16(16) == 0x1_0000_0000_0000_0000,
{
    reveal_with_fuel(pow16, 17);
}

/// `value` in `width` lowercase hexadecimal digits, most significant first.
pub open spec fn hex_number(value: nat, width: nat) -> Seq<u8>
    decreases width,
{
    if width == 0 {
        Seq::empty()
    } else {
        hex_number(value / 16, (width - 1) as nat).push(hex_digit((value % 16) as u8))
    }
}

/// Whether `byte` is a lowercase hexadecimal digit.
pub open spec fn is_hex_digit(byte: u8) -> bool {
    (48 <= byte <= 57) || (97 <= byte <= 102)
}

/// A spelling has its width, and every character of it is a lowercase
/// hexadecimal digit.
pub proof fn lemma_hex_number_digits(value: nat, width: nat)
    ensures
        hex_number(value, width).len() == width,
        forall|i: int| 0 <= i < width ==> is_hex_digit(#[trigger] hex_number(value, width)[i]),
    decreases width,
{
    if width > 0 {
        lemma_hex_number_digits(value / 16, (width - 1) as nat);
    }
}

/// The value of one hexadecimal digit as `from_str_radix` reads it: `0-9`,
/// `a-f` and `A-F`.
pub open spec fn radix_digit(byte: u8) -> Option<nat> {
    if 48 <= byte <= 57 {
        Some((byte - 48) as nat)
    } else if 97 <= byte <= 102 {
        Some((byte - 87) as nat)
    } else if 65 <= byte <= 70 {
        Some((byte - 55) as nat)
    } else {
        None
    }
}

/// The number a run of hexadecimal digits spells, when every one is a digit.
pub open spec fn radix16_value(digits: Seq<u8>) -> Option<nat>
    decreases digits.len(),
{
    if digits.len() == 0 {
        Some(0)
    } else {
        match (radix16_value(digits.drop_last()), radix_digit(digits.last())) {
            (Some(high), Some(low)) => Some(high * 16 + low),
            _ => None,
        }
    }
}

/// What `from_str_radix(text, 16)` answers for an unsigned integer wide enough
/// to hold the result: an optional `+`, then at least one digit and nothing
/// else.
pub open spec fn radix16(text: Seq<u8>) -> Option<nat> {
    if text.len() == 0 {
        None
    } else if text[0] == 43 {
        if text.len() == 1 {
            None
        } else {
            radix16_value(text.drop_first())
        }
    } else {
        radix16_value(text)
    }
}

/// A number spelled in `width` digits reads back as itself.
pub proof fn lemma_hex_number_reads_back(value: nat, width: nat)
    requires
        value < pow16(width),
    ensures
        radix16_value(hex_number(value, width)) == Some(value),
    decreases width,
{
    if width > 0 {
        let w = (width - 1) as nat;
        assert(value / 16 < pow16(w)) by (nonlinear_arith)
            requires
                value < 16 * pow16(w),
        ;
        lemma_hex_number_reads_back(value / 16, w);
        assert(hex_number(value, width).drop_last() =~= hex_number(value / 16, w));
    }
}

/// A spelling of at least one digit is what `from_str_radix` reads back.
pub proof fn lemma_hex_number_parses(value: nat, width: nat)
    requires
        value < pow16(width),
        width > 0,
    ensures
        radix16(hex_number(value, width)) == Some(value),
{
    lemma_hex_number_digits(value, width);
    lemma_hex_number_reads_back(value, width);
    assert(is_hex_digit(hex_number(value, width)[0]));
}

/// Appends `value` as `width` lowercase hexadecimal digits.
pub(crate) fn push_hex(out: &mut Vec<u8>, value: u64, width: usize)
    requires
        width <= 16,
    ensures
        final(out)@ == old(out)@ + hex_number(value as nat, width as nat),
    decreases width,
{
    if width > 0 {
        push_hex(out, value / 16, width - 1);
        out.push(hex_char((value % 16) as u8));
        assert(out@ =~= old(out)@ + hex_number(value as nat, width as nat));
    } else {
        assert(out@ =~= old(out)@ + hex_number(value as nat, width as nat));
    }
}

/// Reads `text` as `from_str_radix(text, 16)` does, for at most sixteen
/// characters, which always fit in a `u64`.
pub(crate) fn parse_radix16(text: &[u8]) -> (value: Option<u64>)
    requires
        text@.len() <= 16,
    ensures
        match radix16(text@) {
            None => value is None,
            Some(expected) => value == Some(expected as u64) && expected < pow16(text@.len()),
        },
{
    let len = text.len();
    if len == 0 {
        return None;
    }
    let start: usize = if text[0] == 43 {
        if len == 1 {
            return None;
        }
        1
    } else {
        0
    };
    let ghost digits = text@.subrange(start as int, len as int);
    let mut value: u64 = 0;
    let mut at: usize = start;
    proof {
        lemma_pow16_widths();
        assert(text@.subrange(start as int, start as int) =~= Seq::<u8>::empty());
    }
    while at < len
        invariant
            len == text@.len(),
            len <= 16,
            start <= 1,
            start == 1 ==> text@[0] == 43 && len > 1,
            start == 0 ==> text@[0] != 43,
            start <= at <= len,
            digits == text@.subrange(start as int, len as int),
            radix16_value(text@.subrange(start as int, at as int)) == Some(value as nat),
            value < pow16((at - start) as nat),
        decreases len - at,
    {
        let byte = text[at];
        let digit: u64 = if 48 <= byte && byte <= 57 {
            (byte - 48) as u64
        } else if 97 <= byte && byte <= 102 {
            (byte - 87) as u64
        } else if 65 <= byte && byte <= 70 {
            (byte - 55) as u64
        } else {
            proof {
                assert(text@.subrange(start as int, at + 1).last() == byte);
                assert(radix16_value(text@.subrange(start as int, at + 1)) is None);
                assert(text@.subrange(start as int, at + 1) =~= digits.subrange(0, (at - start) + 1));
                lemma_radix16_prefix_fails(digits, at - start);
                if start == 1 {
                    assert(text@.drop_first() =~= digits);
                } else {
                    assert(text@ =~= digits);
                }
            }
            return None;
        };
        proof {
            lemma_pow16_widths();
            let k = (at - start) as nat;
            assert(pow16(k + 1) == 16 * pow16(k));
            assert(pow16(k) <= pow16(15)) by {
                lemma_pow16_monotone(k, 15);
            }
            assert(value * 16 + digit < 16 * pow16(k)) by (nonlinear_arith)
                requires
                    value < pow16(k),
                    digit < 16,
            ;
            assert(16 * pow16(k) <= 16 * pow16(15));
            assert(text@.subrange(start as int, at + 1).drop_last() =~= text@.subrange(start as int, at as int));
        }
        value = value * 16 + digit;
        at = at + 1;
    }
    proof {
        if start == 1 {
            assert(text@.drop_first() =~= text@.subrange(1, len as int));
        } else {
            assert(text@ =~= text@.subrange(0, len as int));
        }
        lemma_pow16_monotone((len - start) as nat, len as nat);
    }
    Some(value)
}

/// A larger power holds more.
pub proof fn lemma_pow16_monotone(small: nat, large: nat)
    requires
        small <= large,
    ensures
        pow16(small) <= pow16(large),
    decreases large,
{
    if small < large {
        lemma_pow16_monotone(small, (large - 1) as nat);
    }
}

/// A run whose first `count + 1` characters do not read as digits does not
/// read as digits.
proof fn lemma_radix16_prefix_fails(digits: Seq<u8>, count: int)
    requires
        0 <= count < digits.len(),
        radix16_value(digits.subrange(0, count + 1)) is None,
    ensures
        radix16_value(digits) is None,
    decreases digits.len(),
{
    if count + 1 < digits.len() {
        assert(digits.drop_last().subrange(0, count + 1) =~= digits.subrange(0, count + 1));
        lemma_radix16_prefix_fails(digits.drop_last(), count);
    } else {
        assert(digits.subrange(0, count + 1) =~= digits);
    }
}

/// Where the separators of `text` stand, in order.
pub open spec fn slashes(text: Seq<u8>) -> Seq<int>
    decreases text.len(),
{
    if text.len() == 0 {
        Seq::empty()
    } else if is_separator(text.last()) {
        slashes(text.drop_last()).push(text.len() - 1)
    } else {
        slashes(text.drop_last())
    }
}

/// Text without a separator has none to find.
pub proof fn lemma_no_slashes(text: Seq<u8>)
    requires
        forall|i: int| 0 <= i < text.len() ==> !is_separator(#[trigger] text[i]),
    ensures
        slashes(text) == Seq::<int>::empty(),
    decreases text.len(),
{
    if text.len() > 0 {
        lemma_no_slashes(text.drop_last());
    }
}

/// The separators of two runs side by side are those of the first, then
/// those of the second moved along by the first's length.
pub proof fn lemma_slashes_concat(front: Seq<u8>, back: Seq<u8>)
    ensures
        slashes(front + back) == slashes(front) + slashes(back).map_values(|at: int| at + front.len()),
    decreases back.len(),
{
    if back.len() == 0 {
        assert(front + back =~= front);
        assert(slashes(back).map_values(|at: int| at + front.len()) =~= Seq::<int>::empty());
        assert(slashes(front) + Seq::<int>::empty() =~= slashes(front));
    } else {
        lemma_slashes_concat(front, back.drop_last());
        assert((front + back).drop_last() =~= front + back.drop_last());
        assert(slashes(front + back) =~= slashes(front) + slashes(back).map_values(|at: int| at + front.len()));
    }
}

/// The positions of the separators in `bytes`, collected.
pub(crate) fn find_slashes(bytes: &[u8], end: usize) -> (cuts: Vec<usize>)
    requires
        end <= bytes@.len(),
    ensures
        cuts@.map_values(|at: usize| at as int) == slashes(bytes@.subrange(0, end as int)),
{
    let mut cuts: Vec<usize> = Vec::new();
    let mut at: usize = 0;
    assert(bytes@.subrange(0, 0) =~= Seq::<u8>::empty());
    assert(cuts@.map_values(|at: usize| at as int) =~= Seq::<int>::empty());
    while at < end
        invariant
            end <= bytes@.len(),
            at <= end,
            cuts@.map_values(|at: usize| at as int) == slashes(bytes@.subrange(0, at as int)),
        decreases end - at,
    {
        let ghost before = cuts@;
        assert(bytes@.subrange(0, at + 1).drop_last() =~= bytes@.subrange(0, at as int));
        if bytes[at] == 47 {
            cuts.push(at);
            assert(cuts@.map_values(|at: usize| at as int) =~= before.map_values(|at: usize| at as int).push(
                at as int,
            ));
        }
        at = at + 1;
    }
    cuts
}

/// Which reader's corner of a host a drop is filed in: sixteen bits chosen at
/// random when an identity is made and never derived from anything.
#[derive(Debug, Clone, Copy, PartialEq, Eq, Structural, PartialOrd, Ord, Hash)]
pub struct Ward(u16);

impl View for Ward {
    type V = u16;

    closed spec fn view(&self) -> u16 {
        self.0
    }
}

impl Ward {
    /// How many hex digits a ward is written in.
    pub const DIGITS: u8 = 4;

    /// The ward this number names.
    pub fn from_bits(bits: u16) -> (ward: Self)
        ensures
            ward@ == bits,
    {
        Ward(bits)
    }

    /// The number, for a caller that has to write it down.
    pub fn bits(self) -> (bits: u16)
        ensures
            bits == self@,
    {
        self.0
    }

    /// Four lower-case hex digits, always, because it is a key prefix.
    pub fn to_string(&self) -> (text: String)
        ensures
            text@ == ascii_chars(hex_number(self@ as nat, 4)),
    {
        let mut out: Vec<u8> = Vec::new();
        push_hex(&mut out, self.0 as u64, 4);
        proof {
            assert(out@ =~= hex_number(self@ as nat, 4));
            lemma_hex_number_digits(self@ as nat, 4);
        }
        ascii_string(out)
    }
}

/// Which stretch of public time a drop was written in, as a count of periods
/// since the epoch. Public on purpose: a host has always seen when a drop
/// arrived.
#[derive(Debug, Clone, Copy, PartialEq, Eq, Structural, PartialOrd, Ord, Hash)]
pub struct Period(u64);

impl View for Period {
    type V = u64;

    closed spec fn view(&self) -> u64 {
        self.0
    }
}

impl Period {
    /// The period this count names.
    pub fn from_count(count: u64) -> (period: Self)
        ensures
            period@ == count,
    {
        Period(count)
    }

    /// The count, for a caller stepping through a range of them.
    pub fn count(self) -> (count: u64)
        ensures
            count == self@,
    {
        self.0
    }

    /// Sixteen lower-case hex digits, so that keys sort in time order.
    pub fn to_string(&self) -> (text: String)
        ensures
            text@ == ascii_chars(hex_number(self@ as nat, 16)),
    {
        let mut out: Vec<u8> = Vec::new();
        push_hex(&mut out, self.0, 16);
        proof {
            assert(out@ =~= hex_number(self@ as nat, 16));
            lemma_hex_number_digits(self@ as nat, 16);
        }
        ascii_string(out)
    }
}

/// A bin as a value: a period and a ward.
pub struct BinView {
    /// Which stretch of time.
    pub period: u64,
    /// Whose corner.
    pub ward: u16,
}

/// `period/ward`, every key's leading two components.
pub open spec fn bin_text(period: u64, ward: u16) -> Seq<u8> {
    hex_number(period as nat, 16) + seq![47u8] + hex_number(ward as nat, 4)
}

/// One period of one ward: everything a reader takes in a single request.
#[derive(Debug, Clone, Copy, PartialEq, Eq, Structural, PartialOrd, Ord, Hash)]
pub struct Bin {
    period: Period,
    ward: Ward,
}

impl View for Bin {
    type V = BinView;

    closed spec fn view(&self) -> BinView {
        BinView { period: self.period@, ward: self.ward@ }
    }
}

impl Bin {
    /// The bin a drop written in `period` for the reader of `ward` belongs to.
    pub fn new(period: Period, ward: Ward) -> (bin: Self)
        ensures
            bin@ == (BinView { period: period@, ward: ward@ }),
    {
        Bin { period, ward }
    }

    /// Which stretch of time.
    pub fn period(self) -> (period: Period)
        ensures
            period@ == self@.period,
    {
        self.period
    }

    /// Whose corner.
    pub fn ward(self) -> (ward: Ward)
        ensures
            ward@ == self@.ward,
    {
        self.ward
    }

    /// `period/ward`.
    pub fn to_string(&self) -> (text: String)
        ensures
            text@ == ascii_chars(bin_text(self@.period, self@.ward)),
    {
        let mut out: Vec<u8> = Vec::new();
        self.push_text(&mut out);
        proof {
            lemma_hex_number_digits(self@.period as nat, 16);
            lemma_hex_number_digits(self@.ward as nat, 4);
        }
        ascii_string(out)
    }

    /// Appends `period/ward`.
    fn push_text(&self, out: &mut Vec<u8>)
        ensures
            final(out)@ == old(out)@ + bin_text(self@.period, self@.ward),
    {
        push_hex(out, self.period.0, 16);
        out.push(47);
        push_hex(out, self.ward.0 as u64, 4);
        assert(out@ =~= old(out)@ + bin_text(self@.period, self@.ward));
    }
}

/// An object as a value: where it is filed and which address it is.
pub struct ObjectView {
    /// Which stretch of time.
    pub period: u64,
    /// Whose corner.
    pub ward: u16,
    /// The address's bytes.
    pub addr: Seq<u8>,
}

/// `period/ward/address`: the key of an object on every adapter.
pub open spec fn key_text(object: ObjectView) -> Seq<u8> {
    bin_text(object.period, object.ward) + seq![47u8] + hex_of(object.addr)
}

/// What reading `text` as a key answers: exactly three components, sixteen
/// and four characters of hexadecimal and an address, or nothing.
pub open spec fn key_spec(text: Seq<u8>) -> Option<ObjectView> {
    let cuts = slashes(text);
    if cuts.len() != 2 {
        None
    } else {
        let period = text.subrange(0, cuts[0]);
        let ward = text.subrange(cuts[0] + 1, cuts[1]);
        let addr = text.subrange(cuts[1] + 1, text.len() as int);
        if period.len() != 16 || ward.len() != 4 {
            None
        } else {
            match (radix16(period), radix16(ward), digest_parse_spec(addr, 20)) {
                (Some(period), Some(ward), Ok(addr)) => Some(
                    ObjectView { period: period as u64, ward: ward as u16, addr },
                ),
                _ => None,
            }
        }
    }
}

/// The whole of what a host is told about one drop.
#[derive(Debug, Clone, Copy, PartialEq, Eq, PartialOrd, Ord, Hash)]
pub struct Object {
    bin: Bin,
    addr: DropAddr,
}

impl View for Object {
    type V = ObjectView;

    closed spec fn view(&self) -> ObjectView {
        ObjectView { period: self.bin@.period, ward: self.bin@.ward, addr: self.addr@ }
    }
}

/// Why a key a host handed back is not one of these: a key that does not
/// parse is a key this reader did not write.
#[derive(Debug, Clone, Copy, PartialEq, Eq, Structural)]
pub struct NotAKey;

impl Object {
    /// The drop at `addr`, filed in `bin`.
    pub fn new(bin: Bin, addr: DropAddr) -> (object: Self)
        ensures
            object@ == (ObjectView { period: bin@.period, ward: bin@.ward, addr: addr@ }),
    {
        Object { bin, addr }
    }

    /// Which bin it is filed in.
    pub fn bin(&self) -> (bin: Bin)
        ensures
            bin@ == (BinView { period: self@.period, ward: self@.ward }),
    {
        self.bin
    }

    /// Which address it is, which is the only part derived from a secret.
    pub fn addr(&self) -> (addr: DropAddr)
        ensures
            addr@ == self@.addr,
    {
        self.addr
    }

    /// `period/ward/address`: the key on every adapter, spelled once.
    pub fn to_string(&self) -> (text: String)
        ensures
            text@ == ascii_chars(key_text(self@)),
    {
        let mut out: Vec<u8> = Vec::new();
        self.bin.push_text(&mut out);
        out.push(47);
        let ghost before = out@;
        let addr = hex_bytes(self.addr.as_bytes().as_slice());
        out.extend_from_slice(addr.as_slice());
        proof {
            assert(out@ =~= key_text(self@));
            lemma_hex_number_digits(self@.period as nat, 16);
            lemma_hex_number_digits(self@.ward as nat, 4);
            lemma_hex_is_ascii(self@.addr);
        }
        ascii_string(out)
    }

    /// Reads back exactly what [`Object::to_string`] writes, and the same
    /// numbers in any spelling `from_str_radix` accepts; [`NotAKey`] for
    /// anything else.
    pub fn parse(text: &str) -> (parsed: Result<Self, NotAKey>)
        ensures
            match key_spec(text.spec_bytes()) {
                None => parsed == Err::<Self, NotAKey>(NotAKey),
                Some(expected) => parsed matches Ok(object) && object@ == expected,
            },
    {
        let bytes = text.as_bytes();
        let cuts = find_slashes(bytes, bytes.len());
        assert(bytes@.subrange(0, bytes@.len() as int) =~= bytes@);
        if cuts.len() != 2 {
            return Err(NotAKey);
        }
        let first = cuts[0];
        let second = cuts[1];
        proof {
            let seen = cuts@.map_values(|at: usize| at as int);
            assert(seen[0] == first && seen[1] == second);
            lemma_slashes_ordered(bytes@);
        }
        if first != 16 || second - first - 1 != 4 {
            return Err(NotAKey);
        }
        let period = match parse_radix16(vstd::slice::slice_subrange(bytes, 0, first)) {
            Some(period) => period,
            None => return Err(NotAKey),
        };
        let ward = match parse_radix16(vstd::slice::slice_subrange(bytes, first + 1, second)) {
            Some(ward) => ward,
            None => return Err(NotAKey),
        };
        proof {
            lemma_pow16_widths();
        }
        let addr = match DropAddr::parse_bytes(vstd::slice::slice_subrange(bytes, second + 1, bytes.len())) {
            Ok(addr) => addr,
            Err(_) => return Err(NotAKey),
        };
        Ok(Object { bin: Bin { period: Period(period), ward: Ward(ward as u16) }, addr })
    }
}

/// The separators of any text stand inside it, in increasing order.
pub proof fn lemma_slashes_ordered(text: Seq<u8>)
    ensures
        forall|i: int| 0 <= i < slashes(text).len() ==> 0 <= #[trigger] slashes(text)[i] < text.len(),
        forall|i: int, j: int| 0 <= i < j < slashes(text).len() ==> slashes(text)[i] < slashes(text)[j],
        forall|i: int| 0 <= i < slashes(text).len() ==> is_separator(text[#[trigger] slashes(text)[i]]),
    decreases text.len(),
{
    if text.len() > 0 {
        let front = text.drop_last();
        lemma_slashes_ordered(front);
        if is_separator(text.last()) {
            assert(slashes(text) == slashes(front).push(text.len() - 1));
        } else {
            assert(slashes(text) == slashes(front));
        }
        assert forall|i: int| 0 <= i < slashes(text).len() implies is_separator(
            text[#[trigger] slashes(text)[i]],
        ) by {
            if i < slashes(front).len() {
                assert(text[slashes(front)[i]] == front[slashes(front)[i]]);
            }
        }
    }
}

impl core::str::FromStr for Object {
    type Err = NotAKey;

    fn from_str(text: &str) -> (parsed: Result<Self, NotAKey>)
        ensures
            match key_spec(text.spec_bytes()) {
                None => parsed == Err::<Self, NotAKey>(NotAKey),
                Some(expected) => parsed matches Ok(object) && object@ == expected,
            },
    {
        Self::parse(text)
    }
}

/// A key reads back as the object that wrote it.
pub proof fn lemma_key_round_trip(object: ObjectView)
    requires
        object.addr.len() == 20,
    ensures
        key_spec(key_text(object)) == Some(object),
{
    let period = hex_number(object.period as nat, 16);
    let ward = hex_number(object.ward as nat, 4);
    let addr = hex_of(object.addr);
    let text = key_text(object);
    lemma_pow16_widths();
    lemma_hex_number_digits(object.period as nat, 16);
    lemma_hex_number_digits(object.ward as nat, 4);
    lemma_hex_number_parses(object.period as nat, 16);
    lemma_hex_number_parses(object.ward as nat, 4);
    lemma_no_slashes(period);
    lemma_no_slashes(ward);
    lemma_hex_is_ascii(object.addr);
    assert forall|i: int| 0 <= i < addr.len() implies !is_separator(#[trigger] addr[i]) by {
    }
    lemma_no_slashes(addr);
    lemma_no_slashes(seq![47u8].drop_last());
    assert(slashes(seq![47u8]) =~= seq![0int]);
    lemma_slashes_concat(period, seq![47u8]);
    lemma_slashes_concat(period + seq![47u8], ward);
    lemma_slashes_concat(period + seq![47u8] + ward, seq![47u8]);
    lemma_slashes_concat(period + seq![47u8] + ward + seq![47u8], addr);
    assert(slashes(text) =~= seq![16int, 21int]);
    assert(text.subrange(0, 16) =~= period);
    assert(text.subrange(17, 21) =~= ward);
    assert(text.subrange(22, text.len() as int) =~= addr);
    lemma_digest_text_round_trip(object.addr);
}

} // verus!
