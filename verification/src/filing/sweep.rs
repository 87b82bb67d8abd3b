//! The set of bins one request asks for.
//!
//! The one knob a reader turns alone: how many leading hex digits of its ward a
//! request names. Fewer digits is a larger crowd to hide in and more bytes to
//! download, and no writer, host or peer is consulted about the choice.

use vstd::prelude::*;
use vstd::string::StringSliceAdditionalSpecFns;

use crate::filing::{
    find_slashes, hex_number, is_separator, key_text, lemma_hex_number_digits, lemma_hex_number_parses,
    lemma_no_slashes, lemma_pow16_widths, lemma_slashes_concat, lemma_slashes_ordered, parse_radix16, push_hex,
    radix16, slashes, Bin, Object, ObjectView, Period, Ward,
};
use crate::text::{ascii_chars, ascii_string};
use crate::wire::hex_digit;

verus! {

/// A sweep as a value: the period it asks for, the ward it was made from,
/// and how many of that ward's hex digits it names.
pub struct SweepView {
    /// The period every bin in the sweep shares.
    pub period: u64,
    /// The ward whose leading digits the sweep names.
    pub ward: u16,
    /// How many of them, at most four.
    pub digits: u8,
}

/// The bits of a ward that `digits` leading hex digits name.
pub open spec fn ward_mask(digits: u8) -> u16 {
    if digits == 0 {
        0
    } else if digits == 1 {
        0xf000
    } else if digits == 2 {
        0xff00
    } else if digits == 3 {
        0xfff0
    } else {
        0xffff
    }
}

/// Whether a sweep asks for the bin of `period` and `ward`: the same period,
/// and the same leading digits of the ward.
pub open spec fn covers_spec(sweep: SweepView, period: u64, ward: u16) -> bool {
    period == sweep.period && ward & ward_mask(sweep.digits) == sweep.ward & ward_mask(sweep.digits)
}

/// The key prefix a sweep asks for: the period, a separator, the named digits
/// of the ward, and a closing separator when it names the whole ward.
pub open spec fn prefix_text(sweep: SweepView) -> Seq<u8> {
    hex_number(sweep.period as nat, 16) + seq![47u8] + hex_number(sweep.ward as nat, 4).take(
        sweep.digits as int,
    ) + if sweep.digits == 4 {
        seq![47u8]
    } else {
        Seq::empty()
    }
}

/// `text` without the separators at its end.
pub open spec fn strip_separators(text: Seq<u8>) -> Seq<u8>
    decreases text.len(),
{
    if text.len() > 0 && is_separator(text.last()) {
        strip_separators(text.drop_last())
    } else {
        text
    }
}

/// `count` zero digits.
pub open spec fn zeros(count: nat) -> Seq<u8> {
    Seq::new(count, |i: int| 48u8)
}

/// What reading `prefix` as a sweep answers: a period of sixteen characters,
/// then at most four digits of a ward, the digits not given read as zero.
pub open spec fn sweep_spec(prefix: Seq<u8>) -> Option<SweepView> {
    let text = strip_separators(prefix);
    let cuts = slashes(text);
    if cuts.len() > 1 {
        None
    } else {
        let period = if cuts.len() == 0 {
            text
        } else {
            text.subrange(0, cuts[0])
        };
        let ward = if cuts.len() == 0 {
            Seq::empty()
        } else {
            text.subrange(cuts[0] + 1, text.len() as int)
        };
        if period.len() != 16 || ward.len() > 4 {
            None
        } else {
            match (radix16(period), radix16(ward + zeros((4 - ward.len()) as nat))) {
                (Some(period), Some(bits)) => Some(
                    SweepView { period: period as u64, ward: bits as u16, digits: ward.len() as u8 },
                ),
                _ => None,
            }
        }
    }
}

/// The set of bins a reader asks for at once: `digits` of the ward's four hex
/// digits, so four is one ward and zero is every ward on the host.
#[derive(Debug, Clone, Copy, PartialEq, Eq)]
pub struct Sweep {
    bin: Bin,
    digits: u8,
}

impl View for Sweep {
    type V = SweepView;

    closed spec fn view(&self) -> SweepView {
        SweepView { period: self.bin@.period, ward: self.bin@.ward, digits: self.digits }
    }
}

impl Sweep {
    #[verifier::type_invariant]
    closed spec fn within(self) -> bool {
        self.digits <= 4
    }

    /// Names `digits` leading hex digits of `bin`'s ward, saturating at four:
    /// asking for more digits than a ward has is asking for one ward.
    pub fn of(bin: Bin, digits: u8) -> (sweep: Self)
        ensures
            sweep@ == (SweepView {
                period: bin@.period,
                ward: bin@.ward,
                digits: if digits > 4 {
                    4
                } else {
                    digits
                },
            }),
    {
        Sweep {
            bin,
            digits: if digits > Ward::DIGITS {
                Ward::DIGITS
            } else {
                digits
            },
        }
    }

    /// The period every bin in this sweep shares.
    pub fn period(&self) -> (period: Period)
        ensures
            period@ == self@.period,
    {
        self.bin.period()
    }

    /// How many hex digits of the ward the request names, at most four.
    pub fn digits(&self) -> (digits: u8)
        ensures
            digits == self@.digits,
            digits <= 4,
    {
        proof {
            use_type_invariant(self);
        }
        self.digits
    }

    /// The key prefix this sweep asks for, ending at a component boundary when
    /// it names a whole ward, so that ward `00ab` cannot answer with the keys
    /// of a longer ward.
    pub fn prefix(&self) -> (text: String)
        ensures
            text@ == ascii_chars(prefix_text(self@)),
    {
        proof {
            use_type_invariant(self);
        }
        let mut out: Vec<u8> = Vec::new();
        push_hex(&mut out, self.bin.period().count(), 16);
        out.push(47);
        let mut ward: Vec<u8> = Vec::new();
        push_hex(&mut ward, self.bin.ward().bits() as u64, 4);
        proof {
            lemma_hex_number_digits(self@.ward as nat, 4);
            lemma_hex_number_digits(self@.period as nat, 16);
        }
        let ghost front = out@;
        let mut at: usize = 0;
        while at < self.digits as usize
            invariant
                self.digits <= 4,
                ward@ == hex_number(self@.ward as nat, 4),
                ward@.len() == 4,
                at <= self.digits,
                out@ == front + ward@.take(at as int),
            decreases self.digits - at,
        {
            out.push(ward[at]);
            assert(out@ =~= front + ward@.take(at + 1));
            at = at + 1;
        }
        if self.digits == Ward::DIGITS {
            out.push(47);
        }
        assert(out@ =~= prefix_text(self@));
        proof {
            assert forall|i: int| 0 <= i < out@.len() implies #[trigger] out@[i] < 128 by {
                if i >= 17 && i < 17 + self.digits {
                    assert(out@[i] == hex_number(self@.ward as nat, 4)[i - 17]);
                }
            }
        }
        ascii_string(out)
    }

    /// The sweep that asked for `prefix`, if a sweep could have: the inverse
    /// of [`Sweep::prefix`], reading the digits a prefix does not give as zero.
    pub fn from_prefix(prefix: &str) -> (sweep: Option<Self>)
        ensures
            match sweep_spec(prefix.spec_bytes()) {
                None => sweep is None,
                Some(expected) => sweep matches Some(found) && found@ == expected,
            },
    {
        let bytes = prefix.as_bytes();
        let mut end = bytes.len();
        assert(bytes@.subrange(0, end as int) =~= bytes@);
        while end > 0 && bytes[end - 1] == 47
            invariant
                end <= bytes@.len(),
                strip_separators(bytes@) == strip_separators(bytes@.subrange(0, end as int)),
            decreases end,
        {
            assert(bytes@.subrange(0, end as int).drop_last() =~= bytes@.subrange(0, end - 1));
            end = end - 1;
        }
        let ghost text = bytes@.subrange(0, end as int);
        assert(strip_separators(text) == text);
        let cuts = find_slashes(bytes, end);
        if cuts.len() > 1 {
            return None;
        }
        proof {
            lemma_slashes_ordered(text);
        }
        let (period_end, ward_start) = if cuts.len() == 0 {
            (end, end)
        } else {
            (cuts[0], cuts[0] + 1)
        };
        proof {
            if cuts.len() == 1 {
                assert(cuts@.map_values(|at: usize| at as int)[0] == cuts@[0] as int);
            }
        }
        let ward_len = end - ward_start;
        if period_end != 16 || ward_len > 4 {
            return None;
        }
        proof {
            lemma_pow16_widths();
            assert(text.subrange(0, period_end as int) =~= bytes@.subrange(0, period_end as int));
            if cuts.len() == 0 {
                assert(text =~= bytes@.subrange(0, period_end as int));
            }
        }
        let period = match parse_radix16(vstd::slice::slice_subrange(bytes, 0, period_end)) {
            Some(period) => period,
            None => return None,
        };
        let mut padded = vstd::slice::slice_to_vec(vstd::slice::slice_subrange(bytes, ward_start, end));
        let ghost given = padded@;
        while padded.len() < 4
            invariant
                given.len() <= padded@.len() <= 4,
                padded@ == given + zeros((padded@.len() - given.len()) as nat),
            decreases 4 - padded@.len(),
        {
            padded.push(48);
            assert(padded@ =~= given + zeros((padded@.len() - given.len()) as nat));
        }
        proof {
            assert(text.subrange(ward_start as int, text.len() as int) =~= given);
            if cuts.len() == 0 {
                assert(given =~= Seq::<u8>::empty());
            }
        }
        let bits = match parse_radix16(padded.as_slice()) {
            Some(bits) => bits,
            None => return None,
        };
        Some(
            Sweep {
                bin: Bin::new(Period::from_count(period), Ward::from_bits(bits as u16)),
                digits: ward_len as u8,
            },
        )
    }

    /// Whether `bin` is one this sweep asked for: on the bits rather than on
    /// the text of [`Sweep::prefix`], and the one authority for the question,
    /// so an adapter that lists too much is narrowed here.
    pub fn covers(&self, bin: Bin) -> (covered: bool)
        ensures
            covered == covers_spec(self@, bin@.period, bin@.ward),
    {
        proof {
            use_type_invariant(self);
        }
        let dropped: u32 = (Ward::DIGITS - self.digits) as u32 * 4;
        let named: u16 = if dropped >= 16 {
            0
        } else {
            0xffffu16 << dropped
        };
        proof {
            if self.digits == 1 {
                assert(0xffffu16 << 12u32 == 0xf000u16) by (bit_vector);
            } else if self.digits == 2 {
                assert(0xffffu16 << 8u32 == 0xff00u16) by (bit_vector);
            } else if self.digits == 3 {
                assert(0xffffu16 << 4u32 == 0xfff0u16) by (bit_vector);
            } else if self.digits == 4 {
                assert(0xffffu16 << 0u32 == 0xffffu16) by (bit_vector);
            }
        }
        bin.period().count() == self.bin.period().count() && (bin.ward().bits() & named) == (
        self.bin.ward().bits() & named)
    }

    /// Whether `object` is one this sweep asked for.
    pub fn holds(&self, object: &Object) -> (held: bool)
        ensures
            held == covers_spec(self@, object@.period, object@.ward),
    {
        self.covers(object.bin())
    }
}

/// The most objects one bin may list before a reader refuses to take it: a
/// full bin costs a reader every drop in it, so a host or a crowd that fills
/// one can deny a catch-up, and never learn which drop was wanted.
pub const CAP: usize = 256;

/// A bin listed more objects than [`CAP`].
#[derive(Debug, Clone, Copy, PartialEq, Eq, Structural)]
pub struct Overfull {
    /// How many objects the sweep holds among what was listed.
    pub objects: usize,
}

/// The objects as values.
pub open spec fn object_views(objects: Seq<Object>) -> Seq<ObjectView> {
    objects.map_values(|object: Object| object@)
}

/// Those of `objects` that `sweep` holds, in the order they were listed.
pub open spec fn held_by(sweep: SweepView, objects: Seq<ObjectView>) -> Seq<ObjectView>
    decreases objects.len(),
{
    if objects.len() == 0 {
        Seq::empty()
    } else if covers_spec(sweep, objects.last().period, objects.last().ward) {
        held_by(sweep, objects.drop_last()).push(objects.last())
    } else {
        held_by(sweep, objects.drop_last())
    }
}

impl Sweep {
    /// What a host listed for this sweep, narrowed to what the sweep holds,
    /// for this sweep is the one authority on what it covers; [`Overfull`]
    /// when that is more than [`CAP`] objects, so that nothing is fetched.
    pub fn narrow(&self, listed: &[Object]) -> (taken: Result<Vec<Object>, Overfull>)
        ensures
            held_by(self@, object_views(listed@)).len() <= CAP ==> (taken matches Ok(kept) && object_views(kept@)
                == held_by(self@, object_views(listed@))),
            held_by(self@, object_views(listed@)).len() > CAP ==> taken == Err::<Vec<Object>, Overfull>(
                Overfull { objects: held_by(self@, object_views(listed@)).len() as usize },
            ),
    {
        let mut kept: Vec<Object> = Vec::new();
        let mut at: usize = 0;
        while at < listed.len()
            invariant
                at <= listed@.len(),
                object_views(kept@) == held_by(self@, object_views(listed@.subrange(0, at as int))),
                kept@.len() <= at,
            decreases listed@.len() - at,
        {
            let object = listed[at];
            let held = self.holds(&object);
            proof {
                let before = object_views(listed@.subrange(0, at as int));
                let after = object_views(listed@.subrange(0, at + 1));
                assert(after.drop_last() =~= before);
                assert(after.last() == object@);
            }
            if held {
                kept.push(object);
                proof {
                    assert(object_views(kept@) =~= held_by(self@, object_views(listed@.subrange(0, at as int))).push(
                        object@,
                    ));
                }
            }
            at = at + 1;
        }
        assert(listed@.subrange(0, at as int) =~= listed@);
        if kept.len() > CAP {
            return Err(Overfull { objects: kept.len() });
        }
        Ok(kept)
    }
}

/// A ward's four digits, one by one.
proof fn lemma_ward_digits(ward: u16)
    ensures
        hex_number(ward as nat, 4) == seq![
            hex_digit((ward / 4096) as u8),
            hex_digit((ward / 256 % 16) as u8),
            hex_digit((ward / 16 % 16) as u8),
            hex_digit((ward % 16) as u8),
        ],
{
    reveal_with_fuel(hex_number, 5);
    let w = ward as nat;
    assert(w / 16 / 16 == w / 256) by {
        vstd::arithmetic::div_mod::lemma_div_denominator(w as int, 16, 16);
    }
    assert(w / 256 / 16 == w / 4096) by {
        vstd::arithmetic::div_mod::lemma_div_denominator(w as int, 256, 16);
    }
    assert(w / 4096 < 16);
    assert(w / 4096 / 16 == 0);
    assert(hex_number(w, 4) =~= seq![
        hex_digit((ward / 4096) as u8),
        hex_digit((ward / 256 % 16) as u8),
        hex_digit((ward / 16 % 16) as u8),
        hex_digit((ward % 16) as u8),
    ]);
}

/// Two digits are the same character exactly when they are the same value.
proof fn lemma_hex_digit_injective(a: u8, b: u8)
    requires
        a < 16,
        b < 16,
    ensures
        hex_digit(a) == hex_digit(b) <==> a == b,
{
}

/// The leading `digits` characters of two wards agree exactly when their
/// masked bits do.
proof fn lemma_leading_digits(a: u16, b: u16, digits: u8)
    requires
        digits <= 4,
    ensures
        hex_number(a as nat, 4).take(digits as int) == hex_number(b as nat, 4).take(digits as int)
            <==> (a & ward_mask(digits)) == (b & ward_mask(digits)),
{
    lemma_ward_digits(a);
    lemma_ward_digits(b);
    let x = hex_number(a as nat, 4);
    let y = hex_number(b as nat, 4);
    lemma_hex_digit_injective((a / 4096) as u8, (b / 4096) as u8);
    lemma_hex_digit_injective((a / 256 % 16) as u8, (b / 256 % 16) as u8);
    lemma_hex_digit_injective((a / 16 % 16) as u8, (b / 16 % 16) as u8);
    lemma_hex_digit_injective((a % 16) as u8, (b % 16) as u8);
    assert(a / 4096 < 16 && b / 4096 < 16) by (bit_vector);
    if digits == 0 {
        assert(x.take(0) =~= y.take(0));
        assert((a & 0u16) == (b & 0u16)) by (bit_vector);
    } else if digits == 1 {
        assert(x.take(1) == y.take(1) <==> x[0] == y[0]) by {
            if x[0] == y[0] {
                assert(x.take(1) =~= y.take(1));
            }
            if x.take(1) == y.take(1) {
                assert(x.take(1)[0] == y.take(1)[0]);
            }
        }
        assert(a / 4096 == b / 4096 <==> (a & 0xf000) == (b & 0xf000)) by (bit_vector);
    } else if digits == 2 {
        assert(x.take(2) == y.take(2) <==> x[0] == y[0] && x[1] == y[1]) by {
            if x[0] == y[0] && x[1] == y[1] {
                assert(x.take(2) =~= y.take(2));
            }
            if x.take(2) == y.take(2) {
                assert(x.take(2)[0] == y.take(2)[0] && x.take(2)[1] == y.take(2)[1]);
            }
        }
        assert((a / 4096 == b / 4096 && a / 256 % 16 == b / 256 % 16) <==> (a & 0xff00) == (b & 0xff00))
            by (bit_vector);
    } else if digits == 3 {
        assert(x.take(3) == y.take(3) <==> x[0] == y[0] && x[1] == y[1] && x[2] == y[2]) by {
            if x[0] == y[0] && x[1] == y[1] && x[2] == y[2] {
                assert(x.take(3) =~= y.take(3));
            }
            if x.take(3) == y.take(3) {
                assert(x.take(3)[0] == y.take(3)[0] && x.take(3)[1] == y.take(3)[1] && x.take(3)[2]
                    == y.take(3)[2]);
            }
        }
        assert((a / 4096 == b / 4096 && a / 256 % 16 == b / 256 % 16 && a / 16 % 16 == b / 16 % 16) <==> (a
            & 0xfff0) == (b & 0xfff0)) by (bit_vector);
    } else {
        assert(x.take(4) =~= x);
        assert(y.take(4) =~= y);
        assert(x == y <==> x[0] == y[0] && x[1] == y[1] && x[2] == y[2] && x[3] == y[3]) by {
            if x[0] == y[0] && x[1] == y[1] && x[2] == y[2] && x[3] == y[3] {
                assert(x =~= y);
            }
        }
        assert((a / 4096 == b / 4096 && a / 256 % 16 == b / 256 % 16 && a / 16 % 16 == b / 16 % 16 && a % 16
            == b % 16) <==> (a & 0xffff) == (b & 0xffff)) by (bit_vector);
    }
}

/// Two periods with one spelling are one period.
proof fn lemma_period_spelling(a: u64, b: u64)
    requires
        hex_number(a as nat, 16) == hex_number(b as nat, 16),
    ensures
        a == b,
{
    lemma_pow16_widths();
    lemma_hex_number_parses(a as nat, 16);
    lemma_hex_number_parses(b as nat, 16);
}

/// What a sweep asks for in text is what it keeps in bits: the key of an
/// object starts with a sweep's prefix exactly when the sweep holds the
/// object.
pub proof fn lemma_prefix_matches_holds(sweep: SweepView, object: ObjectView)
    requires
        sweep.digits <= 4,
    ensures
        prefix_text(sweep).is_prefix_of(key_text(object)) <==> covers_spec(sweep, object.period, object.ward),
{
    let prefix = prefix_text(sweep);
    let key = key_text(object);
    let d = sweep.digits as int;
    let mine = hex_number(sweep.period as nat, 16);
    let theirs = hex_number(object.period as nat, 16);
    let ward = hex_number(sweep.ward as nat, 4);
    let other = hex_number(object.ward as nat, 4);
    lemma_hex_number_digits(sweep.period as nat, 16);
    lemma_hex_number_digits(object.period as nat, 16);
    lemma_hex_number_digits(sweep.ward as nat, 4);
    lemma_hex_number_digits(object.ward as nat, 4);
    lemma_leading_digits(sweep.ward, object.ward, sweep.digits);
    assert(key.subrange(0, 16) =~= theirs);
    assert(key[16] == 47u8);
    assert(key.subrange(17, 17 + d) =~= other.take(d));
    assert(key[21] == 47u8);
    assert(prefix.subrange(0, 16) =~= mine);
    assert(prefix.subrange(17, 17 + d) =~= ward.take(d));
    if prefix.is_prefix_of(key) {
        assert(key.subrange(0, 16) =~= prefix.subrange(0, 16));
        lemma_period_spelling(sweep.period, object.period);
        assert(key.subrange(17, 17 + d) =~= prefix.subrange(17, 17 + d));
        assert(ward.take(d) == other.take(d));
    }
    if covers_spec(sweep, object.period, object.ward) {
        assert(ward.take(d) == other.take(d));
        assert(prefix =~= key.subrange(0, prefix.len() as int));
    }
}

/// A prefix reads back as a sweep of the same period and width that asks for
/// the same prefix, and so holds the same objects.
pub proof fn lemma_prefix_round_trip(sweep: SweepView)
    requires
        sweep.digits <= 4,
    ensures
        sweep_spec(prefix_text(sweep)) matches Some(read) && read.period == sweep.period && read.digits
            == sweep.digits && prefix_text(read) == prefix_text(sweep) && forall|period: u64, ward: u16|
            covers_spec(read, period, ward) == covers_spec(sweep, period, ward),
{
    let d = sweep.digits as int;
    let mask = ward_mask(sweep.digits);
    let whole = sweep.ward;
    let kept = (whole & mask) as u16;
    let period = hex_number(sweep.period as nat, 16);
    let ward = hex_number(sweep.ward as nat, 4);
    let given = ward.take(d);
    let prefix = prefix_text(sweep);
    lemma_pow16_widths();
    lemma_hex_number_digits(sweep.period as nat, 16);
    lemma_hex_number_digits(sweep.ward as nat, 4);
    lemma_hex_number_digits(kept as nat, 4);
    lemma_hex_number_parses(sweep.period as nat, 16);
    lemma_hex_number_parses(kept as nat, 4);
    assert((kept & mask) == (whole & mask)) by (bit_vector)
        requires
            kept == whole & mask,
    ;
    lemma_leading_digits(kept, sweep.ward, sweep.digits);
    lemma_padded_ward(sweep.ward, sweep.digits);
    lemma_no_slashes(period);
    assert forall|i: int| 0 <= i < given.len() implies !is_separator(#[trigger] given[i]) by {
        assert(given[i] == ward[i]);
    }
    lemma_no_slashes(given);
    lemma_no_slashes(seq![47u8].drop_last());
    assert(slashes(seq![47u8]) =~= seq![0int]);
    let body = if d == 0 {
        period
    } else {
        period + seq![47u8] + given
    };
    assert(strip_separators(prefix) == body) by {
        if d == 0 {
            assert(prefix =~= period + seq![47u8]);
            assert((period + seq![47u8]).drop_last() =~= period);
            assert(!is_separator(period.last()));
            assert(strip_separators(body) == body);
        } else if d == 4 {
            assert(prefix =~= body + seq![47u8]);
            assert((body + seq![47u8]).drop_last() =~= body);
            assert(body.last() == ward[d - 1]);
            assert(strip_separators(body) == body);
        } else {
            assert(prefix =~= body);
            assert(body.last() == ward[d - 1]);
            assert(strip_separators(body) == body);
        }
    }
    if d == 0 {
        assert(slashes(body) =~= Seq::<int>::empty());
        assert(Seq::<u8>::empty() + zeros(4) =~= hex_number(kept as nat, 4));
    } else {
        lemma_slashes_concat(period, seq![47u8]);
        lemma_slashes_concat(period + seq![47u8], given);
        assert(slashes(body) =~= seq![16int]);
        assert(body.subrange(0, 16) =~= period);
        assert(body.subrange(17, body.len() as int) =~= given);
    }
    let read = sweep_spec(prefix)->Some_0;
    assert(read.ward == kept);
    assert forall|p: u64, w: u16| covers_spec(read, p, w) == covers_spec(sweep, p, w) by {
        assert((w & mask) == (kept & mask) <==> (w & mask) == (whole & mask)) by (bit_vector)
            requires
                kept == whole & mask,
        ;
    }
}

/// The digits a sweep gives, padded with zeros, spell its ward with the digits
/// it does not name cleared.
proof fn lemma_padded_ward(ward: u16, digits: u8)
    requires
        digits <= 4,
    ensures
        hex_number(ward as nat, 4).take(digits as int) + zeros((4 - digits) as nat) == hex_number(
            (ward & ward_mask(digits)) as nat,
            4,
        ),
{
    let kept = (ward & ward_mask(digits)) as u16;
    lemma_ward_digits(ward);
    lemma_ward_digits(kept);
    assert(hex_digit(0) == 48u8);
    if digits == 0 {
        assert((ward & 0u16) == 0u16) by (bit_vector);
    } else if digits == 1 {
        assert((ward & 0xf000u16) / 4096 == ward / 4096 && (ward & 0xf000u16) / 256 % 16 == 0 && (ward
            & 0xf000u16) / 16 % 16 == 0 && (ward & 0xf000u16) % 16 == 0) by (bit_vector);
    } else if digits == 2 {
        assert((ward & 0xff00u16) / 4096 == ward / 4096 && (ward & 0xff00u16) / 256 % 16 == ward / 256 % 16
            && (ward & 0xff00u16) / 16 % 16 == 0 && (ward & 0xff00u16) % 16 == 0) by (bit_vector);
    } else if digits == 3 {
        assert((ward & 0xfff0u16) / 4096 == ward / 4096 && (ward & 0xfff0u16) / 256 % 16 == ward / 256 % 16
            && (ward & 0xfff0u16) / 16 % 16 == ward / 16 % 16 && (ward & 0xfff0u16) % 16 == 0)
            by (bit_vector);
    } else {
        assert((ward & 0xffffu16) == ward) by (bit_vector);
    }
    assert(hex_number(ward as nat, 4).take(digits as int) + zeros((4 - digits) as nat) =~= hex_number(
        kept as nat,
        4,
    ));
}

/// A shorter prefix holds more wards, and never another period: whatever a
/// sweep holds, the same sweep naming fewer digits holds too.
pub proof fn lemma_fewer_digits_hold_more(sweep: SweepView, fewer: u8, period: u64, ward: u16)
    requires
        fewer <= sweep.digits <= 4,
        covers_spec(sweep, period, ward),
    ensures
        covers_spec(SweepView { digits: fewer, ..sweep }, period, ward),
{
    let w = sweep.ward;
    if fewer == 0 {
        assert((ward & 0u16) == (w & 0u16)) by (bit_vector);
    } else if fewer == 1 {
        assert((ward & 0xf000u16) == (w & 0xf000u16)) by (bit_vector)
            requires
                (ward & 0xf000u16) == (w & 0xf000u16) || (ward & 0xff00u16) == (w & 0xff00u16) || (ward
                    & 0xfff0u16) == (w & 0xfff0u16) || (ward & 0xffffu16) == (w & 0xffffu16),
        ;
    } else if fewer == 2 {
        assert((ward & 0xff00u16) == (w & 0xff00u16)) by (bit_vector)
            requires
                (ward & 0xff00u16) == (w & 0xff00u16) || (ward & 0xfff0u16) == (w & 0xfff0u16) || (ward
                    & 0xffffu16) == (w & 0xffffu16),
        ;
    } else if fewer == 3 {
        assert((ward & 0xfff0u16) == (w & 0xfff0u16)) by (bit_vector)
            requires
                (ward & 0xfff0u16) == (w & 0xfff0u16) || (ward & 0xffffu16) == (w & 0xffffu16),
        ;
    }
}

} // verus!
