//! What a caller asks of an endpoint, in the few words that are values rather
//! than places: whose stream, what to do about a name, and how much of a
//! stream a walk must fetch.

use vstd::prelude::*;
use vstd::string::StringSliceAdditionalSpecFns;

use crate::identity::Handle;
use crate::text::{ascii_chars, ascii_string};
use crate::wire::{hex_bytes, hex_of, lemma_hex_is_ascii};

verus! {

/// Which stream a read reports: what was I told, or what did I say.
#[derive(Debug, Clone, Copy, PartialEq, Eq, Structural)]
pub enum Whose {
    /// The peer's stream: what the other end wrote.
    Peer,
    /// This endpoint's own stream: what it wrote itself.
    Mine,
}

/// What to do about this endpoint's name: asking, setting and clearing are
/// three different things a caller means.
#[derive(Debug, Clone, PartialEq, Eq)]
pub enum Naming {
    /// Report the name as it stands.
    Ask,
    /// Record this name. It is checked before it is written.
    Assign(String),
    /// Record that this endpoint has no name.
    Clear,
}

/// What the caller of a walk actually needs out of it: the need, not the
/// mechanism, so that a caller cannot ask for a cheap walk and then display
/// segments the cheap walk never fetched.
#[derive(Clone, Copy, Debug, PartialEq, Eq, Structural)]
pub enum Reach {
    /// Every segment, because the caller is going to show them all.
    Whole,
    /// Only the segments above this floor; the caller already holds the rest.
    Above(u64),
    /// No segments at all: only how high the stream stands.
    Head,
}

impl Reach {
    /// Whether a walk with this reach resumes from a recorded position whose
    /// head sits at `recorded`, rather than starting from genesis.
    pub open spec fn resumes_spec(self, burned: bool, recorded: u64) -> bool {
        match self {
            Reach::Whole => burned,
            Reach::Head => true,
            Reach::Above(floor) => burned || recorded <= floor,
        }
    }

    /// Whether a walk with this reach resumes from a recorded position at
    /// height `recorded`.
    ///
    /// A lane whose keys burn behind it (`burned`) can only be walked from its
    /// record: the drops beneath it are gone. Otherwise the whole stream is
    /// walked from genesis, a head is read from the record, and a walk above a
    /// floor resumes only from a record at or below that floor, since one above
    /// it would never fetch the segments between the two.
    pub fn resumes(self, burned: bool, recorded: u64) -> (resumed: bool)
        ensures
            resumed == self.resumes_spec(burned, recorded),
            burned ==> resumed,
            self is Head ==> resumed,
            self is Whole ==> (resumed <==> burned),
            self matches Reach::Above(floor) && recorded <= floor ==> resumed,
            self matches Reach::Above(floor) && floor < recorded ==> (resumed <==> burned),
    {
        match self {
            Reach::Whole => burned,
            Reach::Head => true,
            Reach::Above(floor) => burned || recorded <= floor,
        }
    }
}

/// A walk above a floor resumes from any record that does not stand above the
/// floor, whichever height below it the record holds: a record strictly below
/// the floor is resumed from just as one at the floor is, and only one above
/// the floor, on a lane that does not burn, sends the walk back to genesis.
pub proof fn lemma_resumes_at_or_below_the_floor(floor: u64, burned: bool, recorded: u64)
    ensures
        recorded <= floor ==> Reach::Above(floor).resumes_spec(burned, recorded),
        floor < recorded ==> (Reach::Above(floor).resumes_spec(burned, recorded) <==> burned),
        burned ==> Reach::Above(floor).resumes_spec(burned, recorded),
{
}

/// Resuming only gets easier the lower the record stands, and the higher the
/// floor: a walk that resumes from a record resumes from every lower one, and
/// the same record is resumed from by a walk above any higher floor.
pub proof fn lemma_resuming_is_monotone(floor: u64, higher_floor: u64, burned: bool, recorded: u64, lower: u64)
    requires
        Reach::Above(floor).resumes_spec(burned, recorded),
        lower <= recorded,
        floor <= higher_floor,
    ensures
        Reach::Above(floor).resumes_spec(burned, lower),
        Reach::Above(higher_floor).resumes_spec(burned, recorded),
{
}

/// A lane whose keys burn is always walked from its record, whatever is asked
/// of the walk; a head is always read from the record; a whole walk of a lane
/// that does not burn always starts from genesis.
pub proof fn lemma_what_resumes(reach: Reach, burned: bool, recorded: u64)
    ensures
        burned ==> reach.resumes_spec(burned, recorded),
        reach.resumes_spec(true, recorded),
        Reach::Head.resumes_spec(burned, recorded),
        !Reach::Whole.resumes_spec(false, recorded),
{
}

/// What a read owes its caller: everything, or only what sits above the
/// height the caller says it already holds.
pub fn reach(after: Option<u64>) -> (owed: Reach)
    ensures
        owed == match after {
            None => Reach::Whole,
            Some(floor) => Reach::Above(floor),
        },
{
    match after {
        None => Reach::Whole,
        Some(floor) => Reach::Above(floor),
    }
}

/// Two flags into one answer: `require` records that a proxy is required,
/// `optional` lifts the requirement, and neither only reads it.
pub fn stance(require: bool, optional: bool) -> (answer: Option<bool>)
    ensures
        answer == if require {
            Some(true)
        } else if optional {
            Some(false)
        } else {
            None::<bool>
        },
{
    match (require, optional) {
        (true, _) => Some(true),
        (_, true) => Some(false),
        _ => None,
    }
}

/// The most bytes a channel name has.
pub const MAX_NAME: usize = 32;

/// Whether `byte` may stand in a channel name: `a-z`, `0-9` or `-`.
pub open spec fn name_byte(byte: u8) -> bool {
    (97 <= byte <= 122) || (48 <= byte <= 57) || byte == 45
}

/// The bytes a channel name may hold are exactly the lowercase ASCII letters,
/// the ASCII digits and the hyphen: every one of those is accepted, and no
/// other byte is, so an underscore, a capital, a dot, a slash or a space in a
/// name refuses it.
pub proof fn lemma_name_alphabet(byte: u8)
    ensures
        0x61 <= byte <= 0x7a ==> name_byte(byte),
        0x30 <= byte <= 0x39 ==> name_byte(byte),
        byte == 0x2d ==> name_byte(byte),
        name_byte(byte) ==> (0x61 <= byte <= 0x7a) || (0x30 <= byte <= 0x39) || byte == 0x2d,
        !name_byte(0x5f),
        0x41 <= byte <= 0x5a ==> !name_byte(byte),
        !name_byte(0x2e) && !name_byte(0x2f) && !name_byte(0x20) && !name_byte(0x00),
{
}

/// Whether `name` is plainly a channel name: one to [`MAX_NAME`] bytes of
/// `a-z`, `0-9` and `-`, which is safe in a path, a shell and a URL alike.
pub fn check_name(name: &str) -> (usable: bool)
    ensures
        usable == (0 < name.spec_bytes().len() <= MAX_NAME && forall|i: int|
            0 <= i < name.spec_bytes().len() ==> name_byte(#[trigger] name.spec_bytes()[i])),
        usable <==> (1 <= name.spec_bytes().len() <= 32 && forall|i: int|
            0 <= i < name.spec_bytes().len() ==> ({
                let b = #[trigger] name.spec_bytes()[i];
                (0x61 <= b && b <= 0x7a) || (0x30 <= b && b <= 0x39) || b == 0x2d
            })),
        usable ==> forall|i: int|
            0 <= i < name.spec_bytes().len() ==> #[trigger] name.spec_bytes()[i] != 0x5f
                && !(0x41 <= name.spec_bytes()[i] <= 0x5a) && name.spec_bytes()[i] != 0x2e
                && name.spec_bytes()[i] != 0x2f && name.spec_bytes()[i] != 0x20,
{
    let bytes = name.as_bytes();
    if bytes.len() == 0 || bytes.len() > MAX_NAME {
        return false;
    }
    let mut at: usize = 0;
    while at < bytes.len()
        invariant
            bytes@ == name.spec_bytes(),
            at <= bytes@.len(),
            forall|i: int| 0 <= i < at ==> name_byte(#[trigger] bytes@[i]),
        decreases bytes@.len() - at,
    {
        let byte = bytes[at];
        if !((97 <= byte && byte <= 122) || (48 <= byte && byte <= 57) || byte == 45) {
            assert(!name_byte(bytes@[at as int]));
            return false;
        }
        at = at + 1;
    }
    true
}

/// A handle rendered short enough to read, for listings: the first twelve
/// characters of its text form.
pub fn abbreviate(handle: &Handle) -> (short: String)
    ensures
        short@ == ascii_chars(hex_of(handle@).take(12)),
{
    proof {
        Handle::lemma_width(*handle);
        lemma_hex_is_ascii(handle@);
    }
    let whole = hex_bytes(handle.as_bytes().as_slice());
    let mut out: Vec<u8> = Vec::new();
    let mut at: usize = 0;
    while at < 12
        invariant
            whole@ == hex_of(handle@),
            whole@.len() == 64,
            at <= 12,
            out@ == whole@.take(at as int),
        decreases 12 - at,
    {
        out.push(whole[at]);
        assert(out@ =~= whole@.take(at + 1));
        at = at + 1;
    }
    proof {
        assert forall|i: int| 0 <= i < out@.len() implies #[trigger] out@[i] < 128 by {
            assert(out@[i] == hex_of(handle@)[i]);
        }
    }
    ascii_string(out)
}

} // verus!
