//! Who is in a room, signed so that the claim travels with the founder's key.
//!
//! The same shape as an alias: a claim about members, signed by the key it
//! belongs to, so every member reads one roster every other member can check.
//! A roster moved under another founder's key is a forgery rather than a
//! roster, because the founder's handle is inside what was signed.
//!
//! **Members are keys, not handles.** A reader verifies every member's stream
//! against the key the roster names; a handle alone would leave nothing to
//! check a signature with.

use vstd::prelude::*;
use vstd::string::StringSliceAdditionalSpecFns;

use crate::identity::{ed25519_accepts, ed25519_public_key, ed25519_signature, handle_of_key, Handle, Signature, Signer, VerifyingKey};
use crate::wire::Reader;

verus! {

broadcast use Seq::lemma_flatten_push;

/// Domain separation for the signature over a roster.
pub const ROOM_DOMAIN: &'static str = "kusanagi/room/1";

/// The most members one room holds.
pub const MOST_MEMBERS: usize = 32;

/// A roster as a value: each member's key, in order, and the signature.
pub struct RosterView {
    /// The members' keys, in the order the founder listed them.
    pub members: Seq<Seq<u8>>,
    /// The founder's signature over them.
    pub signature: Seq<u8>,
}

/// Who is in a room, as the founder signed it.
#[derive(PartialEq, Eq, Debug)]
pub struct Roster {
    members: Vec<VerifyingKey>,
    signature: Signature,
}

/// The keys of `members`, as byte strings.
pub open spec fn keys_of(members: Seq<VerifyingKey>) -> Seq<Seq<u8>> {
    members.map_values(|member: VerifyingKey| member@)
}

impl View for Roster {
    type V = RosterView;

    closed spec fn view(&self) -> RosterView {
        RosterView { members: keys_of(self.members@), signature: self.signature@ }
    }
}

impl Clone for Roster {
    fn clone(&self) -> (copy: Self)
        ensures
            copy@ == self@,
    {
        proof {
            use_type_invariant(self);
        }
        let members = self.members.clone();
        assert(members@ =~= self.members@);
        Roster { members, signature: self.signature }
    }
}

/// The bytes a roster signs: domain, the founder's handle, then every member.
pub open spec fn claimed_room(founder: Seq<u8>, members: Seq<Seq<u8>>) -> Seq<u8> {
    ROOM_DOMAIN.spec_bytes() + founder + members.flatten()
}

/// The wire form of a roster: `count u8 ‖ members ‖ signature`.
pub open spec fn roster_bytes(roster: RosterView) -> Seq<u8> {
    seq![roster.members.len() as u8] + roster.members.flatten() + roster.signature
}

/// The key at place `at` of a list of members that starts at `start`.
pub open spec fn member_at(bytes: Seq<u8>, start: int, at: int) -> Seq<u8> {
    bytes.subrange(start + 32 * at, start + 32 * at + 32)
}

/// What reading one roster at `at` answers: the roster and where it ends, or
/// why the bytes are not one.
pub open spec fn roster_read_spec(bytes: Seq<u8>, at: int) -> Result<(RosterView, int), RosterError> {
    if bytes.len() - at < 1 {
        Err(RosterError::Malformed)
    } else {
        let count = bytes[at] as int;
        if count > MOST_MEMBERS {
            Err(RosterError::TooMany { count: count as usize, limit: MOST_MEMBERS })
        } else if bytes.len() - at - 1 < 32 * count {
            Err(RosterError::Malformed)
        } else {
            let signed_at = at + 1 + 32 * count;
            if bytes.len() - signed_at < 64 {
                Err(RosterError::Malformed)
            } else {
                Ok(
                    (
                        RosterView {
                            members: Seq::new(count as nat, |i: int| member_at(bytes, at + 1, i)),
                            signature: bytes.subrange(signed_at, signed_at + 64),
                        },
                        signed_at + 64,
                    ),
                )
            }
        }
    }
}

/// What reading `bytes` as exactly one roster answers.
pub open spec fn roster_spec(bytes: Seq<u8>) -> Result<RosterView, RosterError> {
    match roster_read_spec(bytes, 0) {
        Err(error) => Err(error),
        Ok((roster, end)) => if end != bytes.len() {
            Err(RosterError::Malformed)
        } else {
            Ok(roster)
        },
    }
}

/// The bytes a roster signs, built.
fn claimed(founder: &Handle, members: &[VerifyingKey]) -> (bytes: Vec<u8>)
    ensures
        bytes@ == claimed_room(founder@, keys_of(members@)),
{
    let mut out = vstd::slice::slice_to_vec(ROOM_DOMAIN.as_bytes());
    out.extend_from_slice(founder.as_bytes().as_slice());
    let ghost prefix = out@;
    let mut at: usize = 0;
    while at < members.len()
        invariant
            at <= members@.len(),
            out@ == prefix + keys_of(members@.subrange(0, at as int)).flatten(),
        decreases members@.len() - at,
    {
        out.extend_from_slice(members[at].as_bytes().as_slice());
        proof {
            assert(keys_of(members@.subrange(0, at + 1)) =~= keys_of(members@.subrange(0, at as int)).push(
                members@[at as int]@,
            ));
        }
        assert(out@ =~= prefix + keys_of(members@.subrange(0, at + 1)).flatten());
        at = at + 1;
    }
    assert(members@.subrange(0, at as int) =~= members@);
    assert(out@ =~= claimed_room(founder@, keys_of(members@)));
    out
}

impl Roster {
    #[verifier::type_invariant]
    closed spec fn small_enough(self) -> bool {
        self.members@.len() <= MOST_MEMBERS
    }

    /// Signs `members` as the room of `founder`'s making;
    /// [`RosterError::TooMany`] when the list names more members than a room
    /// holds, for a roster that could not be written down is not signed.
    pub fn sign(founder: &Signer, members: Vec<VerifyingKey>) -> (signed: Result<Self, RosterError>)
        ensures
            members@.len() > MOST_MEMBERS ==> signed == Err::<Self, RosterError>(
                RosterError::TooMany { count: members@.len() as usize, limit: MOST_MEMBERS },
            ),
            members@.len() <= MOST_MEMBERS ==> (signed matches Ok(roster) && roster@ == (RosterView {
                members: keys_of(members@),
                signature: ed25519_signature(
                    founder.seed(),
                    claimed_room(handle_of_key(ed25519_public_key(founder.seed())), keys_of(members@)),
                ),
            })),
            signed matches Ok(roster) ==> roster@.signature.len() == 64 && forall|i: int|
                0 <= i < roster@.members.len() ==> (#[trigger] roster@.members[i]).len() == 32,
    {
        if members.len() > MOST_MEMBERS {
            return Err(RosterError::TooMany { count: members.len(), limit: MOST_MEMBERS });
        }
        let signature = founder.sign(claimed(&founder.handle(), members.as_slice()).as_slice());
        let roster = Roster { members, signature };
        proof {
            roster.lemma_widths();
        }
        Ok(roster)
    }

    /// The members, as claimed; [`Roster::verify`] is what makes them believed.
    pub fn members(&self) -> (members: &[VerifyingKey])
        ensures
            keys_of(members@) == self@.members,
    {
        self.members.as_slice()
    }

    /// Every member is a key of 32 bytes and the signature is 64.
    pub proof fn lemma_widths(&self)
        ensures
            self@.signature.len() == 64,
            forall|i: int| 0 <= i < self@.members.len() ==> (#[trigger] self@.members[i]).len() == 32,
    {
        Signature::lemma_width(self.signature);
        assert forall|i: int| 0 <= i < self@.members.len() implies (#[trigger] self@.members[i]).len() == 32 by {
            VerifyingKey::lemma_width(self.members@[i]);
        }
    }

    /// The wire form: `count u8 ‖ members ‖ signature`. A roster never names
    /// more members than a room holds, so the count always fits and this never
    /// answers [`RosterError::TooMany`].
    ///
    /// What it writes reads back as this roster, and the same bytes with one
    /// more after them are refused as [`RosterError::Malformed`].
    pub fn to_bytes(&self) -> (bytes: Result<Vec<u8>, RosterError>)
        ensures
            bytes matches Ok(bytes) && bytes@ == roster_bytes(self@),
            bytes matches Ok(bytes) && roster_spec(bytes@) == Ok::<RosterView, RosterError>(self@),
            bytes matches Ok(bytes) && forall|extra: u8|
                roster_spec(#[trigger] bytes@.push(extra)) == Err::<RosterView, RosterError>(RosterError::Malformed),
    {
        proof {
            use_type_invariant(self);
        }
        let count = self.members.len();
        if count > MOST_MEMBERS {
            return Err(RosterError::TooMany { count, limit: MOST_MEMBERS });
        }
        let mut out: Vec<u8> = Vec::new();
        out.push(count as u8);
        let mut at: usize = 0;
        while at < count
            invariant
                count == self.members@.len(),
                at <= count,
                out@ == seq![count as u8] + keys_of(self.members@.subrange(0, at as int)).flatten(),
            decreases count - at,
        {
            out.extend_from_slice(self.members[at].as_bytes().as_slice());
            proof {
                assert(keys_of(self.members@.subrange(0, at + 1)) =~= keys_of(
                    self.members@.subrange(0, at as int),
                ).push(self.members@[at as int]@));
            }
            assert(out@ =~= seq![count as u8] + keys_of(self.members@.subrange(0, at + 1)).flatten());
            at = at + 1;
        }
        out.extend_from_slice(self.signature.as_bytes().as_slice());
        assert(self.members@.subrange(0, count as int) =~= self.members@);
        assert(out@ =~= roster_bytes(self@));
        proof {
            self.lemma_widths();
            lemma_roster_round_trip(self@);
            assert forall|extra: u8|
                roster_spec(#[trigger] out@.push(extra)) == Err::<RosterView, RosterError>(RosterError::Malformed) by {
                lemma_roster_read_extends(out@, extra);
            }
        }
        Ok(out)
    }

    /// Reads what [`Roster::to_bytes`] wrote, without believing it:
    /// [`RosterError::Malformed`] when the bytes are not exactly one roster,
    /// and [`RosterError::TooMany`] when the count names more members than a
    /// room holds.
    pub fn from_bytes(bytes: &[u8]) -> (read: Result<Self, RosterError>)
        ensures
            match (read, roster_spec(bytes@)) {
                (Ok(roster), Ok(expected)) => roster@ == expected,
                (Err(error), Err(expected)) => error == expected,
                _ => false,
            },
    {
        let mut reader = Reader::new(bytes);
        let roster = match Self::read(&mut reader) {
            Ok(roster) => roster,
            Err(error) => return Err(error),
        };
        if reader.remaining() != 0 {
            return Err(RosterError::Malformed);
        }
        Ok(roster)
    }

    /// Reads one roster out of `reader` and leaves whatever follows it: the
    /// count byte, that many keys, then one signature, so a record that
    /// carries one needs no length in front of it.
    pub fn read(reader: &mut Reader<'_>) -> (read: Result<Self, RosterError>)
        ensures
            final(reader).input() == old(reader).input(),
            match (read, roster_read_spec(old(reader).input(), old(reader).position() as int)) {
                (Ok(roster), Ok((expected, end))) => roster@ == expected && final(reader).position() == end,
                (Err(error), Err(expected)) => error == expected,
                _ => false,
            },
    {
        let ghost bytes = reader.input();
        let ghost start = reader.position() as int;
        let count = match reader.take_byte() {
            Ok(count) => count,
            Err(_) => return Err(RosterError::Malformed),
        };
        proof {
            assert(seq![count][0] == count);
            assert(bytes.subrange(start, start + 1)[0] == bytes[start]);
        }
        if count as usize > MOST_MEMBERS {
            return Err(RosterError::TooMany { count: count as usize, limit: MOST_MEMBERS });
        }
        let mut members: Vec<VerifyingKey> = Vec::new();
        let mut at: u8 = 0;
        while at < count
            invariant
                reader.input() == bytes,
                bytes == old(reader).input(),
                start == old(reader).position(),
                0 <= start < bytes.len(),
                count == bytes[start],
                count <= MOST_MEMBERS,
                at <= count,
                reader.position() == start + 1 + 32 * at,
                members@.len() == at,
                forall|i: int| 0 <= i < at ==> #[trigger] members@[i]@ == member_at(bytes, start + 1, i),
            decreases count - at,
        {
            let key = match reader.take_array::<32>() {
                Ok(key) => key,
                Err(_) => {
                    assert(bytes.len() - start - 1 < 32 * count);
                    return Err(RosterError::Malformed);
                },
            };
            members.push(VerifyingKey::from_bytes(key));
            at = at + 1;
        }
        let signature = match reader.take_array::<64>() {
            Ok(signature) => Signature::from_bytes(signature),
            Err(_) => return Err(RosterError::Malformed),
        };
        let ghost expected = roster_read_spec(bytes, start)->Ok_0.0;
        assert(keys_of(members@) =~= expected.members);
        Ok(Roster { members, signature })
    }

    /// The members, once `key` is shown to have signed them as its own room;
    /// [`RosterError::Forged`] when the signature is not `key`'s over these
    /// members and `key`'s handle, which is also what a roster moved from one
    /// founder to another fails with.
    pub fn verify(&self, key: &VerifyingKey) -> (verified: Result<&[VerifyingKey], RosterError>)
        ensures
            ed25519_accepts(key@, claimed_room(handle_of_key(key@), self@.members), self@.signature)
                ==> (verified matches Ok(members) && keys_of(members@) == self@.members),
            !ed25519_accepts(key@, claimed_room(handle_of_key(key@), self@.members), self@.signature)
                ==> verified == Err::<&[VerifyingKey], RosterError>(RosterError::Forged),
    {
        let signed = claimed(&key.handle(), self.members.as_slice());
        match key.verify(signed.as_slice(), &self.signature) {
            Ok(()) => Ok(self.members.as_slice()),
            Err(_) => Err(RosterError::Forged),
        }
    }
}

/// Why a roster was refused.
#[derive(Debug, Clone, Copy, PartialEq, Eq)]
pub enum RosterError {
    /// The bytes are not a roster.
    Malformed,
    /// The list names `count` members and a room holds at most `limit`.
    TooMany { count: usize, limit: usize },
    /// The signature is not the founder's over these members.
    Forged,
}

/// A roster reads back as itself from its wire form.
pub proof fn lemma_roster_round_trip(roster: RosterView)
    requires
        roster.members.len() <= MOST_MEMBERS,
        forall|i: int| 0 <= i < roster.members.len() ==> (#[trigger] roster.members[i]).len() == 32,
        roster.signature.len() == 64,
    ensures
        roster_spec(roster_bytes(roster)) == Ok::<RosterView, RosterError>(roster),
{
    let bytes = roster_bytes(roster);
    let count = roster.members.len() as int;
    lemma_flatten_members(roster.members, count);
    let keys = roster.members.flatten();
    assert(keys.len() == 32 * count);
    assert(bytes[0] as int == count);
    assert forall|i: int| 0 <= i < count implies #[trigger] member_at(bytes, 1, i) == roster.members[i] by {
        lemma_flatten_member(roster.members, i);
        assert(member_at(bytes, 1, i) =~= keys.subrange(32 * i, 32 * i + 32));
    }
    assert(Seq::new(count as nat, |i: int| member_at(bytes, 1, i)) =~= roster.members);
    assert(bytes.subrange(1 + 32 * count, 1 + 32 * count + 64) =~= roster.signature);
}

/// A byte after a roster does not change what is read as the roster; it is
/// only left over.
proof fn lemma_roster_read_extends(bytes: Seq<u8>, extra: u8)
    requires
        roster_read_spec(bytes, 0) is Ok,
    ensures
        roster_read_spec(bytes.push(extra), 0) == roster_read_spec(bytes, 0),
{
    let longer = bytes.push(extra);
    let count = bytes[0] as int;
    let signed_at = 1 + 32 * count;
    assert(longer[0] == bytes[0]);
    assert forall|i: int| 0 <= i < count implies #[trigger] member_at(longer, 1, i) == member_at(bytes, 1, i) by {
        assert(1 + 32 * i + 32 <= 1 + 32 * count) by (nonlinear_arith)
            requires
                0 <= i < count,
        ;
        assert(member_at(longer, 1, i) =~= member_at(bytes, 1, i));
    }
    assert(Seq::new(count as nat, |i: int| member_at(longer, 1, i)) =~= Seq::new(
        count as nat,
        |i: int| member_at(bytes, 1, i),
    ));
    assert(longer.subrange(signed_at, signed_at + 64) =~= bytes.subrange(signed_at, signed_at + 64));
}

/// Keys of 32 bytes each flatten to 32 bytes apiece.
proof fn lemma_flatten_members(members: Seq<Seq<u8>>, count: int)
    requires
        count == members.len(),
        forall|i: int| 0 <= i < members.len() ==> (#[trigger] members[i]).len() == 32,
    ensures
        members.flatten().len() == 32 * count,
    decreases members.len(),
{
    if members.len() > 0 {
        lemma_flatten_members(members.drop_first(), count - 1);
    }
}

/// Key `i` of a flattened list stands at bytes `32 i` to `32 i + 32`.
proof fn lemma_flatten_member(members: Seq<Seq<u8>>, i: int)
    requires
        0 <= i < members.len(),
        forall|j: int| 0 <= j < members.len() ==> (#[trigger] members[j]).len() == 32,
    ensures
        members.flatten().subrange(32 * i, 32 * i + 32) == members[i],
    decreases members.len(),
{
    lemma_flatten_members(members.drop_first(), members.len() - 1);
    if i == 0 {
        assert(members.flatten().subrange(0, 32) =~= members[0]);
    } else {
        lemma_flatten_member(members.drop_first(), i - 1);
        assert(members.flatten().subrange(32 * i, 32 * i + 32) =~= members.drop_first().flatten().subrange(
            32 * (i - 1),
            32 * (i - 1) + 32,
        ));
    }
}

} // verus!
