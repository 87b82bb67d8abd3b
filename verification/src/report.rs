//! What a command produced, and the same outcome said to a person.
//!
//! The value is what a machine parses; the prose is what somebody reading a
//! terminal needs to see first. Column widths, the words `cut off`, and the
//! warning under a forgotten channel belong to the prose and nowhere near the
//! value.

use vstd::prelude::*;
use vstd::string::{StrSliceExecFns, StringExecFns};

verus! {

/// One segment as it is reported.
pub struct Entry {
    /// Its height.
    pub index: u64,
    /// Its content address, in text.
    pub id: String,
    /// Where it was left, in text.
    pub address: String,
    /// The exact bytes, in lowercase hexadecimal: the field a program reads.
    pub payload: String,
    /// The same bytes as text, lossily, for eyes only.
    pub text: String,
}

/// One channel as it is listed.
pub struct Summary {
    /// What the channel is called here.
    pub name: String,
    /// Where its drops live.
    pub waypoint: String,
    /// How this endpoint stands on it.
    pub standing: &'static str,
    /// The peer, abbreviated, absent until somebody joins.
    pub peer: Option<String>,
    /// What this endpoint may do here right now; empty exactly when `refused`
    /// is present.
    pub can: Vec<&'static str>,
    /// When the authority lapses, in seconds since the Unix epoch; absent for
    /// a root authority.
    pub expires_at: Option<u64>,
    /// How long that is from the instant the command sampled.
    pub expires_in: Option<u64>,
    /// The stable code that says why `can` is empty.
    pub refused: Option<&'static str>,
    /// The code a read of the peer's stream would fail with.
    pub peer_refused: Option<&'static str>,
}

/// One measured capability as it is reported.
pub struct Measured {
    /// Which capability.
    pub capability: &'static str,
    /// What the host was found to do.
    pub verdict: &'static str,
    /// Why, when there is more to say.
    pub detail: Option<String>,
}

/// What a command produced.
#[non_exhaustive]
pub enum Outcome {
    /// This endpoint's identity: its handle, in full, and where the site lives.
    Identity { handle: String, site: String },
    /// Every channel here, one row each.
    Channels { channels: Vec<Summary> },
    /// An invitation was minted: what the channel is called here, the line to
    /// hand over, which is a bearer credential, and when it stops being
    /// accepted, absolutely and from now.
    Invited { name: String, invite: String, expires_at: u64, expires_in: u64 },
    /// An invitation was accepted: the channel's name here, this endpoint's
    /// handle, the handle that issued the invitation, and where the drops live.
    Joined { name: String, handle: String, peer: String, waypoint: String },
    /// A segment was appended: on which channel, at what height, with which
    /// content address, left where.
    Sent { name: String, index: u64, id: String, address: String },
    /// A stream was read and verified: which channel, whose stream, the
    /// verified height when anything was written, and every segment in order.
    Read { name: String, author: String, height: Option<u64>, segments: Vec<Entry> },
    /// A peer was cut off: which channel, and the delegation step that no
    /// longer counts.
    Revoked { name: String, step: String },
    /// A channel was deleted from this endpoint; its drops remain where they
    /// are.
    Forgotten { name: String, waypoint: String },
    /// A host was measured: what, what kind of place, the tier it qualifies
    /// for, and one row per capability.
    Examined { waypoint: String, kind: &'static str, tier: &'static str, capabilities: Vec<Measured> },
    /// This endpoint served as a host until the listener stopped.
    Hosted { address: String, directory: String },
}

/// The decimal digit `digit` is written as.
pub open spec fn digit_char(digit: nat) -> char {
    if digit == 0 {
        '0'
    } else if digit == 1 {
        '1'
    } else if digit == 2 {
        '2'
    } else if digit == 3 {
        '3'
    } else if digit == 4 {
        '4'
    } else if digit == 5 {
        '5'
    } else if digit == 6 {
        '6'
    } else if digit == 7 {
        '7'
    } else if digit == 8 {
        '8'
    } else {
        '9'
    }
}

/// `number` in decimal, as `{}` writes it.
pub open spec fn decimal(number: nat) -> Seq<char>
    decreases number,
{
    if number < 10 {
        seq![digit_char(number)]
    } else {
        decimal(number / 10) + seq![digit_char(number % 10)]
    }
}

/// `count` spaces.
pub open spec fn spaces(count: nat) -> Seq<char> {
    Seq::new(count, |i: int| ' ')
}

/// `text` left-aligned in a column of `width` characters, as `{:<width}`
/// writes it: never cut, padded with spaces when shorter.
pub open spec fn padded(text: Seq<char>, width: nat) -> Seq<char> {
    if text.len() >= width {
        text
    } else {
        text + spaces((width - text.len()) as nat)
    }
}

/// `parts` with `separator` between each two.
pub open spec fn joined(parts: Seq<Seq<char>>, separator: Seq<char>) -> Seq<char>
    decreases parts.len(),
{
    if parts.len() == 0 {
        Seq::empty()
    } else if parts.len() == 1 {
        parts[0]
    } else {
        joined(parts.drop_last(), separator) + separator + parts.last()
    }
}

/// The text of an optional piece of text, empty when absent.
pub open spec fn text_of(text: Option<String>) -> Seq<char> {
    match text {
        Some(text) => text@,
        None => Seq::empty(),
    }
}

/// The authority column of a channel row.
pub open spec fn authority_text(channel: Summary) -> Seq<char> {
    let can = joined(channel.can@.map_values(|word: &'static str| word@), ","@);
    match (channel.refused, channel.expires_at) {
        (Some(code), _) => "nothing: "@ + code@,
        (None, None) => can,
        (None, Some(until)) => can + " until "@ + decimal(until as nat),
    }
}

/// The peer column of a channel row.
pub open spec fn peer_text(channel: Summary) -> Seq<char> {
    match (channel.peer, channel.peer_refused) {
        (None, _) => "(nobody has joined yet)"@,
        (Some(peer), None) => peer@,
        (Some(peer), Some(code)) => peer@ + " — cut off ("@ + code@ + ")"@,
    }
}

/// One channel row: name, standing, authority and peer in their columns, and
/// the waypoint last, where its unbounded width pushes nothing out of line.
pub open spec fn row_text(channel: Summary) -> Seq<char> {
    "  "@ + padded(channel.name@, 16) + " "@ + padded(channel.standing@, 8) + " "@ + padded(
        authority_text(channel),
        30,
    ) + " "@ + padded(peer_text(channel), 40) + " "@ + channel.waypoint@
}

/// The channel table: a count, then one row each.
pub open spec fn listing_text(channels: Seq<Summary>) -> Seq<char> {
    joined(
        seq![decimal(channels.len()) + " channel(s)"@] + channels.map_values(|channel: Summary| row_text(channel)),
        "\n"@,
    )
}

/// One verified stream: a header, then each payload as text.
pub open spec fn stream_text(name: Seq<char>, author: Seq<char>, height: Option<u64>, segments: Seq<Entry>) -> Seq<char> {
    let header = match height {
        None => "`"@ + name + "`: "@ + author + " has written nothing yet"@,
        Some(height) => "`"@ + name + "`: "@ + author + " verifies to height "@ + decimal(height as nat)
            + " ("@ + decimal(segments.len()) + " segment(s))"@,
    };
    joined(
        seq![header] + segments.map_values(|entry: Entry| "  #"@ + padded(decimal(entry.index as nat), 3) + " "@ + entry.text@),
        "\n"@,
    )
}

/// What a host was measured to do, capability by capability.
pub open spec fn certificate_text(waypoint: Seq<char>, kind: Seq<char>, tier: Seq<char>, capabilities: Seq<Measured>) -> Seq<char> {
    joined(
        seq![waypoint + "\n  kind  "@ + kind + "\n  tier  "@ + tier, Seq::empty()] + capabilities.map_values(
            |measured: Measured|
                "  "@ + padded(measured.capability@, 18) + " "@ + measured.verdict@ + match measured.detail {
                    Some(detail) => " — "@ + detail@,
                    None => Seq::empty(),
                },
        ),
        "\n"@,
    )
}

/// An outcome said to a person.
pub open spec fn render_spec(outcome: Outcome) -> Seq<char> {
    match outcome {
        Outcome::Identity { handle, site } => "this endpoint is "@ + handle@ + "\n  site  "@ + site@,
        Outcome::Channels { channels } => if channels@.len() == 0 {
            "no channels yet; `kusanagi invite` starts one"@
        } else {
            listing_text(channels@)
        },
        Outcome::Invited { name, invite, expires_at, .. } => "channel `"@ + name@ + "` is open, and expires at "@
            + decimal(expires_at as nat) + "\n\n"@ + invite@ + "\n\n"@
            + "hand that line over once. Anybody who holds it can join, so treat it the way you would treat a key."@,
        Outcome::Joined { name, handle, peer, waypoint } => "joined `"@ + name@ + "`\n  you       "@ + handle@
            + "\n  peer      "@ + peer@ + "\n  waypoint  "@ + waypoint@,
        Outcome::Sent { name, index, id, address } => "sent on `"@ + name@ + "` #"@ + decimal(index as nat)
            + "\n  id      "@ + id@ + "\n  address "@ + address@,
        Outcome::Read { name, author, height, segments } => stream_text(name@, author@, height, segments@),
        Outcome::Revoked { name, step } => "the peer of `"@ + name@ + "` is cut off\n  step  "@ + step@
            + "\nnothing they write from now on will be accepted here."@,
        Outcome::Forgotten { name, waypoint } => "`"@ + name@ + "` is gone from this endpoint\n  waypoint  "@
            + waypoint@
            + "\nthe drops stay where they are, and the secret that opened them does not. This channel cannot be re-entered, by this invitation or any copy of it."@,
        Outcome::Examined { waypoint, kind, tier, capabilities } => certificate_text(
            waypoint@,
            kind@,
            tier@,
            capabilities@,
        ),
        Outcome::Hosted { address, directory } => "stopped hosting "@ + directory@ + " on "@ + address@,
    }
}

/// The literal of one decimal digit.
fn digit(value: u64) -> (text: &'static str)
    requires
        value < 10,
    ensures
        text@ == seq![digit_char(value as nat)],
{
    proof {
        reveal_strlit("0");
        reveal_strlit("1");
        reveal_strlit("2");
        reveal_strlit("3");
        reveal_strlit("4");
        reveal_strlit("5");
        reveal_strlit("6");
        reveal_strlit("7");
        reveal_strlit("8");
        reveal_strlit("9");
    }
    if value == 0 {
        "0"
    } else if value == 1 {
        "1"
    } else if value == 2 {
        "2"
    } else if value == 3 {
        "3"
    } else if value == 4 {
        "4"
    } else if value == 5 {
        "5"
    } else if value == 6 {
        "6"
    } else if value == 7 {
        "7"
    } else if value == 8 {
        "8"
    } else {
        "9"
    }
}

/// Appends `number` in decimal.
fn push_decimal(out: &mut String, number: u64)
    ensures
        final(out)@ == old(out)@ + decimal(number as nat),
    decreases number,
{
    if number >= 10 {
        push_decimal(out, number / 10);
        out.append(digit(number % 10));
        assert(out@ =~= old(out)@ + decimal(number as nat));
    } else {
        out.append(digit(number));
        assert(out@ =~= old(out)@ + decimal(number as nat));
    }
}

/// `number` in decimal, as a string of its own.
fn decimal_text(number: u64) -> (text: String)
    ensures
        text@ == decimal(number as nat),
{
    let mut out = String::new();
    push_decimal(&mut out, number);
    assert(out@ =~= decimal(number as nat));
    out
}

/// Appends `text` left-aligned in a column of `width` characters.
fn push_padded(out: &mut String, text: &str, width: usize)
    ensures
        final(out)@ == old(out)@ + padded(text@, width as nat),
{
    out.append(text);
    let count = text.unicode_len();
    if count < width {
        proof {
            reveal_strlit(" ");
        }
        let ghost front = out@;
        let mut filled: usize = count;
        while filled < width
            invariant
                count <= filled <= width,
                count == text@.len(),
                out@ == front + spaces((filled - count) as nat),
                " "@ == seq![' '],
            decreases width - filled,
        {
            out.append(" ");
            filled = filled + 1;
            assert(out@ =~= front + spaces((filled - count) as nat));
        }
        assert(out@ =~= old(out)@ + padded(text@, width as nat));
    } else {
        assert(out@ =~= old(out)@ + padded(text@, width as nat));
    }
}

/// The pieces of `parts` joined lie one after another.
proof fn lemma_joined_push(parts: Seq<Seq<char>>, part: Seq<char>, separator: Seq<char>)
    requires
        parts.len() > 0,
    ensures
        joined(parts.push(part), separator) == joined(parts, separator) + separator + part,
{
    assert(parts.push(part).drop_last() =~= parts);
}

/// The words of `can` joined by commas.
fn push_words(out: &mut String, words: &Vec<&'static str>)
    ensures
        final(out)@ == old(out)@ + joined(words@.map_values(|word: &'static str| word@), ","@),
{
    let ghost all = words@.map_values(|word: &'static str| word@);
    let ghost front = old(out)@;
    let mut at: usize = 0;
    assert(all.subrange(0, 0) =~= Seq::<Seq<char>>::empty());
    while at < words.len()
        invariant
            at <= words@.len(),
            all == words@.map_values(|word: &'static str| word@),
            out@ == front + joined(all.subrange(0, at as int), ","@),
        decreases words@.len() - at,
    {
        if at > 0 {
            out.append(",");
        }
        out.append(words[at]);
        proof {
            assert(all.subrange(0, at + 1) =~= all.subrange(0, at as int).push(all[at as int]));
            if at > 0 {
                lemma_joined_push(all.subrange(0, at as int), all[at as int], ","@);
            } else {
                assert(joined(all.subrange(0, 1), ","@) == all[0]);
            }
        }
        at = at + 1;
        assert(out@ =~= front + joined(all.subrange(0, at as int), ","@));
    }
    assert(all.subrange(0, at as int) =~= all);
}

/// The authority column of a channel row, as text.
fn authority(channel: &Summary) -> (text: String)
    ensures
        text@ == authority_text(*channel),
{
    let mut out = String::new();
    match (channel.refused, channel.expires_at) {
        (Some(code), _) => {
            out.append("nothing: ");
            out.append(code);
        },
        (None, None) => {
            push_words(&mut out, &channel.can);
        },
        (None, Some(until)) => {
            push_words(&mut out, &channel.can);
            out.append(" until ");
            push_decimal(&mut out, until);
        },
    }
    assert(out@ =~= authority_text(*channel));
    out
}

/// The peer column of a channel row, as text.
fn peer(channel: &Summary) -> (text: String)
    ensures
        text@ == peer_text(*channel),
{
    let mut out = String::new();
    match (&channel.peer, channel.peer_refused) {
        (None, _) => {
            out.append("(nobody has joined yet)");
        },
        (Some(peer), None) => {
            out.append(peer.as_str());
        },
        (Some(peer), Some(code)) => {
            out.append(peer.as_str());
            out.append(" — cut off (");
            out.append(code);
            out.append(")");
        },
    }
    assert(out@ =~= peer_text(*channel));
    out
}

/// Appends one channel row.
fn push_row(out: &mut String, channel: &Summary)
    ensures
        final(out)@ == old(out)@ + row_text(*channel),
{
    out.append("  ");
    push_padded(out, channel.name.as_str(), 16);
    out.append(" ");
    push_padded(out, channel.standing, 8);
    out.append(" ");
    let authority = authority(channel);
    push_padded(out, authority.as_str(), 30);
    out.append(" ");
    let peer = peer(channel);
    push_padded(out, peer.as_str(), 40);
    out.append(" ");
    out.append(channel.waypoint.as_str());
    assert(out@ =~= old(out)@ + row_text(*channel));
}

/// The channel table.
fn listing(channels: &Vec<Summary>) -> (text: String)
    ensures
        text@ == listing_text(channels@),
{
    let ghost rows = seq![decimal(channels@.len()) + " channel(s)"@] + channels@.map_values(
        |channel: Summary| row_text(channel),
    );
    let mut out = String::new();
    push_decimal(&mut out, channels.len() as u64);
    out.append(" channel(s)");
    assert(out@ =~= joined(rows.subrange(0, 1), "\n"@));
    let mut at: usize = 0;
    while at < channels.len()
        invariant
            at <= channels@.len(),
            rows == seq![decimal(channels@.len()) + " channel(s)"@] + channels@.map_values(
                |channel: Summary| row_text(channel),
            ),
            out@ == joined(rows.subrange(0, at + 1), "\n"@),
        decreases channels@.len() - at,
    {
        out.append("\n");
        push_row(&mut out, &channels[at]);
        proof {
            assert(rows.subrange(0, at + 2) =~= rows.subrange(0, at + 1).push(rows[at + 1]));
            lemma_joined_push(rows.subrange(0, at + 1), rows[at + 1], "\n"@);
        }
        at = at + 1;
    }
    assert(rows.subrange(0, at + 1) =~= rows);
    out
}

/// One verified stream, header then payloads as text.
fn stream(name: &String, author: &String, height: Option<u64>, segments: &Vec<Entry>) -> (text: String)
    ensures
        text@ == stream_text(name@, author@, height, segments@),
{
    let ghost lines = seq![
        match height {
            None => "`"@ + name@ + "`: "@ + author@ + " has written nothing yet"@,
            Some(height) => "`"@ + name@ + "`: "@ + author@ + " verifies to height "@ + decimal(height as nat)
                + " ("@ + decimal(segments@.len()) + " segment(s))"@,
        },
    ] + segments@.map_values(
        |entry: Entry| "  #"@ + padded(decimal(entry.index as nat), 3) + " "@ + entry.text@,
    );
    let mut out = String::new();
    out.append("`");
    out.append(name.as_str());
    out.append("`: ");
    out.append(author.as_str());
    match height {
        None => {
            out.append(" has written nothing yet");
        },
        Some(height) => {
            out.append(" verifies to height ");
            push_decimal(&mut out, height);
            out.append(" (");
            push_decimal(&mut out, segments.len() as u64);
            out.append(" segment(s))");
        },
    }
    assert(out@ =~= joined(lines.subrange(0, 1), "\n"@));
    let mut at: usize = 0;
    while at < segments.len()
        invariant
            at <= segments@.len(),
            lines == seq![
                match height {
                    None => "`"@ + name@ + "`: "@ + author@ + " has written nothing yet"@,
                    Some(height) => "`"@ + name@ + "`: "@ + author@ + " verifies to height "@ + decimal(
                        height as nat,
                    ) + " ("@ + decimal(segments@.len()) + " segment(s))"@,
                },
            ] + segments@.map_values(
                |entry: Entry| "  #"@ + padded(decimal(entry.index as nat), 3) + " "@ + entry.text@,
            ),
            out@ == joined(lines.subrange(0, at + 1), "\n"@),
        decreases segments@.len() - at,
    {
        let entry = &segments[at];
        out.append("\n");
        out.append("  #");
        let index = decimal_text(entry.index);
        push_padded(&mut out, index.as_str(), 3);
        out.append(" ");
        out.append(entry.text.as_str());
        proof {
            assert(lines.subrange(0, at + 2) =~= lines.subrange(0, at + 1).push(lines[at + 1]));
            lemma_joined_push(lines.subrange(0, at + 1), lines[at + 1], "\n"@);
        }
        at = at + 1;
        assert(out@ =~= joined(lines.subrange(0, at + 1), "\n"@));
    }
    assert(lines.subrange(0, at + 1) =~= lines);
    out
}

/// What a host was measured to do, capability by capability.
fn certificate(waypoint: &String, kind: &'static str, tier: &'static str, capabilities: &Vec<Measured>) -> (text: String)
    ensures
        text@ == certificate_text(waypoint@, kind@, tier@, capabilities@),
{
    let ghost lines = seq![waypoint@ + "\n  kind  "@ + kind@ + "\n  tier  "@ + tier@, Seq::empty()]
        + capabilities@.map_values(
        |measured: Measured|
            "  "@ + padded(measured.capability@, 18) + " "@ + measured.verdict@ + match measured.detail {
                Some(detail) => " — "@ + detail@,
                None => Seq::empty(),
            },
    );
    let mut out = String::new();
    out.append(waypoint.as_str());
    out.append("\n  kind  ");
    out.append(kind);
    out.append("\n  tier  ");
    out.append(tier);
    assert(out@ =~= joined(lines.subrange(0, 1), "\n"@));
    out.append("\n");
    proof {
        assert(lines.subrange(0, 2) =~= lines.subrange(0, 1).push(Seq::empty()));
        lemma_joined_push(lines.subrange(0, 1), Seq::empty(), "\n"@);
    }
    assert(out@ =~= joined(lines.subrange(0, 2), "\n"@));
    let mut at: usize = 0;
    while at < capabilities.len()
        invariant
            at <= capabilities@.len(),
            lines == seq![waypoint@ + "\n  kind  "@ + kind@ + "\n  tier  "@ + tier@, Seq::empty()]
                + capabilities@.map_values(
                |measured: Measured|
                    "  "@ + padded(measured.capability@, 18) + " "@ + measured.verdict@ + match measured.detail {
                        Some(detail) => " — "@ + detail@,
                        None => Seq::empty(),
                    },
            ),
            out@ == joined(lines.subrange(0, at + 2), "\n"@),
        decreases capabilities@.len() - at,
    {
        let measured = &capabilities[at];
        out.append("\n");
        out.append("  ");
        push_padded(&mut out, measured.capability, 18);
        out.append(" ");
        out.append(measured.verdict);
        match &measured.detail {
            Some(detail) => {
                out.append(" — ");
                out.append(detail.as_str());
            },
            None => {},
        }
        proof {
            assert(lines.subrange(0, at + 3) =~= lines.subrange(0, at + 2).push(lines[at + 2]));
            lemma_joined_push(lines.subrange(0, at + 2), lines[at + 2], "\n"@);
        }
        at = at + 1;
        assert(out@ =~= joined(lines.subrange(0, at + 2), "\n"@));
    }
    assert(lines.subrange(0, at + 2) =~= lines);
    out
}

/// Renders one outcome as prose.
pub fn render(outcome: &Outcome) -> (text: String)
    ensures
        text@ == render_spec(*outcome),
{
    let mut out = String::new();
    match outcome {
        Outcome::Identity { handle, site } => {
            out.append("this endpoint is ");
            out.append(handle.as_str());
            out.append("\n  site  ");
            out.append(site.as_str());
        },
        Outcome::Channels { channels } => {
            if channels.len() == 0 {
                out.append("no channels yet; `kusanagi invite` starts one");
            } else {
                out = listing(channels);
            }
        },
        Outcome::Invited { name, invite, expires_at, .. } => {
            out.append("channel `");
            out.append(name.as_str());
            out.append("` is open, and expires at ");
            push_decimal(&mut out, *expires_at);
            out.append("\n\n");
            out.append(invite.as_str());
            out.append("\n\n");
            out.append(
                "hand that line over once. Anybody who holds it can join, so treat it the way you would treat a key.",
            );
        },
        Outcome::Joined { name, handle, peer, waypoint } => {
            out.append("joined `");
            out.append(name.as_str());
            out.append("`\n  you       ");
            out.append(handle.as_str());
            out.append("\n  peer      ");
            out.append(peer.as_str());
            out.append("\n  waypoint  ");
            out.append(waypoint.as_str());
        },
        Outcome::Sent { name, index, id, address } => {
            out.append("sent on `");
            out.append(name.as_str());
            out.append("` #");
            push_decimal(&mut out, *index);
            out.append("\n  id      ");
            out.append(id.as_str());
            out.append("\n  address ");
            out.append(address.as_str());
        },
        Outcome::Read { name, author, height, segments } => {
            out = stream(name, author, *height, segments);
        },
        Outcome::Revoked { name, step } => {
            out.append("the peer of `");
            out.append(name.as_str());
            out.append("` is cut off\n  step  ");
            out.append(step.as_str());
            out.append("\nnothing they write from now on will be accepted here.");
        },
        Outcome::Forgotten { name, waypoint } => {
            out.append("`");
            out.append(name.as_str());
            out.append("` is gone from this endpoint\n  waypoint  ");
            out.append(waypoint.as_str());
            out.append(
                "\nthe drops stay where they are, and the secret that opened them does not. This channel cannot be re-entered, by this invitation or any copy of it.",
            );
        },
        Outcome::Examined { waypoint, kind, tier, capabilities } => {
            out = certificate(waypoint, kind, tier, capabilities);
        },
        Outcome::Hosted { address, directory } => {
            out.append("stopped hosting ");
            out.append(directory.as_str());
            out.append(" on ");
            out.append(address.as_str());
        },
    }
    assert(out@ =~= render_spec(*outcome));
    out
}

} // verus!
