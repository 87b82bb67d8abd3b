use kusanagi_kernel::{render, Entry, Measured, Outcome, Summary};

fn summary(refused: Option<&'static str>, expires_at: Option<u64>, peer: Option<&str>, peer_refused: Option<&'static str>) -> Summary {
    Summary {
        name: "alice".to_owned(),
        waypoint: "/tmp/drops".to_owned(),
        standing: "granted",
        peer: peer.map(str::to_owned),
        can: if refused.is_some() { Vec::new() } else { vec!["send", "read"] },
        expires_at,
        expires_in: None,
        refused,
        peer_refused,
    }
}

#[test]
fn an_identity_is_said_in_two_lines() {
    let outcome = Outcome::Identity { handle: "ab12".to_owned(), site: "/home/a".to_owned() };
    assert_eq!(render(&outcome), "this endpoint is ab12\n  site  /home/a");
}

#[test]
fn no_channels_says_how_to_start_one() {
    let outcome = Outcome::Channels { channels: Vec::new() };
    assert_eq!(render(&outcome), "no channels yet; `kusanagi invite` starts one");
}

#[test]
fn a_listing_is_a_count_then_one_padded_row_each() {
    let rows = vec![
        summary(None, None, None, None),
        summary(None, Some(1_700_000_000), Some("abcdef012345"), None),
        summary(Some("grant.revoked"), None, Some("abcdef012345"), Some("grant.expired")),
    ];
    let outcome = Outcome::Channels { channels: rows };
    let expected = [
        "3 channel(s)".to_owned(),
        format!(
            "  {:<16} {:<8} {:<30} {:<40} {}",
            "alice", "granted", "send,read", "(nobody has joined yet)", "/tmp/drops"
        ),
        format!(
            "  {:<16} {:<8} {:<30} {:<40} {}",
            "alice", "granted", "send,read until 1700000000", "abcdef012345", "/tmp/drops"
        ),
        format!(
            "  {:<16} {:<8} {:<30} {:<40} {}",
            "alice",
            "granted",
            "nothing: grant.revoked",
            "abcdef012345 — cut off (grant.expired)",
            "/tmp/drops"
        ),
    ]
    .join("\n");
    assert_eq!(render(&outcome), expected);
}

#[test]
fn an_invitation_is_handed_over_with_a_warning() {
    let outcome = Outcome::Invited {
        name: "bob".to_owned(),
        invite: "kusanagi1:xyz".to_owned(),
        expires_at: 42,
        expires_in: 7,
    };
    assert_eq!(
        render(&outcome),
        "channel `bob` is open, and expires at 42\n\nkusanagi1:xyz\n\n\
         hand that line over once. Anybody who holds it can join, so treat it \
         the way you would treat a key."
    );
}

#[test]
fn joining_sending_revoking_forgetting_and_hosting_each_have_their_words() {
    let joined = Outcome::Joined {
        name: "bob".to_owned(),
        handle: "h1".to_owned(),
        peer: "h2".to_owned(),
        waypoint: "w".to_owned(),
    };
    assert_eq!(render(&joined), "joined `bob`\n  you       h1\n  peer      h2\n  waypoint  w");
    let sent = Outcome::Sent {
        name: "bob".to_owned(),
        index: 1_024,
        id: "i".to_owned(),
        address: "a".to_owned(),
    };
    assert_eq!(render(&sent), "sent on `bob` #1024\n  id      i\n  address a");
    let revoked = Outcome::Revoked { name: "bob".to_owned(), step: "s".to_owned() };
    assert_eq!(
        render(&revoked),
        "the peer of `bob` is cut off\n  step  s\nnothing they write from now on will be accepted here."
    );
    let forgotten = Outcome::Forgotten { name: "bob".to_owned(), waypoint: "w".to_owned() };
    assert_eq!(
        render(&forgotten),
        "`bob` is gone from this endpoint\n  waypoint  w\n\
         the drops stay where they are, and the secret that opened them does not. \
         This channel cannot be re-entered, by this invitation or any copy of it."
    );
    let hosted = Outcome::Hosted { address: "127.0.0.1:80".to_owned(), directory: "/d".to_owned() };
    assert_eq!(render(&hosted), "stopped hosting /d on 127.0.0.1:80");
}

#[test]
fn a_stream_is_a_header_then_one_line_per_segment() {
    let entry = |index: u64, text: &str| Entry {
        index,
        id: "id".to_owned(),
        address: "addr".to_owned(),
        payload: "00".to_owned(),
        text: text.to_owned(),
    };
    let read = Outcome::Read {
        name: "bob".to_owned(),
        author: "h".to_owned(),
        height: Some(12),
        segments: vec![entry(0, "hello"), entry(12, "there"), entry(1234, "long")],
    };
    assert_eq!(
        render(&read),
        "`bob`: h verifies to height 12 (3 segment(s))\n  #0   hello\n  #12  there\n  #1234 long"
    );
    let empty = Outcome::Read {
        name: "bob".to_owned(),
        author: "h".to_owned(),
        height: None,
        segments: Vec::new(),
    };
    assert_eq!(render(&empty), "`bob`: h has written nothing yet");
}

#[test]
fn a_certificate_lists_each_capability() {
    let examined = Outcome::Examined {
        waypoint: "http://host".to_owned(),
        kind: "http",
        tier: "box",
        capabilities: vec![
            Measured { capability: "write-once", verdict: "held", detail: None },
            Measured { capability: "delete", verdict: "broken", detail: Some("kept a copy".to_owned()) },
        ],
    };
    let expected = [
        "http://host\n  kind  http\n  tier  box".to_owned(),
        String::new(),
        format!("  {:<18} {}", "write-once", "held"),
        format!("  {:<18} {} — {}", "delete", "broken", "kept a copy"),
    ]
    .join("\n");
    assert_eq!(render(&examined), expected);
}
