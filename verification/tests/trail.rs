use std::collections::BTreeSet;

use kusanagi_kernel::{Reveal, Trail};

fn trail() -> Trail {
    Trail::from_seed([3_u8; 32])
}

#[test]
fn a_seed_determines_every_proof_on_the_stream() {
    assert_eq!(trail().reveal_at(7), Trail::from_seed([3_u8; 32]).reveal_at(7));
    assert_ne!(trail().reveal_at(7), Trail::from_seed([4_u8; 32]).reveal_at(7));
}

#[test]
fn a_reveal_answers_its_own_commitment_and_no_other() {
    assert_eq!(trail().reveal_at(1).commitment(), trail().commitment(1));
    assert_ne!(trail().reveal_at(1).commitment(), trail().commitment(2));
}

#[test]
fn a_thousand_heights_are_a_thousand_proofs() {
    let seen: BTreeSet<Reveal> = (0..1_000).map(|index| trail().reveal_at(index)).collect();
    assert_eq!(seen.len(), 1_000, "two heights shared a proof");
}

#[test]
fn a_published_reveal_does_not_produce_the_next_one() {
    let published = trail().reveal_at(4);
    assert_ne!(published.commitment(), trail().commitment(5));
    assert_ne!(Reveal::from_bytes(*published.as_bytes()), trail().reveal_at(5));
}

#[test]
fn a_trail_never_prints_itself() {
    assert_eq!(trail().redacted(), "Trail(redacted)");
}
