use kusanagi_kernel::{Reader, Roster, RosterError, Signer, VerifyingKey, MOST_MEMBERS};

fn founders() -> (Signer, Signer, Signer) {
    (
        Signer::from_seed(&[7; 32]),
        Signer::from_seed(&[8; 32]),
        Signer::from_seed(&[9; 32]),
    )
}

#[test]
fn a_roster_verifies_under_the_founders_key_and_no_other() {
    let (alice, bob, carol) = founders();
    let keys = vec![bob.verifying_key(), carol.verifying_key()];
    let roster = Roster::sign(&alice, keys.clone()).unwrap();
    let carried = Roster::from_bytes(&roster.to_bytes().unwrap()).unwrap();
    assert_eq!(carried.verify(&alice.verifying_key()).unwrap(), keys.as_slice());
    let mallory = Signer::from_seed(&[10; 32]);
    assert_eq!(carried.verify(&mallory.verifying_key()), Err(RosterError::Forged));
}

#[test]
fn a_roster_with_a_member_swapped_or_a_byte_added_is_refused() {
    let (alice, bob, carol) = founders();
    let roster = Roster::sign(&alice, vec![bob.verifying_key(), carol.verifying_key()]).unwrap();
    let bytes = roster.to_bytes().unwrap();
    let swapped = Roster::sign(&alice, vec![carol.verifying_key(), bob.verifying_key()]).unwrap();
    assert_ne!(swapped.to_bytes().unwrap(), bytes);
    assert!(Roster::from_bytes(&swapped.to_bytes().unwrap()).is_ok());
    let mut longer = bytes;
    longer.push(0);
    assert_eq!(Roster::from_bytes(&longer), Err(RosterError::Malformed));
}

#[test]
fn a_room_holds_at_most_thirty_two() {
    let (alice, ..) = founders();
    let many: Vec<VerifyingKey> = (0..=MOST_MEMBERS)
        .map(|at| VerifyingKey::from_bytes([at as u8; 32]))
        .collect();
    assert_eq!(
        Roster::sign(&alice, many),
        Err(RosterError::TooMany { count: 33, limit: 32 })
    );
    let mut bytes = vec![33_u8];
    bytes.extend_from_slice(&[0; 64]);
    assert_eq!(
        Roster::from_bytes(&bytes),
        Err(RosterError::TooMany { count: 33, limit: 32 })
    );
}

#[test]
fn a_roster_says_its_own_width_and_leaves_what_follows() {
    let (alice, bob, _) = founders();
    let roster = Roster::sign(&alice, vec![bob.verifying_key()]).unwrap();
    let mut bytes = roster.to_bytes().unwrap();
    assert_eq!(bytes.len(), 1 + 32 + 64);
    bytes.extend_from_slice(b"tail");
    let mut reader = Reader::new(&bytes);
    let read = Roster::read(&mut reader).unwrap();
    assert_eq!(read, roster);
    assert_eq!(reader.remaining(), 4);
    assert_eq!(Roster::from_bytes(&bytes[..40]), Err(RosterError::Malformed));
    assert_eq!(roster.members(), &[bob.verifying_key()]);
}
