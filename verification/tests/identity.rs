use core::str::FromStr;

use kusanagi_kernel::{Handle, Hex, NotAuthentic, Signer, VerifyingKey};

fn alice() -> Signer {
    Signer::from_seed(&[1_u8; 32])
}

#[test]
fn a_seed_determines_the_identity() {
    assert_eq!(alice().handle(), Signer::from_seed(&[1_u8; 32]).handle());
    assert_ne!(alice().handle(), Signer::from_seed(&[2_u8; 32]).handle());
}

#[test]
fn a_signature_verifies_under_its_own_key() {
    let signer = alice();
    let signature = signer.sign(b"the message");
    assert_eq!(signer.verifying_key().verify(b"the message", &signature), Ok(()));
}

#[test]
fn a_tampered_message_does_not_verify() {
    let signer = alice();
    let signature = signer.sign(b"the message");
    assert_eq!(
        signer.verifying_key().verify(b"the messagf", &signature),
        Err(NotAuthentic)
    );
}

#[test]
fn another_key_does_not_verify() {
    let signature = alice().sign(b"the message");
    let bob = Signer::from_seed(&[2_u8; 32]);
    assert_eq!(
        bob.verifying_key().verify(b"the message", &signature),
        Err(NotAuthentic)
    );
}

#[test]
fn bytes_that_are_not_a_key_verify_nothing() {
    let nonsense = VerifyingKey::from_bytes([0xff_u8; 32]);
    let signature = alice().sign(b"the message");
    assert_eq!(nonsense.verify(b"the message", &signature), Err(NotAuthentic));
}

#[test]
fn a_handle_is_the_hash_of_a_key_and_not_the_key() {
    let key = alice().verifying_key();
    assert_ne!(key.handle().as_bytes(), key.as_bytes());
    assert_eq!(key.handle(), VerifyingKey::from_bytes(*key.as_bytes()).handle());
    assert_ne!(key.handle(), VerifyingKey::from_bytes([7_u8; 32]).handle());
}

#[test]
fn a_key_prints_its_handle_rather_than_itself() {
    let key = alice().verifying_key();
    let printed = key.describe();
    assert!(printed.contains(&key.handle().to_string()));
    assert!(!printed.contains(&Hex(key.as_bytes()).to_string()));
}

#[test]
fn a_handle_survives_a_text_round_trip() {
    let handle = alice().handle();
    assert_eq!(Handle::from_str(&handle.to_string()).unwrap(), handle);
    assert_eq!(handle.to_string().len(), 64);
}

#[test]
fn a_signer_never_prints_its_seed() {
    let signer = alice();
    let printed = signer.describe();
    assert!(printed.contains(&signer.handle().to_string()));
    assert!(!printed.contains("01010101"));
}

#[test]
fn a_signer_and_its_key_name_the_same_handle() {
    let signer = alice();
    assert_eq!(signer.handle(), signer.verifying_key().handle());
    assert_eq!(
        signer.describe(),
        format!("Signer({})", signer.handle().to_string())
    );
    assert_eq!(NotAuthentic.code(), "identity.not_authentic");
}

#[test]
fn a_public_key_is_not_its_seed() {
    let key = alice().verifying_key();
    assert_ne!(key.as_bytes(), &[1_u8; 32]);
    assert_eq!(key, Signer::from_seed(&[1_u8; 32]).verifying_key());
    assert_eq!(
        key.describe(),
        format!("VerifyingKey({})", key.handle().to_string())
    );
}

#[test]
fn derivation_is_deterministic() {
    assert_eq!(Handle::from_name("alice"), Handle::from_name("alice"));
}

#[test]
fn different_names_are_different_handles() {
    assert_ne!(Handle::from_name("alice"), Handle::from_name("bob"));
}

#[test]
fn handle_survives_a_text_round_trip() {
    let handle = Handle::from_name("alice");
    assert_eq!(Handle::from_str(&handle.to_string()).unwrap(), handle);
}

#[test]
fn a_name_derives_the_hash_of_the_domain_and_the_name() {
    let expected = blake3::hash(b"kusanagi.handle.v1alice");
    assert_eq!(Handle::from_name("alice").as_bytes(), expected.as_bytes());
    assert_ne!(Handle::from_name("alice").as_bytes(), blake3::hash(b"alice").as_bytes());
}
