use kusanagi_kernel::{Alias, AliasError, Declaration, Signer};

#[test]
fn a_declaration_verifies_under_its_own_key_and_no_other() {
    let bob = Signer::from_seed(&[2; 32]);
    let mallory = Signer::from_seed(&[3; 32]);
    let declared = Declaration::sign(&bob, Alias::new("Bob").unwrap());
    let carried = Declaration::from_bytes(&declared.to_bytes()).unwrap();
    assert_eq!(carried.verify(&bob.verifying_key()).unwrap().as_str(), "Bob");
    assert_eq!(carried.verify(&mallory.verifying_key()), Err(AliasError::Forged));
}

#[test]
fn a_name_is_one_printable_line_of_at_most_thirty_two_bytes() {
    assert!(Alias::new("Bob").is_ok());
    assert!(Alias::new("鮑伯").is_ok());
    assert!(Alias::new("").is_err());
    assert!(Alias::new(" Bob").is_err());
    assert!(Alias::new("Bob\nHello").is_err());
    assert!(Alias::new("Bob\u{202E}").is_err());
    assert!(Alias::new("\u{1b}[31mBob").is_err());
    assert!(Alias::new(&"x".repeat(32)).is_ok());
    assert!(Alias::new(&"x".repeat(33)).is_err());
}

#[test]
fn a_declaration_with_a_bit_flipped_or_a_byte_added_is_refused() {
    let bob = Signer::from_seed(&[2; 32]);
    let bytes = Declaration::sign(&bob, Alias::new("Bob").unwrap()).to_bytes();
    let mut flipped = bytes.clone();
    flipped[1] ^= 0x20;
    let read = Declaration::from_bytes(&flipped).unwrap();
    assert_eq!(read.verify(&bob.verifying_key()), Err(AliasError::Forged));
    let mut longer = bytes;
    longer.push(0);
    assert_eq!(Declaration::from_bytes(&longer), Err(AliasError::Malformed));
}

#[test]
fn each_broken_rule_is_named() {
    assert_eq!(
        Alias::new(""),
        Err(AliasError::Unfit { reason: "a name has at least one character" })
    );
    assert_eq!(
        Alias::new(&"x".repeat(33)),
        Err(AliasError::Unfit { reason: "a name is at most 32 bytes" })
    );
    assert_eq!(
        Alias::new("a\u{7f}b"),
        Err(AliasError::Unfit {
            reason: "a name is one printable line: no control character or bidirectional override"
        })
    );
    assert_eq!(
        Alias::new("Bob\u{3000}"),
        Err(AliasError::Unfit { reason: "a name does not begin or end with whitespace" })
    );
    assert!(Alias::new("Bob Smith").is_ok(), "whitespace inside a name is fine");
}

#[test]
fn a_declaration_is_length_name_signature() {
    let bob = Signer::from_seed(&[2; 32]);
    let declared = Declaration::sign(&bob, Alias::new("Bob").unwrap());
    let bytes = declared.to_bytes();
    assert_eq!(bytes.len(), 1 + 3 + 64);
    assert_eq!(&bytes[..4], b"\x03Bob");
    assert_eq!(declared.alias().as_str(), "Bob");
    assert_eq!(Declaration::from_bytes(&bytes[..10]), Err(AliasError::Malformed));
    let mut not_text = bytes.clone();
    not_text[1] = 0xff;
    assert_eq!(Declaration::from_bytes(&not_text), Err(AliasError::Malformed));
}
