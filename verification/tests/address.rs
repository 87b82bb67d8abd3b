use core::str::FromStr;

use kusanagi_kernel::DropAddr;

#[test]
fn address_survives_a_text_round_trip() {
    let addr = DropAddr::from_bytes([7_u8; 20]);
    assert_eq!(DropAddr::from_str(&addr.to_string()).unwrap(), addr);
    assert_eq!(addr.to_string().len(), 40);
}

#[test]
fn an_address_is_forty_lowercase_hex_characters() {
    let addr = DropAddr::from_bytes([0xab; 20]);
    assert_eq!(addr.to_string(), "ab".repeat(20));
    assert!(DropAddr::parse(&"AB".repeat(20)).is_err());
    assert!(DropAddr::parse(&"ab".repeat(19)).is_err());
}
