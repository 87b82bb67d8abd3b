use core::str::FromStr;

use kusanagi_kernel::{Digest, DigestParseError, HexError};

#[test]
fn digest_renders_and_parses_back() {
    let digest = Digest::<4>::from_bytes([0x00, 0x0f, 0xa0, 0xff]);
    assert_eq!(digest.to_string(), "000fa0ff");
    assert_eq!(Digest::<4>::from_str("000fa0ff").unwrap(), digest);
}

#[test]
fn rejects_uppercase() {
    assert_eq!(
        Digest::<4>::from_str("000FA0FF"),
        Err(DigestParseError::Hex(HexError::Charset))
    );
}

#[test]
fn rejects_wrong_length() {
    assert_eq!(
        Digest::<4>::from_str("000fa0"),
        Err(DigestParseError::Length { expected: 8, found: 6 })
    );
}

#[test]
fn rejects_non_hexadecimal() {
    assert_eq!(
        Digest::<4>::from_str("000fa0fz"),
        Err(DigestParseError::Hex(HexError::Charset))
    );
}

#[test]
fn digest_every_byte_value_survives_a_round_trip() {
    for value in 0_u8..=255 {
        let digest = Digest::<1>::from_bytes([value]);
        let parsed = Digest::<1>::from_str(&digest.to_string()).unwrap();
        assert_eq!(parsed, digest, "byte {value} did not survive");
    }
}

#[test]
fn digests_compare_by_their_bytes() {
    let one = Digest::<3>::from_bytes([1, 2, 3]);
    assert_eq!(one, Digest::<3>::from_bytes([1, 2, 3]));
    assert_ne!(one, Digest::<3>::from_bytes([1, 2, 4]));
    assert_eq!(one.as_bytes(), &[1, 2, 3]);
}

#[test]
fn digest_error_codes_are_stable() {
    assert_eq!(DigestParseError::Length { expected: 2, found: 1 }.code(), "digest.length");
    assert_eq!(DigestParseError::Hex(HexError::Charset).code(), "hex.charset");
    assert_eq!(DigestParseError::WidthUnrepresentable.code(), "digest.width");
}
