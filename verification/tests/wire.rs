use kusanagi_kernel::{unhex, Hex, HexError, Incomplete, Reader};

#[test]
fn wire_renders_and_parses_back() {
    let bytes = [0x00, 0x0f, 0xa0, 0xff];
    assert_eq!(Hex(&bytes).to_string(), "000fa0ff");
    assert_eq!(unhex("000fa0ff").unwrap(), bytes);
}

#[test]
fn wire_every_byte_value_survives_a_round_trip() {
    let all: Vec<u8> = (0_u8..=255).collect();
    assert_eq!(unhex(&Hex(&all).to_string()).unwrap(), all);
}

#[test]
fn uppercase_is_refused() {
    assert_eq!(unhex("00FF"), Err(HexError::Charset));
}

#[test]
fn an_odd_length_is_refused() {
    assert_eq!(unhex("000"), Err(HexError::OddLength { found: 3 }));
}

#[test]
fn a_reader_stops_at_the_end() {
    let mut reader = Reader::new(&[1, 2, 3]);
    assert_eq!(reader.take_byte().unwrap(), 1);
    assert_eq!(reader.remaining(), 2);
    assert!(reader.take_array::<8>().is_err());
    // the failed read consumed nothing
    assert_eq!(reader.remaining(), 2);
}

#[test]
fn a_failed_read_names_what_was_wanted_and_what_was_left() {
    let mut reader = Reader::new(&[1, 2, 3]);
    assert_eq!(reader.take(5), Err(Incomplete { wanted: 5, had: 3 }));
    assert_eq!(reader.take(2).unwrap(), &[1, 2]);
    assert_eq!(reader.take_u32(), Err(Incomplete { wanted: 4, had: 1 }));
}

#[test]
fn big_endian_integers_read_most_significant_first() {
    let bytes = [0x01, 0x02, 0x03, 0x04, 0x05, 0x06, 0x07, 0x08, 0xaa, 0xbb, 0xcc, 0xdd];
    let mut reader = Reader::new(&bytes);
    assert_eq!(reader.take_u64().unwrap(), 0x0102_0304_0506_0708);
    assert_eq!(reader.take_u32().unwrap(), 0xaabb_ccdd);
    assert_eq!(reader.remaining(), 0);
}

#[test]
fn hex_error_codes_are_stable() {
    assert_eq!(HexError::Charset.code(), "hex.charset");
    assert_eq!(HexError::OddLength { found: 1 }.code(), "hex.odd_length");
}
