use kusanagi_kernel::{Bin, DropAddr, Object, Period, Ward};

fn object(period: u64, ward: u16, byte: u8) -> Object {
    Object::new(
        Bin::new(Period::from_count(period), Ward::from_bits(ward)),
        DropAddr::from_bytes([byte; 20]),
    )
}

#[test]
fn a_key_is_the_period_the_ward_and_the_address() {
    let at = object(1, 0x00ab, 0x7f);
    assert_eq!(
        at.to_string(),
        format!("0000000000000001/00ab/{}", at.addr().to_string())
    );
}

#[test]
fn a_key_reads_back_as_the_object_that_wrote_it() {
    let at = object(0x2b, 0x00ab, 0x7f);
    assert_eq!(at.to_string().parse::<Object>().unwrap(), at);
    for bad in [
        "0000000000000001/00ab",
        "0000000000000001/00ab/xx",
        "1/00ab/0000000000000000000000000000000000000000",
        "0000000000000001/0ab/0000000000000000000000000000000000000000",
        "0000000000000001/00ab/0000000000000000000000000000000000000000/more",
    ] {
        assert!(bad.parse::<Object>().is_err(), "{bad} parsed");
    }
}

#[test]
fn wards_and_periods_are_written_at_their_full_width() {
    assert_eq!(Ward::from_bits(0xa).to_string(), "000a");
    assert_eq!(Period::from_count(0xbeef).to_string(), "000000000000beef");
    assert_eq!(
        Bin::new(Period::from_count(2), Ward::from_bits(0xffff)).to_string(),
        "0000000000000002/ffff"
    );
    assert_eq!(Ward::from_bits(9).bits(), 9);
    assert_eq!(Period::from_count(9).count(), 9);
}

#[test]
fn a_key_reads_numbers_as_from_str_radix_does() {
    // Upper-case digits and a leading plus are numbers to `from_str_radix`,
    // so they name the same bin; the address stays strict.
    let upper = "000000000000002B/00AB/7f7f7f7f7f7f7f7f7f7f7f7f7f7f7f7f7f7f7f7f"
        .parse::<Object>()
        .unwrap();
    assert_eq!(upper, object(0x2b, 0x00ab, 0x7f));
    let signed = "+00000000000002b/+0ab/7f7f7f7f7f7f7f7f7f7f7f7f7f7f7f7f7f7f7f7f"
        .parse::<Object>()
        .unwrap();
    assert_eq!(signed, object(0x2b, 0x00ab, 0x7f));
    assert!("000000000000002b/00ab/7F7F7F7F7F7F7F7F7F7F7F7F7F7F7F7F7F7F7F7F"
        .parse::<Object>()
        .is_err());
}
