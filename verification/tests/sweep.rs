use kusanagi_kernel::{Bin, DropAddr, Object, Overfull, Period, Sweep, Ward, CAP};

fn object(period: u64, ward: u16, byte: u8) -> Object {
    Object::new(
        Bin::new(Period::from_count(period), Ward::from_bits(ward)),
        DropAddr::from_bytes([byte; 20]),
    )
}

#[test]
fn a_whole_ward_is_asked_for_up_to_the_separator() {
    let sweep = Sweep::of(object(1, 0x00ab, 0).bin(), 4);
    assert_eq!(sweep.prefix(), "0000000000000001/00ab/");
    assert_eq!(Sweep::of(object(1, 0x00ab, 0).bin(), 2).prefix(), "0000000000000001/00");
}

#[test]
fn a_prefix_reads_back_as_the_sweep_that_wrote_it() {
    for digits in 0..=Ward::DIGITS {
        let sweep = Sweep::of(object(0x2b, 0x3c5a, 0).bin(), digits);
        let read = Sweep::from_prefix(&sweep.prefix()).unwrap();
        assert_eq!(read.digits(), digits);
        assert_eq!(read.prefix(), sweep.prefix());
    }
    for bad in ["", "zzzz", "0000000000000001/00abc", "1/00", "a/b/c"] {
        assert!(Sweep::from_prefix(bad).is_none(), "{bad} parsed");
    }
}

#[test]
fn asking_for_more_digits_than_a_ward_has_asks_for_one_ward() {
    assert_eq!(Sweep::of(object(1, 7, 0).bin(), 9).digits(), Ward::DIGITS);
}

#[test]
fn what_a_sweep_asks_for_in_text_is_what_it_keeps_in_bits() {
    for digits in 0..=Ward::DIGITS {
        let sweep = Sweep::of(object(9, 0x3c5a, 0).bin(), digits);
        for ward in 0..=u16::MAX {
            let at = object(9, ward, 0x11);
            assert_eq!(
                at.to_string().starts_with(&sweep.prefix()),
                sweep.holds(&at),
                "ward {ward:04x} at {digits} digits"
            );
        }
    }
}

#[test]
fn a_shorter_prefix_holds_more_wards_and_never_another_period() {
    let sweep = Sweep::of(object(4, 0x00ab, 0).bin(), 2);
    assert!(sweep.holds(&object(4, 0x00ab, 1)));
    assert!(sweep.holds(&object(4, 0x00ff, 1)), "same two digits");
    assert!(!sweep.holds(&object(4, 0x01ab, 1)), "a different second digit");
    assert!(!sweep.holds(&object(5, 0x00ab, 1)), "a different period");
}

#[test]
fn zero_digits_is_every_ward_of_one_period() {
    let sweep = Sweep::of(object(4, 0x00ab, 0).bin(), 0);
    assert_eq!(sweep.prefix(), "0000000000000004/");
    assert!(sweep.holds(&object(4, 0xffff, 1)));
    assert!(!sweep.holds(&object(3, 0x00ab, 1)));
}

#[test]
fn a_prefix_with_extra_separators_is_the_same_request() {
    let read = Sweep::from_prefix("0000000000000004/00ab///").unwrap();
    assert_eq!(read.digits(), 4);
    assert_eq!(read.period().count(), 4);
    assert_eq!(read.prefix(), "0000000000000004/00ab/");
    let short = Sweep::from_prefix("0000000000000004/0").unwrap();
    assert_eq!(short.digits(), 1);
    assert!(short.covers(Bin::new(Period::from_count(4), Ward::from_bits(0x0fff))));
    assert!(!short.covers(Bin::new(Period::from_count(4), Ward::from_bits(0x1000))));
}

#[test]
fn a_listing_is_narrowed_to_what_the_sweep_holds_in_order() {
    let sweep = Sweep::of(object(7, 0xab12, 0).bin(), 2);
    let listed = vec![
        object(7, 0xab00, 1),
        object(8, 0xab12, 2),
        object(7, 0xac12, 3),
        object(7, 0xabff, 4),
    ];
    let kept = sweep.narrow(&listed).unwrap();
    assert_eq!(kept, vec![object(7, 0xab00, 1), object(7, 0xabff, 4)]);
}

#[test]
fn a_bin_past_the_cap_is_refused_and_one_at_it_is_taken() {
    let sweep = Sweep::of(object(3, 0x1234, 0).bin(), 4);
    let full: Vec<Object> = (0..CAP).map(|at| object(3, 0x1234, at as u8)).collect();
    assert_eq!(sweep.narrow(&full).unwrap().len(), CAP);
    let mut over = full.clone();
    over.push(object(3, 0x1234, 9));
    assert_eq!(sweep.narrow(&over), Err(Overfull { objects: CAP + 1 }));
    let mut elsewhere = full;
    elsewhere.push(object(4, 0x1234, 9));
    assert_eq!(sweep.narrow(&elsewhere).unwrap().len(), CAP);
}
