use kusanagi_kernel::{fresh_seed, instant_from_reading, Clock, SystemClock};

#[test]
fn the_clock_is_somewhere_this_century() {
    let now = SystemClock.now().as_unix_seconds();
    assert!(now > 1_577_836_800, "the clock reads before 2020");
    assert!(now < 7_258_118_400, "the clock reads after 2200");
}

#[test]
fn two_seeds_are_not_the_same_seed() {
    assert_ne!(fresh_seed().unwrap(), fresh_seed().unwrap());
    assert_ne!(fresh_seed().unwrap(), [0_u8; 32]);
}

#[test]
fn a_clock_before_the_epoch_reads_as_the_epoch() {
    assert_eq!(instant_from_reading(None).as_unix_seconds(), 0);
    assert_eq!(instant_from_reading(Some(1_700_000_000)).as_unix_seconds(), 1_700_000_000);
    assert_eq!(instant_from_reading(Some(u64::MAX)).as_unix_seconds(), u64::MAX);
}
