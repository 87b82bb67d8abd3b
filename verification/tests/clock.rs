use kusanagi_kernel::{Clock, FixedClock, Instant};

#[test]
fn a_fixed_clock_does_not_move() {
    let clock = FixedClock::at(Instant::from_unix_seconds(1_000));
    assert_eq!(clock.now(), clock.now());
    assert_eq!(clock.now().as_unix_seconds(), 1_000);
}

#[test]
fn advancing_moves_only_the_copy() {
    let clock = FixedClock::at(Instant::from_unix_seconds(1_000));
    assert_eq!(clock.advanced(60).now().as_unix_seconds(), 1_060);
    assert_eq!(clock.now().as_unix_seconds(), 1_000);
}

#[test]
fn time_saturates_at_never() {
    assert_eq!(Instant::never().plus_seconds(1), Instant::never());
    assert!(Instant::epoch() < Instant::never());
}

#[test]
fn adding_seconds_is_exact_below_never() {
    let at = Instant::from_unix_seconds(u64::MAX - 10);
    assert_eq!(at.plus_seconds(10).as_unix_seconds(), u64::MAX);
    assert_eq!(at.plus_seconds(11), Instant::never());
    assert_eq!(Instant::epoch().as_unix_seconds(), 0);
}
