//! The two things this library takes from the machine it runs on: the time,
//! and randomness for a new seed. Each is read in exactly one place, so that
//! everything else is a function of its arguments.

use vstd::prelude::*;

use crate::clock::{Clock, Instant};

verus! {

/// A moment on the machine's clock.
#[verifier::external_type_specification]
#[verifier::external_body]
pub struct ExSystemTime(std::time::SystemTime);

/// Why the operating system gave no randomness.
#[verifier::external_type_specification]
#[verifier::external_body]
pub struct ExRandomError(getrandom::Error);

/// The machine's clock, now.
///
/// Calls `std::time::SystemTime::now`. What it answers rests on the machine,
/// so nothing is claimed of it.
#[verifier::external_body]
fn system_now() -> std::time::SystemTime {
    std::time::SystemTime::now()
}

/// How long after the Unix epoch `moment` is, or nothing when it lies before.
///
/// Calls `SystemTime::duration_since(UNIX_EPOCH)`, whose error is the clock
/// standing before the epoch. What the clock said is the machine's, so nothing
/// is claimed of the duration.
#[verifier::external_body]
fn elapsed_since_epoch(moment: &std::time::SystemTime) -> Option<core::time::Duration> {
    match moment.duration_since(std::time::UNIX_EPOCH) {
        Ok(elapsed) => Some(elapsed),
        Err(_) => None,
    }
}

/// The whole seconds of `elapsed`.
///
/// Calls `Duration::as_secs`. A duration is opaque here, so nothing is
/// claimed of the number.
#[verifier::external_body]
fn whole_seconds(elapsed: &core::time::Duration) -> u64 {
    elapsed.as_secs()
}

/// Fills `seed` with randomness from the operating system.
///
/// Calls `getrandom::fill`. The bytes are random and the failure is the
/// operating system's, so nothing is claimed of either beyond that `seed`
/// stays thirty-two bytes, which its type already says.
#[verifier::external_body]
fn fill_random(seed: &mut [u8; 32]) -> Result<(), getrandom::Error> {
    getrandom::fill(seed.as_mut_slice())
}

/// The instant a reading of the machine's clock stands for: the whole seconds
/// it read, or the epoch when the clock stood before it, so that an expiry
/// check on a clock set wrong fails closed rather than never firing.
pub fn instant_from_reading(reading: Option<u64>) -> (at: Instant)
    ensures
        at.seconds() == match reading {
            Some(seconds) => seconds,
            None => 0,
        },
{
    match reading {
        Some(seconds) => Instant::from_unix_seconds(seconds),
        None => Instant::epoch(),
    }
}

/// The clock the program runs on: the one sampling point for real time.
#[derive(Debug, Clone, Copy)]
pub struct SystemClock;

impl Clock for SystemClock {
    /// The machine's time, in whole seconds; a clock set before the epoch
    /// reads as the epoch.
    fn now(&self) -> Instant {
        let reading = match elapsed_since_epoch(&system_now()) {
            Some(elapsed) => Some(whole_seconds(&elapsed)),
            None => None,
        };
        instant_from_reading(reading)
    }
}

/// The operating system had no randomness to give.
#[derive(Debug, Clone, Copy, PartialEq, Eq, Structural)]
pub struct NoRandomness;

/// A seed nobody has seen before, from the operating system's randomness;
/// [`NoRandomness`] when there is none to have.
pub fn fresh_seed() -> (seed: Result<[u8; 32], NoRandomness>)
    ensures
        seed matches Ok(bytes) ==> bytes@.len() == 32,
{
    let mut seed = [0u8; 32];
    match fill_random(&mut seed) {
        Ok(()) => Ok(seed),
        Err(_) => Err(NoRandomness),
    }
}

} // verus!
