//! What time it is, as a value somebody hands you.
//!
//! Everything that decides about the future receives an [`Instant`] rather
//! than sampling a clock, so that a decision can be replayed, tested at a
//! boundary, and audited after it went wrong.

use vstd::prelude::*;

verus! {

/// A point in time: whole seconds since the Unix epoch, UTC.
#[derive(Clone, Copy, PartialEq, Eq, Structural, PartialOrd, Ord, Hash, Debug)]
pub struct Instant(u64);

impl Instant {
    /// The Unix epoch itself.
    pub fn epoch() -> (at: Self)
        ensures
            at.seconds() == 0,
    {
        Instant(0)
    }

    /// The furthest representable point; used as "does not expire".
    pub fn never() -> (at: Self)
        ensures
            at.seconds() == u64::MAX,
    {
        Instant(0xffff_ffff_ffff_ffff)
    }

    /// Seconds since the Unix epoch, for specifications.
    pub closed spec fn seconds(&self) -> u64 {
        self.0
    }

    /// Wraps a count of seconds since the Unix epoch.
    pub fn from_unix_seconds(seconds: u64) -> (at: Self)
        ensures
            at.seconds() == seconds,
    {
        Instant(seconds)
    }

    /// Seconds since the Unix epoch.
    pub fn as_unix_seconds(&self) -> (seconds: u64)
        ensures
            seconds == self.seconds(),
    {
        self.0
    }

    /// This instant moved forward by `seconds`, saturating at
    /// [`Instant::never`]: an expiry pushed beyond the end of time is one
    /// that has not been reached.
    pub fn plus_seconds(&self, seconds: u64) -> (later: Self)
        ensures
            later.seconds() == if self.seconds() + seconds > u64::MAX {
                u64::MAX as int
            } else {
                self.seconds() + seconds
            },
    {
        Instant(self.0.saturating_add(seconds))
    }
}

/// Anything that can say what time it is.
pub trait Clock {
    /// The current time.
    fn now(&self) -> Instant;
}

/// A clock that always reports the same instant.
#[derive(Clone, Copy, Debug)]
pub struct FixedClock {
    at: Instant,
}

impl FixedClock {
    /// The instant this clock is stopped at, for specifications.
    pub closed spec fn stopped_at(&self) -> Instant {
        self.at
    }

    /// A clock stopped at `at`.
    pub fn at(at: Instant) -> (clock: Self)
        ensures
            clock.stopped_at() == at,
    {
        FixedClock { at }
    }

    /// A copy of this clock moved forward by `seconds`; this one stays put.
    pub fn advanced(&self, seconds: u64) -> (moved: Self)
        ensures
            moved.stopped_at() == self.stopped_at().plus_seconds_spec(seconds),
            moved.stopped_at().seconds() == if self.stopped_at().seconds() + seconds > u64::MAX {
                u64::MAX as int
            } else {
                self.stopped_at().seconds() + seconds
            },
    {
        FixedClock { at: self.at.plus_seconds(seconds) }
    }
}

impl Instant {
    /// What [`Instant::plus_seconds`] answers.
    pub closed spec fn plus_seconds_spec(&self, seconds: u64) -> Instant {
        if self.0 + seconds > u64::MAX {
            Instant(0xffff_ffff_ffff_ffff)
        } else {
            Instant((self.0 + seconds) as u64)
        }
    }
}

/// Time only moves forward, and it stops at the end: adding seconds never
/// moves an instant backwards, and nothing moves past [`Instant::never`].
pub proof fn lemma_time_saturates(at: Instant, seconds: u64)
    ensures
        at.plus_seconds_spec(seconds).seconds() >= at.seconds(),
        at.seconds() == u64::MAX ==> at.plus_seconds_spec(seconds) == at,
{
}

impl Clock for FixedClock {
    fn now(&self) -> (now: Instant)
        ensures
            now == self.stopped_at(),
    {
        self.at
    }
}

} // verus!
