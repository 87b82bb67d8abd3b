//! The seam every place-that-stores-bytes implements.
//!
//! A waypoint is not trusted. It sees an opaque address and an opaque byte
//! string, and it is never asked a question whose answer it could usefully lie
//! about: what it returns is verified against a hash by the caller. That is why
//! this trait promises nothing about what its methods return.
//!
//! `put_if_absent` is not `put`: a drop receives exactly one segment in its
//! lifetime, so the storage layer is what refuses a second write, and an
//! adapter that cannot refuse one says so through
//! [`WaypointError::OverwriteNotRefused`] rather than pretend.

use vstd::prelude::*;

use crate::address::DropAddr;

verus! {

/// The failure of an operating-system store, carried as the standard library
/// reports it.
#[verifier::external_type_specification]
#[verifier::external_body]
pub struct ExIoError(std::io::Error);

/// What happened to a write. An address that already holds bytes is a normal
/// outcome: a resend after a lost acknowledgement lands here.
#[derive(Debug, Clone, Copy, PartialEq, Eq, Structural)]
pub enum PutOutcome {
    /// The bytes were written; the address was empty.
    Stored,
    /// The address already held bytes, which were left untouched.
    AlreadyPresent,
}

/// A place that stores bytes at addresses, for this network's users to
/// implement over whatever host they have.
pub trait Waypoint {
    /// Writes `bytes` at `addr` only if `addr` is empty.
    fn put_if_absent(&self, addr: &DropAddr, bytes: &[u8]) -> Result<PutOutcome, WaypointError>;

    /// Reads the bytes at `addr`; an empty address is `Ok(None)`, the normal
    /// state of this network.
    fn get(&self, addr: &DropAddr) -> Result<Option<Vec<u8>>, WaypointError>;

    /// Removes whatever is at `addr`. Deleting an empty address is success:
    /// the caller has got what it asked for.
    fn delete(&self, addr: &DropAddr) -> Result<(), WaypointError>;
}

/// Why a waypoint did not do what it was asked.
#[derive(Debug)]
pub enum WaypointError {
    /// The underlying store failed while doing `action`.
    Io { action: &'static str, source: std::io::Error },
    /// The store accepted a write that should have been refused.
    OverwriteNotRefused,
    /// The store will not remove anything, so nothing can be released on it.
    DeletionRefused,
    /// The address is not usable as a key in this store, for `reason`.
    UnusableAddress { reason: String },
    /// The host answered `action` with somewhere else to go, `to`, and was
    /// not followed.
    Redirected { action: &'static str, to: String },
    /// The write did not land, and the host said nothing about why.
    Unwritten { action: &'static str },
    /// The host took longer than `after` to answer `action`.
    Unanswered { action: &'static str, after: core::time::Duration },
}

impl WaypointError {
    /// The code of each failure.
    pub open spec fn code_spec(&self) -> Seq<char> {
        match self {
            WaypointError::Io { .. } => "waypoint.io"@,
            WaypointError::OverwriteNotRefused => "waypoint.overwrite_not_refused"@,
            WaypointError::DeletionRefused => "waypoint.deletion_refused"@,
            WaypointError::UnusableAddress { .. } => "waypoint.unusable_address"@,
            WaypointError::Redirected { .. } => "waypoint.redirected"@,
            WaypointError::Unwritten { .. } => "waypoint.unwritten"@,
            WaypointError::Unanswered { .. } => "waypoint.timeout"@,
        }
    }

    /// A stable code for machine callers. Never changes once published.
    pub fn code(&self) -> (code: &'static str)
        ensures
            code@ == self.code_spec(),
    {
        match self {
            WaypointError::Io { .. } => "waypoint.io",
            WaypointError::OverwriteNotRefused => "waypoint.overwrite_not_refused",
            WaypointError::DeletionRefused => "waypoint.deletion_refused",
            WaypointError::UnusableAddress { .. } => "waypoint.unusable_address",
            WaypointError::Redirected { .. } => "waypoint.redirected",
            WaypointError::Unwritten { .. } => "waypoint.unwritten",
            WaypointError::Unanswered { .. } => "waypoint.timeout",
        }
    }
}

} // verus!
