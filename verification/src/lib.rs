//! The noun layer of kusanagi: identifiers, segments, canonical bytes, and the
//! seams a host and a clock plug into, each with the contract it keeps.

pub mod address;
pub mod alias;
pub mod clock;
pub mod digest;
pub mod filing;
pub mod hash;
pub mod identity;
pub mod intake;
pub mod link;
pub mod parts;
pub mod payload;
pub mod report;
pub mod request;
pub mod roster;
pub mod segment;
pub mod text;
pub mod trail;
pub mod walk;
pub mod waypoint;
pub mod wire;
pub mod world;

pub use wire::{unhex, Hex, HexError, Incomplete, Reader};
pub use digest::{Digest, DigestParseError};
pub use address::DropAddr;
pub use identity::{Handle, NotAuthentic, Signature, Signer, VerifyingKey};
pub use clock::{Clock, FixedClock, Instant};
pub use trail::{Commitment, Reveal, Trail};
pub use link::{ChainHead, Link};
pub use payload::{MAX_PAYLOAD, MAX_SEGMENT};
pub use segment::{Freight, FreightView, Purpose, Segment, SegmentError, SegmentId, SegmentView};
pub use parts::{divide, Part, PART_ROOM};
pub use alias::{Alias, AliasError, AliasRefusal, Declaration, DeclarationView};
pub use roster::{Roster, RosterError, RosterView, MOST_MEMBERS};
pub use filing::{Bin, BinView, NotAKey, Object, ObjectView, Overfull, Period, Sweep, SweepView, Ward, CAP};
pub use request::{abbreviate, check_name, reach, stance, Naming, Reach, Whose, MAX_NAME};
pub use walk::{next_window, WINDOW};
pub use waypoint::{PutOutcome, Waypoint, WaypointError};
pub use world::{fresh_seed, instant_from_reading, NoRandomness, SystemClock};
pub use report::{render, Entry, Measured, Outcome, Summary};
pub use intake::{members, split_name, FirstLine, ON_STDIN};
