//! Why frames are dropped.

use vstd::prelude::*;

verus! {

/// The operation is unknown to this build: the sender is newer.
pub const UNSUPPORTED_OPERATION: &'static str = "unsupported_operation";
/// The frame failed to decode for any other reason.
pub const UNPARSABLE: &'static str = "unparsable";
pub const FULL: &'static str = "full";
pub const DISCONNECTED: &'static str = "disconnected";
/// The target shard has no sender.
pub const UNROUTABLE: &'static str = "unroutable";
/// The owning shard could not place the frame.
pub const DELIVERY_FAILED: &'static str = "delivery_failed";
/// The frame reached a shard it was not addressed to.
pub const MISROUTED: &'static str = "misrouted";
/// The park buffer was at capacity.
pub const PARK_OVERFLOW: &'static str = "park_overflow";
/// A parked frame left unserved and unanswered.
pub const PARK_DROPPED: &'static str = "park_dropped";

} // verus!
