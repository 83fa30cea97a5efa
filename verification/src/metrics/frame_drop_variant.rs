//! Classes of dropped frames.

use vstd::prelude::*;

verus! {

pub const CONSENSUS: &'static str = "consensus";
pub const FD_TRANSFER: &'static str = "fd_transfer";
pub const PARTITION: &'static str = "partition";
/// A client reply that never reaches the client: terminal.
pub const FORWARD_CLIENT_SEND: &'static str = "forward_client_send";
pub const FORWARD_REPLICA_SEND: &'static str = "forward_replica_send";
pub const METADATA_COMMIT_TICK: &'static str = "metadata_commit_tick";
/// The outcome of a delegated handshake, on its way to shard 0.
pub const REPLICA_HANDSHAKE_ACK: &'static str = "replica_handshake_ack";

} // verus!
