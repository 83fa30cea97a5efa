//! Shard runtime core: routing, parking, repair and state-transfer decisions
//! of one shard, with machine-checked contracts.

pub mod allocator;
pub mod channel;
pub mod control;
pub mod coordinator;
pub mod forwards;
pub mod frames;
mod lists;
pub mod metrics;
pub mod park;
pub mod partition_transfer;
pub mod reconcile;
pub mod repair;
pub mod router;
pub mod segment_cache;
pub mod serving;
pub mod shard;
pub mod transfer;
pub mod view_change;
pub mod view_log;
pub mod wire;
