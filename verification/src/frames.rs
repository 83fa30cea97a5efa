//! What travels between shards.
//!
//! `F` is the handle of a connection on its way to another shard: the frame
//! owns it, so a frame dropped unprocessed drops the handle too.

use vstd::prelude::*;

use crate::channel::Sender;
use crate::wire::Operation;

verus! {

/// Class of a consensus message.
#[derive(Debug, Clone, Copy, PartialEq, Eq, Structural)]
pub enum Command {
    Request,
    Prepare,
    PrepareOk,
    StartViewChange,
    DoViewChange,
    StartView,
    Commit,
    RequestStartView,
    RequestPrepares,
    RepairPrepare,
    RepairRangeReply,
    RequestStateTransfer,
    StateTransferTarget,
    RequestStateChunk,
    StateChunk,
    ForwardRegister,
    ForwardRegisterResult,
    ForwardLogout,
    ForwardLogoutResult,
}

/// A classified consensus message: what routing reads, and the frame's bytes.
#[derive(Debug)]
pub struct Message {
    pub command: Command,
    pub operation: Operation,
    /// Consensus group the message addresses.
    pub group: u64,
    pub bytes: Vec<u8>,
}

/// A session bound by a committed login.
#[derive(Debug, Clone, Copy, PartialEq, Eq, Structural)]
pub struct BoundSession {
    pub client: u128,
    pub session: u64,
}

/// Why a metadata submit failed.
#[derive(Debug, Clone, Copy, PartialEq, Eq, Structural)]
pub enum MetadataSubmitError {
    /// Terminal: the client id belongs to someone else.
    ClientIdOwnedByAnotherUser,
    /// Worth another try; the code says why.
    Transient(u32),
}

/// A metadata proposal on its way to the shard that owns the metadata group.
#[allow(inconsistent_fields)]
pub enum MetadataSubmit {
    Register { vsr_client_id: u128, user_id: u32, reply: Sender<Result<BoundSession, MetadataSubmitError>> },
    /// A login another replica authenticated; the verdict returns to
    /// `origin_replica` under `nonce`.
    ForwardedRegister { vsr_client_id: u128, user_id: u32, nonce: u128, origin_replica: u8 },
    ForwardedLogout { vsr_client_id: u128, session: u64, request: u64, nonce: u128, origin_replica: u8 },
    Logout { vsr_client_id: u128, session: u64, request: u64, reply: Sender<Result<u64, MetadataSubmitError>> },
    /// A client's replicated request, relayed by the shard that homes it.
    ClientRequest { request: Message, reply: Sender<Option<Message>> },
    /// Completes a consumer-group revocation.
    CompleteRevocation {
        stream_id: u32,
        topic_id: u32,
        group_id: u64,
        source_client_id: u128,
        partition_id: u32,
        reply: Sender<Option<u64>>,
    },
}

/// How a client is connected.
#[derive(Debug, Clone, Copy, PartialEq, Eq, Structural)]
pub enum ClientTransportKind {
    Tcp,
    TcpTls,
    Quic,
    Ws,
}

/// A delegated client connection.
#[derive(Debug)]
pub struct ClientConnMeta {
    /// The owning shard is in the top 16 bits.
    pub client_id: u128,
    pub peer_addr: String,
    pub transport: ClientTransportKind,
}

/// One connected client, as the shard that homes it sees it.
#[derive(Debug)]
pub struct ConnectedClientInfo {
    pub client_id: u128,
    /// Set once the connection registered.
    pub vsr_client_id: Option<u128>,
    pub user_id: Option<u32>,
    pub transport: ClientTransportKind,
    pub address: String,
    pub sdk_name: Option<String>,
    pub sdk_version: Option<String>,
    pub protocol_version: Option<u32>,
}

/// Who polls.
#[derive(Debug, Clone, Copy, PartialEq, Eq, Structural)]
pub enum PollingConsumer {
    Consumer { consumer_id: u64, partition_id: u32 },
    ConsumerGroup { group_id: u64, member_id: u64 },
}

/// Where a poll starts.
#[derive(Debug, Clone, Copy, PartialEq, Eq, Structural)]
pub enum PollingStart {
    Offset(u64),
    Timestamp(u64),
    First,
    Last,
    Next,
}

#[derive(Debug, Clone, Copy, PartialEq, Eq, Structural)]
pub struct PollingArgs {
    pub start: PollingStart,
    pub count: u32,
    pub auto_commit: bool,
}

/// A read executed on the shard that owns a partition.
#[derive(Debug, Clone, Copy, PartialEq, Eq, Structural)]
pub enum PartitionRead {
    Poll { consumer: PollingConsumer, args: PollingArgs },
    ConsumerOffset { consumer: PollingConsumer },
    /// A group's last-polled and committed offsets.
    GroupOffsetState { group_id: u64 },
    /// Drop a group's last-polled mark.
    ClearGroupLastPolled { group_id: u64 },
    /// The end offset of the `count`-th oldest sealed segment.
    ResolveSegmentDeleteOffset { count: u32 },
}

/// Reply to a [`PartitionRead`].
#[derive(Debug)]
#[allow(inconsistent_fields)]
pub enum PartitionReadReply {
    Poll { fragments: Vec<Vec<u8>>, current_offset: u64 },
    ConsumerOffset { stored: Option<u64>, current_offset: u64 },
    GroupOffsetState { last_polled: Option<u64>, committed: Option<u64> },
    Ack,
    SegmentDeleteOffset { up_to_offset: Option<u64>, lagging: bool },
    /// The partition is not materialised here.
    NotFound,
}

/// How long messages live.
#[derive(Debug, Clone, Copy, PartialEq, Eq, Structural)]
pub enum MessageExpiry {
    Never,
    ServerDefault,
    /// In microseconds.
    After(u64),
}

/// Connection setup and cross-shard forwards. Every variant rides the main
/// lane but [`LifecycleFrame::ForwardClientSend`], whose loss nothing
/// recovers: it rides the reply lane.
#[allow(inconsistent_fields)]
pub enum LifecycleFrame<F> {
    /// An accepted replica connection, before any byte is read.
    ReplicaInboundSetup { fd: F, slot: u64 },
    /// A dialed replica connection.
    ReplicaOutboundSetup { fd: F, replica_id: u8 },
    /// A delegated inbound handshake finished, whatever its outcome.
    ReplicaInboundHandshakeDone { slot: u64 },
    /// A delegated outbound handshake finished, whatever its outcome.
    ReplicaOutboundHandshakeDone { replica_id: u8 },
    ClientConnectionSetup { fd: F, meta: ClientConnMeta },
    /// Plain TCP still; the owning shard upgrades it.
    ClientWsConnectionSetup { fd: F, meta: ClientConnMeta },
    ForwardReplicaSend { replica_id: u8, msg: Vec<u8> },
    ForwardClientSend { client_id: u128, msg: Vec<u8> },
    /// Always addressed to shard 0.
    MetadataSubmit(MetadataSubmit),
    /// Sent to every shard.
    ListClients { reply: Sender<Vec<ConnectedClientInfo>> },
    PartitionRead { namespace: u64, read: PartitionRead, reply: Sender<PartitionReadReply> },
    /// Wakes the reconciler.
    MetadataCommitTick,
    /// Staged partition mutations wait for the pump.
    ReconcileApply,
    CleanPartition { namespace: u64, now: u64, message_expiry: MessageExpiry, max_bytes: Option<u64> },
    TruncatePartition { namespace: u64, up_to_offset: u64 },
    PurgePartition { namespace: u64, generation: u64 },
}

/// Envelope of the channels between shards.
pub enum ShardFrame<F> {
    /// A consensus message, stamped with the shard it is for.
    Consensus { target_shard: u16, message: Message },
    Lifecycle(LifecycleFrame<F>),
}

impl<F> ShardFrame<F> {
    pub fn consensus(target_shard: u16, message: Message) -> (frame: ShardFrame<F>)
        ensures
            frame == (ShardFrame::<F>::Consensus { target_shard, message }),
    {
        ShardFrame::Consensus { target_shard, message }
    }

    pub fn lifecycle(payload: LifecycleFrame<F>) -> (frame: ShardFrame<F>)
        ensures
            frame == ShardFrame::Lifecycle(payload),
    {
        ShardFrame::Lifecycle(payload)
    }
}

} // verus!
