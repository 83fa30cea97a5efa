//! One shard: its identity, its lanes to the other shards, the partitions it
//! holds, and what it is recovering or serving.
//!
//! `F` is the handle of a connection on its way between shards, `P` a
//! partition.

use vstd::prelude::*;

use crate::channel::{
    canonical, classify_try_send_err, is_recorded_send, is_sent, law_send_is_delivered_or_counted, law_send_tells_what_came_of_it,
    lemma_offers_after, offered_at, offered_reply_at, outcome_of, own_lane_only,
    validate_sender_ordering, with_send, SendOutcome, SendRefusal, Sender, ShardCtorError, TaggedSender,
};
use crate::coordinator::ShardZeroCoordinator;
use crate::forwards::{entries_but, entries_with, forward_nonce_seed, is_answered, next_nonce, nonce_after, nonce_of, ForwardResult, ForwardTable, NONCE_SPAN};
use crate::frames::{Command, LifecycleFrame, Message, MessageExpiry, MetadataSubmit, ShardFrame};
use crate::lists::{in_order, strictly_sorted};
use crate::metrics::{bumped, frame_drop_reason, frame_drop_variant, law_labels_are_distinct, MetricCounts, ShardMetrics};
use crate::park::{
    footprint_of, frames_at, frames_bytes, is_aged, is_parked, is_shed, is_shedding, is_taken, park_refused,
    NamespaceState, ParkOutcome, ParkedFrame, MAX_PARKED_BYTES, MAX_PARKED_BYTES_PER_NAMESPACE,
};
use crate::reconcile::{
    applied_all, confirms_removal, fenced, is_drain, Materialisation, PartitionSet, ReconcileOp, ReconcileOutcome, RoutingTable, TableView,
};
use crate::repair::{MetadataRepairSession, REPAIR_CHUNK_MAX};
use crate::view_change::is_wedged;
use crate::serving::{StateTransferServer, DEFAULT_BUS_MAX_MESSAGE_SIZE, PARTITION_ARTIFACT_LEN_DEFAULT, SERVED_SEGMENT_CACHE_BYTES_DEFAULT};
use crate::transfer::MetadataTransfer;
use crate::wire::Operation;

verus! {

/// A shard's id and name.
pub struct ShardIdentity {
    pub id: u16,
    pub name: String,
}

impl ShardIdentity {
    pub fn new(id: u16, name: String) -> (identity: ShardIdentity)
        ensures
            identity == (ShardIdentity { id, name }),
    {
        ShardIdentity { id, name }
    }
}

/// A replica's id and the size of its cluster.
#[derive(Debug, Clone, Copy, PartialEq, Eq, Structural)]
pub struct ReplicaTopology {
    pub self_replica_id: u8,
    pub replica_count: u8,
}

impl ReplicaTopology {
    pub fn new(self_replica_id: u8, replica_count: u8) -> (topology: ReplicaTopology)
        ensures
            topology == (ReplicaTopology { self_replica_id, replica_count }),
    {
        ReplicaTopology { self_replica_id, replica_count }
    }
}

/// What every partition group of a shard is built with.
pub struct PartitionConsensusConfig<B, C> {
    pub cluster_id: u128,
    pub self_replica_id: u8,
    pub replica_count: u8,
    pub bus: B,
    pub clock: C,
}

impl<B, C> PartitionConsensusConfig<B, C> {
    pub fn with_clock(cluster_id: u128, topology: ReplicaTopology, bus: B, clock: C) -> (config: PartitionConsensusConfig<B, C>)
        ensures
            config == (PartitionConsensusConfig {
                cluster_id,
                self_replica_id: topology.self_replica_id,
                replica_count: topology.replica_count,
                bus,
                clock,
            }),
    {
        PartitionConsensusConfig {
            cluster_id,
            self_replica_id: topology.self_replica_id,
            replica_count: topology.replica_count,
            bus,
            clock,
        }
    }
}

/// Limits an operator may override at boot.
#[derive(Debug, Clone, Copy, PartialEq, Eq, Structural)]
pub struct ShardTuning {
    /// Prepares served per repair round.
    pub repair_chunk_max: u64,
    /// Ticks without progress before a stalled repair is asked for again.
    pub repair_retry_ticks: u32,
    /// Consecutive superblock write failures before the process stops; never
    /// where zero.
    pub superblock_wedged_fatal_failures: u64,
    /// Bytes of segment payloads kept resident to serve transfers.
    pub served_segment_cache_bytes_max: u64,
    /// Largest artifact accepted in a transfer.
    pub partition_artifact_len_max: u64,
    /// Largest frame the bus carries.
    pub bus_max_message_size: usize,
}

/// The limits before any override.
pub open spec fn default_tuning(repair_retry_ticks: u32) -> ShardTuning {
    ShardTuning {
        repair_chunk_max: REPAIR_CHUNK_MAX,
        repair_retry_ticks,
        superblock_wedged_fatal_failures: 0,
        served_segment_cache_bytes_max: SERVED_SEGMENT_CACHE_BYTES_DEFAULT,
        partition_artifact_len_max: PARTITION_ARTIFACT_LEN_DEFAULT,
        bus_max_message_size: DEFAULT_BUS_MAX_MESSAGE_SIZE,
    }
}

impl ShardTuning {
    /// The limits before any override; how long a repair may stall is the
    /// partitions' own default.
    pub fn with_retry_ticks(repair_retry_ticks: u32) -> (tuning: ShardTuning)
        ensures
            tuning == default_tuning(repair_retry_ticks),
    {
        ShardTuning {
            repair_chunk_max: REPAIR_CHUNK_MAX,
            repair_retry_ticks,
            superblock_wedged_fatal_failures: 0,
            served_segment_cache_bytes_max: SERVED_SEGMENT_CACHE_BYTES_DEFAULT,
            partition_artifact_len_max: PARTITION_ARTIFACT_LEN_DEFAULT,
            bus_max_message_size: DEFAULT_BUS_MAX_MESSAGE_SIZE,
        }
    }
}

/// One shard.
#[verifier::reject_recursive_types(F)]
pub struct IggyShard<F: 'static, P> {
    pub id: u16,
    pub name: String,
    /// One sender per shard, by shard id, this one's included.
    pub senders: Vec<TaggedSender<F>>,
    pub shard_count: u32,
    pub replica_count: u8,
    /// Consensus group of the metadata.
    pub metadata_group: u64,
    /// On shard 0 alone.
    pub coordinator: Option<ShardZeroCoordinator<F>>,
    pub metrics: ShardMetrics,
    pub tuning: ShardTuning,
    /// Partitions, routes, parked frames and staged mutations.
    pub held: Materialisation<P>,
    /// Offers this shard serves.
    pub serving: StateTransferServer,
    pub metadata_repair: Option<MetadataRepairSession>,
    pub metadata_transfer: MetadataTransfer,
    pub register_forwards: ForwardTable,
    pub logout_forwards: ForwardTable,
    pub forward_nonce: u64,
    /// The reconciler can be woken.
    pub reconciler_wired: bool,
}

/// Record a refused frame.
pub fn record_refusal<T>(metrics: &mut ShardMetrics, variant: &'static str, refusal: &SendRefusal<T>)
    ensures
        final(metrics)@ == old(metrics)@.dropped(variant@, refusal.spec_reason()),
{
    metrics.record_frame_drop(variant, classify_try_send_err(refusal));
}

/// Hand a frame to a lane, recording a refusal with its reason. What came of
/// it is returned.
pub(crate) fn send_recorded<F: 'static>(
    metrics: &mut ShardMetrics,
    lane: &mut Sender<ShardFrame<F>>,
    variant: &'static str,
    frame: ShardFrame<F>,
) -> (outcome: SendOutcome)
    ensures
        *final(lane) == old(lane).offered(frame, outcome),
        final(metrics)@ == with_send(old(metrics)@, variant@, outcome),
{
    match lane.try_send(frame) {
        Ok(_) => SendOutcome::Taken,
        Err(refusal) => {
            record_refusal(metrics, variant, &refusal);
            match refusal {
                SendRefusal::Full(_) => SendOutcome::Full,
                SendRefusal::Disconnected(_) => SendOutcome::Gone,
            }
        },
    }
}

impl<F: 'static, P> IggyShard<F, P> {
    pub open spec fn wf(&self) -> bool {
        &&& canonical(self.senders@)
        &&& self.senders@.len() <= u16::MAX
        &&& self.shard_count == self.senders@.len() || self.senders@.len() == 0 && self.shard_count == 1
        &&& self.held.wf()
        &&& self.serving.wf()
        &&& self.register_forwards.wf()
        &&& self.logout_forwards.wf()
    }

    /// A shard before anything arrived.
    pub open spec fn is_fresh(&self) -> bool {
        &&& self.held.is_idle()
        &&& self.serving.offers@.len() == 0
        &&& self.serving.builds@ == Map::<u64, u32>::empty()
        &&& self.serving.cache.entries@.len() == 0
        &&& self.serving.cache.use_seq == 0
        &&& self.serving.cache.sweeps == 0
        &&& self.metadata_repair is None
        &&& self.metadata_transfer.session is None
        &&& self.metadata_transfer.attempts == 0
        &&& self.metadata_transfer.decode_failures is None
        &&& self.register_forwards.entries@.len() == 0
        &&& self.logout_forwards.entries@.len() == 0
        &&& !self.reconciler_wired
    }

    /// Build a shard on its lanes, over the partitions and the routing table
    /// it boots with. `incarnation` is this boot's, on the shard that owns the
    /// metadata group.
    pub fn new(
        identity: ShardIdentity,
        partitions: PartitionSet<P>,
        routes: RoutingTable,
        senders: Vec<TaggedSender<F>>,
        topology: ReplicaTopology,
        metadata_group: u64,
        incarnation: Option<u128>,
        coordinator: Option<ShardZeroCoordinator<F>>,
        metrics: ShardMetrics,
        repair_retry_ticks: u32,
    ) -> (shard: Result<IggyShard<F, P>, ShardCtorError>)
        ensures
            match shard {
                Ok(shard) => {
                    &&& canonical(senders@) && senders@.len() <= u16::MAX
                    &&& shard.is_fresh()
                    &&& shard.held.partitions == partitions
                    &&& shard.held.routes == routes
                    &&& shard.id == identity.id
                    &&& shard.name == identity.name
                    &&& shard.senders == senders
                    &&& shard.shard_count == senders@.len()
                    &&& shard.replica_count == topology.replica_count
                    &&& shard.metadata_group == metadata_group
                    &&& shard.coordinator == coordinator
                    &&& shard.metrics == metrics
                    &&& shard.forward_nonce == if incarnation is Some {
                        incarnation->0 as int % NONCE_SPAN as int
                    } else {
                        0
                    }
                    &&& shard.tuning == default_tuning(repair_retry_ticks)
                    &&& shard.wf()
                },
                Err(ShardCtorError::ShardCountOverflow { count }) => count == senders@.len() && count > u16::MAX,
                Err(ShardCtorError::SenderOrderingInvalid { index, expected, actual }) => {
                    &&& index < senders@.len()
                    &&& expected == index
                    &&& actual == senders@[index as int].shard_id
                    &&& actual != expected
                    &&& forall|j: int| #![trigger senders@[j]] 0 <= j < index ==> senders@[j].shard_id == j
                },
                Err(_) => false,
            },
    {
        match validate_sender_ordering(&senders) {
            Ok(_) => {},
            Err(error) => {
                return Err(error);
            },
        }
        let shard_count: u32 = senders.len() as u32;
        let mut shard: IggyShard<F, P> = IggyShard::without_inbox(
            identity,
            partitions,
            routes,
            topology,
            metadata_group,
            incarnation,
            metrics,
            repair_retry_ticks,
        );
        shard.senders = senders;
        shard.shard_count = shard_count;
        shard.coordinator = coordinator;
        Ok(shard)
    }

    /// A shard without lanes: frames reach it by direct calls alone. It counts
    /// as the only one.
    pub fn without_inbox(
        identity: ShardIdentity,
        partitions: PartitionSet<P>,
        routes: RoutingTable,
        topology: ReplicaTopology,
        metadata_group: u64,
        incarnation: Option<u128>,
        metrics: ShardMetrics,
        repair_retry_ticks: u32,
    ) -> (shard: IggyShard<F, P>)
        ensures
            shard.wf(),
            shard.is_fresh(),
            shard.held.partitions == partitions,
            shard.held.routes == routes,
            shard.id == identity.id,
            shard.name == identity.name,
            shard.senders@.len() == 0,
            shard.shard_count == 1,
            shard.replica_count == topology.replica_count,
            shard.metadata_group == metadata_group,
            shard.coordinator is None,
            shard.metrics == metrics,
            shard.forward_nonce == if incarnation is Some {
                incarnation->0 as int % NONCE_SPAN as int
            } else {
                0
            },
            shard.tuning == default_tuning(repair_retry_ticks),
    {
        IggyShard {
            id: identity.id,
            name: identity.name,
            senders: Vec::new(),
            shard_count: 1,
            replica_count: topology.replica_count,
            metadata_group,
            coordinator: None,
            metrics,
            tuning: ShardTuning::with_retry_ticks(repair_retry_ticks),
            held: Materialisation::over(partitions, routes),
            serving: StateTransferServer::new(),
            metadata_repair: None,
            metadata_transfer: MetadataTransfer::new(),
            register_forwards: ForwardTable::new(),
            logout_forwards: ForwardTable::new(),
            forward_nonce: forward_nonce_seed(incarnation),
            reconciler_wired: false,
        }
    }
}

impl<F: 'static, P> IggyShard<F, P> {
    /// Override how long a repair may stall.
    pub fn set_repair_retry_ticks(&mut self, repair_retry_ticks: u32)
        ensures
            *final(self) == (IggyShard { tuning: ShardTuning { repair_retry_ticks, ..old(self).tuning }, ..*old(self) }),
    {
        self.tuning.repair_retry_ticks = repair_retry_ticks;
    }

    /// Arm the bound on superblock write failures.
    pub fn set_superblock_wedged_fatal_failures(&mut self, superblock_wedged_fatal_failures: u64)
        ensures
            *final(self) == (IggyShard { tuning: ShardTuning { superblock_wedged_fatal_failures, ..old(self).tuning }, ..*old(self) }),
    {
        self.tuning.superblock_wedged_fatal_failures = superblock_wedged_fatal_failures;
    }

    /// Override the budget of resident payloads.
    pub fn set_served_segment_cache_bytes_max(&mut self, served_segment_cache_bytes_max: u64)
        ensures
            *final(self) == (IggyShard { tuning: ShardTuning { served_segment_cache_bytes_max, ..old(self).tuning }, ..*old(self) }),
    {
        self.tuning.served_segment_cache_bytes_max = served_segment_cache_bytes_max;
    }

    /// Override the largest artifact accepted.
    pub fn set_partition_artifact_len_max(&mut self, partition_artifact_len_max: u64)
        ensures
            *final(self) == (IggyShard { tuning: ShardTuning { partition_artifact_len_max, ..old(self).tuning }, ..*old(self) }),
    {
        self.tuning.partition_artifact_len_max = partition_artifact_len_max;
    }

    /// Override the prepares served per repair round.
    pub fn set_repair_chunk_max(&mut self, repair_chunk_max: u64)
        ensures
            *final(self) == (IggyShard { tuning: ShardTuning { repair_chunk_max, ..old(self).tuning }, ..*old(self) }),
    {
        self.tuning.repair_chunk_max = repair_chunk_max;
    }

    /// Override the largest frame the bus carries.
    pub fn set_bus_max_message_size(&mut self, bus_max_message_size: usize)
        ensures
            *final(self) == (IggyShard { tuning: ShardTuning { bus_max_message_size, ..old(self).tuning }, ..*old(self) }),
    {
        self.tuning.bus_max_message_size = bus_max_message_size;
    }

    /// The largest frame the bus carries.
    pub fn bus_max_message_size(&self) -> (size: usize)
        ensures
            size == self.tuning.bus_max_message_size,
    {
        self.tuning.bus_max_message_size
    }

    /// The coordinator, on shard 0.
    pub fn coordinator(&self) -> (coordinator: Option<&ShardZeroCoordinator<F>>)
        ensures
            match coordinator {
                Some(found) => self.coordinator == Some(*found),
                None => self.coordinator is None,
            },
    {
        self.coordinator.as_ref()
    }

    pub fn metrics(&self) -> (metrics: &ShardMetrics)
        ensures
            *metrics == self.metrics,
    {
        &self.metrics
    }

    /// Wire or unwire the reconciler's wake.
    pub fn set_metadata_tick_handler(&mut self, wired: bool)
        ensures
            *final(self) == (IggyShard { reconciler_wired: wired, ..*old(self) }),
    {
        self.reconciler_wired = wired;
    }

    /// Whether the reconciler is to be woken for a metadata commit.
    pub fn dispatch_metadata_commit_tick(&self) -> (wake: bool)
        ensures
            wake == self.reconciler_wired,
    {
        self.reconciler_wired
    }

    /// Attach lanes to a shard built without them.
    pub fn attach_senders(&mut self, senders: Vec<TaggedSender<F>>)
        requires
            old(self).wf(),
            old(self).id < senders@.len(),
            canonical(senders@),
            senders@.len() <= u16::MAX,
        ensures
            final(self).wf(),
            *final(self) == (IggyShard { senders, shard_count: senders@.len() as u32, ..*old(self) }),
    {
        self.shard_count = senders.len() as u32;
        self.senders = senders;
    }

    /// A replica id taken off a frame names a replica of this cluster. Ring
    /// arithmetic and table keys rest on it.
    pub fn peer_is_known(&self, replica: u8) -> (known: bool)
        ensures
            known == (replica < self.replica_count),
    {
        replica < self.replica_count
    }

    /// A fresh, never-zero nonce for a forwarded request.
    pub fn next_forward_nonce(&mut self, replica: u8) -> (nonce: u128)
        ensures
            nonce == nonce_of(replica, nonce_after(old(self).forward_nonce)),
            *final(self) == (IggyShard { forward_nonce: nonce_after(old(self).forward_nonce), ..*old(self) }),
    {
        next_nonce(&mut self.forward_nonce, replica)
    }

    /// Park a forwarded login until the primary answers.
    pub fn park_register_forward(&mut self, nonce: u128, client: u128, reply: Sender<ForwardResult>)
        requires
            old(self).wf(),
        ensures
            final(self).wf(),
            final(self).register_forwards.entries@ == entries_with(old(self).register_forwards.entries@, nonce, client, reply),
            *final(self) == (IggyShard { register_forwards: final(self).register_forwards, ..*old(self) }),
    {
        self.register_forwards.park(nonce, client, reply);
    }

    /// Drop a parked login.
    pub fn cancel_register_forward(&mut self, nonce: u128, client: u128)
        requires
            old(self).wf(),
        ensures
            final(self).wf(),
            final(self).register_forwards.entries@ == entries_but(old(self).register_forwards.entries@, nonce, client),
            *final(self) == (IggyShard { register_forwards: final(self).register_forwards, ..*old(self) }),
    {
        let _dropped: Option<Sender<ForwardResult>> = self.register_forwards.take(nonce, client);
    }

    /// Park a forwarded logout until the primary answers.
    pub fn park_logout_forward(&mut self, nonce: u128, client: u128, reply: Sender<ForwardResult>)
        requires
            old(self).wf(),
        ensures
            final(self).wf(),
            final(self).logout_forwards.entries@ == entries_with(old(self).logout_forwards.entries@, nonce, client, reply),
            *final(self) == (IggyShard { logout_forwards: final(self).logout_forwards, ..*old(self) }),
    {
        self.logout_forwards.park(nonce, client, reply);
    }

    /// Drop a parked logout.
    pub fn cancel_logout_forward(&mut self, nonce: u128, client: u128)
        requires
            old(self).wf(),
        ensures
            final(self).wf(),
            final(self).logout_forwards.entries@ == entries_but(old(self).logout_forwards.entries@, nonce, client),
            *final(self) == (IggyShard { logout_forwards: final(self).logout_forwards, ..*old(self) }),
    {
        let _dropped: Option<Sender<ForwardResult>> = self.logout_forwards.take(nonce, client);
    }

    /// What a forwarded login is proposed as.
    pub open spec fn forwarded_register(self, replica: u8, client: u128, user_id: u32, nonce: u128) -> Option<MetadataSubmit> {
        if replica < self.replica_count {
            Some(MetadataSubmit::ForwardedRegister { vsr_client_id: client, user_id, nonce, origin_replica: replica })
        } else {
            None
        }
    }

    /// What a forwarded logout is proposed as.
    pub open spec fn forwarded_logout(self, replica: u8, client: u128, session: u64, request: u64, nonce: u128) -> Option<
        MetadataSubmit,
    > {
        if replica < self.replica_count {
            Some(
                MetadataSubmit::ForwardedLogout {
                    vsr_client_id: client,
                    session,
                    request,
                    nonce,
                    origin_replica: replica,
                },
            )
        } else {
            None
        }
    }

    /// A forwarded login reached its primary: what to propose, unless the
    /// origin is no replica of this cluster.
    pub fn on_forward_register(&self, replica: u8, client: u128, user_id: u32, nonce: u128) -> (submit: Option<MetadataSubmit>)
        ensures
            submit == self.forwarded_register(replica, client, user_id, nonce),
    {
        if !self.peer_is_known(replica) {
            return None;
        }
        Some(MetadataSubmit::ForwardedRegister { vsr_client_id: client, user_id, nonce, origin_replica: replica })
    }

    /// A forwarded logout reached its primary: what to propose, unless the
    /// origin is no replica of this cluster.
    pub fn on_forward_logout(&self, replica: u8, client: u128, session: u64, request: u64, nonce: u128) -> (submit: Option<
        MetadataSubmit,
    >)
        ensures
            submit == self.forwarded_logout(replica, client, session, request, nonce),
    {
        if !self.peer_is_known(replica) {
            return None;
        }
        Some(MetadataSubmit::ForwardedLogout { vsr_client_id: client, session, request, nonce, origin_replica: replica })
    }

    /// A login's verdict came back. The lane the login waited on is returned,
    /// if one did.
    pub fn on_forward_register_result(&mut self, result: ForwardResult) -> (answered: Option<Sender<ForwardResult>>)
        requires
            old(self).wf(),
        ensures
            final(self).wf(),
            is_answered(old(self).register_forwards.entries@, result, answered),
            final(self).register_forwards.entries@ == entries_but(
                old(self).register_forwards.entries@,
                result.nonce,
                result.client,
            ),
            *final(self) == (IggyShard { register_forwards: final(self).register_forwards, ..*old(self) }),
    {
        self.register_forwards.deliver(result)
    }

    /// A logout's verdict came back. The lane the logout waited on is returned,
    /// if one did.
    pub fn on_forward_logout_result(&mut self, result: ForwardResult) -> (answered: Option<Sender<ForwardResult>>)
        requires
            old(self).wf(),
        ensures
            final(self).wf(),
            is_answered(old(self).logout_forwards.entries@, result, answered),
            final(self).logout_forwards.entries@ == entries_but(
                old(self).logout_forwards.entries@,
                result.nonce,
                result.client,
            ),
            *final(self) == (IggyShard { logout_forwards: final(self).logout_forwards, ..*old(self) }),
    {
        self.logout_forwards.deliver(result)
    }
}

/// How the deny of a client's request went.
#[derive(Debug, Clone, Copy, PartialEq, Eq, Structural)]
pub enum DenyOutcome {
    /// The reply lane took it.
    Staged,
    /// The reply lane had no slot.
    LaneFull,
    /// The reply lane is gone.
    LaneGone,
    /// The shard has no lane to itself.
    NoLane,
}

/// The counts after a deny: only a deny that was taken is credited.
pub open spec fn with_deny(counts: MetricCounts, outcome: DenyOutcome) -> MetricCounts {
    match outcome {
        DenyOutcome::Staged => MetricCounts {
            partition_requests_denied_transient: bumped(counts.partition_requests_denied_transient),
            ..counts
        },
        DenyOutcome::LaneFull => counts.dropped(frame_drop_variant::PARTITION@, frame_drop_reason::FULL@),
        DenyOutcome::LaneGone => counts.dropped(frame_drop_variant::PARTITION@, frame_drop_reason::DISCONNECTED@),
        DenyOutcome::NoLane => counts,
    }
}

/// The counts after a deny that was sent to its client directly.
pub open spec fn with_direct_deny(counts: MetricCounts, delivered: bool) -> MetricCounts {
    if delivered {
        MetricCounts {
            partition_requests_denied_transient: bumped(counts.partition_requests_denied_transient),
            ..counts
        }
    } else {
        counts.dropped(frame_drop_variant::PARTITION@, frame_drop_reason::DELIVERY_FAILED@)
    }
}

/// What came of the offer behind a deny.
pub open spec fn deny_offer(outcome: DenyOutcome) -> SendOutcome {
    match outcome {
        DenyOutcome::Staged => SendOutcome::Taken,
        DenyOutcome::LaneFull => SendOutcome::Full,
        _ => SendOutcome::Gone,
    }
}

/// The senders after a deny: the shard's own reply lane was offered it, where
/// there is one.
pub open spec fn deny_lanes<F>(
    lanes: Seq<TaggedSender<F>>,
    shard: u16,
    client: u128,
    reply: Vec<u8>,
    outcome: DenyOutcome,
) -> Seq<TaggedSender<F>> {
    if shard < lanes.len() {
        offered_reply_at(
            lanes,
            shard as int,
            ShardFrame::Lifecycle(LifecycleFrame::ForwardClientSend { client_id: client, msg: reply }),
            deny_offer(outcome),
        )
    } else {
        lanes
    }
}

/// The senders after the denies of several frames, in order.
pub open spec fn denies_lanes<F>(
    lanes: Seq<TaggedSender<F>>,
    shard: u16,
    replies: Seq<Option<(u128, Vec<u8>)>>,
    denies: Seq<Option<DenyOutcome>>,
) -> Seq<TaggedSender<F>>
    decreases denies.len(),
{
    if denies.len() == 0 {
        lanes
    } else {
        let before = denies_lanes(lanes, shard, replies, denies.drop_last());
        match (replies[denies.len() - 1], denies.last()) {
            (Some((client, reply)), Some(outcome)) => deny_lanes(before, shard, client, reply, outcome),
            _ => before,
        }
    }
}

/// Record how a deny went.
pub fn record_deny(metrics: &mut ShardMetrics, outcome: DenyOutcome)
    ensures
        final(metrics)@ == with_deny(old(metrics)@, outcome),
{
    match outcome {
        DenyOutcome::Staged => metrics.record_partition_request_denied_transient(),
        DenyOutcome::LaneFull => metrics.record_frame_drop(frame_drop_variant::PARTITION, frame_drop_reason::FULL),
        DenyOutcome::LaneGone => metrics.record_frame_drop(frame_drop_variant::PARTITION, frame_drop_reason::DISCONNECTED),
        DenyOutcome::NoLane => {},
    }
}

/// The counts after a parked frame was retired: answered through its deny, or
/// recorded as dropped.
pub open spec fn with_retirement(counts: MetricCounts, deny: Option<DenyOutcome>) -> MetricCounts {
    let tried = match deny {
        Some(outcome) => with_deny(counts, outcome),
        None => counts,
    };
    if deny == Some(DenyOutcome::Staged) {
        tried
    } else {
        tried.dropped(frame_drop_variant::PARTITION@, frame_drop_reason::PARK_DROPPED@)
    }
}

/// The counts after several were retired, in order.
pub open spec fn with_retirements(counts: MetricCounts, denies: Seq<Option<DenyOutcome>>) -> MetricCounts
    decreases denies.len(),
{
    if denies.len() == 0 {
        counts
    } else {
        with_retirement(with_retirements(counts, denies.drop_last()), denies.last())
    }
}

/// How many of them were answered.
pub open spec fn answers(denies: Seq<Option<DenyOutcome>>) -> nat
    decreases denies.len(),
{
    if denies.len() == 0 {
        0
    } else {
        answers(denies.drop_last()) + if denies.last() == Some(DenyOutcome::Staged) {
            1nat
        } else {
            0
        }
    }
}

/// A deny was tried for exactly the frames that have a client to answer, and
/// none was staged without a lane.
pub open spec fn are_denies(replies: Seq<Option<(u128, Vec<u8>)>>, denies: Seq<Option<DenyOutcome>>, has_lane: bool) -> bool {
    &&& denies.len() == replies.len()
    &&& forall|i: int|
        #![trigger denies[i]]
        0 <= i < denies.len() ==> {
            &&& denies[i] is Some <==> replies[i] is Some
            &&& denies[i] is Some ==> (denies[i]->0 is NoLane <==> !has_lane)
        }
}

impl<F: 'static, P> IggyShard<F, P> {
    /// Hand a frame to a shard's main lane, recording a refusal. Whether it was
    /// taken is returned.
    pub(crate) fn send_to_lane(&mut self, target: usize, variant: &'static str, frame: ShardFrame<F>) -> (sent: bool)
        requires
            target < old(self).senders@.len(),
        ensures
            old(self).wf() ==> final(self).wf(),
            *final(self) == (IggyShard { metrics: final(self).metrics, senders: final(self).senders, ..*old(self) }),
            is_recorded_send(
                old(self).senders@,
                final(self).senders@,
                target as int,
                frame,
                old(self).metrics@,
                final(self).metrics@,
                variant@,
                sent,
            ),
    {
        let outcome: SendOutcome = send_recorded(&mut self.metrics, &mut self.senders[target].inner, variant, frame);
        proof {
            assert(self.senders@ =~= offered_at(old(self).senders@, target as int, frame, outcome));
        }
        matches!(outcome, SendOutcome::Taken)
    }

    /// This shard has a lane to itself.
    pub open spec fn has_own_lane(&self) -> bool {
        self.id < self.senders@.len()
    }

    /// A metadata submit was handed to shard 0.
    pub open spec fn submitted(self, after: IggyShard<F, P>, submit: MetadataSubmit, sent: bool) -> bool {
        &&& after == (IggyShard { metrics: after.metrics, senders: after.senders, ..self })
        &&& is_recorded_send(
            self.senders@,
            after.senders@,
            0,
            ShardFrame::Lifecycle(LifecycleFrame::MetadataSubmit(submit)),
            self.metrics@,
            after.metrics@,
            frame_drop_variant::CONSENSUS@,
            sent,
        )
    }

    /// Hand a metadata submit to shard 0. A refused one is dropped with its
    /// reply sender, which the waiting caller sees.
    pub fn forward_metadata_submit(&mut self, submit: MetadataSubmit) -> (sent: bool)
        requires
            old(self).senders@.len() > 0,
        ensures
            old(self).wf() ==> final(self).wf(),
            old(self).submitted(*final(self), submit, sent),
    {
        let frame: ShardFrame<F> = ShardFrame::lifecycle(LifecycleFrame::MetadataSubmit(submit));
        self.send_to_lane(0, frame_drop_variant::CONSENSUS, frame)
    }

    /// A frame was staged on this shard's own pump, and its loss is recorded.
    pub open spec fn staged_recorded(self, after: IggyShard<F, P>, payload: LifecycleFrame<F>, sent: bool) -> bool {
        &&& after == (IggyShard { metrics: after.metrics, senders: after.senders, ..self })
        &&& if self.has_own_lane() {
            is_recorded_send(
                self.senders@,
                after.senders@,
                self.id as int,
                ShardFrame::Lifecycle(payload),
                self.metrics@,
                after.metrics@,
                frame_drop_variant::PARTITION@,
                sent,
            )
        } else {
            &&& !sent
            &&& after.senders == self.senders
            &&& after.metrics@ == self.metrics@.dropped(frame_drop_variant::PARTITION@, frame_drop_reason::UNROUTABLE@)
        }
    }

    /// Stage a cleaner pass on this shard's own pump. A refused pass is picked
    /// up by the cleaner's next one, so it only has to be visible.
    pub fn request_clean_partition(&mut self, namespace: u64, now: u64, message_expiry: MessageExpiry, max_bytes: Option<u64>) -> (sent: bool)
        ensures
            old(self).wf() ==> final(self).wf(),
            old(self).staged_recorded(
                *final(self),
                LifecycleFrame::CleanPartition { namespace, now, message_expiry, max_bytes },
                sent,
            ),
    {
        if self.id as usize >= self.senders.len() {
            self.metrics.record_frame_drop(frame_drop_variant::PARTITION, frame_drop_reason::UNROUTABLE);
            return false;
        }
        let frame: ShardFrame<F> = ShardFrame::lifecycle(
            LifecycleFrame::CleanPartition { namespace, now, message_expiry, max_bytes },
        );
        self.send_to_lane(self.id as usize, frame_drop_variant::PARTITION, frame)
    }

    /// This shard's own pump was offered a frame, where there is one, and
    /// `sent` says whether it took it; `after` are the senders since.
    pub open spec fn marked(&self, after: Seq<TaggedSender<F>>, payload: LifecycleFrame<F>, sent: bool) -> bool {
        if self.has_own_lane() {
            is_sent(self.senders@, after, self.id as int, ShardFrame::Lifecycle(payload), sent)
        } else {
            !sent && after == self.senders@
        }
    }

    /// Hand a frame to this shard's own pump, unrecorded.
    fn mark_own_pump(&mut self, payload: LifecycleFrame<F>) -> (sent: bool)
        ensures
            old(self).wf() ==> final(self).wf(),
            *final(self) == (IggyShard { senders: final(self).senders, ..*old(self) }),
            old(self).marked(final(self).senders@, payload, sent),
    {
        if self.id as usize >= self.senders.len() {
            return false;
        }
        let result: Result<(), SendRefusal<ShardFrame<F>>> = self.senders[self.id as usize].try_send(
            ShardFrame::lifecycle(payload),
        );
        proof {
            assert(self.senders@ =~= offered_at(
                old(self).senders@,
                old(self).id as int,
                ShardFrame::Lifecycle(payload),
                outcome_of(result),
            ));
        }
        result.is_ok()
    }

    /// Stage a committed truncate on this shard's own pump. A refused one is
    /// staged again by the reconciler.
    pub fn request_truncate_partition(&mut self, namespace: u64, up_to_offset: u64) -> (sent: bool)
        ensures
            old(self).wf() ==> final(self).wf(),
            *final(self) == (IggyShard { senders: final(self).senders, ..*old(self) }),
            old(self).marked(final(self).senders@, LifecycleFrame::TruncatePartition { namespace, up_to_offset }, sent),
    {
        self.mark_own_pump(LifecycleFrame::TruncatePartition { namespace, up_to_offset })
    }

    /// Stage a committed purge on this shard's own pump. A refused one is
    /// staged again by the reconciler.
    pub fn request_purge_partition(&mut self, namespace: u64, generation: u64) -> (sent: bool)
        ensures
            old(self).wf() ==> final(self).wf(),
            *final(self) == (IggyShard { senders: final(self).senders, ..*old(self) }),
            old(self).marked(final(self).senders@, LifecycleFrame::PurgePartition { namespace, generation }, sent),
    {
        self.mark_own_pump(LifecycleFrame::PurgePartition { namespace, generation })
    }

    /// A mutation was staged behind those already there, and the pump marked.
    pub open spec fn enqueued(self, after: IggyShard<F, P>, op: ReconcileOp<P>) -> bool {
        &&& after.held.queue@ == self.held.queue@.push(op)
        &&& after.held.table() == self.held.table()
        &&& after.held.parked == self.held.parked
        &&& after == (IggyShard { held: after.held, senders: after.senders, ..self })
        &&& exists|marked: bool| #[trigger] self.marked(after.senders@, LifecycleFrame::ReconcileApply, marked)
    }

    /// Stage a partition mutation. The marker that wakes the pump may be
    /// refused: every drain of the pump finds the mutation.
    pub fn enqueue_reconcile_op(&mut self, op: ReconcileOp<P>)
        requires
            old(self).wf(),
        ensures
            final(self).wf(),
            old(self).enqueued(*final(self), op),
    {
        self.held.enqueue_reconcile_op(op);
        let ghost staged = *self;
        let marked: bool = self.mark_own_pump(LifecycleFrame::ReconcileApply);
        proof {
            assert(staged.marked(self.senders@, LifecycleFrame::ReconcileApply, marked));
            assert(old(self).marked(self.senders@, LifecycleFrame::ReconcileApply, marked));
        }
    }

    /// The deny of a client's request was tried on this shard's own reply lane.
    pub open spec fn denied(self, after: IggyShard<F, P>, client: u128, reply: Vec<u8>, outcome: DenyOutcome) -> bool {
        &&& after == (IggyShard { metrics: after.metrics, senders: after.senders, ..self })
        &&& after.senders@ == deny_lanes(self.senders@, self.id, client, reply, outcome)
        &&& after.metrics@ == with_deny(self.metrics@, outcome)
        &&& outcome is NoLane <==> !self.has_own_lane()
    }

    /// Stage the deny of a client's request on this shard's own reply lane,
    /// for callers that cannot wait. `reply` is the deny as it is framed.
    pub fn stage_transient_deny(&mut self, client: u128, reply: Vec<u8>) -> (outcome: DenyOutcome)
        ensures
            old(self).wf() ==> final(self).wf(),
            old(self).denied(*final(self), client, reply, outcome),
    {
        let outcome: DenyOutcome = if self.id as usize >= self.senders.len() {
            DenyOutcome::NoLane
        } else {
            let frame: ShardFrame<F> = ShardFrame::lifecycle(
                LifecycleFrame::ForwardClientSend { client_id: client, msg: reply },
            );
            match self.senders[self.id as usize].reply.try_send(frame) {
                Ok(_) => DenyOutcome::Staged,
                Err(SendRefusal::Full(_)) => DenyOutcome::LaneFull,
                Err(SendRefusal::Disconnected(_)) => DenyOutcome::LaneGone,
            }
        };
        record_deny(&mut self.metrics, outcome);
        outcome
    }

    /// Record the deny of a request that was sent to its client directly: a
    /// refused deny is a shed frame, not an answer.
    pub fn record_direct_deny(&mut self, delivered: bool)
        ensures
            *final(self) == (IggyShard { metrics: final(self).metrics, ..*old(self) }),
            final(self).metrics@ == with_direct_deny(old(self).metrics@, delivered),
    {
        if delivered {
            self.metrics.record_partition_request_denied_transient();
        } else {
            self.metrics.record_frame_drop(frame_drop_variant::PARTITION, frame_drop_reason::DELIVERY_FAILED);
        }
    }

    /// Parked frames were retired: how many were answered and how many dropped.
    pub open spec fn retired(self, after: IggyShard<F, P>, replies: Seq<Option<(u128, Vec<u8>)>>, counts: (usize, usize)) -> bool {
        &&& after == (IggyShard { metrics: after.metrics, senders: after.senders, ..self })
        &&& counts.0 + counts.1 == replies.len()
        &&& exists|denies: Seq<Option<DenyOutcome>>|
            #![trigger are_denies(replies, denies, self.has_own_lane())]
            {
                &&& are_denies(replies, denies, self.has_own_lane())
                &&& counts.0 == answers(denies)
                &&& after.metrics@ == with_retirements(self.metrics@, denies)
                &&& after.senders@ == denies_lanes(self.senders@, self.id, replies, denies)
            }
    }

    /// Retire parked frames that will never be served. `replies` holds, for
    /// each, its client and deny where it is a client's request. How many were
    /// answered and how many dropped is returned.
    pub fn retire_parked_frames(&mut self, replies: Vec<Option<(u128, Vec<u8>)>>) -> (counts: (usize, usize))
        ensures
            old(self).wf() ==> final(self).wf(),
            old(self).retired(*final(self), replies@, counts),
    {
        let total: usize = replies.len();
        let ghost given = replies@;
        let ghost start = *self;
        let ghost mut denies: Seq<Option<DenyOutcome>> = Seq::empty();
        let mut answered: usize = 0;
        for reply in iter: replies.into_iter()
            invariant
                iter.seq() == given,
                given.len() == total,
                denies.len() == iter.index(),
                answered <= iter.index(),
                answered == answers(denies),
                *self == (IggyShard { metrics: self.metrics, senders: self.senders, ..start }),
                start.wf() ==> self.wf(),
                self.senders@.len() == start.senders@.len(),
                self.metrics@ == with_retirements(start.metrics@, denies),
                self.senders@ == denies_lanes(start.senders@, start.id, given, denies),
                forall|i: int|
                    #![trigger denies[i]]
                    0 <= i < denies.len() ==> {
                        &&& denies[i] is Some <==> given[i] is Some
                        &&& denies[i] is Some ==> (denies[i]->0 is NoLane <==> !start.has_own_lane())
                    },
        {
            let ghost before = denies;
            let deny: Option<DenyOutcome> = match reply {
                Some((client, msg)) => Some(self.stage_transient_deny(client, msg)),
                None => None,
            };
            let staged: bool = match deny {
                Some(DenyOutcome::Staged) => true,
                _ => false,
            };
            if staged {
                answered += 1;
            } else {
                self.metrics.record_frame_drop(frame_drop_variant::PARTITION, frame_drop_reason::PARK_DROPPED);
            }
            proof {
                denies = before.push(deny);
                assert(denies.drop_last() =~= before);
            }
        }
        proof {
            assert(are_denies(given, denies, start.has_own_lane()));
        }
        (answered, total - answered)
    }
}

/// What to do with a consensus message.
pub enum MessageStep {
    /// Hand the client's request to its plane.
    Request(Message),
    /// Deny the client's request: it can be sent again anywhere.
    Deny(Message),
    /// Hand the prepare to its plane.
    Replicate(Message),
    /// Hand any other message to its own handler.
    Handle(Message),
    /// Nothing: the message is parked, or was shed with no client to answer.
    Done,
}

impl<F: 'static, P> IggyShard<F, P> {
    /// Where every namespace lives.
    pub fn shards_table(&self) -> (routes: &RoutingTable)
        ensures
            *routes == self.held.routes,
    {
        &self.held.routes
    }

    /// An owned insert of the namespace is staged but not applied.
    pub fn has_staged_insert_owned(&self, namespace: u64) -> (staged: bool)
        ensures
            staged == exists|i: int|
                #![trigger self.held.queue@[i]]
                0 <= i < self.held.queue@.len() && self.held.queue@[i] is InsertOwned
                    && self.held.queue@[i]->InsertOwned_namespace == namespace,
    {
        self.held.has_staged_insert_owned(namespace)
    }

    /// Whether a request addresses the incarnation this shard holds.
    pub fn serves_committed_incarnation(&self, operation: Operation, namespace: u64, committed: Option<u64>) -> (serves: bool)
        ensures
            serves == self.spec_serves(operation, namespace, committed),
    {
        self.held.serves_committed_incarnation(operation, namespace, committed)
    }

    pub open spec fn spec_serves(&self, operation: Operation, namespace: u64, committed: Option<u64>) -> bool {
        !operation.spec_is_partition() || committed is Some && self.held.routes@.contains_key(namespace)
            && self.held.routes@[namespace].epoch == committed->0
    }

    /// Whether any frame is parked.
    pub fn has_parked_partition_frames(&self) -> (any: bool)
        requires
            self.wf(),
        ensures
            any == exists|namespace: u64| #[trigger] self.held.parked@.contains_key(namespace),
    {
        self.held.parked.has_parked_partition_frames()
    }

    /// Namespaces that hold parked frames, in increasing order.
    pub fn parked_namespaces(&self) -> (namespaces: Vec<u64>)
        requires
            self.wf(),
        ensures
            namespaces@ == in_order(self.held.parked@.dom()),
            strictly_sorted(namespaces@),
            forall|namespace: u64| #[trigger] namespaces@.contains(namespace) <==> self.held.parked@.contains_key(namespace),
    {
        self.held.parked.parked_namespaces()
    }

    /// Frames parked under a namespace.
    pub fn parked_frame_count(&self, namespace: u64) -> (count: usize)
        requires
            self.wf(),
        ensures
            count == frames_at(self.held.parked@, namespace).len(),
    {
        self.held.parked.parked_frame_count(namespace)
    }

    /// Take out the frames parked under a namespace this shard can never
    /// serve; they are to be retired.
    pub fn discard_parked_partition_frames(&mut self, namespace: u64) -> (frames: Vec<ParkedFrame>)
        requires
            old(self).wf(),
        ensures
            final(self).wf(),
            frames@ == frames_at(old(self).held.parked@, namespace),
            is_taken(old(self).held.parked, final(self).held.parked, namespace),
            final(self).held.queue == old(self).held.queue,
            final(self).held.table() == old(self).held.table(),
            *final(self) == (IggyShard { held: final(self).held, ..*old(self) }),
    {
        self.held.discard_parked_partition_frames(namespace)
    }

    /// Age the frames parked under a namespace; the requests that outlived
    /// their passes are to be retired.
    pub fn age_parked_partition_frames(&mut self, namespace: u64) -> (expired: Vec<ParkedFrame>)
        requires
            old(self).wf(),
        ensures
            final(self).wf(),
            is_aged(old(self).held.parked, final(self).held.parked, namespace, expired@),
            final(self).held.queue == old(self).held.queue,
            final(self).held.table() == old(self).held.table(),
            *final(self) == (IggyShard { held: final(self).held, ..*old(self) }),
    {
        self.held.parked.age_parked_partition_frames(namespace)
    }

    /// Drain the staged partition mutations on the pump.
    pub fn apply_reconcile_ops(&mut self) -> (outcome: ReconcileOutcome<P>)
        requires
            old(self).wf(),
        ensures
            final(self).wf(),
            final(self).held.queue@.len() == 0,
            final(self).held.table() == applied_all(old(self).held.table(), old(self).held.queue@, old(self).id),
            outcome.wake == (confirms_removal(old(self).held.queue@) && old(self).reconciler_wired),
            *final(self) == (IggyShard {
                held: final(self).held,
                metrics: final(self).metrics,
                senders: final(self).senders,
                ..*old(self)
            }),
            own_lane_only(old(self).senders@, final(self).senders@, old(self).id as int),
            is_drain(
                old(self).held.fresh_state(old(self).metrics@, old(self).senders@),
                old(self).held.queue@,
                final(self).held.state(final(self).metrics@, final(self).senders@, outcome),
                old(self).id,
            ),
    {
        let mut outcome: ReconcileOutcome<P> = self.held.apply_reconcile_ops(&mut self.metrics, self.id, &mut self.senders);
        let ghost drained = outcome;
        outcome.wake = outcome.wake && self.reconciler_wired;
        proof {
            assert(self.held.state(self.metrics@, self.senders@, outcome) == self.held.state(
                self.metrics@,
                self.senders@,
                drained,
            ));
        }
        outcome
    }

    /// A partition was fenced, and its teardown staged where its files are set
    /// aside already.
    pub open spec fn fenced_off(self, after: IggyShard<F, P>, namespace: u64, quarantined: bool, wake: bool) -> bool {
        &&& wake == (quarantined && self.reconciler_wired)
        &&& after.held.table() == fenced(self.held.table(), namespace)
        &&& after.held.parked == self.held.parked
        &&& after.held.queue@ == if quarantined {
            self.held.queue@.push(ReconcileOp::ConfirmRemove { namespace })
        } else {
            self.held.queue@
        }
        &&& after == (IggyShard { held: after.held, senders: after.senders, ..self })
        &&& if quarantined {
            exists|marked: bool| #[trigger] self.marked(after.senders@, LifecycleFrame::ReconcileApply, marked)
        } else {
            after.senders == self.senders
        }
    }

    /// Fence a partition left without a serviceable segment chain. Whether the
    /// reconciler is to be woken is returned.
    pub fn fence_partition_for_rebuild(&mut self, namespace: u64, quarantined: bool) -> (wake: bool)
        requires
            old(self).wf(),
        ensures
            final(self).wf(),
            old(self).fenced_off(*final(self), namespace, quarantined, wake),
    {
        let staged: bool = self.held.fence_partition_for_rebuild(namespace, quarantined);
        let ghost fenced = *self;
        if staged {
            let marked: bool = self.mark_own_pump(LifecycleFrame::ReconcileApply);
            proof {
                assert(fenced.marked(self.senders@, LifecycleFrame::ReconcileApply, marked));
                assert(old(self).marked(self.senders@, LifecycleFrame::ReconcileApply, marked));
            }
        }
        staged && self.reconciler_wired
    }

    /// A partition was held outside the staged mutations, or came back.
    pub open spec fn initialised(self, after: IggyShard<F, P>, namespace: u64, partition: P, back: Option<P>) -> bool {
        if self.held.table().live.contains_key(namespace) {
            &&& back == Some(partition)
            &&& after == self
        } else {
            &&& back is None
            &&& after.held.table() == (TableView {
                live: self.held.table().live.insert(namespace, partition),
                ..self.held.table()
            })
            &&& after.held.parked == self.held.parked
            &&& after.held.queue == self.held.queue
            &&& after == (IggyShard { held: after.held, ..self })
        }
    }

    /// Hold a partition outside the staged mutations, for a shard driven by
    /// direct calls. Over a namespace already held nothing changes, and the
    /// partition comes back.
    pub fn init_partition(&mut self, namespace: u64, partition: P) -> (back: Option<P>)
        requires
            old(self).wf(),
        ensures
            final(self).wf(),
            old(self).initialised(*final(self), namespace, partition, back),
    {
        if self.held.partitions.contains(namespace) {
            return Some(partition);
        }
        self.held.partitions.insert(namespace, partition);
        None
    }

    /// What to do with a message this shard's pump took. `committed` is the
    /// creation revision of the partition committed under its group.
    ///
    /// A request reaches its plane only for the incarnation that is committed;
    /// replicated traffic is never fenced, since a backup that denies what the
    /// primary admitted would diverge. A prepare of a fenced namespace still
    /// goes to its plane, which drops it.
    pub fn on_message(&mut self, message: Message, committed: Option<u64>) -> (step: MessageStep)
        requires
            old(self).wf(),
            message.bytes@.len() <= u32::MAX,
        ensures
            final(self).wf(),
            final(self).held.table() == old(self).held.table(),
            final(self).held.queue == old(self).held.queue,
            *final(self) == (IggyShard { held: final(self).held, metrics: final(self).metrics, ..*old(self) }),
            is_message_step(*old(self), *final(self), message, committed, step),
    {
        let is_request: bool = matches!(message.command, Command::Request);
        let is_prepare: bool = matches!(message.command, Command::Prepare);
        if !is_request && !is_prepare {
            return MessageStep::Handle(message);
        }
        let operation: Operation = message.operation;
        let namespace: u64 = message.group;
        let state: NamespaceState = self.held.namespace_state(namespace);
        match self.held.parked.park_if_unmaterialised(message, state, committed) {
            ParkOutcome::Deliver(message) => {
                if is_prepare {
                    MessageStep::Replicate(message)
                } else if self.serves_committed_incarnation(operation, namespace, committed) {
                    MessageStep::Request(message)
                } else {
                    MessageStep::Deny(message)
                }
            },
            ParkOutcome::Tombstoned(message) => {
                if is_prepare {
                    MessageStep::Replicate(message)
                } else {
                    MessageStep::Deny(message)
                }
            },
            ParkOutcome::Overflow { message, first_shed: _ } => {
                self.metrics.record_frame_drop(frame_drop_variant::PARTITION, frame_drop_reason::PARK_OVERFLOW);
                if is_prepare {
                    MessageStep::Done
                } else {
                    MessageStep::Deny(message)
                }
            },
            ParkOutcome::Parked => MessageStep::Done,
        }
    }

    /// A follower's journal is walked after a prepare.
    pub open spec fn walks(self, operation: Operation, namespace: u64, follower: bool, transferring: bool) -> bool {
        operation.spec_is_partition() && self.held.spec_namespace_state(namespace) is Materialised && follower && !transferring
    }

    /// Whether a follower's journal is walked after a prepare. The commit point
    /// rides on prepares, and the heartbeat alone never drains it. A transfer
    /// holds the walk back: it could pass the incoming frontier.
    pub fn commit_walk_due(&self, operation: Operation, namespace: u64, follower: bool, transferring: bool) -> (due: bool)
        ensures
            due == self.walks(operation, namespace, follower, transferring),
    {
        if !operation.is_partition() {
            return false;
        }
        let reachable: bool = matches!(self.held.namespace_state(namespace), NamespaceState::Materialised);
        reachable && follower && !transferring
    }
}

/// What becomes of a message.
pub open spec fn is_message_step<F: 'static, P>(
    before: IggyShard<F, P>,
    after: IggyShard<F, P>,
    message: Message,
    committed: Option<u64>,
    step: MessageStep,
) -> bool {
    let waits = message.operation.spec_is_partition() && before.held.spec_namespace_state(message.group) is Absent;
    let fenced_off = message.operation.spec_is_partition() && before.held.spec_namespace_state(message.group) is Tombstoned;
    let replicated = !(message.command is Request);
    let frames = frames_at(before.held.parked@, message.group);
    let cost = footprint_of(message.bytes@.len() as int);
    let full = park_refused(before.held.parked.bytes as int, frames, cost, replicated);
    if !(message.command is Request || message.command is Prepare) {
        &&& step == MessageStep::Handle(message)
        &&& after == before
    } else if waits && !full {
        &&& step == MessageStep::Done
        &&& is_parked(before.held.parked, after.held.parked, message, committed)
        &&& after.metrics == before.metrics
    } else {
        &&& if waits {
            is_shed(before.held.parked, after.held.parked, message.group)
        } else {
            after.held.parked == before.held.parked
        }
        &&& after.metrics@ == if waits {
            before.metrics@.dropped(frame_drop_variant::PARTITION@, frame_drop_reason::PARK_OVERFLOW@)
        } else {
            before.metrics@
        }
        &&& step == if message.command is Prepare {
            if waits {
                MessageStep::Done
            } else {
                MessageStep::Replicate(message)
            }
        } else if waits || fenced_off || !before.spec_serves(message.operation, message.group, committed) {
            MessageStep::Deny(message)
        } else {
            MessageStep::Request(message)
        }
    }
}

/// Every client request is answered, parked or handed on: none vanishes.
pub proof fn law_no_request_vanishes<F: 'static, P>(
    before: IggyShard<F, P>,
    after: IggyShard<F, P>,
    message: Message,
    committed: Option<u64>,
    step: MessageStep,
)
    requires
        message.command is Request,
        is_message_step(before, after, message, committed, step),
    ensures
        ({
            ||| step == MessageStep::Request(message)
            ||| step == MessageStep::Deny(message)
            ||| step == MessageStep::Done && after.held.parked@.contains_key(message.group)
                && after.held.parked@[message.group].last() == (ParkedFrame { epoch: committed, passes: 0, message })
        }),
{
}

/// A request is served only by the incarnation that is committed, and never
/// by a fenced partition.
pub proof fn law_served_request_met_its_incarnation<F: 'static, P>(
    before: IggyShard<F, P>,
    after: IggyShard<F, P>,
    message: Message,
    committed: Option<u64>,
)
    requires
        message.command is Request,
        message.operation.spec_is_partition(),
        is_message_step(before, after, message, committed, MessageStep::Request(message)),
    ensures
        before.held.spec_namespace_state(message.group) is Materialised,
        before.held.routes@.contains_key(message.group),
        committed == Some(before.held.routes@[message.group].epoch),
{
}

/// A prepare is lost only where a byte budget is already spent.
pub proof fn law_prepare_is_shed_only_on_a_spent_budget<F: 'static, P>(
    before: IggyShard<F, P>,
    after: IggyShard<F, P>,
    message: Message,
    committed: Option<u64>,
    step: MessageStep,
)
    requires
        message.command is Prepare,
        is_message_step(before, after, message, committed, step),
        step is Done,
    ensures
        ({
            ||| after.held.parked@.contains_key(message.group)
                && after.held.parked@[message.group].last() == (ParkedFrame { epoch: committed, passes: 0, message })
            ||| before.held.parked.bytes >= MAX_PARKED_BYTES
            ||| frames_bytes(frames_at(before.held.parked@, message.group)) >= MAX_PARKED_BYTES_PER_NAMESPACE
        }),
{
}

/// What a frame finds of its namespace decides what becomes of it. A message
/// of neither kind is handled as it is. Outside the partition plane, and where
/// the partition is live, a prepare is replicated and a request served or
/// denied by the incarnation it met. Behind a fence a prepare is still
/// replicated and a request denied. Where the partition is not here yet, the
/// message is parked, or, on a spent budget, shed: a request is then denied.
pub proof fn law_message_meets_its_namespace<F: 'static, P>(
    before: IggyShard<F, P>,
    after: IggyShard<F, P>,
    message: Message,
    committed: Option<u64>,
    step: MessageStep,
)
    requires
        is_message_step(before, after, message, committed, step),
    ensures
        ({
            let table = before.held.table();
            let partition = message.operation.spec_is_partition();
            let is_fenced = partition && table.tombstones.contains(message.group);
            let live = !partition || table.live.contains_key(message.group) && !is_fenced;
            let absent = !live && !is_fenced;
            let refused = park_refused(
                before.held.parked.bytes as int,
                frames_at(before.held.parked@, message.group),
                footprint_of(message.bytes@.len() as int),
                !(message.command is Request),
            );
            let met = !partition || table.routes.contains_key(message.group) && committed == Some(
                table.routes[message.group].epoch,
            );
            &&& !(message.command is Request) && !(message.command is Prepare) ==> step is Handle && step->Handle_0 == message
                && after == before
            &&& message.command is Prepare && !absent ==> step is Replicate && step->Replicate_0 == message
            &&& message.command is Request && live && met ==> step is Request && step->Request_0 == message
            &&& message.command is Request && (is_fenced || live && !met) ==> step is Deny && step->Deny_0 == message
            &&& (message.command is Request || message.command is Prepare) && absent && !refused ==> {
                &&& step is Done
                &&& after.held.parked@.contains_key(message.group)
                &&& after.held.parked@[message.group].len() == frames_at(before.held.parked@, message.group).len() + 1
                &&& after.held.parked@[message.group].last().message == message
                &&& after.held.parked@[message.group].last().epoch == committed
                &&& after.metrics@ == before.metrics@
            }
            &&& message.command is Prepare && absent && refused ==> step is Done
            &&& message.command is Request && absent && refused ==> step is Deny && step->Deny_0 == message
            &&& (message.command is Request || message.command is Prepare) && absent && refused ==> {
                &&& after.held.parked@ == before.held.parked@
                &&& after.metrics@ == before.metrics@.dropped(frame_drop_variant::PARTITION@, frame_drop_reason::PARK_OVERFLOW@)
                &&& is_shedding(after.held.parked, message.group)
            }
            &&& !absent ==> after.held.parked == before.held.parked && after.metrics@ == before.metrics@
        }),
{
}

/// Only a follower that is not transferring walks its journal, after a prepare
/// of a partition that is live here; then it always does.
pub proof fn law_follower_walks_after_a_prepare<F: 'static, P>(
    shard: IggyShard<F, P>,
    operation: Operation,
    namespace: u64,
    follower: bool,
    transferring: bool,
)
    ensures
        shard.walks(operation, namespace, follower, transferring) <==> {
            &&& operation.spec_is_partition()
            &&& shard.held.table().live.contains_key(namespace)
            &&& !shard.held.table().tombstones.contains(namespace)
            &&& follower
            &&& !transferring
        },
{
}

/// A submit reaches shard 0's pump as it is, or its loss is counted.
pub proof fn law_submit_reaches_shard_zero<F: 'static, P>(
    before: IggyShard<F, P>,
    after: IggyShard<F, P>,
    submit: MetadataSubmit,
    sent: bool,
)
    requires
        before.senders@.len() > 0,
        before.submitted(after, submit, sent),
    ensures
        own_lane_only(before.senders@, after.senders@, 0),
        sent ==> {
            let last = after.senders@[0].inner.handed().last();
            &&& after.senders@[0].inner.handed().len() == before.senders@[0].inner.handed().len() + 1
            &&& last is Lifecycle && last->Lifecycle_0 is MetadataSubmit && last->Lifecycle_0->MetadataSubmit_0 == submit
            &&& after.metrics@ == before.metrics@
        },
        !sent ==> {
            ||| after.metrics@ == before.metrics@.dropped(frame_drop_variant::CONSENSUS@, frame_drop_reason::FULL@)
            ||| after.metrics@ == before.metrics@.dropped(frame_drop_variant::CONSENSUS@, frame_drop_reason::DISCONNECTED@)
        },
        after.held == before.held,
{
    law_send_is_delivered_or_counted(
        before.senders@,
        after.senders@,
        0,
        ShardFrame::Lifecycle(LifecycleFrame::MetadataSubmit(submit)),
        before.metrics@,
        after.metrics@,
        frame_drop_variant::CONSENSUS@,
        sent,
    );
}

/// A pass staged on the shard's own pump is the last frame the pump's lane
/// took, or its loss is counted; a shard without a lane counts it as
/// unroutable.
pub proof fn law_staged_pass_reaches_the_own_pump<F: 'static, P>(
    before: IggyShard<F, P>,
    after: IggyShard<F, P>,
    payload: LifecycleFrame<F>,
    sent: bool,
)
    requires
        before.staged_recorded(after, payload, sent),
    ensures
        ({
            let own = before.id as int;
            &&& own < before.senders@.len() ==> own_lane_only(before.senders@, after.senders@, own)
            &&& sent ==> own < before.senders@.len() && after.senders@[own].inner.handed()
                == before.senders@[own].inner.handed().push(ShardFrame::Lifecycle(payload)) && after.metrics@ == before.metrics@
            &&& !sent && own < before.senders@.len() ==> {
                ||| after.metrics@ == before.metrics@.dropped(frame_drop_variant::PARTITION@, frame_drop_reason::FULL@)
                ||| after.metrics@ == before.metrics@.dropped(frame_drop_variant::PARTITION@, frame_drop_reason::DISCONNECTED@)
            }
            &&& own >= before.senders@.len() ==> after.senders == before.senders && after.metrics@ == before.metrics@.dropped(
                frame_drop_variant::PARTITION@,
                frame_drop_reason::UNROUTABLE@,
            )
            &&& after.held == before.held
        }),
{
    if before.id < before.senders@.len() {
        law_send_is_delivered_or_counted(
            before.senders@,
            after.senders@,
            before.id as int,
            ShardFrame::Lifecycle(payload),
            before.metrics@,
            after.metrics@,
            frame_drop_variant::PARTITION@,
            sent,
        );
    }
}

/// A marker goes to the shard's own pump and to no other, and whoever stages
/// it is told whether the pump took it.
pub proof fn law_marker_reaches_the_own_pump<F: 'static, P>(
    shard: IggyShard<F, P>,
    after: Seq<TaggedSender<F>>,
    payload: LifecycleFrame<F>,
    sent: bool,
)
    requires
        shard.marked(after, payload, sent),
    ensures
        ({
            let own = shard.id as int;
            &&& sent ==> own < shard.senders@.len() && after[own].inner.handed() == shard.senders@[own].inner.handed().push(
                ShardFrame::Lifecycle(payload),
            )
            &&& own < shard.senders@.len() ==> own_lane_only(shard.senders@, after, own) && (!sent ==> after[own].inner.handed()
                == shard.senders@[own].inner.handed())
            &&& own >= shard.senders@.len() ==> !sent && after == shard.senders@
        }),
{
    if shard.id < shard.senders@.len() {
        law_send_tells_what_came_of_it(shard.senders@, after, shard.id as int, ShardFrame::Lifecycle(payload), sent);
    }
}

/// A staged mutation is the last of the queue and changes nothing that is held
/// or routed until it is applied, whether or not the marker was taken.
pub proof fn law_staged_mutation_waits_its_turn<F: 'static, P>(before: IggyShard<F, P>, after: IggyShard<F, P>, op: ReconcileOp<P>)
    requires
        before.enqueued(after, op),
    ensures
        after.held.queue@.len() == before.held.queue@.len() + 1,
        after.held.queue@.last() == op,
        after.held.queue@.drop_last() == before.held.queue@,
        after.held.table() == before.held.table(),
        after.held.parked == before.held.parked,
        after.metrics == before.metrics,
        own_lane_only(before.senders@, after.senders@, before.id as int),
{
    assert(after.held.queue@.drop_last() =~= before.held.queue@);
    let marked = choose|marked: bool| #[trigger] before.marked(after.senders@, LifecycleFrame::ReconcileApply, marked);
    law_marker_reaches_the_own_pump(before, after.senders@, LifecycleFrame::ReconcileApply, marked);
}

/// A deny goes out on the shard's own reply lane, addressed to the client that
/// asked and with the bytes it was framed as, and never on a main lane. Only
/// one that was taken counts as an answer; one that was refused counts as a
/// drop.
pub proof fn law_deny_goes_to_the_client_that_asked<F: 'static, P>(
    before: IggyShard<F, P>,
    after: IggyShard<F, P>,
    client: u128,
    reply: Vec<u8>,
    outcome: DenyOutcome,
    other: int,
)
    requires
        before.denied(after, client, reply, outcome),
    ensures
        ({
            let own = before.id as int;
            let counts = before.metrics@;
            &&& after.senders@.len() == before.senders@.len()
            &&& outcome is NoLane <==> own >= before.senders@.len()
            &&& outcome is NoLane ==> after.senders@ == before.senders@ && after.metrics@ == counts
            &&& !(outcome is NoLane) ==> {
                let (frame, taken) = after.senders@[own].reply.offers().last();
                &&& after.senders@[own].reply.offers().len() == before.senders@[own].reply.offers().len() + 1
                &&& after.senders@[own].inner == before.senders@[own].inner
                &&& frame is Lifecycle && frame->Lifecycle_0 is ForwardClientSend
                &&& frame->Lifecycle_0->client_id == client
                &&& frame->Lifecycle_0->ForwardClientSend_msg == reply
                &&& outcome is Staged <==> taken is Taken
                &&& outcome is LaneFull <==> taken is Full
            }
            &&& 0 <= other < before.senders@.len() && other != own ==> after.senders@[other] == before.senders@[other]
            &&& outcome is Staged && counts.partition_requests_denied_transient < u64::MAX
                ==> after.metrics@.partition_requests_denied_transient == counts.partition_requests_denied_transient + 1
            &&& outcome is Staged ==> after.metrics@.frame_drops == counts.frame_drops
            &&& !(outcome is Staged) ==> after.metrics@.partition_requests_denied_transient
                == counts.partition_requests_denied_transient
            &&& outcome is LaneFull ==> after.metrics@ == counts.dropped(frame_drop_variant::PARTITION@, frame_drop_reason::FULL@)
            &&& outcome is LaneGone ==> after.metrics@ == counts.dropped(
                frame_drop_variant::PARTITION@,
                frame_drop_reason::DISCONNECTED@,
            )
        }),
{
    if before.id < before.senders@.len() {
        let frame = ShardFrame::Lifecycle(LifecycleFrame::ForwardClientSend { client_id: client, msg: reply });
        lemma_offers_after(before.senders@[before.id as int].reply, frame, deny_offer(outcome));
    }
}

/// A deny that was sent directly is an answer where it was delivered, and a
/// drop where it was not: never both, never neither.
pub proof fn law_direct_deny_is_an_answer_or_a_drop(counts: MetricCounts, delivered: bool)
    ensures
        ({
            let after = with_direct_deny(counts, delivered);
            &&& delivered && counts.partition_requests_denied_transient < u64::MAX
                ==> after.partition_requests_denied_transient == counts.partition_requests_denied_transient + 1
            &&& delivered ==> after.frame_drops == counts.frame_drops && after.frame_drops_sum == counts.frame_drops_sum
            &&& !delivered ==> after.partition_requests_denied_transient == counts.partition_requests_denied_transient && after
                == counts.dropped(frame_drop_variant::PARTITION@, frame_drop_reason::DELIVERY_FAILED@)
        }),
{
}

/// Drops counted under the class of partitions for a reason.
pub open spec fn partition_drops(counts: MetricCounts, reason: Seq<char>) -> int {
    if counts.frame_drops.contains_key((frame_drop_variant::PARTITION@, reason)) {
        counts.frame_drops[(frame_drop_variant::PARTITION@, reason)] as int
    } else {
        0
    }
}

proof fn lemma_retirements_count(counts: MetricCounts, denies: Seq<Option<DenyOutcome>>)
    requires
        counts.partition_requests_denied_transient + denies.len() <= u64::MAX,
        partition_drops(counts, frame_drop_reason::PARK_DROPPED@) + denies.len() <= u64::MAX,
    ensures
        ({
            let after = with_retirements(counts, denies);
            &&& after.partition_requests_denied_transient == counts.partition_requests_denied_transient + answers(denies)
            &&& partition_drops(after, frame_drop_reason::PARK_DROPPED@) == partition_drops(
                counts,
                frame_drop_reason::PARK_DROPPED@,
            ) + denies.len() - answers(denies)
        }),
        answers(denies) <= denies.len(),
    decreases denies.len(),
{
    if denies.len() > 0 {
        lemma_retirements_count(counts, denies.drop_last());
        law_labels_are_distinct(2, 8);
        law_labels_are_distinct(3, 8);
    }
}

proof fn lemma_denies_offered<F>(
    lanes: Seq<TaggedSender<F>>,
    shard: u16,
    replies: Seq<Option<(u128, Vec<u8>)>>,
    denies: Seq<Option<DenyOutcome>>,
)
    requires
        shard < lanes.len(),
        denies.len() <= replies.len(),
        forall|i: int| #![trigger denies[i]] 0 <= i < denies.len() ==> (denies[i] is Some <==> replies[i] is Some),
    ensures
        ({
            let after = denies_lanes(lanes, shard, replies, denies);
            let own = shard as int;
            let earlier = lanes[own].reply.offers().len();
            let offers = after[own].reply.offers();
            &&& after.len() == lanes.len()
            &&& after[own].inner == lanes[own].inner
            &&& offers.len() >= earlier
            &&& forall|i: int|
                #![trigger replies[i]]
                0 <= i < denies.len() && replies[i] is Some ==> exists|at: int|
                    #![trigger offers[at]]
                    earlier <= at < offers.len() && offers[at].0 == ShardFrame::<F>::Lifecycle(
                        LifecycleFrame::ForwardClientSend { client_id: (replies[i]->0).0, msg: (replies[i]->0).1 },
                    )
        }),
    decreases denies.len(),
{
    if denies.len() > 0 {
        let fewer = denies.drop_last();
        assert forall|i: int| #![trigger fewer[i]] 0 <= i < fewer.len() implies (fewer[i] is Some <==> replies[i] is Some) by {
            assert(fewer[i] == denies[i]);
        }
        lemma_denies_offered(lanes, shard, replies, fewer);
        let before = denies_lanes(lanes, shard, replies, fewer);
        let after = denies_lanes(lanes, shard, replies, denies);
        let last = denies.len() - 1;
        let own = shard as int;
        let earlier = lanes[own].reply.offers().len();
        let _ = denies[last];
        let held = before[own].reply.offers();
        let offers = after[own].reply.offers();
        if replies[last] is Some {
            let frame = ShardFrame::<F>::Lifecycle(
                LifecycleFrame::ForwardClientSend { client_id: (replies[last]->0).0, msg: (replies[last]->0).1 },
            );
            lemma_offers_after(before[own].reply, frame, deny_offer(denies[last]->0));
            assert(offers == held.push((frame, deny_offer(denies[last]->0))));
        } else {
            assert(offers == held);
        }
        assert forall|i: int| #![trigger replies[i]] 0 <= i < denies.len() && replies[i] is Some implies exists|at: int|
            #![trigger offers[at]]
            earlier <= at < offers.len() && offers[at].0 == ShardFrame::<F>::Lifecycle(
                LifecycleFrame::ForwardClientSend { client_id: (replies[i]->0).0, msg: (replies[i]->0).1 },
            ) by {
            if i < last {
                let at = choose|at: int|
                    #![trigger held[at]]
                    earlier <= at < held.len() && held[at].0 == ShardFrame::<F>::Lifecycle(
                        LifecycleFrame::ForwardClientSend { client_id: (replies[i]->0).0, msg: (replies[i]->0).1 },
                    );
                assert(offers[at] == held[at]);
            } else {
                assert(offers[held.len() as int].0 == ShardFrame::<F>::Lifecycle(
                    LifecycleFrame::ForwardClientSend { client_id: (replies[i]->0).0, msg: (replies[i]->0).1 },
                ));
            }
        }
    }
}

/// No retired frame goes uncounted: each is answered or counted as dropped,
/// the two counts returned are those of the metrics, and the deny of every
/// client that waits is offered to it on the own reply lane.
pub proof fn law_retired_frame_is_answered_or_counted<F: 'static, P>(
    before: IggyShard<F, P>,
    after: IggyShard<F, P>,
    replies: Seq<Option<(u128, Vec<u8>)>>,
    counts: (usize, usize),
    index: int,
)
    requires
        before.retired(after, replies, counts),
        before.metrics@.partition_requests_denied_transient + replies.len() <= u64::MAX,
        partition_drops(before.metrics@, frame_drop_reason::PARK_DROPPED@) + replies.len() <= u64::MAX,
    ensures
        counts.0 + counts.1 == replies.len(),
        after.metrics@.partition_requests_denied_transient == before.metrics@.partition_requests_denied_transient + counts.0,
        partition_drops(after.metrics@, frame_drop_reason::PARK_DROPPED@) == partition_drops(
            before.metrics@,
            frame_drop_reason::PARK_DROPPED@,
        ) + counts.1,
        before.has_own_lane() && 0 <= index < replies.len() && replies[index] is Some ==> {
            let own = before.id as int;
            let offers = after.senders@[own].reply.offers();
            exists|at: int|
                #![trigger offers[at]]
                before.senders@[own].reply.offers().len() <= at < offers.len() && offers[at].0 == ShardFrame::<F>::Lifecycle(
                    LifecycleFrame::ForwardClientSend { client_id: (replies[index]->0).0, msg: (replies[index]->0).1 },
                )
        },
        after.held == before.held,
{
    let denies = choose|denies: Seq<Option<DenyOutcome>>|
        #![trigger are_denies(replies, denies, before.has_own_lane())]
        {
            &&& are_denies(replies, denies, before.has_own_lane())
            &&& counts.0 == answers(denies)
            &&& after.metrics@ == with_retirements(before.metrics@, denies)
            &&& after.senders@ == denies_lanes(before.senders@, before.id, replies, denies)
        };
    lemma_retirements_count(before.metrics@, denies);
    if before.has_own_lane() {
        lemma_denies_offered(before.senders@, before.id, replies, denies);
        if 0 <= index < replies.len() {
            let _ = replies[index];
        }
    }
}

/// A fenced partition is reached by nothing until its teardown is confirmed;
/// the teardown is staged, last, exactly where the partition was set aside,
/// and the reconciler woken where it can be.
pub proof fn law_fenced_partition_is_out_of_reach<F: 'static, P>(
    before: IggyShard<F, P>,
    after: IggyShard<F, P>,
    namespace: u64,
    quarantined: bool,
    wake: bool,
    other: u64,
)
    requires
        before.fenced_off(after, namespace, quarantined, wake),
    ensures
        after.held.table().tombstones.contains(namespace),
        after.held.spec_namespace_state(namespace) is Tombstoned,
        other != namespace ==> after.held.spec_namespace_state(other) == before.held.spec_namespace_state(other),
        !quarantined ==> after.held.queue@ == before.held.queue@ && !wake,
        quarantined ==> {
            &&& after.held.queue@.len() == before.held.queue@.len() + 1
            &&& after.held.queue@.last() is ConfirmRemove && after.held.queue@.last()->ConfirmRemove_namespace == namespace
            &&& wake == before.reconciler_wired
        },
        after.held.parked == before.held.parked,
        !quarantined ==> after.senders == before.senders,
        quarantined && before.id < before.senders@.len() ==> {
            let own = before.id as int;
            &&& after.senders@[own].inner.offers().len() == before.senders@[own].inner.offers().len() + 1
            &&& after.senders@[own].inner.offers().last().0 is Lifecycle
            &&& after.senders@[own].inner.offers().last().0->Lifecycle_0 is ReconcileApply
            &&& own_lane_only(before.senders@, after.senders@, own)
        },
{
    if quarantined && before.id < before.senders@.len() {
        let marked = choose|marked: bool| #[trigger]
            before.marked(after.senders@, LifecycleFrame::ReconcileApply, marked);
        law_marker_reaches_the_own_pump(before, after.senders@, LifecycleFrame::ReconcileApply, marked);
        let frame = ShardFrame::Lifecycle(LifecycleFrame::ReconcileApply);
        let outcome = choose|outcome: SendOutcome|
            marked == (outcome is Taken) && after.senders@ == #[trigger] offered_at(
                before.senders@,
                before.id as int,
                frame,
                outcome,
            );
        lemma_offers_after(before.senders@[before.id as int].inner, frame, outcome);
    }
}

/// A partition held by a direct call is live from then on; one that is already
/// held is left in place, and the newcomer comes back.
pub proof fn law_init_never_replaces<F: 'static, P>(
    before: IggyShard<F, P>,
    after: IggyShard<F, P>,
    namespace: u64,
    partition: P,
    back: Option<P>,
    other: u64,
)
    requires
        before.initialised(after, namespace, partition, back),
    ensures
        after.held.table().live.contains_key(namespace),
        before.held.table().live.contains_key(namespace) ==> {
            &&& back == Some(partition)
            &&& after.held.table().live[namespace] == before.held.table().live[namespace]
        },
        !before.held.table().live.contains_key(namespace) ==> back is None && after.held.table().live[namespace] == partition,
        other != namespace ==> {
            &&& after.held.table().live.contains_key(other) == before.held.table().live.contains_key(other)
            &&& before.held.table().live.contains_key(other) ==> after.held.table().live[other] == before.held.table().live[other]
        },
        after.held.table().routes == before.held.table().routes,
        after.held.table().tombstones == before.held.table().tombstones,
{
}

/// What another replica forwards is proposed with all it named and the replica
/// the verdict returns to, unless that is no replica of this cluster.
pub proof fn law_forwarded_request_is_proposed<F: 'static, P>(
    shard: IggyShard<F, P>,
    replica: u8,
    client: u128,
    user_id: u32,
    session: u64,
    request: u64,
    nonce: u128,
)
    ensures
        ({
            let login = shard.forwarded_register(replica, client, user_id, nonce);
            let logout = shard.forwarded_logout(replica, client, session, request, nonce);
            &&& login is Some <==> replica < shard.replica_count
            &&& logout is Some <==> replica < shard.replica_count
            &&& login is Some ==> {
                &&& login->0 is ForwardedRegister
                &&& login->0->ForwardedRegister_vsr_client_id == client
                &&& login->0->ForwardedRegister_user_id == user_id
                &&& login->0->ForwardedRegister_nonce == nonce
                &&& login->0->ForwardedRegister_origin_replica == replica
            }
            &&& logout is Some ==> {
                &&& logout->0 is ForwardedLogout
                &&& logout->0->ForwardedLogout_vsr_client_id == client
                &&& logout->0->ForwardedLogout_session == session
                &&& logout->0->ForwardedLogout_request == request
                &&& logout->0->ForwardedLogout_nonce == nonce
                &&& logout->0->ForwardedLogout_origin_replica == replica
            }
        }),
{
}

/// A request is served by the incarnation its row describes and by no other,
/// and by none without a row; operations outside the partition plane always
/// are.
pub proof fn law_row_decides_the_incarnation<F: 'static, P>(
    shard: IggyShard<F, P>,
    operation: Operation,
    namespace: u64,
    committed: Option<u64>,
)
    ensures
        !operation.spec_is_partition() ==> shard.spec_serves(operation, namespace, committed),
        operation.spec_is_partition() && !shard.held.routes@.contains_key(namespace) ==> !shard.spec_serves(
            operation,
            namespace,
            committed,
        ),
        operation.spec_is_partition() && shard.held.routes@.contains_key(namespace) ==> (shard.spec_serves(
            operation,
            namespace,
            committed,
        ) <==> committed == Some(shard.held.routes@[namespace].epoch)),
{
}

/// A shard that was just built has nothing under way: no mutation staged, no
/// frame parked, no transfer served or pulled, no repair, nobody waiting for a
/// verdict, and nobody to wake.
pub proof fn law_fresh_shard_has_nothing_under_way<F: 'static, P>(shard: IggyShard<F, P>, namespace: u64)
    requires
        shard.is_fresh(),
    ensures
        shard.held.queue@.len() == 0,
        !shard.held.parked@.contains_key(namespace),
        shard.held.parked.bytes == 0 && !shard.held.parked.shedding,
        shard.held.parked.reparked@ == Set::<u64>::empty(),
        shard.serving.offers@.len() == 0,
        !shard.serving.builds@.contains_key(namespace),
        shard.serving.cache.entries@.len() == 0,
        shard.metadata_repair is None,
        shard.metadata_transfer.session is None,
        shard.metadata_transfer.attempts == 0 && shard.metadata_transfer.decode_failures is None,
        shard.register_forwards.entries@.len() == 0 && shard.logout_forwards.entries@.len() == 0,
        !shard.reconciler_wired,
{
}

/// A shard nobody tuned never stops for its superblock, serves repairs in
/// chunks of at least one op, and keeps the retry it was given.
pub proof fn law_untuned_shard_runs_on_defaults(repair_retry_ticks: u32, failures: u64)
    ensures
        ({
            let tuning = default_tuning(repair_retry_ticks);
            &&& tuning.repair_retry_ticks == repair_retry_ticks
            &&& !is_wedged(failures, tuning.superblock_wedged_fatal_failures)
            &&& tuning.repair_chunk_max == REPAIR_CHUNK_MAX
            &&& tuning.served_segment_cache_bytes_max == SERVED_SEGMENT_CACHE_BYTES_DEFAULT
            &&& tuning.partition_artifact_len_max == PARTITION_ARTIFACT_LEN_DEFAULT
            &&& tuning.bus_max_message_size == DEFAULT_BUS_MAX_MESSAGE_SIZE
        }),
{
}

} // verus!
