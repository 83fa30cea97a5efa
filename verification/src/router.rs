//! Which shard a frame goes to, and what a shard does with the frames that
//! reach it.
//!
//! Every frame, local ones included, travels through the target shard's lane
//! into its pump, so each shard's state has one writer.

use vstd::prelude::*;

use crate::channel::{
    is_recorded_send, is_sent, law_offer_touches_one_lane, law_send_is_delivered_or_counted, law_send_tells_what_came_of_it,
    lemma_handed_after, lemma_offers_after, offered_at, outcome_of, own_lane_only, Lane, SendOutcome, SendRefusal, Sender,
    TaggedSender,
};
use crate::frames::{
    ClientConnMeta, ConnectedClientInfo, LifecycleFrame, Message, MessageExpiry, MetadataSubmit, PartitionRead, PartitionReadReply,
    ShardFrame,
};
use crate::lists::lemma_filter_is_subsequence;
use crate::metrics::{frame_drop_reason, frame_drop_variant};
use crate::park::NamespaceState;
use crate::reconcile::{applied_all, confirms_removal, is_drain, ReconcileOutcome};
use crate::segment_cache::{other_namespaces, CachedSegmentPayload};
use crate::serving::{offers_outside, ServedStateTransfer, StateTransferServer};
use crate::shard::IggyShard;
use crate::wire::Operation;

verus! {

/// Why a consensus frame could not be decoded.
#[derive(Debug, Clone, Copy, PartialEq, Eq, Structural)]
pub enum DecodeFailure {
    /// The frame is sound but its operation is unknown to this build: the
    /// sender is newer, and upgrading this node is the fix.
    UnknownOperation,
    /// Anything else.
    Malformed,
}

/// The label a message's loss is recorded under: the planes recover
/// differently.
pub open spec fn plane_variant(operation: Operation) -> Seq<char> {
    if operation.spec_is_partition() {
        frame_drop_variant::PARTITION@
    } else {
        frame_drop_variant::CONSENSUS@
    }
}

/// A frame went to shard `target`'s pump, or its loss is recorded: nothing but
/// the lanes and the counts changed.
pub open spec fn is_sent_to_target<F: 'static, P>(
    before: IggyShard<F, P>,
    after: IggyShard<F, P>,
    target: u16,
    frame: ShardFrame<F>,
    operation: Operation,
    sent: bool,
) -> bool {
    &&& after == (IggyShard { metrics: after.metrics, senders: after.senders, ..before })
    &&& if target < before.senders@.len() {
        is_recorded_send(
            before.senders@,
            after.senders@,
            target as int,
            frame,
            before.metrics@,
            after.metrics@,
            plane_variant(operation),
            sent,
        )
    } else {
        &&& !sent
        &&& after.senders == before.senders
        &&& after.metrics@ == before.metrics@.dropped(plane_variant(operation), frame_drop_reason::UNROUTABLE@)
    }
}

/// A frame off the network was dispatched.
pub open spec fn is_dispatched<F: 'static, P>(
    before: IggyShard<F, P>,
    after: IggyShard<F, P>,
    decoded: Result<(Message, u16), DecodeFailure>,
    sent: bool,
) -> bool {
    match decoded {
        Ok((message, assigned)) => {
            let target = before.spec_target(message.operation, message.group, assigned);
            is_sent_to_target(
                before,
                after,
                target,
                ShardFrame::Consensus { target_shard: target, message },
                message.operation,
                sent,
            )
        },
        Err(failure) => {
            &&& !sent
            &&& after == (IggyShard { metrics: after.metrics, ..before })
            &&& after.metrics@ == before.metrics@.dropped(
                frame_drop_variant::CONSENSUS@,
                if failure is UnknownOperation {
                    frame_drop_reason::UNSUPPORTED_OPERATION@
                } else {
                    frame_drop_reason::UNPARSABLE@
                },
            )
        },
    }
}

/// The pump took a frame off its lane and kept it, or dropped it as misrouted.
pub open spec fn is_frame_judged<F: 'static, P>(
    before: IggyShard<F, P>,
    after: IggyShard<F, P>,
    frame: ShardFrame<F>,
    accepted: bool,
) -> bool {
    &&& accepted == (!(frame is Consensus) || frame->target_shard == before.id)
    &&& after == (IggyShard { metrics: after.metrics, ..before })
    &&& after.metrics@ == if accepted {
        before.metrics@
    } else {
        before.metrics@.dropped(frame_drop_variant::CONSENSUS@, frame_drop_reason::MISROUTED@)
    }
}

impl<F: 'static, P> IggyShard<F, P> {
    /// The shard a message belongs to. `assigned` is the shard its group
    /// hashes to. Metadata operations belong to shard 0; a partition's to the
    /// shard its row names, or, where no row is seeded yet, to the shard it
    /// hashes to; the control plane follows the group.
    pub open spec fn spec_target(&self, operation: Operation, group: u64, assigned: u16) -> u16 {
        if operation.spec_is_metadata() {
            0
        } else if operation.spec_is_partition() {
            if self.held.routes@.contains_key(group) {
                self.held.routes@[group].shard
            } else {
                assigned
            }
        } else if group == self.metadata_group {
            0
        } else {
            assigned
        }
    }

    /// The shard a message belongs to. Metadata lives on shard 0. A partition is
    /// where its row says, or where its group hashes to until a row is seeded;
    /// `assigned` is that hash. Control traffic follows its group.
    pub fn route_target(&self, operation: Operation, group: u64, assigned: u16) -> (target: u16)
        ensures
            target == self.spec_target(operation, group, assigned),
    {
        if operation.is_metadata() {
            return 0;
        }
        if operation.is_partition() {
            return match self.held.routes.shard_for(group) {
                Some(shard) => shard,
                None => assigned,
            };
        }
        if group == self.metadata_group {
            0
        } else {
            assigned
        }
    }

    /// A message as it travels: the shard it belongs to, and the frame stamped
    /// with that shard's id.
    pub fn addressed(&self, message: Message, assigned: u16) -> (addressed: (u16, ShardFrame<F>))
        ensures
            addressed.0 == self.spec_target(message.operation, message.group, assigned),
            addressed.1 == (ShardFrame::<F>::Consensus { target_shard: addressed.0, message }),
    {
        let target: u16 = self.route_target(message.operation, message.group, assigned);
        (target, ShardFrame::consensus(target, message))
    }

    /// Take a frame off the network. `decoded` is the classified message with
    /// the shard its group hashes to, or why it is none. A message goes to the
    /// pump of the shard it belongs to; one that does not get there is
    /// recorded.
    pub fn dispatch(&mut self, decoded: Result<(Message, u16), DecodeFailure>) -> (sent: bool)
        ensures
            old(self).wf() ==> final(self).wf(),
            is_dispatched(*old(self), *final(self), decoded, sent),
    {
        match decoded {
            Ok((message, assigned)) => {
                let operation: Operation = message.operation;
                let (target, frame): (u16, ShardFrame<F>) = self.addressed(message, assigned);
                self.try_send_to_target(target, frame, operation)
            },
            Err(DecodeFailure::UnknownOperation) => {
                self.metrics.record_frame_drop(frame_drop_variant::CONSENSUS, frame_drop_reason::UNSUPPORTED_OPERATION);
                false
            },
            Err(DecodeFailure::Malformed) => {
                self.metrics.record_frame_drop(frame_drop_variant::CONSENSUS, frame_drop_reason::UNPARSABLE);
                false
            },
        }
    }

    /// Hand a frame to a shard's pump; never blocks. A shard without a lane is
    /// a drop, not a panic: the id may come from a stored row.
    pub fn try_send_to_target(&mut self, target: u16, frame: ShardFrame<F>, operation: Operation) -> (sent: bool)
        ensures
            old(self).wf() ==> final(self).wf(),
            is_sent_to_target(*old(self), *final(self), target, frame, operation, sent),
    {
        let variant: &'static str = if operation.is_partition() {
            frame_drop_variant::PARTITION
        } else {
            frame_drop_variant::CONSENSUS
        };
        if target as usize >= self.senders.len() {
            self.metrics.record_frame_drop(variant, frame_drop_reason::UNROUTABLE);
            return false;
        }
        self.send_to_lane(target as usize, variant, frame)
    }

    /// Whether a frame the pump took is for this shard. One stamped for
    /// another is dropped: the lanes are bound to the wrong runtime.
    pub fn accept_frame_for_self(&mut self, frame: &ShardFrame<F>) -> (accepted: bool)
        ensures
            is_frame_judged(*old(self), *final(self), *frame, accepted),
    {
        let accepted: bool = match frame {
            ShardFrame::Consensus { target_shard, message: _ } => *target_shard == self.id,
            ShardFrame::Lifecycle(_) => true,
        };
        if !accepted {
            self.metrics.record_frame_drop(frame_drop_variant::CONSENSUS, frame_drop_reason::MISROUTED);
        }
        accepted
    }
}

/// What a delegated replica handshake reports to shard 0.
#[derive(Debug, Clone, Copy, PartialEq, Eq, Structural)]
pub enum ReplicaHandshakeOutcome {
    /// An inbound one finished: its slot is free.
    ReleaseSlot(u64),
    /// An outbound one finished: the replica may be dialed again.
    ClearDial(u8),
}

/// The frame that reports a handshake to shard 0.
pub open spec fn handshake_report<F>(outcome: ReplicaHandshakeOutcome) -> LifecycleFrame<F> {
    match outcome {
        ReplicaHandshakeOutcome::ReleaseSlot(slot) => LifecycleFrame::ReplicaInboundHandshakeDone { slot },
        ReplicaHandshakeOutcome::ClearDial(replica_id) => LifecycleFrame::ReplicaOutboundHandshakeDone { replica_id },
    }
}

/// A delegated handshake was settled: applied here, or reported to shard 0.
pub open spec fn is_handshake_settled<F: 'static, P>(
    before: IggyShard<F, P>,
    after: IggyShard<F, P>,
    outcome: ReplicaHandshakeOutcome,
    inline: Option<ReplicaHandshakeOutcome>,
) -> bool {
    &&& after == (IggyShard { metrics: after.metrics, senders: after.senders, ..before })
    &&& if before.id == 0 {
        &&& inline == Some(outcome)
        &&& after == before
    } else {
        &&& inline is None
        &&& exists|sent: bool|
            #[trigger] is_recorded_send(
                before.senders@,
                after.senders@,
                0,
                ShardFrame::Lifecycle(handshake_report(outcome)),
                before.metrics@,
                after.metrics@,
                frame_drop_variant::REPLICA_HANDSHAKE_ACK@,
                sent,
            )
    }
}

impl<F: 'static, P> IggyShard<F, P> {
    /// A delegated replica handshake finished. Shard 0 applies the outcome
    /// itself, so it comes back; any other shard reports it to shard 0, where
    /// a lost report is covered by a deadline.
    pub fn replica_handshake_done(&mut self, outcome: ReplicaHandshakeOutcome) -> (inline: Option<ReplicaHandshakeOutcome>)
        requires
            old(self).id != 0 ==> old(self).senders@.len() > 0,
        ensures
            old(self).wf() ==> final(self).wf(),
            is_handshake_settled(*old(self), *final(self), outcome, inline),
    {
        if self.id == 0 {
            return Some(outcome);
        }
        let payload: LifecycleFrame<F> = match outcome {
            ReplicaHandshakeOutcome::ReleaseSlot(slot) => LifecycleFrame::ReplicaInboundHandshakeDone { slot },
            ReplicaHandshakeOutcome::ClearDial(replica_id) => LifecycleFrame::ReplicaOutboundHandshakeDone { replica_id },
        };
        let _sent: bool = self.send_to_lane(0, frame_drop_variant::REPLICA_HANDSHAKE_ACK, ShardFrame::lifecycle(payload));
        None
    }
}

/// What a lifecycle frame asks for.
#[allow(inconsistent_fields)]
pub enum LifecycleStep<F, P> {
    InstallReplicaInbound { fd: F, slot: u64 },
    InstallReplicaOutbound { fd: F, replica_id: u8 },
    /// A handshake another shard ran finished.
    Handshake(ReplicaHandshakeOutcome),
    InstallClient { fd: F, meta: ClientConnMeta },
    InstallWsClient { fd: F, meta: ClientConnMeta },
    SendToReplica { replica_id: u8, msg: Vec<u8> },
    SendToClient { client_id: u128, msg: Vec<u8> },
    Submit(MetadataSubmit),
    ListClients { reply: Sender<Vec<ConnectedClientInfo>> },
    Read { namespace: u64, read: PartitionRead, reply: Sender<PartitionReadReply> },
    WakeReconciler,
    /// Staged mutations were applied.
    Applied(ReconcileOutcome<P>),
    /// Remove the partition's expired segments.
    Clean { namespace: u64, now: u64, message_expiry: MessageExpiry, max_bytes: Option<u64> },
    /// Remove the partition's sealed segments up to an offset.
    Truncate { namespace: u64, up_to_offset: u64 },
    /// Empty the partition.
    Purge { namespace: u64, generation: u64 },
    Nothing,
}

/// What a lifecycle frame asks of a shard, given the purge generation that
/// the partition it addresses has applied. Frames that only the pump applies
/// are not among them.
pub open spec fn lifecycle_step<F: 'static, P>(shard: IggyShard<F, P>, payload: LifecycleFrame<F>, applied_purge: u64) -> LifecycleStep<
    F,
    P,
> {
    match payload {
        LifecycleFrame::ReplicaInboundSetup { fd, slot } => LifecycleStep::InstallReplicaInbound { fd, slot },
        LifecycleFrame::ReplicaOutboundSetup { fd, replica_id } => LifecycleStep::InstallReplicaOutbound { fd, replica_id },
        LifecycleFrame::ReplicaInboundHandshakeDone { slot } => LifecycleStep::Handshake(
            ReplicaHandshakeOutcome::ReleaseSlot(slot),
        ),
        LifecycleFrame::ReplicaOutboundHandshakeDone { replica_id } => LifecycleStep::Handshake(
            ReplicaHandshakeOutcome::ClearDial(replica_id),
        ),
        LifecycleFrame::ClientConnectionSetup { fd, meta } => LifecycleStep::InstallClient { fd, meta },
        LifecycleFrame::ClientWsConnectionSetup { fd, meta } => LifecycleStep::InstallWsClient { fd, meta },
        LifecycleFrame::ForwardReplicaSend { replica_id, msg } => LifecycleStep::SendToReplica { replica_id, msg },
        LifecycleFrame::ForwardClientSend { client_id, msg } => LifecycleStep::SendToClient { client_id, msg },
        LifecycleFrame::MetadataSubmit(submit) => LifecycleStep::Submit(submit),
        LifecycleFrame::ListClients { reply } => LifecycleStep::ListClients { reply },
        LifecycleFrame::PartitionRead { namespace, read, reply } => LifecycleStep::Read { namespace, read, reply },
        LifecycleFrame::MetadataCommitTick => if shard.reconciler_wired {
            LifecycleStep::WakeReconciler
        } else {
            LifecycleStep::Nothing
        },
        LifecycleFrame::ReconcileApply => LifecycleStep::Nothing,
        LifecycleFrame::CleanPartition { namespace, now, message_expiry, max_bytes } => if reachable(shard, namespace) {
            LifecycleStep::Clean { namespace, now, message_expiry, max_bytes }
        } else {
            LifecycleStep::Nothing
        },
        LifecycleFrame::TruncatePartition { namespace, up_to_offset } => if reachable(shard, namespace) {
            LifecycleStep::Truncate { namespace, up_to_offset }
        } else {
            LifecycleStep::Nothing
        },
        LifecycleFrame::PurgePartition { namespace, generation } => if reachable(shard, namespace) && applied_purge < generation {
            LifecycleStep::Purge { namespace, generation }
        } else {
            LifecycleStep::Nothing
        },
    }
}

/// A lifecycle frame was taken off the pump and answered with a step.
pub open spec fn is_processed<F: 'static, P>(
    before: IggyShard<F, P>,
    after: IggyShard<F, P>,
    payload: LifecycleFrame<F>,
    applied_purge: u64,
    step: LifecycleStep<F, P>,
) -> bool {
    if payload is ReconcileApply {
        &&& after == (IggyShard { held: after.held, metrics: after.metrics, senders: after.senders, ..before })
        &&& own_lane_only(before.senders@, after.senders@, before.id as int)
        &&& step is Applied
        &&& step->Applied_0.wake == (confirms_removal(before.held.queue@) && before.reconciler_wired)
        &&& after.held.queue@.len() == 0
        &&& after.held.table() == applied_all(before.held.table(), before.held.queue@, before.id)
        &&& is_drain(
            before.held.fresh_state(before.metrics@, before.senders@),
            before.held.queue@,
            after.held.state(after.metrics@, after.senders@, step->Applied_0),
            before.id,
        )
    } else {
        &&& after == (IggyShard { metrics: after.metrics, ..before })
        &&& step == lifecycle_step(before, payload, applied_purge)
        &&& after.metrics@ == if payload is MetadataCommitTick && !before.reconciler_wired {
            before.metrics@.dropped(frame_drop_variant::METADATA_COMMIT_TICK@, frame_drop_reason::UNROUTABLE@)
        } else {
            before.metrics@
        }
    }
}

/// The partition is held and not fenced.
pub open spec fn reachable<F: 'static, P>(shard: IggyShard<F, P>, namespace: u64) -> bool {
    shard.held.spec_namespace_state(namespace) is Materialised
}

impl<F: 'static, P> IggyShard<F, P> {
    /// Take a lifecycle frame off the pump. `applied_purge` is the purge
    /// generation the addressed partition has applied: a purge it already
    /// applied must not wipe what was written since. A commit tick before the
    /// reconciler is wired is a recorded drop; its periodic pass makes up for
    /// it.
    pub fn process_lifecycle(&mut self, payload: LifecycleFrame<F>, applied_purge: u64) -> (step: LifecycleStep<F, P>)
        requires
            old(self).wf(),
        ensures
            final(self).wf(),
            is_processed(*old(self), *final(self), payload, applied_purge, step),
    {
        match payload {
            LifecycleFrame::ReplicaInboundSetup { fd, slot } => LifecycleStep::InstallReplicaInbound { fd, slot },
            LifecycleFrame::ReplicaOutboundSetup { fd, replica_id } => LifecycleStep::InstallReplicaOutbound { fd, replica_id },
            LifecycleFrame::ReplicaInboundHandshakeDone { slot } => LifecycleStep::Handshake(
                ReplicaHandshakeOutcome::ReleaseSlot(slot),
            ),
            LifecycleFrame::ReplicaOutboundHandshakeDone { replica_id } => LifecycleStep::Handshake(
                ReplicaHandshakeOutcome::ClearDial(replica_id),
            ),
            LifecycleFrame::ClientConnectionSetup { fd, meta } => LifecycleStep::InstallClient { fd, meta },
            LifecycleFrame::ClientWsConnectionSetup { fd, meta } => LifecycleStep::InstallWsClient { fd, meta },
            LifecycleFrame::ForwardReplicaSend { replica_id, msg } => LifecycleStep::SendToReplica { replica_id, msg },
            LifecycleFrame::ForwardClientSend { client_id, msg } => LifecycleStep::SendToClient { client_id, msg },
            LifecycleFrame::MetadataSubmit(submit) => LifecycleStep::Submit(submit),
            LifecycleFrame::ListClients { reply } => LifecycleStep::ListClients { reply },
            LifecycleFrame::PartitionRead { namespace, read, reply } => LifecycleStep::Read { namespace, read, reply },
            LifecycleFrame::MetadataCommitTick => {
                if self.dispatch_metadata_commit_tick() {
                    LifecycleStep::WakeReconciler
                } else {
                    self.metrics.record_frame_drop(frame_drop_variant::METADATA_COMMIT_TICK, frame_drop_reason::UNROUTABLE);
                    LifecycleStep::Nothing
                }
            },
            LifecycleFrame::ReconcileApply => LifecycleStep::Applied(self.apply_reconcile_ops()),
            LifecycleFrame::CleanPartition { namespace, now, message_expiry, max_bytes } => {
                if self.is_reachable(namespace) {
                    LifecycleStep::Clean { namespace, now, message_expiry, max_bytes }
                } else {
                    LifecycleStep::Nothing
                }
            },
            LifecycleFrame::TruncatePartition { namespace, up_to_offset } => {
                if self.is_reachable(namespace) {
                    LifecycleStep::Truncate { namespace, up_to_offset }
                } else {
                    LifecycleStep::Nothing
                }
            },
            LifecycleFrame::PurgePartition { namespace, generation } => {
                if self.is_reachable(namespace) && applied_purge < generation {
                    LifecycleStep::Purge { namespace, generation }
                } else {
                    LifecycleStep::Nothing
                }
            },
        }
    }

    fn is_reachable(&self, namespace: u64) -> (found: bool)
        ensures
            found == reachable(*self, namespace),
    {
        matches!(self.held.namespace_state(namespace), NamespaceState::Materialised)
    }

    /// A client reply reached its owning shard. One the connection refused is
    /// lost for good: the client never receives it.
    pub fn record_client_send(&mut self, delivered: bool)
        ensures
            *final(self) == (IggyShard { metrics: final(self).metrics, ..*old(self) }),
            final(self).metrics@ == if delivered {
                old(self).metrics@
            } else {
                old(self).metrics@.dropped(frame_drop_variant::FORWARD_CLIENT_SEND@, frame_drop_reason::DELIVERY_FAILED@)
            },
    {
        if !delivered {
            self.metrics.record_frame_drop(frame_drop_variant::FORWARD_CLIENT_SEND, frame_drop_reason::DELIVERY_FAILED);
        }
    }
}

/// What a pass over a partition's segments removed.
#[derive(Debug, Clone, Copy, PartialEq, Eq, Structural)]
pub struct SegmentRemoval {
    pub segments: u32,
    /// The pass stopped on its budget with more to remove.
    pub budget_spent: bool,
}

/// How a purge went.
#[derive(Debug, Clone, Copy, PartialEq, Eq, Structural)]
pub enum PurgeOutcome {
    Purged,
    /// Nothing was touched: the reset could not be recorded.
    FrontierNotRecorded,
    /// The partition is empty, but the generation could not be recorded.
    GenerationNotRecorded,
    /// The partition is left without a serviceable segment chain.
    Unserviceable,
}

/// What follows a purge.
#[derive(Debug, Clone, Copy, PartialEq, Eq, Structural)]
pub enum PurgeFollowup {
    /// Nothing was mutated; the reconciler issues the purge again.
    Keep,
    /// Drop the partition's own offer cache.
    DropOfferCache,
    /// Drop the partition's own offer cache and fence it for rebuild.
    Fence,
}

/// Nothing of the namespace is served any more, and all else is as it was.
pub open spec fn serves_nothing_of(before: StateTransferServer, after: StateTransferServer, namespace: u64) -> bool {
    &&& after.builds@ == before.builds@.remove(namespace)
    &&& after.offers@ == offers_outside(before.offers@, namespace)
    &&& after.cache.entries@ == other_namespaces(before.cache.entries@, namespace)
    &&& after.cache.use_seq == before.cache.use_seq
    &&& after.cache.sweeps == before.cache.sweeps
}

/// What this shard serves of a partition, once segments of it were removed or
/// none was.
pub open spec fn serves_after_removal(before: StateTransferServer, after: StateTransferServer, namespace: u64, removed: bool) -> bool {
    if removed {
        serves_nothing_of(before, after, namespace)
    } else {
        after == before
    }
}

/// A cleaner pass was followed up.
pub open spec fn is_clean_settled<F: 'static, P>(
    before: IggyShard<F, P>,
    after: IggyShard<F, P>,
    pass: LifecycleFrame<F>,
    namespace: u64,
    removal: SegmentRemoval,
    drop_offer_cache: bool,
) -> bool {
    &&& drop_offer_cache == (removal.segments > 0)
    &&& after == (IggyShard { serving: after.serving, metrics: after.metrics, senders: after.senders, ..before })
    &&& serves_after_removal(before.serving, after.serving, namespace, removal.segments > 0)
    &&& if !removal.budget_spent {
        &&& after.metrics == before.metrics
        &&& after.senders == before.senders
    } else if !before.has_own_lane() {
        &&& after.senders == before.senders
        &&& after.metrics@ == before.metrics@.dropped(frame_drop_variant::PARTITION@, frame_drop_reason::UNROUTABLE@)
    } else {
        exists|sent: bool|
            #[trigger] is_recorded_send(
                before.senders@,
                after.senders@,
                before.id as int,
                ShardFrame::Lifecycle(pass),
                before.metrics@,
                after.metrics@,
                frame_drop_variant::PARTITION@,
                sent,
            )
    }
}

/// What follows a purge that went like this.
pub open spec fn purge_followup(outcome: PurgeOutcome) -> PurgeFollowup {
    match outcome {
        PurgeOutcome::FrontierNotRecorded => PurgeFollowup::Keep,
        PurgeOutcome::Unserviceable => PurgeFollowup::Fence,
        _ => PurgeFollowup::DropOfferCache,
    }
}

/// A purge was followed up.
pub open spec fn is_purge_settled<F: 'static, P>(
    before: IggyShard<F, P>,
    after: IggyShard<F, P>,
    namespace: u64,
    outcome: PurgeOutcome,
    followup: PurgeFollowup,
) -> bool {
    &&& after == (IggyShard { serving: after.serving, ..before })
    &&& followup == purge_followup(outcome)
    &&& serves_after_removal(before.serving, after.serving, namespace, !(outcome is FrontierNotRecorded))
}

impl<F: 'static, P> IggyShard<F, P> {
    /// A cleaner pass ran. Any removed segment invalidates what this shard
    /// serves of the partition, and no cache can notice that by itself. A pass
    /// that stopped on its budget is staged again as a frame, so that the pump
    /// interleaves other work. Whether the partition's own offer cache is to
    /// be dropped is returned.
    pub fn after_clean(
        &mut self,
        namespace: u64,
        now: u64,
        message_expiry: MessageExpiry,
        max_bytes: Option<u64>,
        removal: SegmentRemoval,
    ) -> (drop_offer_cache: bool)
        requires
            old(self).wf(),
        ensures
            final(self).wf(),
            is_clean_settled(
                *old(self),
                *final(self),
                LifecycleFrame::CleanPartition { namespace, now, message_expiry, max_bytes },
                namespace,
                removal,
                drop_offer_cache,
            ),
    {
        if removal.segments > 0 {
            self.serving.drop_served_state_for(namespace);
        }
        if removal.budget_spent {
            let _sent: bool = self.request_clean_partition(namespace, now, message_expiry, max_bytes);
        }
        removal.segments > 0
    }

    /// A committed truncate ran; see [`IggyShard::after_clean`].
    pub fn after_truncate(&mut self, namespace: u64, segments: u32) -> (drop_offer_cache: bool)
        requires
            old(self).wf(),
        ensures
            final(self).wf(),
            drop_offer_cache == (segments > 0),
            *final(self) == (IggyShard { serving: final(self).serving, ..*old(self) }),
            serves_after_removal(old(self).serving, final(self).serving, namespace, segments > 0),
    {
        if segments > 0 {
            self.serving.drop_served_state_for(namespace);
        }
        segments > 0
    }

    /// A purge ran. Whatever emptied the partition, or left it without a
    /// chain, invalidates what this shard serves of it. Only one that touched
    /// nothing leaves it: the chain is whole, and the generation still counts
    /// as outstanding.
    pub fn after_purge(&mut self, namespace: u64, outcome: PurgeOutcome) -> (followup: PurgeFollowup)
        requires
            old(self).wf(),
        ensures
            final(self).wf(),
            is_purge_settled(*old(self), *final(self), namespace, outcome, followup),
    {
        match outcome {
            PurgeOutcome::FrontierNotRecorded => PurgeFollowup::Keep,
            PurgeOutcome::Purged | PurgeOutcome::GenerationNotRecorded => {
                self.serving.drop_served_state_for(namespace);
                PurgeFollowup::DropOfferCache
            },
            PurgeOutcome::Unserviceable => {
                self.serving.drop_served_state_for(namespace);
                PurgeFollowup::Fence
            },
        }
    }
}

/// A gather of every shard's clients.
pub struct ClientGather {
    /// Shards that took the question.
    pub expected: usize,
    pub received: usize,
    pub clients: Vec<ConnectedClientInfo>,
}

impl ClientGather {
    pub fn new(expected: usize) -> (gather: ClientGather)
        ensures
            gather.expected == expected,
            gather.received == 0,
            gather.clients@.len() == 0,
    {
        ClientGather { expected, received: 0, clients: Vec::new() }
    }

    /// Another answer is due.
    pub fn is_waiting(&self) -> (waiting: bool)
        ensures
            waiting == (self.received < self.expected),
    {
        self.received < self.expected
    }

    /// One shard answered.
    pub fn receive(&mut self, mut batch: Vec<ConnectedClientInfo>)
        requires
            old(self).received < old(self).expected,
        ensures
            final(self).clients@ == old(self).clients@ + batch@,
            final(self).received == old(self).received + 1,
            final(self).expected == old(self).expected,
    {
        self.clients.append(&mut batch);
        self.received += 1;
    }
}

/// A read was handed to the shard that owns the partition.
pub open spec fn is_read_sent<F: 'static, P>(
    before: IggyShard<F, P>,
    after: IggyShard<F, P>,
    namespace: u64,
    read: PartitionRead,
    reply: Sender<PartitionReadReply>,
    target: Option<u16>,
) -> bool {
    let routes = before.held.routes@;
    &&& after == (IggyShard { senders: after.senders, ..before })
    &&& if routes.contains_key(namespace) && routes[namespace].shard < before.senders@.len() {
        &&& target is Some ==> target == Some(routes[namespace].shard)
        &&& is_sent(
            before.senders@,
            after.senders@,
            routes[namespace].shard as int,
            ShardFrame::Lifecycle(LifecycleFrame::PartitionRead { namespace, read, reply }),
            target is Some,
        )
    } else {
        &&& target is None
        &&& after.senders == before.senders
    }
}

impl<F: 'static, P> IggyShard<F, P> {
    /// Ask every shard, this one included, for its clients. A shard whose lane
    /// refuses the question is left out of the gather.
    pub fn ask_for_clients(&mut self, reply: &Sender<Vec<ConnectedClientInfo>>) -> (gather: ClientGather)
        ensures
            old(self).wf() ==> final(self).wf(),
            *final(self) == (IggyShard { senders: final(self).senders, ..*old(self) }),
            are_asked(old(self).senders@, final(self).senders@, reply.lane(), final(self).senders@.len() as int),
            gather.expected == questions(old(self).senders@, final(self).senders@, final(self).senders@.len() as int),
            gather.received == 0,
            gather.clients@.len() == 0,
    {
        let mut expected: usize = 0;
        let mut i: usize = 0;
        let ghost before = self.senders@;
        while i < self.senders.len()
            invariant
                i <= self.senders@.len(),
                expected <= i,
                before == old(self).senders@,
                *self == (IggyShard { senders: self.senders, ..*old(self) }),
                are_asked(before, self.senders@, reply.lane(), i as int),
                expected == questions(before, self.senders@, i as int),
            decreases self.senders@.len() - i,
        {
            let ghost held = self.senders@;
            let frame: ShardFrame<F> = ShardFrame::lifecycle(LifecycleFrame::ListClients { reply: reply.duplicate() });
            let result: Result<(), SendRefusal<ShardFrame<F>>> = self.senders[i].try_send(frame);
            let ghost outcome = outcome_of(result);
            let taken: bool = result.is_ok();
            if taken {
                expected += 1;
            }
            proof {
                assert(self.senders@ == held.update(i as int, before[i as int].offered(frame, outcome)));
                lemma_questions_before(before, held, self.senders@, i as int);
                lemma_handed_after(before[i as int].inner, frame, outcome);
                assert(took_one(before[i as int], self.senders@[i as int]) == taken);
                assert(is_asked(before[i as int], self.senders@[i as int], reply.lane()));
            }
            i += 1;
        }
        ClientGather::new(expected)
    }

    /// Hand a read to the shard that owns the partition. `None` where no shard
    /// does, or its lane refuses the read; the reply sender is dropped with
    /// it.
    pub fn send_partition_read(&mut self, namespace: u64, read: PartitionRead, reply: Sender<PartitionReadReply>) -> (target: Option<
        u16,
    >)
        ensures
            old(self).wf() ==> final(self).wf(),
            is_read_sent(*old(self), *final(self), namespace, read, reply, target),
    {
        let target: u16 = match self.held.routes.shard_for(namespace) {
            Some(target) => target,
            None => {
                return None;
            },
        };
        if target as usize >= self.senders.len() {
            return None;
        }
        let frame: ShardFrame<F> = ShardFrame::lifecycle(LifecycleFrame::PartitionRead { namespace, read, reply });
        let result: Result<(), SendRefusal<ShardFrame<F>>> = self.senders[target as usize].try_send(frame);
        proof {
            assert(self.senders@ =~= offered_at(old(self).senders@, target as int, frame, outcome_of(result)));
        }
        if result.is_ok() {
            Some(target)
        } else {
            None
        }
    }
}

/// A shard was asked for its clients: its main lane was offered the question,
/// with a fresh sender of the channel that gathers the answers.
pub open spec fn is_asked<F>(before: TaggedSender<F>, after: TaggedSender<F>, answers: Lane) -> bool {
    exists|reply: Sender<Vec<ConnectedClientInfo>>, outcome: SendOutcome|
        {
            &&& reply.offers().len() == 0
            &&& reply.lane() == answers
            &&& after == #[trigger] before.offered(ShardFrame::Lifecycle(LifecycleFrame::ListClients { reply }), outcome)
        }
}

/// The main lane took a frame.
pub open spec fn took_one<F>(before: TaggedSender<F>, after: TaggedSender<F>) -> bool {
    after.inner.handed().len() == before.inner.handed().len() + 1
}

/// Each of the first `count` shards was asked; nothing else changed.
pub open spec fn are_asked<F>(before: Seq<TaggedSender<F>>, after: Seq<TaggedSender<F>>, answers: Lane, count: int) -> bool {
    &&& after.len() == before.len()
    &&& forall|i: int|
        #![trigger after[i]]
        0 <= i < after.len() ==> if i < count {
            is_asked(before[i], after[i], answers)
        } else {
            after[i] == before[i]
        }
}

/// How many of the first `count` shards took the question.
pub open spec fn questions<F>(before: Seq<TaggedSender<F>>, after: Seq<TaggedSender<F>>, count: int) -> nat
    decreases count,
{
    if count <= 0 {
        0
    } else {
        questions(before, after, count - 1) + if took_one(before[count - 1], after[count - 1]) {
            1nat
        } else {
            0
        }
    }
}

proof fn lemma_questions_before<F>(
    before: Seq<TaggedSender<F>>,
    held: Seq<TaggedSender<F>>,
    after: Seq<TaggedSender<F>>,
    count: int,
)
    requires
        0 <= count <= after.len(),
        held.len() == after.len(),
        forall|i: int| 0 <= i < count ==> #[trigger] after[i] == held[i],
    ensures
        questions(before, after, count) == questions(before, held, count),
    decreases count,
{
    if count > 0 {
        lemma_questions_before(before, held, after, count - 1);
        assert(after[count - 1] == held[count - 1]);
    }
}

/// A message for a live partition goes to the shard its row names, and the
/// metadata never leaves shard 0.
pub proof fn law_routing_follows_the_table<F: 'static, P>(shard: IggyShard<F, P>, operation: Operation, group: u64, assigned: u16)
    ensures
        operation.spec_is_metadata() ==> shard.spec_target(operation, group, assigned) == 0,
        operation.spec_is_partition() && shard.held.routes@.contains_key(group) ==> shard.spec_target(operation, group, assigned)
            == shard.held.routes@[group].shard,
        !operation.spec_is_metadata() && !operation.spec_is_partition() && group == shard.metadata_group ==> shard.spec_target(
            operation,
            group,
            assigned,
        ) == 0,
{
}

/// Where every row is seeded from the hash, a missing row changes nothing: a
/// frame that outruns the seeding reaches the shard that will own it.
pub proof fn law_unseeded_row_routes_alike<F: 'static, P>(
    unseeded: IggyShard<F, P>,
    seeded: IggyShard<F, P>,
    operation: Operation,
    group: u64,
    assigned: u16,
)
    requires
        operation.spec_is_partition(),
        !unseeded.held.routes@.contains_key(group),
        seeded.held.routes@.contains_key(group),
        seeded.held.routes@[group].shard == assigned,
    ensures
        unseeded.spec_target(operation, group, assigned) == seeded.spec_target(operation, group, assigned),
{
}

/// A purge that was applied is never applied again.
pub proof fn law_purge_is_applied_once<F: 'static, P>(shard: IggyShard<F, P>, namespace: u64, generation: u64, applied_purge: u64)
    requires
        applied_purge >= generation,
    ensures
        lifecycle_step(shard, LifecycleFrame::<F>::PurgePartition { namespace, generation }, applied_purge)
            == LifecycleStep::<F, P>::Nothing,
{
}

/// A fenced partition is neither cleaned, truncated nor purged.
pub proof fn law_fenced_partition_is_left_alone<F: 'static, P>(
    shard: IggyShard<F, P>,
    namespace: u64,
    now: u64,
    message_expiry: MessageExpiry,
    max_bytes: Option<u64>,
    up_to_offset: u64,
    generation: u64,
    applied_purge: u64,
)
    requires
        shard.held.table().tombstones.contains(namespace),
    ensures
        lifecycle_step(shard, LifecycleFrame::<F>::CleanPartition { namespace, now, message_expiry, max_bytes }, applied_purge)
            == LifecycleStep::<F, P>::Nothing,
        lifecycle_step(shard, LifecycleFrame::<F>::TruncatePartition { namespace, up_to_offset }, applied_purge)
            == LifecycleStep::<F, P>::Nothing,
        lifecycle_step(shard, LifecycleFrame::<F>::PurgePartition { namespace, generation }, applied_purge)
            == LifecycleStep::<F, P>::Nothing,
{
}

/// Every frame that asks for work is handed on with all it carries: a
/// connection with its handle, a forward with its bytes, a submit or a read
/// with the sender its answer goes to, and the maintenance of a live partition
/// with its bounds.
pub proof fn law_work_is_handed_on<F: 'static, P>(
    before: IggyShard<F, P>,
    after: IggyShard<F, P>,
    payload: LifecycleFrame<F>,
    applied_purge: u64,
    step: LifecycleStep<F, P>,
)
    requires
        is_processed(before, after, payload, applied_purge, step),
    ensures
        match payload {
            LifecycleFrame::ReplicaInboundSetup { fd, slot } => {
                step is InstallReplicaInbound && step->InstallReplicaInbound_fd == fd && step->slot == slot
            },
            LifecycleFrame::ReplicaOutboundSetup { fd, replica_id } => {
                step is InstallReplicaOutbound && step->InstallReplicaOutbound_fd == fd
                    && step->InstallReplicaOutbound_replica_id == replica_id
            },
            LifecycleFrame::ReplicaInboundHandshakeDone { slot } => {
                step is Handshake && step->Handshake_0 is ReleaseSlot && step->Handshake_0->ReleaseSlot_0 == slot
            },
            LifecycleFrame::ReplicaOutboundHandshakeDone { replica_id } => {
                step is Handshake && step->Handshake_0 is ClearDial && step->Handshake_0->ClearDial_0 == replica_id
            },
            LifecycleFrame::ClientConnectionSetup { fd, meta } => {
                step is InstallClient && step->InstallClient_fd == fd && step->InstallClient_meta == meta
            },
            LifecycleFrame::ClientWsConnectionSetup { fd, meta } => {
                step is InstallWsClient && step->InstallWsClient_fd == fd && step->InstallWsClient_meta == meta
            },
            LifecycleFrame::ForwardReplicaSend { replica_id, msg } => {
                step is SendToReplica && step->SendToReplica_replica_id == replica_id && step->SendToReplica_msg == msg
            },
            LifecycleFrame::ForwardClientSend { client_id, msg } => {
                step is SendToClient && step->client_id == client_id && step->SendToClient_msg == msg
            },
            LifecycleFrame::MetadataSubmit(submit) => step is Submit && step->Submit_0 == submit,
            LifecycleFrame::ListClients { reply } => step is ListClients && step->ListClients_reply == reply,
            LifecycleFrame::PartitionRead { namespace, read, reply } => {
                step is Read && step->Read_namespace == namespace && step->read == read && step->Read_reply == reply
            },
            LifecycleFrame::MetadataCommitTick => before.reconciler_wired <==> step is WakeReconciler,
            LifecycleFrame::ReconcileApply => step is Applied && after.held.queue@.len() == 0,
            LifecycleFrame::CleanPartition { namespace, now, message_expiry, max_bytes } => {
                let live = before.held.table().live.contains_key(namespace) && !before.held.table().tombstones.contains(namespace);
                &&& step is Clean <==> live
                &&& live ==> step->Clean_namespace == namespace && step->now == now && step->message_expiry == message_expiry
                    && step->max_bytes == max_bytes
            },
            LifecycleFrame::TruncatePartition { namespace, up_to_offset } => {
                let live = before.held.table().live.contains_key(namespace) && !before.held.table().tombstones.contains(namespace);
                &&& step is Truncate <==> live
                &&& live ==> step->Truncate_namespace == namespace && step->up_to_offset == up_to_offset
            },
            LifecycleFrame::PurgePartition { namespace, generation } => {
                let live = before.held.table().live.contains_key(namespace) && !before.held.table().tombstones.contains(namespace);
                &&& step is Purge <==> live && applied_purge < generation
                &&& step is Purge ==> step->Purge_namespace == namespace && step->generation == generation
            },
        },
{
}

/// Nothing is the answer only to a tick that finds no reconciler, to the
/// maintenance of a partition that is not live, and to a purge already
/// applied; the tick alone counts as a drop. No frame but the one that applies
/// the staged mutations changes the partitions, the routes or the lanes.
pub proof fn law_nothing_is_done_only_where_nothing_is_due<F: 'static, P>(
    before: IggyShard<F, P>,
    after: IggyShard<F, P>,
    payload: LifecycleFrame<F>,
    applied_purge: u64,
    step: LifecycleStep<F, P>,
)
    requires
        is_processed(before, after, payload, applied_purge, step),
    ensures
        ({
            let gone = |namespace: u64|
                before.held.table().tombstones.contains(namespace) || !before.held.table().live.contains_key(namespace);
            &&& step is Nothing <==> match payload {
                LifecycleFrame::MetadataCommitTick => !before.reconciler_wired,
                LifecycleFrame::CleanPartition { namespace, .. } => gone(namespace),
                LifecycleFrame::TruncatePartition { namespace, .. } => gone(namespace),
                LifecycleFrame::PurgePartition { namespace, generation } => gone(namespace) || generation <= applied_purge,
                _ => false,
            }
            &&& !(payload is ReconcileApply) ==> after.held == before.held && after.senders == before.senders
            &&& step is Nothing && payload is MetadataCommitTick ==> after.metrics@ == before.metrics@.dropped(
                frame_drop_variant::METADATA_COMMIT_TICK@,
                frame_drop_reason::UNROUTABLE@,
            )
            &&& !(step is Nothing && payload is MetadataCommitTick) && !(payload is ReconcileApply) ==> after.metrics@
                == before.metrics@
            &&& after == (IggyShard { held: after.held, metrics: after.metrics, senders: after.senders, ..before })
        }),
{
}

/// What is outside both planes follows its group, to shard 0 for the metadata
/// group and to the shard the group hashes to for any other; a partition
/// without a row goes where it hashes to.
pub proof fn law_unrouted_message_follows_its_group<F: 'static, P>(
    shard: IggyShard<F, P>,
    operation: Operation,
    group: u64,
    assigned: u16,
)
    ensures
        !operation.spec_is_metadata() && !operation.spec_is_partition() && group != shard.metadata_group ==> shard.spec_target(
            operation,
            group,
            assigned,
        ) == assigned,
        operation.spec_is_partition() && !shard.held.routes@.contains_key(group) ==> shard.spec_target(
            operation,
            group,
            assigned,
        ) == assigned,
{
}

/// A message off the network reaches the pump of the shard it belongs to,
/// stamped with that shard's id, or is counted as one drop of its plane; one
/// for a shard without a lane is unroutable. No other lane is touched, and
/// nothing else of the shard.
pub proof fn law_dispatched_message_arrives_or_is_counted<F: 'static, P>(
    before: IggyShard<F, P>,
    after: IggyShard<F, P>,
    message: Message,
    assigned: u16,
    sent: bool,
)
    requires
        is_dispatched(before, after, Ok((message, assigned)), sent),
    ensures
        ({
            let target = before.spec_target(message.operation, message.group, assigned);
            let class = if message.operation.spec_is_partition() {
                frame_drop_variant::PARTITION@
            } else {
                frame_drop_variant::CONSENSUS@
            };
            &&& sent ==> {
                &&& target < before.senders@.len()
                &&& after.senders@[target as int].inner.handed() == before.senders@[target as int].inner.handed().push(
                    ShardFrame::Consensus { target_shard: target, message },
                )
                &&& after.metrics@ == before.metrics@
            }
            &&& !sent && target < before.senders@.len() ==> {
                ||| after.metrics@ == before.metrics@.dropped(class, frame_drop_reason::FULL@)
                ||| after.metrics@ == before.metrics@.dropped(class, frame_drop_reason::DISCONNECTED@)
            }
            &&& target >= before.senders@.len() ==> !sent && after.senders == before.senders && after.metrics@
                == before.metrics@.dropped(class, frame_drop_reason::UNROUTABLE@)
            &&& target < before.senders@.len() ==> own_lane_only(before.senders@, after.senders@, target as int)
            &&& after.held == before.held
            &&& after.id == before.id
        }),
{
    let target = before.spec_target(message.operation, message.group, assigned);
    if target < before.senders@.len() {
        law_send_is_delivered_or_counted(
            before.senders@,
            after.senders@,
            target as int,
            ShardFrame::Consensus { target_shard: target, message },
            before.metrics@,
            after.metrics@,
            plane_variant(message.operation),
            sent,
        );
    }
}

/// Bytes that are no message are never sent on: they are counted, an operation
/// this build does not know apart from the rest.
pub proof fn law_undecodable_frame_is_counted<F: 'static, P>(
    before: IggyShard<F, P>,
    after: IggyShard<F, P>,
    failure: DecodeFailure,
    sent: bool,
)
    requires
        is_dispatched(before, after, Err(failure), sent),
    ensures
        !sent,
        after.senders == before.senders,
        after.held == before.held,
        failure is UnknownOperation ==> after.metrics@ == before.metrics@.dropped(
            frame_drop_variant::CONSENSUS@,
            frame_drop_reason::UNSUPPORTED_OPERATION@,
        ),
        failure is Malformed ==> after.metrics@ == before.metrics@.dropped(
            frame_drop_variant::CONSENSUS@,
            frame_drop_reason::UNPARSABLE@,
        ),
{
}

/// What one shard addresses to another, the other accepts: a dispatched
/// message is refused by every shard but the one it was stamped for, and a
/// lifecycle frame by none.
pub proof fn law_shard_accepts_what_is_stamped_for_it<F: 'static, P>(
    before: IggyShard<F, P>,
    after: IggyShard<F, P>,
    frame: ShardFrame<F>,
    accepted: bool,
)
    requires
        is_frame_judged(before, after, frame, accepted),
    ensures
        frame is Lifecycle ==> accepted,
        frame is Consensus ==> (accepted <==> frame->target_shard == before.id),
        accepted ==> after.metrics@ == before.metrics@,
        !accepted ==> after.metrics@ == before.metrics@.dropped(frame_drop_variant::CONSENSUS@, frame_drop_reason::MISROUTED@),
        after.senders == before.senders && after.held == before.held,
{
}

/// A finished handshake is applied by shard 0 itself and reported by any other
/// shard to shard 0's pump alone, which then answers the frame with the same
/// outcome.
pub proof fn law_handshake_outcome_reaches_shard_zero<F: 'static, P>(
    before: IggyShard<F, P>,
    after: IggyShard<F, P>,
    outcome: ReplicaHandshakeOutcome,
    inline: Option<ReplicaHandshakeOutcome>,
    zero: IggyShard<F, P>,
    applied_purge: u64,
)
    requires
        is_handshake_settled(before, after, outcome, inline),
        before.id != 0 ==> before.senders@.len() > 0,
    ensures
        before.id == 0 ==> inline == Some(outcome) && after == before,
        before.id != 0 ==> {
            let report = handshake_report::<F>(outcome);
            &&& inline is None
            &&& own_lane_only(before.senders@, after.senders@, 0)
            &&& {
                ||| after.metrics@ == before.metrics@ && after.senders@[0].inner.handed()
                    == before.senders@[0].inner.handed().push(ShardFrame::Lifecycle(report))
                ||| after.metrics@ == before.metrics@.dropped(
                    frame_drop_variant::REPLICA_HANDSHAKE_ACK@,
                    frame_drop_reason::FULL@,
                )
                ||| after.metrics@ == before.metrics@.dropped(
                    frame_drop_variant::REPLICA_HANDSHAKE_ACK@,
                    frame_drop_reason::DISCONNECTED@,
                )
            }
            &&& lifecycle_step(zero, report, applied_purge) == LifecycleStep::<F, P>::Handshake(outcome)
        },
{
    if before.id != 0 {
        let report = ShardFrame::Lifecycle(handshake_report::<F>(outcome));
        let sent = choose|sent: bool|
            #[trigger] is_recorded_send(
                before.senders@,
                after.senders@,
                0,
                report,
                before.metrics@,
                after.metrics@,
                frame_drop_variant::REPLICA_HANDSHAKE_ACK@,
                sent,
            );
        law_send_is_delivered_or_counted(
            before.senders@,
            after.senders@,
            0,
            report,
            before.metrics@,
            after.metrics@,
            frame_drop_variant::REPLICA_HANDSHAKE_ACK@,
            sent,
        );
    }
}

/// Once nothing of a namespace is served, no offer, no build and no cached
/// segment of it is left, and every one of any other namespace is.
pub proof fn law_dropped_namespace_leaves_the_others(
    before: StateTransferServer,
    after: StateTransferServer,
    namespace: u64,
    other: u64,
)
    requires
        serves_nothing_of(before, after, namespace),
        other != namespace,
    ensures
        !after.builds@.contains_key(namespace),
        before.builds@.contains_key(other) == after.builds@.contains_key(other),
        before.builds@.contains_key(other) ==> after.builds@[other] == before.builds@[other],
        forall|i: int| #![trigger after.offers@[i]] 0 <= i < after.offers@.len() ==> after.offers@[i].namespace != namespace,
        forall|i: int|
            #![trigger after.cache.entries@[i]]
            0 <= i < after.cache.entries@.len() ==> after.cache.entries@[i].namespace != namespace,
        forall|i: int|
            #![trigger before.offers@[i]]
            0 <= i < before.offers@.len() && before.offers@[i].namespace == other ==> after.offers@.contains(before.offers@[i]),
        forall|i: int|
            #![trigger before.cache.entries@[i]]
            0 <= i < before.cache.entries@.len() && before.cache.entries@[i].namespace == other
                ==> after.cache.entries@.contains(before.cache.entries@[i]),
        after.cache.sweeps == before.cache.sweeps && after.cache.use_seq == before.cache.use_seq,
{
    lemma_filter_is_subsequence(before.offers@, |served: ServedStateTransfer| served.namespace != namespace);
    lemma_filter_is_subsequence(before.cache.entries@, |entry: CachedSegmentPayload| entry.namespace != namespace);
}

/// A pass that removed a segment drops what is served of the partition, one
/// that removed none leaves it; a pass that ran out of its budget is staged
/// again with the same bounds on this shard's own pump, and one that did not
/// is not.
pub proof fn law_spent_pass_is_staged_again<F: 'static, P>(
    before: IggyShard<F, P>,
    after: IggyShard<F, P>,
    pass: LifecycleFrame<F>,
    namespace: u64,
    removal: SegmentRemoval,
    drop_offer_cache: bool,
)
    requires
        is_clean_settled(before, after, pass, namespace, removal, drop_offer_cache),
    ensures
        drop_offer_cache <==> removal.segments != 0,
        removal.segments == 0 ==> after.serving == before.serving,
        removal.segments != 0 ==> serves_nothing_of(before.serving, after.serving, namespace),
        !removal.budget_spent ==> after.senders == before.senders && after.metrics == before.metrics,
        removal.budget_spent && before.id < before.senders@.len() ==> {
            let own = before.id as int;
            &&& own_lane_only(before.senders@, after.senders@, own)
            &&& {
                ||| after.senders@[own].inner.handed() == before.senders@[own].inner.handed().push(ShardFrame::Lifecycle(pass))
                    && after.metrics@ == before.metrics@
                ||| after.metrics@ == before.metrics@.dropped(frame_drop_variant::PARTITION@, frame_drop_reason::FULL@)
                ||| after.metrics@ == before.metrics@.dropped(frame_drop_variant::PARTITION@, frame_drop_reason::DISCONNECTED@)
            }
        },
        removal.budget_spent && before.id >= before.senders@.len() ==> after.senders == before.senders && after.metrics@
            == before.metrics@.dropped(frame_drop_variant::PARTITION@, frame_drop_reason::UNROUTABLE@),
        after.held == before.held,
{
    if removal.budget_spent && before.id < before.senders@.len() {
        let frame = ShardFrame::Lifecycle(pass);
        let sent = choose|sent: bool|
            #[trigger] is_recorded_send(
                before.senders@,
                after.senders@,
                before.id as int,
                frame,
                before.metrics@,
                after.metrics@,
                frame_drop_variant::PARTITION@,
                sent,
            );
        law_send_is_delivered_or_counted(
            before.senders@,
            after.senders@,
            before.id as int,
            frame,
            before.metrics@,
            after.metrics@,
            frame_drop_variant::PARTITION@,
            sent,
        );
    }
}

/// A purge that touched nothing leaves what is served of the partition; any
/// other drops it. A partition left without a chain is fenced, and no other.
pub proof fn law_purge_is_followed_up<F: 'static, P>(
    before: IggyShard<F, P>,
    after: IggyShard<F, P>,
    namespace: u64,
    outcome: PurgeOutcome,
    followup: PurgeFollowup,
)
    requires
        is_purge_settled(before, after, namespace, outcome, followup),
    ensures
        followup is Keep <==> outcome is FrontierNotRecorded,
        followup is Fence <==> outcome is Unserviceable,
        followup is DropOfferCache <==> outcome is Purged || outcome is GenerationNotRecorded,
        outcome is FrontierNotRecorded ==> after == before,
        !(outcome is FrontierNotRecorded) ==> serves_nothing_of(before.serving, after.serving, namespace),
{
}

/// A read goes to the shard the row names with what was asked and the sender
/// the answer goes to, and to no other; whoever asked is told where it went
/// exactly where it was taken.
pub proof fn law_read_reaches_the_owner<F: 'static, P>(
    before: IggyShard<F, P>,
    after: IggyShard<F, P>,
    namespace: u64,
    read: PartitionRead,
    reply: Sender<PartitionReadReply>,
    target: Option<u16>,
)
    requires
        is_read_sent(before, after, namespace, read, reply, target),
    ensures
        ({
            let routes = before.held.routes@;
            let owner = routes[namespace].shard as int;
            let frame = ShardFrame::Lifecycle(LifecycleFrame::PartitionRead { namespace, read, reply });
            &&& target is Some ==> {
                &&& routes.contains_key(namespace)
                &&& target->0 == owner
                &&& after.senders@[owner].inner.handed() == before.senders@[owner].inner.handed().push(frame)
                &&& own_lane_only(before.senders@, after.senders@, owner)
            }
            &&& !routes.contains_key(namespace) ==> target is None && after.senders == before.senders
            &&& target is None && routes.contains_key(namespace) && owner < before.senders@.len() ==> {
                &&& after.senders@[owner].inner.handed() == before.senders@[owner].inner.handed()
                &&& after.senders@[owner].inner.offers().len() == before.senders@[owner].inner.offers().len() + 1
            }
            &&& after == (IggyShard { senders: after.senders, ..before })
        }),
{
    let routes = before.held.routes@;
    if routes.contains_key(namespace) && routes[namespace].shard < before.senders@.len() {
        let owner = routes[namespace].shard as int;
        let frame = ShardFrame::Lifecycle(LifecycleFrame::PartitionRead { namespace, read, reply });
        law_send_tells_what_came_of_it(before.senders@, after.senders@, owner, frame, target is Some);
        let outcome = choose|outcome: SendOutcome|
            (target is Some) == (outcome is Taken) && after.senders@ == #[trigger] offered_at(before.senders@, owner, frame, outcome);
        law_offer_touches_one_lane(before.senders@, owner, frame, outcome);
    }
}

/// The gather expects as many answers as shards took the question, every shard
/// was asked once, and each question carries a sender of the one channel the
/// answers are gathered from.
pub proof fn law_every_shard_is_asked_once<F>(
    before: Seq<TaggedSender<F>>,
    after: Seq<TaggedSender<F>>,
    answers: Lane,
    index: int,
)
    requires
        are_asked(before, after, answers, after.len() as int),
        0 <= index < before.len(),
    ensures
        after[index].inner.offers().len() == before[index].inner.offers().len() + 1,
        after[index].reply == before[index].reply,
        ({
            let asked = after[index].inner.offers().last().0;
            &&& asked is Lifecycle && asked->Lifecycle_0 is ListClients
            &&& asked->Lifecycle_0->ListClients_reply.lane() == answers
        }),
        questions(before, after, after.len() as int) <= after.len(),
{
    let _ = after[index];
    let (reply, outcome) = choose|reply: Sender<Vec<ConnectedClientInfo>>, outcome: SendOutcome|
        {
            &&& reply.offers().len() == 0
            &&& reply.lane() == answers
            &&& after[index] == #[trigger] before[index].offered(
                ShardFrame::Lifecycle(LifecycleFrame::ListClients { reply }),
                outcome,
            )
        };
    lemma_offers_after(before[index].inner, ShardFrame::Lifecycle(LifecycleFrame::ListClients { reply }), outcome);
    lemma_questions_bounded(before, after, after.len() as int);
}

proof fn lemma_questions_bounded<F>(before: Seq<TaggedSender<F>>, after: Seq<TaggedSender<F>>, count: int)
    requires
        0 <= count,
    ensures
        questions(before, after, count) <= count,
    decreases count,
{
    if count > 0 {
        lemma_questions_bounded(before, after, count - 1);
    }
}

/// As many answers are awaited as shards took the question: all of them where
/// every lane took it, none where no lane did, and one more for each that did.
pub proof fn law_awaited_answers_are_those_asked_for<F>(before: Seq<TaggedSender<F>>, after: Seq<TaggedSender<F>>, count: int)
    requires
        0 <= count,
    ensures
        (forall|i: int|
            #![trigger after[i]]
            0 <= i < count ==> after[i].inner.handed().len() == before[i].inner.handed().len() + 1) ==> questions(
            before,
            after,
            count,
        ) == count,
        (forall|i: int| #![trigger after[i]] 0 <= i < count ==> after[i].inner.handed() == before[i].inner.handed())
            ==> questions(before, after, count) == 0,
        questions(before, after, count + 1) == questions(before, after, count) + if after[count].inner.handed().len()
            == before[count].inner.handed().len() + 1 {
            1int
        } else {
            0
        },
    decreases count,
{
    if count > 0 {
        law_awaited_answers_are_those_asked_for(before, after, count - 1);
        let _ = after[count - 1];
    }
}

} // verus!
