use shard::channel::{channel, shard_mesh_channels, Receiver, ShardCtorError, ShardMesh};
use shard::forwards::ForwardResult;
use shard::frames::{
    ClientConnMeta, ClientTransportKind, Command, ConnectedClientInfo, LifecycleFrame, Message, MessageExpiry, MetadataSubmit,
    PartitionRead, PartitionReadReply, ShardFrame,
};
use shard::metrics::{frame_drop_reason, frame_drop_variant, ShardMetrics};
use shard::reconcile::{PartitionLocation, PartitionSet, ReconcileOp, RoutingTable};
use shard::repair::REPAIR_CHUNK_MAX;
use shard::router::{
    DecodeFailure, LifecycleStep, PurgeFollowup, PurgeOutcome, ReplicaHandshakeOutcome, SegmentRemoval,
};
use shard::serving::{BuildOutcome, OfferPlane, StateTransferOffer};
use shard::shard::{DenyOutcome, IggyShard, MessageStep, PartitionConsensusConfig, ReplicaTopology, ShardIdentity};
use shard::wire::Operation;
use std::rc::Rc;

type Handle = u32;
type Partition = &'static str;
type Shard = IggyShard<Handle, Partition>;

const METADATA_GROUP: u64 = u64::MAX;

struct Fixture {
    shard: Shard,
    inboxes: Vec<Receiver<ShardFrame<Handle>>>,
    replies: Vec<Receiver<ShardFrame<Handle>>>,
}

fn fixture(id: u16, total: u16, capacity: usize) -> Fixture {
    let (senders, inboxes, replies): ShardMesh<Handle> = shard_mesh_channels(total, capacity, capacity);
    let shard = match IggyShard::new(
        ShardIdentity::new(id, format!("shard-{id}")),
        PartitionSet::new(),
        RoutingTable::new(),
        senders,
        ReplicaTopology::new(0, 3),
        METADATA_GROUP,
        Some((5u128 << 64) | 40),
        None,
        ShardMetrics::for_shard(),
        50,
    ) {
        Ok(shard) => shard,
        Err(error) => panic!("shard ctor ok, got {error:?}"),
    };
    Fixture {
        shard,
        inboxes: inboxes.into_iter().map(|inbox| inbox.expect("inbox")).collect(),
        replies: replies.into_iter().map(|reply| reply.expect("reply")).collect(),
    }
}

fn alone() -> Shard {
    IggyShard::without_inbox(
        ShardIdentity::new(0, "alone".to_string()),
        PartitionSet::new(),
        RoutingTable::new(),
        ReplicaTopology::new(0, 3),
        METADATA_GROUP,
        None,
        ShardMetrics::for_shard(),
        50,
    )
}

fn message(command: Command, operation: Operation, group: u64) -> Message {
    Message { command, operation, group, bytes: vec![1; 8] }
}

fn request(group: u64) -> Message {
    message(Command::Request, Operation::Partition(1), group)
}

fn hold(shard: &mut Shard, namespace: u64, epoch: u64) {
    shard.enqueue_reconcile_op(ReconcileOp::InsertOwned { namespace, partition: "p", epoch });
    shard.apply_reconcile_ops();
}

#[test]
fn fresh_shard_has_its_defaults() {
    let mut fixture = fixture(1, 3, 4);
    assert_eq!(fixture.shard.shard_count, 3);
    assert_eq!(fixture.shard.tuning.repair_chunk_max, REPAIR_CHUNK_MAX);
    assert_eq!(fixture.shard.tuning.repair_retry_ticks, 50);
    assert_eq!(fixture.shard.tuning.superblock_wedged_fatal_failures, 0);
    assert_eq!(fixture.shard.bus_max_message_size(), 64 * 1024 * 1024);
    assert!(fixture.shard.coordinator().is_none());
    fixture.shard.set_bus_max_message_size(1000);
    fixture.shard.set_repair_chunk_max(7);
    fixture.shard.set_repair_retry_ticks(8);
    fixture.shard.set_superblock_wedged_fatal_failures(9);
    fixture.shard.set_served_segment_cache_bytes_max(10);
    fixture.shard.set_partition_artifact_len_max(11);
    assert_eq!(fixture.shard.bus_max_message_size(), 1000);
    assert_eq!(fixture.shard.tuning.repair_chunk_max, 7);
    assert_eq!(fixture.shard.tuning.repair_retry_ticks, 8);
    assert_eq!(fixture.shard.tuning.superblock_wedged_fatal_failures, 9);
    assert_eq!(fixture.shard.tuning.served_segment_cache_bytes_max, 10);
    assert_eq!(fixture.shard.tuning.partition_artifact_len_max, 11);
}

#[test]
fn permuted_lanes_are_refused() {
    let (mut senders, _inboxes, _replies): ShardMesh<Handle> = shard_mesh_channels(3, 1, 1);
    senders.swap(0, 2);
    let built: Result<Shard, ShardCtorError> = IggyShard::new(
        ShardIdentity::new(0, "s".to_string()),
        PartitionSet::new(),
        RoutingTable::new(),
        senders,
        ReplicaTopology::new(0, 1),
        METADATA_GROUP,
        None,
        None,
        ShardMetrics::for_shard(),
        1,
    );
    assert_eq!(
        built.err(),
        Some(ShardCtorError::SenderOrderingInvalid { index: 0, expected: 0, actual: 2 })
    );
}

#[test]
fn shard_boots_over_its_partitions_and_routes() {
    let mut partitions = PartitionSet::new();
    partitions.insert(7, "seven");
    let mut routes = RoutingTable::new();
    routes.insert(7, PartitionLocation { shard: 0, epoch: 3 });
    routes.insert(9, PartitionLocation { shard: 1, epoch: 5 });
    let shard: Shard = IggyShard::without_inbox(
        ShardIdentity::new(0, "booted".to_string()),
        partitions,
        routes,
        ReplicaTopology::new(0, 3),
        METADATA_GROUP,
        None,
        ShardMetrics::for_shard(),
        50,
    );
    assert_eq!(shard.held.partitions.get(7), Some(&"seven"));
    assert_eq!(shard.held.routes.shard_for(9), Some(1));
    assert_eq!(shard.held.routes.epoch_for(7), Some(3));
    assert!(shard.held.queue.is_empty());
    assert!(shard.serving.builds.is_empty());
    assert!(!shard.held.parked.shedding);
}

#[test]
fn config_keeps_the_topology() {
    let config = PartitionConsensusConfig::with_clock(9, ReplicaTopology::new(2, 5), "bus", "clock");
    assert_eq!(config.cluster_id, 9);
    assert_eq!(config.self_replica_id, 2);
    assert_eq!(config.replica_count, 5);
    assert_eq!((config.bus, config.clock), ("bus", "clock"));
}

#[test]
fn lanes_can_be_attached_later() {
    let mut shard = alone();
    assert_eq!(shard.shard_count, 1);
    let (senders, inboxes, _replies): ShardMesh<Handle> = shard_mesh_channels(2, 1, 1);
    shard.attach_senders(senders);
    assert_eq!(shard.shard_count, 2);
    shard.enqueue_reconcile_op(ReconcileOp::RemoveRouted { namespace: 1 });
    assert!(matches!(
        inboxes[0].as_ref().expect("inbox").drain.rx.try_recv(),
        Ok(ShardFrame::Lifecycle(LifecycleFrame::ReconcileApply))
    ));
}

#[test]
fn nonces_start_at_the_incarnation() {
    let mut fixture = fixture(0, 1, 1);
    assert_eq!(fixture.shard.next_forward_nonce(0), 41);
    assert_eq!(fixture.shard.next_forward_nonce(2), (2u128 << 64) | 42);
}

#[test]
fn forwarded_sessions_wait_for_their_verdicts() {
    let mut shard = alone();
    let (tx, rx) = channel::<ForwardResult>(1);
    shard.park_register_forward(5, 9, tx);
    assert!(shard.on_forward_logout_result(ForwardResult { nonce: 5, client: 9, verdict: vec![] }).is_none());
    assert!(shard.on_forward_register_result(ForwardResult { nonce: 5, client: 9, verdict: vec![3] }).is_some());
    assert_eq!(rx.drain.rx.try_recv().ok().map(|result| result.verdict), Some(vec![3]));
    let (tx, _rx) = channel::<ForwardResult>(1);
    shard.park_logout_forward(6, 9, tx);
    shard.cancel_logout_forward(6, 9);
    assert!(shard.on_forward_logout_result(ForwardResult { nonce: 6, client: 9, verdict: vec![] }).is_none());
    let (tx, _rx) = channel::<ForwardResult>(1);
    shard.park_register_forward(7, 9, tx);
    shard.cancel_register_forward(7, 9);
    assert!(shard.on_forward_register_result(ForwardResult { nonce: 7, client: 9, verdict: vec![] }).is_none());
}

#[test]
fn forwards_from_outside_the_cluster_are_dropped() {
    let shard = alone();
    assert!(shard.peer_is_known(2));
    assert!(!shard.peer_is_known(3));
    assert!(matches!(
        shard.on_forward_register(2, 9, 4, 5),
        Some(MetadataSubmit::ForwardedRegister { vsr_client_id: 9, user_id: 4, nonce: 5, origin_replica: 2 })
    ));
    assert!(shard.on_forward_register(3, 9, 4, 5).is_none());
    assert!(matches!(
        shard.on_forward_logout(1, 9, 4, 6, 5),
        Some(MetadataSubmit::ForwardedLogout { session: 4, request: 6, origin_replica: 1, .. })
    ));
    assert!(shard.on_forward_logout(255, 9, 4, 6, 5).is_none());
}

#[test]
fn messages_go_to_the_shard_they_belong_to() {
    let mut fixture = fixture(1, 4, 4);
    fixture.shard.enqueue_reconcile_op(ReconcileOp::InsertRouted { namespace: 77, owner: 3, epoch: 1 });
    fixture.shard.apply_reconcile_ops();
    assert!(fixture.inboxes[1].drain.rx.try_recv().is_ok(), "the marker");
    let cases = [
        (message(Command::Request, Operation::Metadata(1), 5), 0),
        (message(Command::Prepare, Operation::Partition(1), 77), 3),
        (message(Command::Prepare, Operation::Partition(1), 78), 2),
        (message(Command::Commit, Operation::Reserved, METADATA_GROUP), 0),
        (message(Command::Commit, Operation::Reserved, 77), 2),
    ];
    for (message, target) in cases {
        assert_eq!(fixture.shard.route_target(message.operation, message.group, 2), target);
        assert!(fixture.shard.dispatch(Ok((message, 2))));
        match fixture.inboxes[target as usize].drain.rx.try_recv() {
            Ok(ShardFrame::Consensus { target_shard, .. }) => assert_eq!(target_shard, target),
            _ => panic!("the frame must reach shard {target}"),
        }
    }
    assert_eq!(fixture.shard.metrics().frame_drops_value(), 0);
}

#[test]
fn addressed_frame_is_stamped() {
    let shard = alone();
    let (target, frame) = shard.addressed(message(Command::Commit, Operation::Reserved, 3), 2);
    assert_eq!(target, 2);
    assert!(matches!(frame, ShardFrame::Consensus { target_shard: 2, .. }));
}

#[test]
fn lost_messages_are_recorded_by_plane_and_reason() {
    let mut fixture = fixture(0, 2, 1);
    assert!(!fixture.shard.dispatch(Err(DecodeFailure::UnknownOperation)));
    assert!(!fixture.shard.dispatch(Err(DecodeFailure::Malformed)));
    assert!(!fixture.shard.dispatch(Ok((request(5), 9))));
    assert!(fixture.shard.dispatch(Ok((request(5), 1))));
    assert!(!fixture.shard.dispatch(Ok((request(5), 1))));
    fixture.inboxes.clear();
    assert!(!fixture.shard.dispatch(Ok((message(Command::Commit, Operation::Reserved, 3), 1))));
    let count = |variant, reason| fixture.shard.metrics().frame_drop_count(variant, reason);
    assert_eq!(count(frame_drop_variant::CONSENSUS, frame_drop_reason::UNSUPPORTED_OPERATION), 1);
    assert_eq!(count(frame_drop_variant::CONSENSUS, frame_drop_reason::UNPARSABLE), 1);
    assert_eq!(count(frame_drop_variant::PARTITION, frame_drop_reason::UNROUTABLE), 1);
    assert_eq!(count(frame_drop_variant::PARTITION, frame_drop_reason::FULL), 1);
    assert_eq!(count(frame_drop_variant::CONSENSUS, frame_drop_reason::DISCONNECTED), 1);
}

#[test]
fn frames_for_another_shard_are_dropped() {
    let mut shard = alone();
    assert!(shard.accept_frame_for_self(&ShardFrame::consensus(0, request(1))));
    assert!(shard.accept_frame_for_self(&ShardFrame::lifecycle(LifecycleFrame::ReconcileApply)));
    assert!(!shard.accept_frame_for_self(&ShardFrame::consensus(1, request(1))));
    assert_eq!(
        shard.metrics().frame_drop_count(frame_drop_variant::CONSENSUS, frame_drop_reason::MISROUTED),
        1
    );
}

#[test]
fn request_is_parked_served_or_denied() {
    let mut shard = alone();
    assert!(matches!(shard.on_message(request(7), Some(2)), MessageStep::Done));
    assert_eq!(shard.parked_frame_count(7), 1);
    assert_eq!(shard.parked_namespaces(), vec![7]);
    assert!(shard.has_parked_partition_frames());
    assert_eq!(shard.discard_parked_partition_frames(7).len(), 1);
    hold(&mut shard, 7, 2);
    assert!(matches!(shard.on_message(request(7), Some(2)), MessageStep::Request(_)));
    assert!(matches!(shard.on_message(request(7), Some(3)), MessageStep::Deny(_)));
    assert!(matches!(shard.on_message(request(7), None), MessageStep::Deny(_)));
    shard.fence_partition_for_rebuild(7, false);
    assert!(matches!(shard.on_message(request(7), Some(2)), MessageStep::Deny(_)));
    let metadata = message(Command::Request, Operation::Metadata(1), METADATA_GROUP);
    assert!(matches!(shard.on_message(metadata, None), MessageStep::Request(_)));
}

#[test]
fn prepare_is_never_fenced() {
    let mut shard = alone();
    let prepare = || message(Command::Prepare, Operation::Partition(1), 7);
    assert!(matches!(shard.on_message(prepare(), Some(2)), MessageStep::Done));
    shard.discard_parked_partition_frames(7);
    hold(&mut shard, 7, 2);
    assert!(matches!(shard.on_message(prepare(), Some(9)), MessageStep::Replicate(_)));
    assert!(shard.commit_walk_due(Operation::Partition(1), 7, true, false));
    assert!(!shard.commit_walk_due(Operation::Partition(1), 7, true, true));
    assert!(!shard.commit_walk_due(Operation::Partition(1), 7, false, false));
    assert!(!shard.commit_walk_due(Operation::Metadata(1), 7, true, false));
    shard.fence_partition_for_rebuild(7, false);
    assert!(matches!(shard.on_message(prepare(), Some(2)), MessageStep::Replicate(_)));
    assert!(!shard.commit_walk_due(Operation::Partition(1), 7, true, false));
}

#[test]
fn other_messages_go_to_their_handlers() {
    let mut shard = alone();
    let commit = message(Command::Commit, Operation::Reserved, 7);
    assert!(matches!(shard.on_message(commit, None), MessageStep::Handle(_)));
}

#[test]
fn shed_request_is_denied_and_recorded() {
    let mut shard = alone();
    for _ in 0..128 {
        assert!(matches!(shard.on_message(request(7), None), MessageStep::Done));
    }
    assert!(matches!(shard.on_message(request(7), None), MessageStep::Deny(_)));
    assert_eq!(
        shard.metrics().frame_drop_count(frame_drop_variant::PARTITION, frame_drop_reason::PARK_OVERFLOW),
        1
    );
    for _ in 0..3 {
        assert!(shard.age_parked_partition_frames(7).is_empty());
    }
    assert_eq!(shard.age_parked_partition_frames(7).len(), 128);
}

#[test]
fn retired_frames_are_answered_or_recorded() {
    let mut fixture = fixture(0, 1, 1);
    let replies = vec![Some((9, vec![1])), None, Some((10, vec![2]))];
    assert_eq!(fixture.shard.retire_parked_frames(replies), (1, 2));
    assert!(matches!(
        fixture.replies[0].drain.rx.try_recv(),
        Ok(ShardFrame::Lifecycle(LifecycleFrame::ForwardClientSend { client_id: 9, .. }))
    ));
    assert!(fixture.inboxes[0].drain.rx.try_recv().is_err());
    let metrics = fixture.shard.metrics();
    assert_eq!(metrics.partition_requests_denied_transient_value(), 1);
    assert_eq!(metrics.frame_drop_count(frame_drop_variant::PARTITION, frame_drop_reason::PARK_DROPPED), 2);
    assert_eq!(metrics.frame_drop_count(frame_drop_variant::PARTITION, frame_drop_reason::FULL), 1);
}

#[test]
fn deny_is_credited_only_when_taken() {
    let mut alone = alone();
    assert_eq!(alone.stage_transient_deny(9, vec![]), DenyOutcome::NoLane);
    assert_eq!(alone.metrics().partition_requests_denied_transient_value(), 0);
    assert_eq!(alone.metrics().frame_drops_value(), 0);
    let mut fixture = fixture(0, 1, 1);
    assert_eq!(fixture.shard.stage_transient_deny(9, vec![]), DenyOutcome::Staged);
    assert_eq!(fixture.shard.stage_transient_deny(9, vec![]), DenyOutcome::LaneFull);
    fixture.replies.clear();
    assert_eq!(fixture.shard.stage_transient_deny(9, vec![]), DenyOutcome::LaneGone);
    fixture.shard.record_direct_deny(true);
    fixture.shard.record_direct_deny(false);
    let metrics = fixture.shard.metrics();
    assert_eq!(metrics.partition_requests_denied_transient_value(), 2);
    assert_eq!(metrics.frame_drop_count(frame_drop_variant::PARTITION, frame_drop_reason::FULL), 1);
    assert_eq!(metrics.frame_drop_count(frame_drop_variant::PARTITION, frame_drop_reason::DISCONNECTED), 1);
    assert_eq!(metrics.frame_drop_count(frame_drop_variant::PARTITION, frame_drop_reason::DELIVERY_FAILED), 1);
}

#[test]
fn metadata_submit_goes_to_shard_zero() {
    let mut fixture = fixture(1, 2, 1);
    let submit = || MetadataSubmit::ForwardedRegister { vsr_client_id: 1, user_id: 2, nonce: 3, origin_replica: 0 };
    assert!(fixture.shard.forward_metadata_submit(submit()));
    assert!(!fixture.shard.forward_metadata_submit(submit()));
    assert!(matches!(
        fixture.inboxes[0].drain.rx.try_recv(),
        Ok(ShardFrame::Lifecycle(LifecycleFrame::MetadataSubmit(_)))
    ));
    assert_eq!(
        fixture.shard.metrics().frame_drop_count(frame_drop_variant::CONSENSUS, frame_drop_reason::FULL),
        1
    );
}

#[test]
fn maintenance_is_staged_on_the_own_pump() {
    let mut fixture = fixture(1, 2, 3);
    assert!(fixture.shard.request_clean_partition(7, 100, MessageExpiry::Never, Some(5)));
    assert!(fixture.shard.request_truncate_partition(7, 9));
    assert!(fixture.shard.request_purge_partition(7, 4));
    assert!(!fixture.shard.request_purge_partition(7, 4));
    assert!(matches!(
        fixture.inboxes[1].drain.rx.try_recv(),
        Ok(ShardFrame::Lifecycle(LifecycleFrame::CleanPartition { namespace: 7, now: 100, max_bytes: Some(5), .. }))
    ));
    assert!(matches!(
        fixture.inboxes[1].drain.rx.try_recv(),
        Ok(ShardFrame::Lifecycle(LifecycleFrame::TruncatePartition { namespace: 7, up_to_offset: 9 }))
    ));
    assert!(matches!(
        fixture.inboxes[1].drain.rx.try_recv(),
        Ok(ShardFrame::Lifecycle(LifecycleFrame::PurgePartition { namespace: 7, generation: 4 }))
    ));
    let mut alone = alone();
    assert!(!alone.request_clean_partition(7, 100, MessageExpiry::ServerDefault, None));
    assert!(!alone.request_truncate_partition(7, 9));
    assert_eq!(
        alone.metrics().frame_drop_count(frame_drop_variant::PARTITION, frame_drop_reason::UNROUTABLE),
        1
    );
}

#[test]
fn commit_tick_needs_a_reconciler() {
    let mut shard = alone();
    assert!(!shard.dispatch_metadata_commit_tick());
    assert!(matches!(
        shard.process_lifecycle(LifecycleFrame::MetadataCommitTick, 0),
        LifecycleStep::Nothing
    ));
    assert_eq!(
        shard
            .metrics()
            .frame_drop_count(frame_drop_variant::METADATA_COMMIT_TICK, frame_drop_reason::UNROUTABLE),
        1
    );
    shard.set_metadata_tick_handler(true);
    assert!(matches!(
        shard.process_lifecycle(LifecycleFrame::MetadataCommitTick, 0),
        LifecycleStep::WakeReconciler
    ));
}

#[test]
fn confirmed_removal_wakes_a_wired_reconciler() {
    let mut shard = alone();
    shard.enqueue_reconcile_op(ReconcileOp::ConfirmRemove { namespace: 7 });
    assert!(!shard.apply_reconcile_ops().wake);
    shard.set_metadata_tick_handler(true);
    shard.enqueue_reconcile_op(ReconcileOp::ConfirmRemove { namespace: 7 });
    match shard.process_lifecycle(LifecycleFrame::ReconcileApply, 0) {
        LifecycleStep::Applied(outcome) => assert!(outcome.wake),
        _ => panic!("staged mutations are applied"),
    }
    assert!(shard.fence_partition_for_rebuild(7, true));
    assert!(shard.held.queue.len() == 1);
}

#[test]
fn connections_and_forwards_are_handed_on() {
    let mut shard = alone();
    let meta = || ClientConnMeta { client_id: 5, peer_addr: "a".to_string(), transport: ClientTransportKind::Tcp };
    assert!(matches!(
        shard.process_lifecycle(LifecycleFrame::ReplicaInboundSetup { fd: 3, slot: 4 }, 0),
        LifecycleStep::InstallReplicaInbound { fd: 3, slot: 4 }
    ));
    assert!(matches!(
        shard.process_lifecycle(LifecycleFrame::ReplicaOutboundSetup { fd: 3, replica_id: 2 }, 0),
        LifecycleStep::InstallReplicaOutbound { fd: 3, replica_id: 2 }
    ));
    assert!(matches!(
        shard.process_lifecycle(LifecycleFrame::ReplicaInboundHandshakeDone { slot: 4 }, 0),
        LifecycleStep::Handshake(ReplicaHandshakeOutcome::ReleaseSlot(4))
    ));
    assert!(matches!(
        shard.process_lifecycle(LifecycleFrame::ReplicaOutboundHandshakeDone { replica_id: 2 }, 0),
        LifecycleStep::Handshake(ReplicaHandshakeOutcome::ClearDial(2))
    ));
    assert!(matches!(
        shard.process_lifecycle(LifecycleFrame::ClientConnectionSetup { fd: 3, meta: meta() }, 0),
        LifecycleStep::InstallClient { fd: 3, .. }
    ));
    assert!(matches!(
        shard.process_lifecycle(LifecycleFrame::ClientWsConnectionSetup { fd: 3, meta: meta() }, 0),
        LifecycleStep::InstallWsClient { fd: 3, .. }
    ));
    assert!(matches!(
        shard.process_lifecycle(LifecycleFrame::ForwardReplicaSend { replica_id: 2, msg: vec![1] }, 0),
        LifecycleStep::SendToReplica { replica_id: 2, .. }
    ));
    assert!(matches!(
        shard.process_lifecycle(LifecycleFrame::ForwardClientSend { client_id: 6, msg: vec![1] }, 0),
        LifecycleStep::SendToClient { client_id: 6, .. }
    ));
    shard.record_client_send(true);
    shard.record_client_send(false);
    assert_eq!(
        shard
            .metrics()
            .frame_drop_count(frame_drop_variant::FORWARD_CLIENT_SEND, frame_drop_reason::DELIVERY_FAILED),
        1
    );
}

#[test]
fn handshake_outcome_is_applied_or_reported() {
    let mut zero = alone();
    assert_eq!(
        zero.replica_handshake_done(ReplicaHandshakeOutcome::ClearDial(2)),
        Some(ReplicaHandshakeOutcome::ClearDial(2))
    );
    let mut fixture = fixture(1, 2, 1);
    assert_eq!(fixture.shard.replica_handshake_done(ReplicaHandshakeOutcome::ReleaseSlot(8)), None);
    assert_eq!(fixture.shard.replica_handshake_done(ReplicaHandshakeOutcome::ReleaseSlot(9)), None);
    assert!(matches!(
        fixture.inboxes[0].drain.rx.try_recv(),
        Ok(ShardFrame::Lifecycle(LifecycleFrame::ReplicaInboundHandshakeDone { slot: 8 }))
    ));
    assert_eq!(
        fixture
            .shard
            .metrics()
            .frame_drop_count(frame_drop_variant::REPLICA_HANDSHAKE_ACK, frame_drop_reason::FULL),
        1
    );
}

#[test]
fn maintenance_reaches_only_a_live_partition() {
    let mut shard = alone();
    let clean = || LifecycleFrame::CleanPartition {
        namespace: 7,
        now: 1,
        message_expiry: MessageExpiry::After(5),
        max_bytes: None,
    };
    assert!(matches!(shard.process_lifecycle(clean(), 0), LifecycleStep::Nothing));
    hold(&mut shard, 7, 2);
    assert!(matches!(shard.process_lifecycle(clean(), 0), LifecycleStep::Clean { namespace: 7, .. }));
    let truncate = || LifecycleFrame::TruncatePartition { namespace: 7, up_to_offset: 3 };
    assert!(matches!(
        shard.process_lifecycle(truncate(), 0),
        LifecycleStep::Truncate { up_to_offset: 3, .. }
    ));
    let purge = || LifecycleFrame::PurgePartition { namespace: 7, generation: 4 };
    assert!(matches!(shard.process_lifecycle(purge(), 3), LifecycleStep::Purge { generation: 4, .. }));
    assert!(matches!(shard.process_lifecycle(purge(), 4), LifecycleStep::Nothing));
    shard.fence_partition_for_rebuild(7, false);
    assert!(matches!(shard.process_lifecycle(clean(), 0), LifecycleStep::Nothing));
    assert!(matches!(shard.process_lifecycle(truncate(), 0), LifecycleStep::Nothing));
    assert!(matches!(shard.process_lifecycle(purge(), 0), LifecycleStep::Nothing));
}

fn serve(shard: &mut Shard, namespace: u64) {
    let offer = Rc::new(StateTransferOffer {
        plane: OfferPlane::Partition,
        commit_op: 1,
        manifest: vec![],
        artifacts: vec![],
    });
    shard.serving.open_partition_request(true, namespace, 1, 8, 9);
    shard.serving.close_partition_build(namespace, 1, 8, BuildOutcome::Ready(offer), 1, 1);
}

#[test]
fn removed_segments_invalidate_what_is_served() {
    let mut fixture = fixture(0, 1, 4);
    let shard = &mut fixture.shard;
    serve(shard, 7);
    serve(shard, 8);
    let nothing = SegmentRemoval { segments: 0, budget_spent: false };
    assert!(!shard.after_clean(7, 1, MessageExpiry::Never, None, nothing));
    assert!(!shard.after_truncate(7, 0));
    assert_eq!(shard.serving.offers.len(), 2);
    let some = SegmentRemoval { segments: 2, budget_spent: true };
    assert!(shard.after_clean(7, 1, MessageExpiry::Never, None, some));
    assert_eq!(shard.serving.offers.len(), 1);
    assert!(shard.after_truncate(8, 1));
    assert!(shard.serving.offers.is_empty());
    assert!(matches!(
        fixture.inboxes[0].drain.rx.try_recv(),
        Ok(ShardFrame::Lifecycle(LifecycleFrame::CleanPartition { namespace: 7, .. }))
    ));
}

#[test]
fn purge_is_followed_by_what_it_left() {
    let mut shard = alone();
    for (outcome, followup, served) in [
        (PurgeOutcome::FrontierNotRecorded, PurgeFollowup::Keep, 1),
        (PurgeOutcome::Purged, PurgeFollowup::DropOfferCache, 0),
        (PurgeOutcome::GenerationNotRecorded, PurgeFollowup::DropOfferCache, 0),
        (PurgeOutcome::Unserviceable, PurgeFollowup::Fence, 0),
    ] {
        serve(&mut shard, 7);
        assert_eq!(shard.after_purge(7, outcome), followup);
        assert_eq!(shard.serving.offers.len(), served);
    }
}

#[test]
fn clients_are_gathered_from_every_shard() {
    let mut fixture = fixture(0, 3, 1);
    fixture.inboxes.truncate(2);
    let (tx, rx) = channel::<Vec<ConnectedClientInfo>>(3);
    let mut gather = fixture.shard.ask_for_clients(&tx);
    assert_eq!(gather.expected, 2);
    for inbox in &fixture.inboxes {
        match inbox.drain.rx.try_recv() {
            Ok(ShardFrame::Lifecycle(LifecycleFrame::ListClients { mut reply })) => {
                assert!(reply.try_send(vec![]).is_ok());
            }
            _ => panic!("every live shard is asked"),
        }
    }
    while gather.is_waiting() {
        match rx.drain.rx.try_recv() {
            Ok(batch) => gather.receive(batch),
            Err(_) => panic!("both answers are there"),
        }
    }
    assert!(gather.clients.is_empty());
}

#[test]
fn read_goes_to_the_owning_shard() {
    let mut fixture = fixture(0, 2, 1);
    let read = PartitionRead::ResolveSegmentDeleteOffset { count: 2 };
    let (tx, _rx) = channel::<PartitionReadReply>(1);
    assert_eq!(fixture.shard.send_partition_read(7, read, tx.duplicate()), None);
    fixture.shard.enqueue_reconcile_op(ReconcileOp::InsertRouted { namespace: 7, owner: 1, epoch: 1 });
    fixture.shard.enqueue_reconcile_op(ReconcileOp::InsertRouted { namespace: 8, owner: 9, epoch: 1 });
    fixture.shard.apply_reconcile_ops();
    assert_eq!(fixture.shard.shards_table().shard_for(7), Some(1));
    assert_eq!(fixture.shard.send_partition_read(7, read, tx.duplicate()), Some(1));
    assert_eq!(fixture.shard.send_partition_read(7, read, tx.duplicate()), None);
    assert_eq!(fixture.shard.send_partition_read(8, read, tx), None);
    assert!(matches!(
        fixture.inboxes[1].drain.rx.try_recv(),
        Ok(ShardFrame::Lifecycle(LifecycleFrame::PartitionRead { namespace: 7, .. }))
    ));
}

#[test]
fn initialised_partition_is_held_once() {
    let mut shard = alone();
    assert_eq!(shard.init_partition(7, "a"), None);
    assert_eq!(shard.init_partition(7, "b"), Some("b"));
    assert_eq!(shard.held.partitions.get(7), Some(&"a"));
    assert!(!shard.has_staged_insert_owned(7));
    assert!(!shard.serves_committed_incarnation(Operation::Partition(1), 7, Some(1)));
}
