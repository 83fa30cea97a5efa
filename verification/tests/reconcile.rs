use shard::channel::shard_mesh_channels;
use shard::frames::{Command, Message};
use shard::metrics::ShardMetrics;
use shard::park::{NamespaceState, ParkOutcome};
use shard::reconcile::{Materialisation, PartitionLocation, PartitionSet, ReconcileOp, ReconcileOutcome};
use shard::wire::Operation;

type Handle = u32;
type Partition = &'static str;

fn drain(held: &mut Materialisation<Partition>, metrics: &mut ShardMetrics) -> ReconcileOutcome<Partition> {
    held.apply_reconcile_ops::<Handle>(metrics, 3, &mut Vec::new())
}

fn request(group: u64) -> Message {
    Message { command: Command::Request, operation: Operation::Partition(1), group, bytes: vec![1] }
}

fn park(held: &mut Materialisation<Partition>, group: u64, epoch: Option<u64>) {
    assert!(matches!(
        held.parked.park_if_unmaterialised(request(group), NamespaceState::Absent, epoch),
        ParkOutcome::Parked
    ));
}

#[test]
fn owned_insert_holds_and_routes() {
    let mut held = Materialisation::new();
    let mut metrics = ShardMetrics::for_shard();
    held.enqueue_reconcile_op(ReconcileOp::InsertOwned { namespace: 7, partition: "a", epoch: 11 });
    assert!(held.has_staged_insert_owned(7));
    assert!(!held.has_staged_insert_owned(8));
    let outcome = drain(&mut held, &mut metrics);
    assert!(!outcome.wake && outcome.released.is_empty());
    assert!(!held.has_staged_insert_owned(7));
    assert_eq!(held.partitions.get(7), Some(&"a"));
    assert_eq!(held.routes.location(7), Some(PartitionLocation::new(3, 11)));
    assert_eq!(metrics.partitions_materialised_value(), 1);
    assert_eq!(held.namespace_state(7), NamespaceState::Materialised);
}

#[test]
fn live_partition_is_never_replaced() {
    let mut held = Materialisation::new();
    let mut metrics = ShardMetrics::for_shard();
    held.enqueue_reconcile_op(ReconcileOp::InsertOwned { namespace: 7, partition: "first", epoch: 11 });
    held.enqueue_reconcile_op(ReconcileOp::InsertOwned { namespace: 7, partition: "second", epoch: 12 });
    let outcome = drain(&mut held, &mut metrics);
    assert_eq!(outcome.released, vec!["second"]);
    assert_eq!(held.partitions.get(7), Some(&"first"));
    assert_eq!(held.routes.epoch_for(7), Some(11));
    assert_eq!(metrics.partitions_materialised_value(), 1);
}

#[test]
fn tombstone_lifts_only_when_confirmed() {
    let mut held = Materialisation::new();
    let mut metrics = ShardMetrics::for_shard();
    held.enqueue_reconcile_op(ReconcileOp::InsertOwned { namespace: 7, partition: "old", epoch: 1 });
    drain(&mut held, &mut metrics);
    assert!(held.fence_partition_for_rebuild(7, true));
    assert_eq!(held.namespace_state(7), NamespaceState::Tombstoned);
    assert_eq!(held.partitions.get(7), None);
    assert_eq!(held.routes.shard_for(7), None);
    // The retirement is already staged ahead of the new build.
    held.enqueue_reconcile_op(ReconcileOp::InsertOwned { namespace: 7, partition: "new", epoch: 2 });
    let outcome = drain(&mut held, &mut metrics);
    assert!(outcome.wake);
    assert_eq!(outcome.released, vec!["old"]);
    assert_eq!(held.partitions.get(7), Some(&"new"));
    assert_eq!(held.routes.epoch_for(7), Some(2));
    assert_eq!(metrics.partitions_removed_value(), 1);
}

#[test]
fn failed_quarantine_leaves_the_fence_standing() {
    let mut held = Materialisation::new();
    let mut metrics = ShardMetrics::for_shard();
    assert!(!held.fence_partition_for_rebuild(7, false));
    assert!(held.queue.is_empty());
    held.enqueue_reconcile_op(ReconcileOp::InsertOwned { namespace: 7, partition: "new", epoch: 2 });
    let outcome = drain(&mut held, &mut metrics);
    assert_eq!(outcome.released, vec!["new"]);
    assert!(held.partitions.is_tombstoned(7));
    assert!(!held.partitions.contains(7));
    assert_eq!(metrics.partitions_materialised_value(), 0);
}

#[test]
fn removal_is_idempotent_and_wakes_once() {
    let mut held: Materialisation<Partition> = Materialisation::new();
    let mut metrics = ShardMetrics::for_shard();
    held.enqueue_reconcile_op(ReconcileOp::ConfirmRemove { namespace: 1 });
    held.enqueue_reconcile_op(ReconcileOp::ConfirmRemove { namespace: 1 });
    let outcome = drain(&mut held, &mut metrics);
    assert!(outcome.wake);
    assert!(outcome.released.is_empty());
    assert_eq!(metrics.partitions_removed_value(), 2);
    assert!(!drain(&mut held, &mut metrics).wake);
}

#[test]
fn routed_rows_come_and_go() {
    let mut held: Materialisation<Partition> = Materialisation::new();
    let mut metrics = ShardMetrics::for_shard();
    held.enqueue_reconcile_op(ReconcileOp::InsertRouted { namespace: 1, owner: 9, epoch: 4 });
    drain(&mut held, &mut metrics);
    assert_eq!(held.routes.shard_for(1), Some(9));
    assert_eq!(held.namespace_state(1), NamespaceState::Absent);
    held.enqueue_reconcile_op(ReconcileOp::RemoveRouted { namespace: 1 });
    drain(&mut held, &mut metrics);
    assert_eq!(held.routes.shard_for(1), None);
}

#[test]
fn frames_of_a_removed_namespace_are_retired() {
    let mut held: Materialisation<Partition> = Materialisation::new();
    let mut metrics = ShardMetrics::for_shard();
    park(&mut held, 1, Some(4));
    park(&mut held, 2, None);
    held.enqueue_reconcile_op(ReconcileOp::ConfirmRemove { namespace: 1 });
    held.enqueue_reconcile_op(ReconcileOp::RemoveRouted { namespace: 2 });
    let outcome = drain(&mut held, &mut metrics);
    assert_eq!(outcome.retired.len(), 2);
    assert_eq!(outcome.retired[0].message.group, 1);
    assert!(!held.parked.has_parked_partition_frames());
}

#[test]
fn materialising_a_namespace_dispatches_its_frames() {
    let mut held: Materialisation<Partition> = Materialisation::new();
    let mut metrics = ShardMetrics::for_shard();
    let (mut senders, mut inboxes, _replies) = shard_mesh_channels::<Handle>(4, 1, 1);
    let rx = inboxes[3].take().expect("inbox");
    park(&mut held, 1, Some(4));
    park(&mut held, 1, Some(4));
    held.enqueue_reconcile_op(ReconcileOp::InsertOwned { namespace: 1, partition: "p", epoch: 4 });
    let outcome = held.apply_reconcile_ops(&mut metrics, 3, &mut senders);
    assert!(outcome.retired.is_empty() && outcome.stale.is_empty());
    assert_eq!(held.parked.parked_frame_count(1), 1);
    assert!(rx.drain.rx.try_recv().is_ok());
    // The retry needs no staged mutation, only a slot.
    held.apply_reconcile_ops(&mut metrics, 3, &mut senders);
    assert_eq!(held.parked.parked_frame_count(1), 0);
    assert!(rx.drain.rx.try_recv().is_ok());
}

#[test]
fn retry_passes_over_a_fenced_namespace() {
    let mut held: Materialisation<Partition> = Materialisation::new();
    let mut metrics = ShardMetrics::for_shard();
    let (mut senders, _inboxes, _replies) = shard_mesh_channels::<Handle>(4, 1, 1);
    park(&mut held, 1, None);
    park(&mut held, 1, None);
    held.enqueue_reconcile_op(ReconcileOp::InsertOwned { namespace: 1, partition: "p", epoch: 4 });
    held.apply_reconcile_ops(&mut metrics, 3, &mut senders);
    assert_eq!(held.parked.reparked.iter().copied().collect::<Vec<u64>>(), vec![1]);
    held.fence_partition_for_rebuild(1, false);
    held.apply_reconcile_ops(&mut metrics, 3, &mut senders);
    assert!(held.parked.reparked.is_empty());
    assert_eq!(held.parked.parked_frame_count(1), 1);
}

#[test]
fn request_needs_the_committed_incarnation() {
    let mut held: Materialisation<Partition> = Materialisation::new();
    let mut metrics = ShardMetrics::for_shard();
    held.enqueue_reconcile_op(ReconcileOp::InsertOwned { namespace: 1, partition: "p", epoch: 4 });
    drain(&mut held, &mut metrics);
    let partition = Operation::Partition(1);
    assert!(held.serves_committed_incarnation(partition, 1, Some(4)));
    assert!(!held.serves_committed_incarnation(partition, 1, Some(5)));
    assert!(!held.serves_committed_incarnation(partition, 1, None));
    assert!(!held.serves_committed_incarnation(partition, 2, Some(4)));
    assert!(held.serves_committed_incarnation(Operation::Metadata(1), 2, None));
}

#[test]
fn held_namespaces_are_listed_once_and_fenced_ones_too() {
    let mut partitions: PartitionSet<u8> = PartitionSet::new();
    assert!(partitions.namespaces().is_empty());
    partitions.insert(7, 1);
    partitions.insert(3, 2);
    partitions.insert(7, 3);
    partitions.tombstone(3);
    partitions.tombstone(9);
    let mut namespaces = partitions.namespaces();
    namespaces.sort_unstable();
    assert_eq!(namespaces, vec![3, 7]);
}
