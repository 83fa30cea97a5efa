use shard::channel::{shard_channel, Receiver, TaggedSender};
use shard::frames::{Command, Message, ShardFrame};
use shard::metrics::{frame_drop_reason, frame_drop_variant, ShardMetrics};
use shard::park::{
    parked_footprint, Handover, NamespaceState, ParkBuffer, ParkOutcome, ParkedFrame, MAX_PARKED_BYTES, MAX_PARKED_BYTES_PER_NAMESPACE,
    MAX_PARKED_PASSES, MAX_PARKED_PER_NAMESPACE, MESSAGE_ALIGN,
};
use shard::wire::Operation;

type Handle = u32;

fn message(command: Command, group: u64, len: usize) -> Message {
    Message { command, operation: Operation::Partition(1), group, bytes: vec![7; len] }
}

fn request(group: u64) -> Message {
    message(Command::Request, group, 10)
}

fn prepare(group: u64) -> Message {
    message(Command::Prepare, group, 10)
}

fn park(buffer: &mut ParkBuffer, message: Message, epoch: Option<u64>) -> bool {
    matches!(
        buffer.park_if_unmaterialised(message, NamespaceState::Absent, epoch),
        ParkOutcome::Parked
    )
}

fn lanes(capacity: usize) -> (Vec<TaggedSender<Handle>>, Receiver<ShardFrame<Handle>>) {
    let (tx, rx, _reply) = shard_channel::<Handle>(0, capacity, 1);
    (vec![tx], rx)
}

#[test]
fn footprint_rounds_up_to_whole_buffers() {
    assert_eq!(parked_footprint(0), 0);
    assert_eq!(parked_footprint(1), MESSAGE_ALIGN);
    assert_eq!(parked_footprint(MESSAGE_ALIGN), MESSAGE_ALIGN);
    assert_eq!(parked_footprint(MESSAGE_ALIGN + 1), 2 * MESSAGE_ALIGN);
}

#[test]
fn only_absent_namespaces_park() {
    let mut buffer = ParkBuffer::new();
    assert!(matches!(
        buffer.park_if_unmaterialised(request(1), NamespaceState::Materialised, None),
        ParkOutcome::Deliver(_)
    ));
    assert!(matches!(
        buffer.park_if_unmaterialised(request(1), NamespaceState::Tombstoned, None),
        ParkOutcome::Tombstoned(_)
    ));
    let metadata = Message { operation: Operation::Metadata(3), ..request(1) };
    assert!(matches!(
        buffer.park_if_unmaterialised(metadata, NamespaceState::Absent, None),
        ParkOutcome::Deliver(_)
    ));
    assert!(!buffer.has_parked_partition_frames());
    assert!(park(&mut buffer, request(1), None));
    assert!(buffer.has_parked_partition_frames());
    assert_eq!(buffer.parked_frame_count(1), 1);
    assert_eq!(buffer.bytes, MESSAGE_ALIGN);
}

#[test]
fn parked_frame_comes_back_behind_the_earlier_ones() {
    let mut buffer = ParkBuffer::new();
    assert!(park(&mut buffer, prepare(5), Some(9)));
    assert!(park(&mut buffer, request(5), Some(9)));
    let frames = buffer.take_parked_partition_frames(5).expect("parked");
    assert_eq!(frames.len(), 2);
    assert_eq!(frames[0].message.command, Command::Prepare);
    assert_eq!(frames[1].message.command, Command::Request);
    assert_eq!(frames[1].epoch, Some(9));
    assert_eq!(frames[1].passes, 0);
    assert_eq!(buffer.bytes, 0);
    assert!(buffer.take_parked_partition_frames(5).is_none());
}

#[test]
fn requests_are_capped_per_namespace_and_prepares_are_not() {
    let mut buffer = ParkBuffer::new();
    for _ in 0..MAX_PARKED_PER_NAMESPACE {
        assert!(park(&mut buffer, request(1), None));
    }
    match buffer.park_if_unmaterialised(request(1), NamespaceState::Absent, None) {
        ParkOutcome::Overflow { message, first_shed } => {
            assert_eq!(message.group, 1);
            assert!(first_shed);
        }
        _ => panic!("expected Overflow"),
    }
    assert!(matches!(
        buffer.park_if_unmaterialised(request(1), NamespaceState::Absent, None),
        ParkOutcome::Overflow { first_shed: false, .. }
    ));
    assert!(park(&mut buffer, prepare(1), None));
    assert_eq!(buffer.parked_frame_count(1), MAX_PARKED_PER_NAMESPACE + 1);
}

#[test]
fn request_never_crosses_the_namespace_budget() {
    let mut buffer = ParkBuffer::new();
    let half = (MAX_PARKED_BYTES_PER_NAMESPACE / 2) as usize;
    assert!(park(&mut buffer, message(Command::Request, 1, half), None));
    assert!(!park(&mut buffer, message(Command::Request, 1, half + 1), None));
    assert!(park(&mut buffer, message(Command::Request, 1, half), None));
    assert!(!park(&mut buffer, message(Command::Request, 1, 1), None));
}

#[test]
fn prepare_overshoots_the_namespace_budget_by_one_frame() {
    let mut buffer = ParkBuffer::new();
    let most = (MAX_PARKED_BYTES_PER_NAMESPACE - MESSAGE_ALIGN) as usize;
    assert!(park(&mut buffer, message(Command::Prepare, 1, most), None));
    assert!(park(&mut buffer, message(Command::Prepare, 1, most), None));
    assert!(!park(&mut buffer, message(Command::Prepare, 1, 1), None));
    assert_eq!(buffer.parked_frame_count(1), 2);
}

#[test]
fn oversize_first_frame_is_bounded_by_the_shard_alone() {
    let mut buffer = ParkBuffer::new();
    let big = MAX_PARKED_BYTES_PER_NAMESPACE as usize * 2;
    assert!(park(&mut buffer, message(Command::Request, 1, big), None));
    let rest = (MAX_PARKED_BYTES - 2 * MAX_PARKED_BYTES_PER_NAMESPACE) as usize;
    assert!(!park(&mut buffer, message(Command::Request, 2, rest + 1), None));
    assert!(park(&mut buffer, message(Command::Request, 2, rest), None));
}

#[test]
fn shard_wide_shedding_warns_once_per_episode() {
    let mut buffer = ParkBuffer::new();
    for namespace in 0..4 {
        assert!(park(
            &mut buffer,
            message(Command::Prepare, namespace, MAX_PARKED_BYTES_PER_NAMESPACE as usize),
            None
        ));
    }
    assert_eq!(buffer.bytes, MAX_PARKED_BYTES);
    assert!(matches!(
        buffer.park_if_unmaterialised(request(9), NamespaceState::Absent, None),
        ParkOutcome::Overflow { first_shed: true, .. }
    ));
    assert!(matches!(
        buffer.park_if_unmaterialised(prepare(10), NamespaceState::Absent, None),
        ParkOutcome::Overflow { first_shed: false, .. }
    ));
    assert_eq!(buffer.parked_frame_count(9), 0);
    for namespace in 0..4 {
        assert!(buffer.take_parked_partition_frames(namespace).is_some());
    }
    assert!(!buffer.shedding);
}

#[test]
fn namespaces_are_listed_in_order() {
    let mut buffer = ParkBuffer::new();
    for namespace in [9, 2, 5] {
        assert!(park(&mut buffer, request(namespace), None));
    }
    assert_eq!(buffer.parked_namespaces(), vec![2, 5, 9]);
}

#[test]
fn only_old_requests_expire() {
    let mut buffer = ParkBuffer::new();
    assert!(park(&mut buffer, prepare(1), None));
    assert!(park(&mut buffer, request(1), None));
    for _ in 0..MAX_PARKED_PASSES {
        assert!(buffer.age_parked_partition_frames(1).is_empty());
    }
    let expired = buffer.age_parked_partition_frames(1);
    assert_eq!(expired.len(), 1);
    assert_eq!(expired[0].message.command, Command::Request);
    assert_eq!(expired[0].passes, MAX_PARKED_PASSES + 1);
    for _ in 0..100 {
        assert!(buffer.age_parked_partition_frames(1).is_empty());
    }
    assert_eq!(buffer.parked_frame_count(1), 1);
    assert_eq!(buffer.bytes, MESSAGE_ALIGN);
}

#[test]
fn entry_emptied_by_aging_is_gone() {
    let mut buffer = ParkBuffer::new();
    assert!(park(&mut buffer, request(1), None));
    for _ in 0..MAX_PARKED_PASSES {
        assert!(buffer.age_parked_partition_frames(1).is_empty());
    }
    assert_eq!(buffer.age_parked_partition_frames(1).len(), 1);
    assert!(!buffer.has_parked_partition_frames());
    assert_eq!(buffer.bytes, 0);
    assert!(buffer.age_parked_partition_frames(1).is_empty());
}

#[test]
fn redispatch_serves_the_unstamped_and_the_matching() {
    let mut buffer = ParkBuffer::new();
    let mut metrics = ShardMetrics::for_shard();
    let (mut senders, rx) = lanes(16);
    assert!(park(&mut buffer, prepare(1), None));
    assert!(park(&mut buffer, request(1), Some(7)));
    assert!(park(&mut buffer, request(1), Some(6)));
    assert!(park(&mut buffer, request(1), Some(8)));
    let done = buffer.redispatch_parked_frames(&mut metrics, 1, 7, 0, &mut senders);
    assert!(done.retired.is_empty());
    assert_eq!(done.stale.len(), 2);
    assert_eq!(metrics.partition_frames_rejected_stale_value(), 1);
    assert_eq!(metrics.partition_frames_rejected_ahead_value(), 1);
    assert!(matches!(
        rx.drain.rx.try_recv(),
        Ok(ShardFrame::Consensus { target_shard: 0, message: Message { command: Command::Prepare, .. } })
    ));
    assert!(matches!(
        rx.drain.rx.try_recv(),
        Ok(ShardFrame::Consensus { target_shard: 0, message: Message { command: Command::Request, .. } })
    ));
    assert!(rx.drain.rx.try_recv().is_err());
    assert!(!buffer.has_parked_partition_frames());
}

#[test]
fn redispatch_into_a_full_inbox_holds_the_rest() {
    let mut buffer = ParkBuffer::new();
    let mut metrics = ShardMetrics::for_shard();
    let (mut senders, rx) = lanes(1);
    for _ in 0..3 {
        assert!(park(&mut buffer, prepare(1), None));
    }
    let done = buffer.redispatch_parked_frames(&mut metrics, 1, 7, 0, &mut senders);
    assert!(done.stale.is_empty() && done.retired.is_empty());
    assert_eq!(buffer.parked_frame_count(1), 2);
    assert_eq!(buffer.bytes, 2 * MESSAGE_ALIGN);
    assert_eq!(buffer.reparked.iter().copied().collect::<Vec<u64>>(), vec![1]);
    assert_eq!(metrics.frame_drops_value(), 0);
    assert!(rx.drain.rx.try_recv().is_ok());
    assert_eq!(buffer.take_reparked(), vec![1]);
    assert!(buffer.reparked.is_empty());
    assert_eq!(buffer.parked_frame_count(1), 2);
}

#[test]
fn redispatch_into_a_gone_inbox_retires_the_rest() {
    let mut buffer = ParkBuffer::new();
    let mut metrics = ShardMetrics::for_shard();
    let (mut senders, rx) = lanes(4);
    drop(rx);
    assert!(park(&mut buffer, request(1), None));
    assert!(park(&mut buffer, prepare(1), None));
    let done = buffer.redispatch_parked_frames(&mut metrics, 1, 7, 0, &mut senders);
    assert_eq!(done.retired.len(), 2);
    assert_eq!(
        metrics.frame_drop_count(frame_drop_variant::PARTITION, frame_drop_reason::DISCONNECTED),
        1
    );
    assert!(!buffer.has_parked_partition_frames());
}

#[test]
fn redispatch_without_a_lane_retires_everything_servable() {
    let mut buffer = ParkBuffer::new();
    let mut metrics = ShardMetrics::for_shard();
    assert!(park(&mut buffer, request(1), Some(3)));
    assert!(park(&mut buffer, request(1), None));
    let done = buffer.redispatch_parked_frames::<Handle>(&mut metrics, 1, 7, 0, &mut Vec::new());
    assert_eq!(done.stale.len(), 1);
    assert_eq!(done.retired.len(), 1);
    assert_eq!(metrics.frame_drops_value(), 0);
}

#[test]
fn handover_is_settled_by_what_refused_it() {
    let mut buffer = ParkBuffer::new();
    let mut metrics = ShardMetrics::for_shard();
    let frame = || ParkedFrame { epoch: None, passes: 2, message: request(4) };
    assert!(buffer
        .settle_handover(&mut metrics, 4, Handover { rest: vec![], disconnected: false })
        .is_empty());
    assert!(buffer
        .settle_handover(&mut metrics, 4, Handover { rest: vec![frame()], disconnected: false })
        .is_empty());
    assert_eq!(buffer.parked_frame_count(4), 1);
    let mut gone = ParkBuffer::new();
    let retired = gone.settle_handover(&mut metrics, 4, Handover { rest: vec![frame()], disconnected: true });
    assert_eq!(retired.len(), 1);
    assert_eq!(retired[0].passes, 2);
    assert!(!gone.has_parked_partition_frames());
    assert_eq!(metrics.frame_drops_value(), 1);
}

#[test]
fn several_refused_namespaces_are_retried_in_order() {
    let mut buffer = ParkBuffer::new();
    let mut metrics = ShardMetrics::for_shard();
    let (mut senders, _rx) = lanes(1);
    assert!(park(&mut buffer, prepare(8), None));
    buffer.redispatch_parked_frames(&mut metrics, 8, 7, 0, &mut senders);
    for namespace in [9, 3, 6] {
        assert!(park(&mut buffer, request(namespace), None));
    }
    assert_eq!(buffer.parked_namespaces(), vec![3, 6, 9]);
    for namespace in [9, 3, 6] {
        let done = buffer.redispatch_parked_frames(&mut metrics, namespace, 7, 0, &mut senders);
        assert!(done.retired.is_empty());
    }
    assert_eq!(buffer.parked_namespaces(), vec![3, 6, 9]);
    assert_eq!(buffer.take_reparked(), vec![3, 6, 9]);
    assert!(buffer.take_reparked().is_empty());
    assert_eq!(metrics.frame_drops_value(), 0);
}

#[test]
fn shedding_ends_with_the_last_entry() {
    let mut buffer = ParkBuffer::new();
    assert!(park(&mut buffer, request(1), None));
    assert!(park(&mut buffer, request(2), None));
    buffer.shedding = true;
    for _ in 0..=MAX_PARKED_PASSES {
        buffer.age_parked_partition_frames(1);
    }
    assert_eq!(buffer.parked_namespaces(), vec![2]);
    assert!(buffer.shedding);
    for _ in 0..=MAX_PARKED_PASSES {
        buffer.age_parked_partition_frames(2);
    }
    assert!(!buffer.has_parked_partition_frames());
    assert!(!buffer.shedding);
    assert_eq!(buffer.bytes, 0);
}
