use shard::repair::{
    advance_frontier, after_metadata_repair_walk, judge_repair_prepare, maybe_request_metadata_repair, maybe_request_partition_repair, note_metadata_repair_progress,
    on_metadata_range_reply, plan_metadata_serve, plan_partition_serve, retry_stalled_metadata_repair, retry_stalled_partition_repair,
    MetadataIngestState, MetadataRangeStep, MetadataRepairSession, MetadataServeState, PartitionServeState, PrepareRequest, RangeReply,
    RepairGate, RepairIngest, ReplicaStatus, ServeCursor, ServePlan,
};
use shard::view_log::{HeaderWindow, MergedLog};
use shard::wire::{dvc_blank, Operation, PrepareHeader};

fn header(op: u64) -> PrepareHeader {
    PrepareHeader { operation: Operation::Metadata(1), checksum: u128::from(op) + 100, ..dvc_blank(op) }
}

fn window(ops: &[u64]) -> HeaderWindow {
    let mut window = HeaderWindow::new();
    for op in ops {
        window.insert(header(*op));
    }
    window
}

fn serving() -> MetadataServeState {
    MetadataServeState {
        transferring: false,
        status: ReplicaStatus::Normal,
        has_journal: true,
        commit_max: 20,
        head: 25,
        snapshot_op: 9,
    }
}

fn partition() -> PartitionServeState {
    PartitionServeState {
        normal: true,
        committed_purge: 0,
        applied_purge: 0,
        commit_min: 20,
        commit_max: 20,
        retained_from: Some(12),
        purge_floor: 0,
    }
}

fn ingest() -> MetadataIngestState<'static> {
    MetadataIngestState {
        group: 7,
        session_to_op: Some(30),
        is_primary: false,
        commit_min: 10,
        pending: None,
        has_journal: true,
        already_held: false,
    }
}

const GATE: RepairGate = RepairGate { normal: true, transferring: false, commit_min: 10, commit_max: 20 };

#[test]
fn metadata_serve_starts_at_what_is_held() {
    let journal = window(&[10, 11, 12, 13]);
    assert_eq!(
        plan_metadata_serve(&serving(), &journal, 11, 13, 128),
        ServePlan::Serve { evicted_from: None, from_op: 11, chunk_end: 13 }
    );
    assert_eq!(
        plan_metadata_serve(&serving(), &journal, 3, 13, 128),
        ServePlan::Serve { evicted_from: Some(10), from_op: 10, chunk_end: 13 }
    );
    assert_eq!(
        plan_metadata_serve(&serving(), &journal, 10, u64::MAX, 2),
        ServePlan::Serve { evicted_from: None, from_op: 10, chunk_end: 11 }
    );
}

#[test]
fn metadata_serve_reports_an_evicted_range() {
    assert_eq!(
        plan_metadata_serve(&serving(), &window(&[]), 3, 12, 128),
        ServePlan::Evicted { retained_from: 13, done_through: 2 }
    );
}

#[test]
fn replica_that_cannot_vouch_stays_silent() {
    let journal = window(&[10]);
    for state in [
        MetadataServeState { transferring: true, ..serving() },
        MetadataServeState { status: ReplicaStatus::Recovering, ..serving() },
        MetadataServeState { has_journal: false, ..serving() },
    ] {
        assert_eq!(plan_metadata_serve(&state, &journal, 1, 10, 128), ServePlan::Silent);
    }
    assert_eq!(
        plan_partition_serve(&PartitionServeState { normal: false, ..partition() }, 1, 10, 128),
        ServePlan::Silent
    );
}

#[test]
fn partition_serve_respects_the_purge() {
    assert_eq!(
        plan_partition_serve(&PartitionServeState { committed_purge: 1, ..partition() }, 1, 10, 128),
        ServePlan::DeferredByPurge
    );
    assert_eq!(
        plan_partition_serve(&PartitionServeState { purge_floor: 15, ..partition() }, 13, 30, 128),
        ServePlan::Serve { evicted_from: Some(16), from_op: 16, chunk_end: 20 }
    );
    assert_eq!(
        plan_partition_serve(&PartitionServeState { retained_from: None, ..partition() }, 5, 30, 128),
        ServePlan::Serve { evicted_from: Some(21), from_op: 21, chunk_end: 20 }
    );
}

#[test]
fn serve_cursor_reports_only_what_went_out() {
    let mut cursor = ServeCursor::new(5, 7);
    assert_eq!(cursor.pending(), Some(5));
    cursor.record(true);
    assert_eq!(cursor.pending(), Some(6));
    cursor.record(false);
    assert_eq!(cursor.pending(), None);
    assert_eq!(cursor.served_through(), 5);
}

#[test]
fn prepares_are_ingested_by_their_own_plane() {
    let mut metadata = header(12);
    metadata.group = 7;
    assert_eq!(
        judge_repair_prepare(Some(ingest()), false, &metadata, true),
        RepairIngest::JournalMetadata
    );
    assert_eq!(
        judge_repair_prepare(Some(ingest()), false, &metadata, false),
        RepairIngest::Discard
    );
    let mut partition = metadata;
    partition.group = 8;
    partition.operation = Operation::Partition(1);
    assert_eq!(
        judge_repair_prepare(Some(ingest()), true, &partition, true),
        RepairIngest::ApplyPartition
    );
    assert_eq!(
        judge_repair_prepare(None, true, &partition, false),
        RepairIngest::Discard
    );
    assert_eq!(judge_repair_prepare(None, false, &partition, true), RepairIngest::Ignore);
    let mut stray = partition;
    stray.operation = Operation::Metadata(1);
    assert_eq!(judge_repair_prepare(None, true, &stray, true), RepairIngest::Ignore);
}

#[test]
fn prepares_outside_the_session_are_ignored() {
    let mut late = header(31);
    late.group = 7;
    assert_eq!(judge_repair_prepare(Some(ingest()), false, &late, true), RepairIngest::Ignore);
    let mut early = header(10);
    early.group = 7;
    assert_eq!(judge_repair_prepare(Some(ingest()), false, &early, true), RepairIngest::Ignore);
    let mut fine = header(12);
    fine.group = 7;
    let unasked = MetadataIngestState { session_to_op: None, ..ingest() };
    assert_eq!(judge_repair_prepare(Some(unasked), false, &fine, true), RepairIngest::Ignore);
    let held = MetadataIngestState { already_held: true, ..ingest() };
    assert_eq!(judge_repair_prepare(Some(held), false, &fine, true), RepairIngest::Ignore);
}

#[test]
fn prepare_that_disagrees_with_the_view_is_discarded() {
    let log = MergedLog { op_head: 12, commit_max: 10, headers: vec![header(12)], committed_elsewhere: vec![] };
    let state = MetadataIngestState { pending: Some(&log), ..ingest() };
    let mut wrong = header(12);
    wrong.group = 7;
    wrong.checksum = 1;
    assert_eq!(judge_repair_prepare(Some(state), false, &wrong, true), RepairIngest::Discard);
}

#[test]
fn frontier_stops_at_the_first_hole() {
    assert_eq!(advance_frontier(&window(&[4, 5, 7]), 3), 5);
    assert_eq!(advance_frontier(&window(&[4, 5, 7]), 5), 5);
    assert_eq!(advance_frontier(&window(&[]), 9), 9);
}

#[test]
fn repair_is_asked_for_once_while_behind() {
    let mut session = None;
    assert_eq!(
        maybe_request_metadata_repair(&mut session, &GATE, 2, 8),
        Some(PrepareRequest { target: 2, nonce: 8, from_op: 11, to_op: 20 })
    );
    assert_eq!(maybe_request_metadata_repair(&mut session, &GATE, 2, 9), None);
    let mut partition = None;
    let caught_up = RepairGate { commit_min: 20, ..GATE };
    assert_eq!(maybe_request_partition_repair(&mut partition, &caught_up, 2, 8), None);
    let transferring = RepairGate { transferring: true, ..GATE };
    assert_eq!(maybe_request_partition_repair(&mut partition, &transferring, 2, 8), None);
    assert!(maybe_request_partition_repair(&mut partition, &GATE, 2, 8).is_some());
}

#[test]
fn metadata_range_reply_converts_only_when_idle() {
    let live = MetadataRepairSession { nonce: 8, to_op: 20, peer: 2, idle_ticks: 0 };
    let mut session = Some(live);
    assert_eq!(
        on_metadata_range_reply(&mut session, 9, RangeReply::RangeEvicted, true),
        MetadataRangeStep::Ignore
    );
    assert_eq!(
        on_metadata_range_reply(&mut session, 8, RangeReply::RangeEvicted, false),
        MetadataRangeStep::Ignore
    );
    assert_eq!(
        on_metadata_range_reply(&mut session, 8, RangeReply::RepairDone, false),
        MetadataRangeStep::WalkJournal
    );
    assert_eq!(
        on_metadata_range_reply(&mut session, 8, RangeReply::RangeEvicted, true),
        MetadataRangeStep::ConvertToTransfer
    );
    assert!(session.is_none());
}

#[test]
fn walk_asks_for_the_rest_only_on_progress() {
    let live = MetadataRepairSession { nonce: 8, to_op: 20, peer: 2, idle_ticks: 0 };
    let mut session = Some(live);
    assert_eq!(
        after_metadata_repair_walk(&mut session, 10, 15),
        Some(PrepareRequest { target: 2, nonce: 8, from_op: 16, to_op: 20 })
    );
    assert_eq!(after_metadata_repair_walk(&mut session, 15, 15), None);
    assert!(session.is_some());
    assert_eq!(after_metadata_repair_walk(&mut session, 15, 20), None);
    assert!(session.is_none());
}

#[test]
fn stalled_repair_is_asked_for_again() {
    let live = MetadataRepairSession { nonce: 8, to_op: 20, peer: 2, idle_ticks: 0 };
    let mut session = Some(live);
    assert_eq!(retry_stalled_metadata_repair(&mut session, true, false, None, 12, 2), None);
    assert_eq!(
        retry_stalled_metadata_repair(&mut session, true, false, None, 12, 2),
        Some(PrepareRequest { target: 2, nonce: 8, from_op: 13, to_op: 20 })
    );
    assert_eq!(retry_stalled_metadata_repair(&mut session, false, false, None, 12, 1), None);
    let log = MergedLog { op_head: 20, commit_max: 0, headers: vec![], committed_elsewhere: vec![] };
    assert_eq!(
        retry_stalled_metadata_repair(&mut session, false, true, Some(&log), 12, 1),
        Some(PrepareRequest { target: 2, nonce: 8, from_op: 1, to_op: 20 })
    );
    let mut nothing = None;
    assert_eq!(retry_stalled_partition_repair(&mut nothing, true, 1, 1), None);
}

#[test]
fn progress_starts_the_stall_count_over() {
    let live = MetadataRepairSession { nonce: 8, to_op: 20, peer: 2, idle_ticks: 0 };
    let mut session = Some(live);
    assert_eq!(retry_stalled_metadata_repair(&mut session, true, false, None, 12, 2), None);
    note_metadata_repair_progress(&mut session);
    assert_eq!(session, Some(live));
    assert_eq!(retry_stalled_metadata_repair(&mut session, true, false, None, 12, 2), None);
    assert!(after_metadata_repair_walk(&mut session, 12, 14).is_some());
    assert_eq!(session, Some(live));
    assert_eq!(retry_stalled_metadata_repair(&mut session, true, false, None, 14, 2), None);
    assert!(retry_stalled_metadata_repair(&mut session, true, false, None, 14, 2).is_some());
}
