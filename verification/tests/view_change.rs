use shard::control::VsrAction;
use shard::repair::PrepareRequest;
use shard::view_change::{
    check_pending_view, commit_followup, gate_wire_actions, has_commit_walk, metadata_start_view_followup, partition_start_view_followup,
    persist_batches, repair_toward_merged_log, respond_start_view, superblock_wedged, walks_after_view_change, CommitFollowup,
    CommitOutcome, PendingView, StartViewFollowup, StateTransferStage, PERSIST_FANOUT_MAX,
};
use shard::view_log::{HeaderWindow, MergedLog};
use shard::wire::{dvc_blank, Operation, PrepareHeader};

fn sealed(op: u64) -> PrepareHeader {
    PrepareHeader { operation: Operation::Metadata(1), checksum: u128::from(op) + 1, ..dvc_blank(op) }
}

#[test]
fn zero_bound_never_fires() {
    assert!(!superblock_wedged(u64::MAX, 0));
}

#[test]
fn bound_fires_at_and_past_the_threshold() {
    assert!(!superblock_wedged(119, 120));
    assert!(superblock_wedged(120, 120));
    assert!(superblock_wedged(121, 120));
}

#[test]
fn wire_actions_wait_for_the_persist() {
    let wire = || vec![VsrAction::SendStartViewChange { view: 2, group: 7 }];
    assert!(gate_wire_actions(wire(), false).is_empty());
    assert_eq!(gate_wire_actions(wire(), true).len(), 1);
}

#[test]
fn commit_walk_waits_for_a_transfer() {
    let local = vec![VsrAction::RebuildPipeline { from_op: 1, to_op: 2 }, VsrAction::CommitJournal];
    assert!(has_commit_walk(&local));
    assert!(walks_after_view_change(&local, false));
    assert!(!walks_after_view_change(&local, true));
    assert!(!walks_after_view_change(&vec![], false));
}

#[test]
fn adopted_view_arms_an_awaited_transfer() {
    let local = vec![VsrAction::CommitJournal];
    assert!(matches!(
        metadata_start_view_followup(true, StateTransferStage::AwaitingTarget, true, &local),
        StartViewFollowup::ArmTransfer
    ));
    assert!(matches!(
        metadata_start_view_followup(false, StateTransferStage::AwaitingTarget, true, &local),
        StartViewFollowup::Hold
    ));
    assert!(matches!(
        metadata_start_view_followup(true, StateTransferStage::Idle, false, &local),
        StartViewFollowup::WalkAndRepair { walk: true }
    ));
    assert!(matches!(
        partition_start_view_followup(true, StateTransferStage::AwaitingTarget, true, false, &local),
        StartViewFollowup::Hold
    ));
    assert!(matches!(
        partition_start_view_followup(true, StateTransferStage::AwaitingTarget, true, true, &local),
        StartViewFollowup::ArmTransfer
    ));
}

#[test]
fn commit_is_followed_by_what_it_found() {
    assert!(matches!(commit_followup(CommitOutcome::Advanced, false), CommitFollowup::WalkAndRepair));
    assert!(matches!(commit_followup(CommitOutcome::Advanced, true), CommitFollowup::Nothing));
    assert!(matches!(
        commit_followup(CommitOutcome::RespondStartView, true),
        CommitFollowup::PersistThenStartView
    ));
    assert!(matches!(commit_followup(CommitOutcome::Accepted, false), CommitFollowup::Nothing));
    match respond_start_view(4, 9, 3, 7) {
        VsrAction::SendStartView { view: 4, op: 9, commit: 3, incarnation: 0, target: None, group: 7, suffix } => {
            assert!(suffix.is_empty());
        }
        _ => panic!("a stale commit is answered with a StartView"),
    }
}

#[test]
fn pending_view_starts_once_the_log_is_covered() {
    let log = MergedLog { op_head: 5, commit_max: 4, headers: vec![sealed(5), sealed(4)], committed_elsewhere: vec![] };
    let mut journal = HeaderWindow::new();
    journal.insert(sealed(4));
    assert!(matches!(check_pending_view(true, Some(&log), 0, Some(&journal)), PendingView::Missing(5)));
    assert!(matches!(check_pending_view(false, Some(&log), 0, Some(&journal)), PendingView::Idle));
    assert!(matches!(check_pending_view(true, None, 0, Some(&journal)), PendingView::Idle));
    journal.insert(sealed(5));
    assert!(matches!(check_pending_view(true, Some(&log), 0, Some(&journal)), PendingView::Start));
}

#[test]
fn merged_log_is_repaired_from_its_first_source() {
    let mut session = None;
    assert_eq!(repair_toward_merged_log(&mut session, 3, 9, &vec![], 1), None);
    assert_eq!(
        repair_toward_merged_log(&mut session, 3, 9, &vec![2, 1], 1),
        Some(PrepareRequest { target: 2, nonce: 1, from_op: 3, to_op: 9 })
    );
    assert_eq!(repair_toward_merged_log(&mut session, 3, 9, &vec![2], 1), None);
}

#[test]
fn persists_run_in_bounded_batches() {
    let pending: Vec<u64> = (0..33).collect();
    let batches = persist_batches(&pending);
    assert_eq!(batches.len(), 3);
    assert!(batches.iter().all(|batch| batch.len() <= PERSIST_FANOUT_MAX));
    assert_eq!(batches.concat(), pending);
    assert!(persist_batches(&vec![]).is_empty());
}
