use shard::partition_transfer::{
    count_refusal, decide_install, next_transfer_peer, offer_predates_purge, partition_transfers_inflight, pick_offsets_artifact, refusal_escalates,
    settle_stalled_transfer, transfer_rearm_backoff, ArmOutcome, InstallOutcome, InstallStep, LocalProgress, PartitionProgress,
    PartitionRangeStep, PartitionRecovery, PendingTransferRearm, RearmSweep, RepairConclusion, RepairFollowup, Ring, StalledTransfer,
    TargetVerdict, TransferArtifact, PARTITION_TRANSFERS_INFLIGHT_MAX,
};
use shard::metrics::ShardMetrics;
use shard::repair::{PrepareRequest, RangeReply, RepairSession};
use shard::serving::{ArtifactKind, StateArtifact, TargetFields};
use shard::transfer::{StallStep, StateTransferRequest, TargetHeader};
use shard::view_change::StateTransferStage;

fn ring(self_id: u8, replica_count: u8, primary: u8) -> Ring {
    Ring { self_id, replica_count, primary }
}

fn segment(len: u64) -> StateArtifact {
    StateArtifact { kind: ArtifactKind::SegmentLog, len, checksum: 3, frontier: 0 }
}

fn offsets() -> StateArtifact {
    StateArtifact { kind: ArtifactKind::ConsumerOffsets, len: 8, checksum: 4, frontier: 41 }
}

fn header(nonce: u128, fields: TargetFields) -> TargetHeader {
    TargetHeader { replica: 1, nonce, fields }
}

fn fields() -> TargetFields {
    TargetFields { available: 1, commit_op: 41, view: 3, commit_max: 50, unavailable_transient: 0 }
}

const LOCAL: LocalProgress = LocalProgress { view: 3, commit_max: 40, primary: 1 };

fn armed(nonce: u128) -> PartitionRecovery {
    let mut recovery = PartitionRecovery::new();
    recovery.stage = StateTransferStage::AwaitingTarget;
    recovery.arm_partition_transfer(1, 0, nonce, 5);
    recovery
}

fn repairing() -> PartitionRecovery {
    let mut recovery = PartitionRecovery::new();
    recovery.repair = Some(RepairSession {
        nonce: 6,
        to_op: 30,
        floor: None,
        peer: 2,
        first_batch_offset: None,
        idle_ticks: 0,
    });
    recovery
}

#[test]
fn rotation_prefers_the_primary() {
    assert_eq!(next_transfer_peer(&ring(0, 3, 2), 1), 2);
    assert_eq!(next_transfer_peer(&ring(0, 3, 1), 1), 2);
    assert_eq!(next_transfer_peer(&ring(2, 3, 2), 1), 0);
    assert_eq!(next_transfer_peer(&ring(0, 3, 0), 2), 1);
}

#[test]
fn rotation_in_a_pair_keeps_the_only_peer() {
    assert_eq!(next_transfer_peer(&ring(0, 2, 1), 1), 1);
    assert_eq!(next_transfer_peer(&ring(0, 1, 0), 4), 4);
}

#[test]
fn backoff_doubles_to_its_ceiling() {
    assert_eq!(transfer_rearm_backoff(3, 0), 3);
    assert_eq!(transfer_rearm_backoff(3, 4), 48);
    assert_eq!(transfer_rearm_backoff(3, 10), 3072);
    assert_eq!(transfer_rearm_backoff(3, 99), 3072);
    assert_eq!(transfer_rearm_backoff(u32::MAX, 1), u32::MAX);
}

#[test]
fn refusals_escalate_every_tenth_time() {
    assert!(!refusal_escalates(0));
    assert!(!refusal_escalates(9));
    assert!(refusal_escalates(10));
    assert!(!refusal_escalates(11));
    assert!(refusal_escalates(20));
}

#[test]
fn arming_respects_the_cap() {
    let mut recovery = repairing();
    recovery.stage = StateTransferStage::AwaitingTarget;
    assert_eq!(
        recovery.arm_partition_transfer(1, PARTITION_TRANSFERS_INFLIGHT_MAX, 9, 5),
        ArmOutcome::Deferred
    );
    assert!(recovery.transfer.is_none() && recovery.repair.is_some());
    assert_eq!(recovery.transfer_rearm, Some(PendingTransferRearm { peer: 1, after_ticks: 5 }));
    assert!(matches!(recovery.stage, StateTransferStage::Idle));
    assert_eq!(
        recovery.arm_partition_transfer(1, PARTITION_TRANSFERS_INFLIGHT_MAX - 1, 9, 5),
        ArmOutcome::Armed { fresh: true, request: StateTransferRequest { target: 1, nonce: 9 } }
    );
    assert!(recovery.repair.is_none());
    assert!(!recovery.may_arm());
}

#[test]
fn scheduled_rearm_keeps_an_idle_group_from_arming() {
    let mut recovery = PartitionRecovery::new();
    assert!(recovery.may_arm());
    recovery.transfer_rearm = Some(PendingTransferRearm { peer: 1, after_ticks: 3 });
    assert!(!recovery.may_arm());
    recovery.stage = StateTransferStage::AwaitingTarget;
    assert!(recovery.may_arm());
    recovery.stage = StateTransferStage::Installing;
    recovery.transfer_rearm = None;
    assert!(!recovery.may_arm());
}

#[test]
fn refusals_are_counted_and_own_failures_are_not() {
    let mut metrics = ShardMetrics::for_shard();
    count_refusal(&mut metrics, &TargetVerdict::Refused { rotate: false });
    count_refusal(&mut metrics, &TargetVerdict::Failed { refused: true });
    assert_eq!(metrics.partition_transfer_refusals_value(), 2);
    count_refusal(&mut metrics, &TargetVerdict::Failed { refused: false });
    count_refusal(&mut metrics, &TargetVerdict::Accept);
    count_refusal(&mut metrics, &TargetVerdict::Ignore);
    assert_eq!(metrics.partition_transfer_refusals_value(), 2);
}

#[test]
fn sweep_counts_once_and_carries_forward() {
    let mut sweep = RearmSweep::new();
    let due = || {
        let mut recovery = PartitionRecovery::new();
        recovery.transfer_rearm = Some(PendingTransferRearm { peer: 1, after_ticks: 0 });
        recovery
    };
    let mut first = due();
    assert!(matches!(
        sweep.visit(&mut first, PARTITION_TRANSFERS_INFLIGHT_MAX - 1, 9, 5),
        Some(ArmOutcome::Armed { fresh: true, .. })
    ));
    assert!(matches!(first.stage, StateTransferStage::AwaitingTarget));
    let mut second = due();
    assert_eq!(sweep.visit(&mut second, 0, 9, 5), Some(ArmOutcome::Deferred));
    assert!(matches!(second.stage, StateTransferStage::Idle));
    let mut waiting = PartitionRecovery::new();
    waiting.transfer_rearm = Some(PendingTransferRearm { peer: 1, after_ticks: 2 });
    assert_eq!(sweep.visit(&mut waiting, 0, 9, 5), None);
    assert_eq!(waiting.transfer_rearm, Some(PendingTransferRearm { peer: 1, after_ticks: 1 }));
    assert_eq!(partition_transfers_inflight(&vec![first, second, waiting]), 1);
}

#[test]
fn offer_is_judged_by_what_it_claims() {
    let recovery = armed(9);
    let manifest = vec![segment(10), offsets()];
    let judge = |header: TargetHeader, manifest: Option<&Vec<StateArtifact>>| {
        recovery.judge_target(true, &header, &LOCAL, manifest, 100)
    };
    assert_eq!(judge(header(9, fields()), Some(&manifest)), TargetVerdict::Accept);
    assert_eq!(judge(header(8, fields()), Some(&manifest)), TargetVerdict::Ignore);
    assert_eq!(judge(header(9, fields()), None), TargetVerdict::Ignore);
    assert_eq!(
        judge(header(9, TargetFields { commit_op: 51, ..fields() }), Some(&manifest)),
        TargetVerdict::Failed { refused: false }
    );
    assert_eq!(
        judge(header(9, TargetFields { view: 2, ..fields() }), Some(&manifest)),
        TargetVerdict::Refused { rotate: true }
    );
    assert_eq!(
        judge(header(9, TargetFields { commit_op: 30, commit_max: 39, ..fields() }), Some(&manifest)),
        TargetVerdict::Refused { rotate: true }
    );
    let refused = TargetFields { available: 0, unavailable_transient: 1, ..fields() };
    assert_eq!(judge(header(9, refused), None), TargetVerdict::Refused { rotate: false });
    let failed = TargetFields { available: 0, unavailable_transient: 0, ..fields() };
    assert_eq!(judge(header(9, failed), None), TargetVerdict::Failed { refused: true });
    assert_eq!(
        recovery.judge_target(false, &header(9, fields()), &LOCAL, Some(&manifest), 100),
        TargetVerdict::Ignore
    );
    assert_eq!(
        recovery.judge_target(true, &header(9, fields()), &LOCAL, Some(&manifest), 9),
        TargetVerdict::Ignore
    );
}

#[test]
fn segments_spill_before_the_install() {
    let mut recovery = armed(9);
    let manifest = vec![segment(10), segment(20), offsets()];
    assert!(recovery.accept_target(9, 41, &manifest, &vec![1]));
    assert!(matches!(recovery.stage, StateTransferStage::Fetching));
    assert!(recovery.expects_chunk(9, 1));
    assert!(!recovery.expects_chunk(9, 2));
    assert!(matches!(
        recovery.on_partition_transfer_progress(&vec![false, true, false]),
        PartitionProgress::RequestChunk
    ));
    match recovery.on_partition_transfer_progress(&vec![true, true, false]) {
        PartitionProgress::Spill { index, entry, peer, nonce } => {
            assert_eq!((index, entry.len, peer, nonce), (0, 10, 1, 9));
        }
        _ => panic!("a finished segment spills first"),
    }
    recovery.segment_staged(9, 0);
    assert!(matches!(
        recovery.on_partition_transfer_progress(&vec![true, true, false]),
        PartitionProgress::RequestChunk
    ));
    match recovery.on_partition_transfer_progress(&vec![true, true, true]) {
        PartitionProgress::Install(session) => assert_eq!(session.commit_op, 41),
        _ => panic!("a complete set is installed"),
    }
    assert!(recovery.transfer.is_none());
}

#[test]
fn stale_session_is_not_opened() {
    let mut recovery = armed(9);
    assert!(!recovery.accept_target(8, 41, &vec![segment(1)], &vec![]));
    recovery.stage = StateTransferStage::Idle;
    assert!(matches!(
        recovery.on_partition_transfer_progress(&vec![]),
        PartitionProgress::Dropped
    ));
}

#[test]
fn install_outcomes_are_settled_apart() {
    let mut recovery = armed(9);
    recovery.transfer_rearm = Some(PendingTransferRearm { peer: 1, after_ticks: 2 });
    assert_eq!(
        recovery.settle_install(InstallOutcome::ConvergeFailed { frontier: 12 }),
        InstallStep::Fence { frontier: 12 }
    );
    assert_eq!(recovery.settle_install(InstallOutcome::Failed), InstallStep::Failed);
    assert!(recovery.transfer_rearm.is_some());
    assert_eq!(recovery.settle_install(InstallOutcome::Installed), InstallStep::WalkAndRepair);
    assert!(recovery.transfer_rearm.is_none());
}

#[test]
fn failure_backs_off_and_rotates_while_a_refusal_only_waits() {
    let mut recovery = armed(9);
    recovery.abandon_or_rearm_partition_transfer(1, 2, 5, &ring(0, 3, 1));
    assert_eq!(recovery.transfer_rearm, Some(PendingTransferRearm { peer: 2, after_ticks: 20 }));
    assert!(recovery.transfer.is_none());
    recovery.rearm_partition_transfer_after_refusal(1, false, 5, &ring(0, 3, 1));
    assert_eq!(recovery.transfer_rearm, Some(PendingTransferRearm { peer: 1, after_ticks: 5 }));
}

#[test]
fn stalled_transfer_asks_again_or_gives_up() {
    let mut recovery = armed(9);
    assert_eq!(recovery.tick_transfer(2), None);
    let stalled = recovery.tick_transfer(2).expect("stalled");
    assert_eq!(stalled, StalledTransfer { peer: 1, nonce: 9, target_accepted: false });
    assert!(matches!(
        settle_stalled_transfer(&stalled, false),
        StallStep::RequestTarget(StateTransferRequest { target: 1, nonce: 9 })
    ));
    assert!(matches!(settle_stalled_transfer(&stalled, true), StallStep::Abandon));
    let accepted = StalledTransfer { target_accepted: true, ..stalled };
    assert!(matches!(settle_stalled_transfer(&accepted, false), StallStep::RequestChunk));
}

#[test]
fn superseded_rearm_is_dropped() {
    let mut recovery = armed(9);
    recovery.transfer_rearm = Some(PendingTransferRearm { peer: 1, after_ticks: 0 });
    assert_eq!(recovery.tick_rearm(), None);
    assert!(recovery.transfer_rearm.is_none());
}

#[test]
fn range_reply_waits_for_a_committed_purge() {
    let mut recovery = repairing();
    assert_eq!(
        recovery.on_range_reply(7, RangeReply::RepairDone, 0, 0, 0),
        PartitionRangeStep::Ignore
    );
    assert_eq!(
        recovery.on_range_reply(6, RangeReply::RepairDone, 0, 2, 1),
        PartitionRangeStep::Deferred
    );
    assert_eq!(
        recovery.on_range_reply(6, RangeReply::RangeEvicted, 12, 2, 2),
        PartitionRangeStep::FloorNoted
    );
    assert_eq!(recovery.repair.expect("repair").floor, Some(11));
    assert_eq!(
        recovery.on_range_reply(6, RangeReply::RepairDone, 0, 2, 2),
        PartitionRangeStep::CompleteRepair
    );
}

#[test]
fn repair_settles_by_its_conclusion() {
    let mut partial = repairing();
    assert_eq!(
        partial.settle_repair(RepairConclusion::Partial, 10, 12, true),
        RepairFollowup::RequestNext(PrepareRequest { target: 2, nonce: 6, from_op: 13, to_op: 30 })
    );
    assert_eq!(
        partial.settle_repair(RepairConclusion::Partial, 12, 12, true),
        RepairFollowup::Nothing
    );
    assert_eq!(
        partial.settle_repair(RepairConclusion::Complete, 12, 30, true),
        RepairFollowup::Nothing
    );
    assert!(partial.repair.is_none());
    let mut refused = repairing();
    assert_eq!(
        refused.settle_repair(RepairConclusion::FloorRefused, 1, 1, true),
        RepairFollowup::ArmTransfer
    );
    assert!(matches!(refused.stage, StateTransferStage::AwaitingTarget));
    let mut unknown = repairing();
    assert_eq!(
        unknown.settle_repair(RepairConclusion::FloorRefused, 1, 1, false),
        RepairFollowup::Nothing
    );
}

#[test]
fn only_a_verified_table_of_the_frontier_is_installed() {
    let artifacts = vec![TransferArtifact::Staged(segment(3)), TransferArtifact::Pending(offsets())];
    let intact = vec![0, offsets().checksum];
    let damaged = vec![0, offsets().checksum.wrapping_add(1)];
    assert_eq!(pick_offsets_artifact(&artifacts, &intact, 41), Some(1));
    assert_eq!(pick_offsets_artifact(&artifacts, &damaged, 41), None);
    assert_eq!(pick_offsets_artifact(&artifacts, &intact, 40), None);
    let twice = vec![TransferArtifact::Pending(offsets()), TransferArtifact::Pending(offsets())];
    assert_eq!(pick_offsets_artifact(&twice, &vec![offsets().checksum; 2], 41), None);
}

#[test]
fn highest_peer_id_walks_the_ring_too() {
    assert_eq!(next_transfer_peer(&ring(0, 3, 0), 255), 1);
    assert_eq!(next_transfer_peer(&ring(1, 3, 1), 255), 2);
    assert_eq!(next_transfer_peer(&ring(0, 3, 2), 255), 2);
    assert_eq!(next_transfer_peer(&ring(254, 255, 254), 255), 1);
}

#[test]
fn install_is_decided_by_bytes_frontier_and_purge() {
    let artifacts = vec![TransferArtifact::Staged(segment(3)), TransferArtifact::Pending(offsets())];
    let intact = vec![0, offsets().checksum];
    let damaged = vec![offsets().checksum, 0];
    assert_eq!(decide_install(&artifacts, &intact, 41, 5, 5), Some(1));
    assert_eq!(decide_install(&artifacts, &intact, 41, 6, 5), Some(1));
    assert_eq!(decide_install(&artifacts, &intact, 41, 4, 5), None);
    assert_eq!(decide_install(&artifacts, &damaged, 41, 5, 5), None);
    assert_eq!(decide_install(&artifacts, &intact, 42, 5, 5), None);
    let unstaged = vec![TransferArtifact::Pending(segment(3)), TransferArtifact::Pending(offsets())];
    let matching = vec![segment(3).checksum, offsets().checksum];
    assert_eq!(decide_install(&unstaged, &matching, 41, 5, 5), None);
}

#[test]
fn offer_of_an_older_purge_is_seen() {
    assert!(offer_predates_purge(1, 2));
    assert!(!offer_predates_purge(2, 2));
}
