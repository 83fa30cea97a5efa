use shard::serving::{ArtifactKind, StateArtifact, TargetFields};
use shard::transfer::{
    declared_len, pick_metadata_artifacts, DecodeFailureStep, MetadataProgress, MetadataTargetStep, MetadataTransfer, StallStep,
    StateChunkAsk, StateTransferRequest, TargetHeader, METADATA_ARTIFACT_LEN_MAX,
};
use shard::view_change::StateTransferStage;

fn entry(kind: ArtifactKind, len: u64, checksum: u64, frontier: u64) -> StateArtifact {
    StateArtifact { kind, len, checksum, frontier }
}

fn manifest() -> Vec<StateArtifact> {
    vec![
        entry(ArtifactKind::MetadataSnapshot, 10, 1, 40),
        entry(ArtifactKind::ClientTable, 5, 2, 0),
    ]
}

fn header(nonce: u128, available: u8) -> TargetHeader {
    TargetHeader {
        replica: 2,
        nonce,
        fields: TargetFields { available, commit_op: 41, view: 3, commit_max: 50, unavailable_transient: 0 },
    }
}

fn fetching() -> (MetadataTransfer, StateTransferStage) {
    let mut transfer = MetadataTransfer::new();
    let mut stage = StateTransferStage::AwaitingTarget;
    transfer.arm(2, 7);
    assert!(matches!(
        transfer.on_state_transfer_target(&mut stage, &header(7, 1), Some(manifest()), 3),
        MetadataTargetStep::Fetch
    ));
    (transfer, stage)
}

#[test]
fn accepted_target_opens_the_fetch() {
    let (transfer, stage) = fetching();
    assert!(matches!(stage, StateTransferStage::Fetching));
    let session = transfer.session.as_ref().expect("armed");
    assert_eq!(session.commit_op, 41);
    assert_eq!(session.generation, 40);
    assert!(transfer.expects_chunk(7));
    assert!(!transfer.expects_chunk(8));
    assert_eq!(
        transfer.request_pending_state_chunk(Some((0, 3, 9))),
        Some(StateChunkAsk { target: 2, nonce: 7, artifact: 0, offset: 3, len: 9 })
    );
}

#[test]
fn unavailable_target_falls_back_to_repair() {
    let mut transfer = MetadataTransfer::new();
    let mut stage = StateTransferStage::AwaitingTarget;
    transfer.arm(2, 7);
    assert!(matches!(
        transfer.on_state_transfer_target(&mut stage, &header(6, 0), None, 3),
        MetadataTargetStep::Ignore
    ));
    assert!(matches!(
        transfer.on_state_transfer_target(&mut stage, &header(7, 0), None, 3),
        MetadataTargetStep::FallBack { peer: 2 }
    ));
    assert!(transfer.session.is_none());
    assert!(matches!(stage, StateTransferStage::Idle));
}

#[test]
fn oversize_or_unreadable_manifest_is_ignored() {
    let mut transfer = MetadataTransfer::new();
    let mut stage = StateTransferStage::AwaitingTarget;
    transfer.arm(2, 7);
    let mut big = manifest();
    big[0].len = METADATA_ARTIFACT_LEN_MAX + 1;
    let no_snapshot = vec![entry(ArtifactKind::ClientTable, 5, 2, 0)];
    for manifest in [None, Some(big), Some(no_snapshot)] {
        assert!(matches!(
            transfer.on_state_transfer_target(&mut stage, &header(7, 1), manifest, 3),
            MetadataTargetStep::Ignore
        ));
    }
    assert!(matches!(stage, StateTransferStage::AwaitingTarget));
}

#[test]
fn complete_set_is_installed_and_cleared() {
    let (mut transfer, mut stage) = fetching();
    assert!(matches!(
        transfer.on_transfer_progress(stage, false),
        MetadataProgress::RequestChunk
    ));
    match transfer.on_transfer_progress(stage, true) {
        MetadataProgress::Install(session) => assert_eq!(session.artifacts.len(), 2),
        _ => panic!("a complete set is installed"),
    }
    transfer.settle_install(&mut stage, true);
    assert!(matches!(stage, StateTransferStage::Idle));
    assert!(transfer.session.is_none());
}

#[test]
fn progress_outside_the_fetch_drops_the_session() {
    let (mut transfer, _) = fetching();
    assert!(matches!(
        transfer.on_transfer_progress(StateTransferStage::Idle, true),
        MetadataProgress::Dropped
    ));
    assert!(matches!(
        transfer.on_transfer_progress(StateTransferStage::Fetching, true),
        MetadataProgress::Nothing
    ));
}

#[test]
fn exhausted_generation_is_refused_and_a_new_one_is_not() {
    let mut transfer = MetadataTransfer::new();
    let mut stage = StateTransferStage::Fetching;
    for attempt in 0..3 {
        match transfer.on_undecodable(&mut stage, 2, 40, 7, 3) {
            DecodeFailureStep::Restart(request) => assert_eq!(request, StateTransferRequest { target: 2, nonce: 7 }),
            DecodeFailureStep::FallBack => panic!("attempt {attempt} is within the budget"),
        }
    }
    assert!(matches!(
        transfer.on_undecodable(&mut stage, 2, 40, 7, 3),
        DecodeFailureStep::FallBack
    ));
    assert!(matches!(stage, StateTransferStage::Idle));
    assert!(transfer.decode_budget_exhausted(40, 3));
    assert!(!transfer.decode_budget_exhausted(41, 3));
    transfer.arm(2, 9);
    let mut stage = StateTransferStage::AwaitingTarget;
    assert!(matches!(
        transfer.on_state_transfer_target(&mut stage, &header(9, 1), Some(manifest()), 3),
        MetadataTargetStep::Ignore
    ));
    let mut newer = manifest();
    newer[0].frontier = 41;
    assert!(matches!(
        transfer.on_state_transfer_target(&mut stage, &header(9, 1), Some(newer), 3),
        MetadataTargetStep::Fetch
    ));
}

#[test]
fn stalls_are_bounded_and_chunks_reset_them() {
    let (mut transfer, mut stage) = fetching();
    assert!(matches!(transfer.tick(&mut stage, 2, 2), StallStep::Quiet));
    assert!(matches!(transfer.tick(&mut stage, 2, 2), StallStep::RequestChunk));
    assert_eq!(transfer.attempts, 1);
    transfer.chunk_appended();
    assert_eq!(transfer.attempts, 0);
    for _ in 0..2 {
        assert!(matches!(transfer.tick(&mut stage, 1, 2), StallStep::RequestChunk));
    }
    assert!(matches!(transfer.tick(&mut stage, 1, 2), StallStep::Abandon));
    assert!(transfer.session.is_none());
    assert!(matches!(stage, StateTransferStage::Idle));
}

#[test]
fn stalled_descriptor_is_asked_for_again() {
    let mut transfer = MetadataTransfer::new();
    let mut stage = StateTransferStage::AwaitingTarget;
    assert!(matches!(transfer.tick(&mut stage, 1, 2), StallStep::Quiet));
    let request = transfer.convert_from_repair(&mut stage, 2, 7);
    assert_eq!(request, StateTransferRequest { target: 2, nonce: 7 });
    match transfer.tick(&mut stage, 1, 2) {
        StallStep::RequestTarget(again) => assert_eq!(again, request),
        _ => panic!("the descriptor is asked for again"),
    }
}

#[test]
fn damaged_metadata_is_never_picked() {
    let artifacts = manifest();
    assert_eq!(pick_metadata_artifacts(&artifacts, &vec![1, 2]), Some((0, 1)));
    assert_eq!(pick_metadata_artifacts(&artifacts, &vec![1, 3]), None);
    assert_eq!(pick_metadata_artifacts(&artifacts, &vec![9, 2]), None);
}

#[test]
fn declared_length_saturates() {
    assert_eq!(declared_len(&manifest()), 15);
    let huge = vec![
        entry(ArtifactKind::SegmentLog, u64::MAX, 1, 0),
        entry(ArtifactKind::SegmentLog, 2, 1, 0),
    ];
    assert_eq!(declared_len(&huge), u64::MAX);
}

#[test]
fn full_failure_count_stays_full_and_falls_back() {
    let mut transfer = MetadataTransfer::new();
    let mut stage = StateTransferStage::Fetching;
    transfer.decode_failures = Some((40, u32::MAX));
    assert!(matches!(
        transfer.on_undecodable(&mut stage, 2, 40, 7, 3),
        DecodeFailureStep::FallBack
    ));
    assert_eq!(transfer.decode_failures, Some((40, u32::MAX)));
    assert!(matches!(stage, StateTransferStage::Idle));
    transfer.attempts = u32::MAX;
    assert!(transfer.burn_attempt(5));
    assert_eq!(transfer.attempts, u32::MAX);
}
