use std::rc::Rc;

use shard::serving::{
    partition_transfer_admission_cap, state_chunk_len_max, ArtifactKind, ArtifactSource, BuildOutcome, ChunkAttempt, ChunkRequest,
    OfferPlane, PartitionRequestStep, StateArtifact, StateTransferOffer, StateTransferServer, TargetFields, TransferDescriptor,
    PARTITION_ARTIFACT_LEN_DEFAULT, SERVED_SEGMENT_CACHE_BYTES_DEFAULT, STATE_CHUNK_LEN,
};

fn artifact(kind: ArtifactKind, len: u64) -> StateArtifact {
    StateArtifact { kind, len, checksum: 77, frontier: 5 }
}

fn metadata_offer(bytes: Vec<u8>) -> Rc<StateTransferOffer> {
    Rc::new(StateTransferOffer {
        plane: OfferPlane::Metadata,
        commit_op: 9,
        manifest: vec![artifact(ArtifactKind::MetadataSnapshot, bytes.len() as u64)],
        artifacts: vec![ArtifactSource::Bytes(Rc::new(bytes))],
    })
}

fn partition_offer() -> Rc<StateTransferOffer> {
    let entry = artifact(ArtifactKind::SegmentLog, 6);
    Rc::new(StateTransferOffer {
        plane: OfferPlane::Partition,
        commit_op: 4,
        manifest: vec![entry],
        artifacts: vec![ArtifactSource::Segment { log_path: "segment".to_string(), entry }],
    })
}

fn chunk(group: u64, nonce: u128, artifact: u32, offset: u64, len: u32) -> ChunkRequest {
    ChunkRequest { group, replica: 1, nonce, artifact, offset, len }
}

#[test]
fn chunk_leaves_room_for_its_header() {
    assert_eq!(state_chunk_len_max(64 * 1024 * 1024, 256), STATE_CHUNK_LEN as usize);
    assert_eq!(state_chunk_len_max(1256, 256), 1000);
    assert_eq!(state_chunk_len_max(256, 256), 1);
    assert_eq!(state_chunk_len_max(0, 256), 1);
}

#[test]
fn admission_follows_the_budget() {
    assert_eq!(
        partition_transfer_admission_cap(
            SERVED_SEGMENT_CACHE_BYTES_DEFAULT,
            PARTITION_ARTIFACT_LEN_DEFAULT,
            1024 * 1024 * 1024
        ),
        2
    );
    assert_eq!(partition_transfer_admission_cap(0, 1, 1), 1);
    let mib = 1024 * 1024;
    assert_eq!(partition_transfer_admission_cap(1024 * mib, 64 * mib, 64 * mib), 8);
}

#[test]
fn descriptor_says_what_it_offers() {
    let fields = TransferDescriptor::available(metadata_offer(vec![1]), 3, 12).target_fields();
    assert_eq!(
        fields,
        TargetFields { available: 1, commit_op: 9, view: 3, commit_max: 12, unavailable_transient: 0 }
    );
    let refused = TransferDescriptor::unavailable(true, 3, 12).target_fields();
    assert_eq!(
        refused,
        TargetFields { available: 0, commit_op: 0, view: 3, commit_max: 12, unavailable_transient: 1 }
    );
}

#[test]
fn reanswering_keeps_the_offer() {
    let mut server = StateTransferServer::new();
    assert!(server.reanswer(OfferPlane::Metadata, 0, 1, 8).is_none());
    server.answer_metadata_request(0, 1, 8, Some(metadata_offer(vec![1, 2])), 3, 12);
    assert!(server.reanswer(OfferPlane::Metadata, 0, 1, 8).is_some());
    assert!(server.reanswer(OfferPlane::Partition, 0, 1, 8).is_none());
    assert!(server.reanswer(OfferPlane::Metadata, 0, 1, 9).is_none());
    assert_eq!(server.offers.len(), 1);
}

#[test]
fn fresh_nonce_replaces_the_stale_offer() {
    let mut server = StateTransferServer::new();
    server.answer_metadata_request(0, 1, 8, Some(metadata_offer(vec![1])), 3, 12);
    server.answer_metadata_request(0, 1, 9, Some(metadata_offer(vec![2])), 3, 12);
    assert_eq!(server.offers.len(), 1);
    assert!(server.reanswer(OfferPlane::Metadata, 0, 1, 8).is_none());
}

#[test]
fn unbuilt_metadata_offer_is_refused_for_good() {
    let mut server = StateTransferServer::new();
    let descriptor = server.answer_metadata_request(0, 1, 8, None, 3, 12);
    assert!(descriptor.offer.is_none() && !descriptor.transient);
    assert!(server.offers.is_empty());
}

#[test]
fn chunks_walk_the_artifact() {
    let mut server = StateTransferServer::new();
    server.answer_metadata_request(0, 1, 8, Some(metadata_offer(vec![1, 2, 3, 4, 5])), 3, 12);
    match server.attempt_chunk(OfferPlane::Metadata, &chunk(0, 8, 0, 0, 100), 3) {
        ChunkAttempt::Chunk { start, end, .. } => assert_eq!((start, end), (0, 3)),
        _ => panic!("expected a chunk"),
    }
    assert!(!server.offers[0].fully_served);
    match server.attempt_chunk(OfferPlane::Metadata, &chunk(0, 8, 0, 3, 100), 3) {
        ChunkAttempt::Chunk { bytes, start, end } => assert_eq!(&bytes[start..end], &[4, 5]),
        _ => panic!("expected a chunk"),
    }
    assert!(server.offers[0].fully_served);
}

#[test]
fn chunk_out_of_bounds_is_ignored() {
    let mut server = StateTransferServer::new();
    server.answer_metadata_request(0, 1, 8, Some(metadata_offer(vec![1, 2])), 3, 12);
    for request in [chunk(0, 8, 0, 2, 1), chunk(0, 8, 1, 0, 1), chunk(0, 8, 0, 0, 0)] {
        assert!(matches!(
            server.attempt_chunk(OfferPlane::Metadata, &request, 3),
            ChunkAttempt::Ignore
        ));
    }
    assert!(matches!(
        server.attempt_chunk(OfferPlane::Metadata, &chunk(0, 7, 0, 0, 1), 3),
        ChunkAttempt::Unavailable
    ));
}

#[test]
fn segment_is_loaded_once_and_served() {
    let mut server = StateTransferServer::new();
    assert!(matches!(
        server.open_partition_request(true, 5, 1, 8, 2),
        PartitionRequestStep::Build
    ));
    assert_eq!(server.builds.len(), 1);
    let descriptor = server.close_partition_build(5, 1, 8, BuildOutcome::Ready(partition_offer()), 3, 12);
    assert!(descriptor.offer.is_some());
    assert!(server.builds.is_empty());
    let request = chunk(5, 8, 0, 2, 100);
    let entry = match server.attempt_chunk(OfferPlane::Partition, &request, 3) {
        ChunkAttempt::Load { log_path, entry } => {
            assert_eq!(log_path, "segment");
            entry
        }
        _ => panic!("the segment is not resident"),
    };
    let payload = Rc::new(vec![1, 2, 3, 4, 5, 6]);
    match server.resume_chunk(OfferPlane::Partition, &request, &entry, payload, 100, 3) {
        ChunkAttempt::Chunk { bytes, start, end } => assert_eq!(&bytes[start..end], &[3, 4, 5]),
        _ => panic!("a loaded segment is served"),
    }
    assert!(matches!(
        server.attempt_chunk(OfferPlane::Partition, &request, 3),
        ChunkAttempt::Chunk { .. }
    ));
}

#[test]
fn failed_segment_load_drops_the_offer() {
    let mut server = StateTransferServer::new();
    server.open_partition_request(true, 5, 1, 8, 2);
    server.close_partition_build(5, 1, 8, BuildOutcome::Ready(partition_offer()), 3, 12);
    let request = chunk(5, 8, 0, 0, 1);
    server.segment_load_failed(&request);
    assert!(matches!(
        server.attempt_chunk(OfferPlane::Partition, &request, 3),
        ChunkAttempt::Unavailable
    ));
}

#[test]
fn admission_counts_groups_not_requesters() {
    let mut server = StateTransferServer::new();
    server.open_partition_request(true, 5, 1, 8, 1);
    server.close_partition_build(5, 1, 8, BuildOutcome::Ready(partition_offer()), 3, 12);
    assert!(matches!(
        server.open_partition_request(true, 6, 1, 8, 1),
        PartitionRequestStep::Refuse
    ));
    assert!(matches!(
        server.open_partition_request(true, 5, 2, 8, 1),
        PartitionRequestStep::Build
    ));
    assert!(matches!(
        server.open_partition_request(false, 5, 200, 8, 1),
        PartitionRequestStep::Ignore
    ));
    assert!(matches!(
        server.open_partition_request(true, 5, 1, 8, 1),
        PartitionRequestStep::Answer(_)
    ));
}

#[test]
fn build_under_way_keeps_its_slot() {
    let mut server = StateTransferServer::new();
    server.open_partition_request(true, 5, 1, 8, 1);
    let later = server.close_partition_build(
        5,
        1,
        8,
        BuildOutcome::Unavailable { in_progress: true, transient: true },
        3,
        12,
    );
    assert!(later.transient);
    assert!(!server.may_serve_another_partition_transfer(6, 1));
    server.close_partition_build(
        5,
        1,
        8,
        BuildOutcome::Unavailable { in_progress: false, transient: false },
        3,
        12,
    );
    assert!(server.may_serve_another_partition_transfer(6, 1));
}

#[test]
fn pulled_offer_outlives_an_idle_one() {
    let mut server = StateTransferServer::new();
    server.answer_metadata_request(0, 1, 8, Some(metadata_offer(vec![1, 2, 3])), 3, 12);
    server.answer_metadata_request(0, 2, 8, Some(metadata_offer(vec![1, 2, 3])), 3, 12);
    for tick in 0..25 {
        let released = server.expire_idle_state_transfer_offers(2, Some(0));
        assert!(!released.metadata, "tick {tick}");
        assert!(matches!(
            server.attempt_chunk(OfferPlane::Metadata, &chunk(0, 8, 0, 0, 1), 3),
            ChunkAttempt::Chunk { .. }
        ));
    }
    assert_eq!(server.offers.len(), 1);
    assert_eq!(server.offers[0].requester, 1);
}

#[test]
fn served_offer_expires_sooner() {
    let mut server = StateTransferServer::new();
    server.answer_metadata_request(0, 1, 8, Some(metadata_offer(vec![1])), 3, 12);
    server.attempt_chunk(OfferPlane::Metadata, &chunk(0, 8, 0, 0, 1), 3);
    let mut ticks = 0;
    while !server.offers.is_empty() {
        let released = server.expire_idle_state_transfer_offers(2, Some(0));
        ticks += 1;
        assert_eq!(released.metadata, server.offers.is_empty());
        assert!(ticks < 20);
    }
    assert!(ticks <= 7, "served offers live three intervals, got {ticks}");
}

#[test]
fn dropped_namespace_serves_nothing() {
    let mut server = StateTransferServer::new();
    server.open_partition_request(true, 5, 1, 8, 9);
    server.close_partition_build(5, 1, 8, BuildOutcome::Ready(partition_offer()), 3, 12);
    server.open_partition_request(true, 5, 2, 8, 9);
    server.open_partition_request(true, 6, 2, 8, 9);
    server.drop_served_state_for(5);
    assert!(server.offers.is_empty());
    assert_eq!(server.builds.len(), 1);
    assert_eq!(server.builds.get(&6), Some(&0));
}

#[test]
fn vanished_namespaces_are_reported_in_order() {
    let mut server = StateTransferServer::new();
    for namespace in [9, 4] {
        server.open_partition_request(true, namespace, 1, 8, 9);
        server.close_partition_build(namespace, 1, 8, BuildOutcome::Ready(partition_offer()), 3, 12);
    }
    let mut seen = Vec::new();
    for _ in 0..30 {
        seen.extend(server.expire_idle_state_transfer_offers(1, None).namespaces);
    }
    assert_eq!(seen, vec![4, 9]);
}
