use prometheus_client::registry::Registry;
use shard::metrics::{frame_drop_reason, frame_drop_variant, reason_index, variant_index, ShardMetrics};

fn scrape(metrics: &ShardMetrics) -> String {
    let mut registry = Registry::default();
    metrics.register(&mut registry);
    let mut buffer = String::new();
    prometheus_client::encoding::text::encode(&mut buffer, &registry).expect("scrape encoding succeeds");
    buffer
}

#[test]
fn frame_drop_counter_increments_per_label_set() {
    let mut metrics = ShardMetrics::for_shard();
    metrics.record_frame_drop(frame_drop_variant::CONSENSUS, frame_drop_reason::FULL);
    metrics.record_frame_drop(frame_drop_variant::CONSENSUS, frame_drop_reason::FULL);
    metrics.record_frame_drop(frame_drop_variant::CONSENSUS, frame_drop_reason::DISCONNECTED);

    assert_eq!(
        metrics.frame_drop_count(frame_drop_variant::CONSENSUS, frame_drop_reason::FULL),
        2,
        "two FULL drops land on one label set",
    );
    assert_eq!(
        metrics.frame_drop_count(frame_drop_variant::CONSENSUS, frame_drop_reason::DISCONNECTED),
        1,
        "a distinct reason gets its own counter",
    );
    assert_eq!(metrics.frame_drops_value(), 3);
}

#[test]
fn unproduced_pairs_never_enter_the_scrape() {
    let mut metrics = ShardMetrics::for_shard();
    metrics.record_frame_drop(frame_drop_variant::CONSENSUS, frame_drop_reason::FULL);
    let buffer = scrape(&metrics);
    assert!(
        buffer.contains(frame_drop_variant::CONSENSUS),
        "the produced pair must appear in the scrape",
    );
    assert!(
        !buffer.contains(frame_drop_reason::PARK_OVERFLOW),
        "a pair no drop site produced must not appear in the scrape",
    );
}

#[test]
fn cached_counter_aliases_family_entry() {
    let mut metrics = ShardMetrics::for_shard();
    for _ in 0..5 {
        metrics.record_frame_drop(frame_drop_variant::PARTITION, frame_drop_reason::UNROUTABLE);
    }
    assert_eq!(
        metrics.frame_drop_count(frame_drop_variant::PARTITION, frame_drop_reason::UNROUTABLE),
        5
    );
    assert!(scrape(&metrics).contains("frame_drops_total{variant=\"partition\",reason=\"unroutable\"} 5"));
}

#[test]
fn unknown_label_set_falls_back_to_family() {
    let mut metrics = ShardMetrics::for_shard();
    metrics.record_frame_drop("unexpected_variant", "unexpected_reason");
    let buffer = scrape(&metrics);
    assert!(
        buffer.contains("frame_drops_total{variant=\"unexpected_variant\",reason=\"unexpected_reason\"} 1"),
        "{buffer}"
    );
    assert_eq!(metrics.frame_drops_value(), 1);
}

#[test]
fn reading_a_pair_never_mints_it() {
    let metrics = ShardMetrics::for_shard();
    assert_eq!(
        metrics.frame_drop_count(frame_drop_variant::FD_TRANSFER, frame_drop_reason::FULL),
        0
    );
    assert!(!scrape(&metrics).contains(frame_drop_variant::FD_TRANSFER));
}

#[test]
fn unlabelled_counters_are_apart() {
    let mut metrics = ShardMetrics::for_shard();
    metrics.record_partition_materialised();
    metrics.record_partition_materialised();
    metrics.record_partition_removed();
    metrics.record_partition_reconcile_failure();
    metrics.record_partition_transfer_refusal();
    metrics.record_partition_frame_rejected_stale();
    metrics.record_partition_frame_rejected_ahead();
    metrics.record_partition_request_denied_transient();
    metrics.record_partition_repair_serve_deferred();
    assert_eq!(metrics.partitions_materialised_value(), 2);
    assert_eq!(metrics.partitions_removed_value(), 1);
    assert_eq!(metrics.partitions_reconcile_failures_value(), 1);
    assert_eq!(metrics.partition_transfer_refusals_value(), 1);
    assert_eq!(metrics.partition_frames_rejected_stale_value(), 1);
    assert_eq!(metrics.partition_frames_rejected_ahead_value(), 1);
    assert_eq!(metrics.partition_requests_denied_transient_value(), 1);
    assert_eq!(metrics.partition_repair_serves_deferred_purge_value(), 1);
    assert_eq!(metrics.frame_drops_value(), 0);
}

#[test]
fn every_counter_is_in_the_scrape() {
    let mut metrics = ShardMetrics::for_shard();
    metrics.record_duplicate_partition_build_discarded();
    let buffer = scrape(&metrics);
    assert!(buffer.contains("partitions_materialised_total 0"), "{buffer}");
    assert!(buffer.contains("partitions_duplicate_builds_discarded_total 1"), "{buffer}");
    assert!(buffer.contains("partition_repair_serves_deferred_purge_total 0"), "{buffer}");
}

#[test]
fn known_labels_have_their_place() {
    assert_eq!(variant_index(frame_drop_variant::CONSENSUS), Some(0));
    assert_eq!(variant_index(frame_drop_variant::REPLICA_HANDSHAKE_ACK), Some(6));
    assert_eq!(variant_index("unexpected_variant"), None);
    assert_eq!(reason_index(frame_drop_reason::UNSUPPORTED_OPERATION), Some(0));
    assert_eq!(reason_index(frame_drop_reason::PARK_DROPPED), Some(8));
    assert_eq!(reason_index("unexpected_reason"), None);
}
