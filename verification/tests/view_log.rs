use shard::repair::repair_serve_ceiling;
use shard::view_log::{
    adopted_view_headers, build_dvc_suffix, canonical_header, dvc_window_range, first_op_not_covered, header_is_view_entry,
    plan_divergence, rebuild_pipeline_entries, refresh_dvc_suffix, repair_disagrees_with_view, repair_op_in_scope, view_header_at,
    DvcSuffix, HeaderWindow, MergedLog, DVC_HEADERS_MAX,
};
use shard::wire::{dvc_blank, Operation, PrepareHeader};

fn plain(op: u64) -> PrepareHeader {
    dvc_blank(op)
}

/// A header whose identity covers its op and its request.
fn sealed(op: u64, request: u64) -> PrepareHeader {
    PrepareHeader {
        operation: Operation::Metadata(1),
        request,
        checksum: ((op as u128) << 64) | (request as u128 + 1),
        ..dvc_blank(op)
    }
}

/// A real prepare at `op`, which is never the placeholder.
fn held(op: u64) -> PrepareHeader {
    PrepareHeader { operation: Operation::Metadata(1), ..dvc_blank(op) }
}

fn window(headers: Vec<PrepareHeader>) -> HeaderWindow {
    let mut window = HeaderWindow::new();
    for header in headers {
        window.insert(header);
    }
    window
}

/// A view that started at op 100 with commit 98.
fn parked() -> MergedLog {
    MergedLog {
        op_head: 100,
        commit_max: 98,
        headers: (98..=100).rev().map(plain).collect(),
        committed_elsewhere: Vec::new(),
    }
}

fn floor(suffix: &DvcSuffix) -> Option<u64> {
    suffix.headers.last().map(|header| header.op)
}

fn view_headers(low: u64, high: u64) -> Vec<PrepareHeader> {
    (low..=high).rev().map(held).collect()
}

#[test]
fn given_a_backup_with_a_parked_log_when_repairing_above_the_view_head_should_accept() {
    assert!(
        repair_op_in_scope(Some(&parked()), false, 149, 150),
        "a backup repairs for the whole view, not just the view-start range"
    );
}

#[test]
fn given_a_backup_with_a_parked_log_when_repairing_below_commit_min_should_reject() {
    assert!(!repair_op_in_scope(Some(&parked()), false, 149, 149));
}

#[test]
fn given_a_primary_elect_when_repairing_toward_its_merged_log_should_use_it_as_the_scope() {
    let pending = parked();
    assert!(repair_op_in_scope(Some(&pending), true, 99, 98));
    assert!(repair_op_in_scope(Some(&pending), true, 99, 100));
    assert!(!repair_op_in_scope(Some(&pending), true, 99, 101));
    assert!(!repair_op_in_scope(Some(&pending), true, 99, 97));
    assert!(!repair_op_in_scope(None, false, 149, 149));
    assert!(repair_op_in_scope(None, false, 149, 150));
}

#[test]
fn given_a_primary_elect_when_an_op_is_committed_elsewhere_should_accept_it() {
    let mut pending = parked();
    pending.committed_elsewhere.push(plain(42));
    assert!(repair_op_in_scope(Some(&pending), true, 99, 42));
}

#[test]
fn given_a_repair_request_when_serving_should_clamp_to_the_frontier_but_not_below_it() {
    assert_eq!(repair_serve_ceiling(u64::MAX, 40, 90), 90);
    assert_eq!(repair_serve_ceiling(50, 40, 90), 50);
    assert_eq!(repair_serve_ceiling(90, 40, 90), 90);
    assert_eq!(repair_serve_ceiling(u64::MAX, 120, 90), 120);
}

#[test]
fn given_a_diverging_entry_when_scanning_should_report_it_like_a_hole() {
    let pending = MergedLog {
        op_head: 100,
        commit_max: 98,
        headers: (98..=100).rev().map(|op| sealed(op, 1)).collect(),
        committed_elsewhere: Vec::new(),
    };
    let held = window(vec![sealed(100, 1), sealed(99, 7), sealed(98, 1)]);
    assert_eq!(first_op_not_covered(&pending, 0, &held), Some(99));
}

#[test]
fn the_lowest_missing_op_is_reported_wherever_the_log_names_it() {
    let mut pending = MergedLog {
        op_head: 100,
        commit_max: 98,
        headers: (98..=100).rev().map(|op| sealed(op, 1)).collect(),
        committed_elsewhere: vec![sealed(60, 1), sealed(42, 1), sealed(50, 1)],
    };
    let held = window(vec![sealed(100, 1), sealed(98, 1), sealed(60, 1)]);
    assert_eq!(first_op_not_covered(&pending, 0, &held), Some(42));
    assert_eq!(first_op_not_covered(&pending, 42, &held), Some(50));
    assert_eq!(first_op_not_covered(&pending, 50, &held), Some(99));
    assert_eq!(first_op_not_covered(&pending, 99, &held), None);
    pending.committed_elsewhere.clear();
    assert_eq!(first_op_not_covered(&pending, 0, &held), Some(99));
}

#[test]
fn given_an_evicted_committed_window_when_floored_should_start_the_view() {
    let pending = MergedLog {
        op_head: 256,
        commit_max: 256,
        headers: vec![sealed(256, 1)],
        committed_elsewhere: Vec::new(),
    };
    let nothing_resident = window(Vec::new());
    assert_eq!(
        first_op_not_covered(&pending, 0, &nothing_resident),
        Some(256),
        "unfloored, the evicted committed op reads as an unfillable hole"
    );
    assert_eq!(
        first_op_not_covered(&pending, 256, &nothing_resident),
        None,
        "floored at the local commit point, the view starts"
    );
}

#[test]
fn given_an_adopted_view_when_the_journal_is_empty_should_report_its_headers_unnacked() {
    let view = view_headers(3, 5);
    let suffix = build_dvc_suffix(2, 0, &window(Vec::new()), Some(&view));

    assert_eq!(suffix.len(), 4, "the window rises to the view's head even with an empty journal");
    assert_eq!(floor(&suffix), Some(2), "the floor is still the commit point");
    assert_eq!(suffix.nack_bitset, 0, "a header held from the adopted view is not a nack");
    assert_eq!(suffix.present_bitset, 0, "and its body is not servable, so no present bit either");
}

#[test]
fn given_no_adopted_view_when_the_journal_is_empty_should_nack() {
    let suffix = build_dvc_suffix(2, 5, &window(Vec::new()), None);
    assert_eq!(suffix.nack_bitset, 0b0111, "ops 5, 4 and 3 nack; op 2 is the commit point");
}

#[test]
fn given_an_adopted_view_when_the_journal_covers_part_should_prefer_the_journal() {
    let view = view_headers(3, 5);
    let suffix = build_dvc_suffix(2, 5, &window(vec![held(5)]), Some(&view));

    assert_eq!(suffix.len(), 4);
    assert_eq!(suffix.present_bitset, 0b0001, "only op 5 is servable");
    assert_eq!(suffix.nack_bitset, 0, "the view covers ops 4 and 3");

    let short_view = view_headers(3, 4);
    let full = window((0..=6).map(held).collect());
    let deeper = build_dvc_suffix(2, 6, &full, Some(&short_view));
    assert_eq!(deeper.headers.first().map(|header| header.op), Some(6));
    assert_eq!(deeper.present_bitset, 0b1_1111, "ops 6 down to 2");
}

#[test]
fn given_a_blank_view_entry_should_not_report_it_as_held() {
    let mut view = view_headers(3, 5);
    view[1] = dvc_blank(4);
    let suffix = build_dvc_suffix(2, 0, &window(Vec::new()), Some(&view));

    assert_eq!(suffix.nack_bitset, 0b010, "only the blank op nacks");
}

#[test]
fn given_no_header_at_the_commit_point_should_report_it_blank_and_undecidable() {
    let suffix = build_dvc_suffix(5, 5, &window(Vec::new()), None);

    assert_eq!(suffix.len(), 1);
    assert_eq!(floor(&suffix), Some(5));
    assert_eq!(suffix.nack_bitset, 0, "the commit point is never nacked, whatever the journal says");
    assert_eq!(suffix.present_bitset, 0);
}

#[test]
fn given_a_window_at_the_depth_ceiling_when_building_should_floor_at_the_commit() {
    let depth = DVC_HEADERS_MAX - 1;
    let commit = 500;
    let op = commit + depth;
    let full = window((commit..=op).map(held).collect());
    let suffix = build_dvc_suffix(commit, op, &full, None);

    assert_eq!(suffix.len(), DVC_HEADERS_MAX as usize, "the widest window that fits");
    assert_eq!(floor(&suffix), Some(commit), "at the ceiling the floor is still the commit point");
}

#[test]
fn given_a_window_past_the_depth_ceiling_when_building_should_clamp_above_the_commit() {
    let commit = 500;
    let op = commit + DVC_HEADERS_MAX;
    let full = window((0..=op).map(held).collect());
    let suffix = build_dvc_suffix(commit, op, &full, None);

    assert_eq!(suffix.len(), DVC_HEADERS_MAX as usize);
    assert_eq!(
        floor(&suffix),
        Some(op - DVC_HEADERS_MAX + 1),
        "the clamped floor sits above the commit point"
    );
    assert!(floor(&suffix) > Some(commit));

    let from_zero = build_dvc_suffix(0, 3, &full, None);
    assert_eq!(floor(&from_zero), Some(1));
}

#[test]
fn given_a_compacted_log_when_building_should_still_describe_the_commit_point() {
    let commit = 500;
    let compacted = window((commit..=commit + 3).map(held).collect());
    let suffix = build_dvc_suffix(commit, commit + 3, &compacted, None);

    let commit_index = suffix.index_of(commit + 3, commit).expect("in window");
    assert!(
        suffix.valid_header_at(commit_index).is_some(),
        "a blank at the commit point is undecidable for the merge"
    );
    assert!(
        suffix.offers_body(commit_index),
        "the commit point must be servable, or the merge stalls waiting for a peer"
    );
    assert!(!suffix.nacks(commit_index), "the commit point can never be nacked");
}

#[test]
fn diverging_suffix_is_dropped_and_applied_ops_are_not() {
    let log = MergedLog {
        op_head: 5,
        commit_max: 3,
        headers: (3..=5).rev().map(|op| sealed(op, 1)).collect(),
        committed_elsewhere: Vec::new(),
    };
    let agreeing = window(vec![sealed(3, 1), sealed(4, 1), sealed(5, 1)]);
    let plan = plan_divergence(Some(&log), 3, 5, Some(5), &agreeing);
    assert_eq!(plan.truncate_from, None);
    assert!(plan.committed_conflicts.is_empty());

    let diverging = window(vec![sealed(3, 1), sealed(4, 9), sealed(5, 1)]);
    assert_eq!(plan_divergence(Some(&log), 3, 5, Some(5), &diverging).truncate_from, Some(4));

    let conflict = window(vec![sealed(3, 9), sealed(4, 1), sealed(5, 1)]);
    let plan = plan_divergence(Some(&log), 3, 5, Some(5), &conflict);
    assert_eq!(plan.truncate_from, None);
    assert_eq!(plan.committed_conflicts, vec![3]);

    let longer = window(vec![sealed(3, 1), sealed(4, 1), sealed(5, 1), sealed(6, 1)]);
    assert_eq!(plan_divergence(Some(&log), 3, 5, Some(6), &longer).truncate_from, Some(6));
}

#[test]
fn pipeline_is_rebuilt_up_to_the_first_gap() {
    let journal = window(vec![sealed(3, 1), sealed(4, 1), sealed(6, 1)]);
    let rebuild = rebuild_pipeline_entries(3, 6, &journal);
    assert_eq!(rebuild.entries.iter().map(|header| header.op).collect::<Vec<u64>>(), vec![3, 4]);
    assert_eq!(rebuild.gap_at, Some(5));
    let whole = rebuild_pipeline_entries(3, 4, &journal);
    assert_eq!(whole.entries.len(), 2);
    assert_eq!(whole.gap_at, None);
}

#[test]
fn only_a_backup_adopts_the_parked_headers() {
    let log = parked();
    assert!(adopted_view_headers(Some(&log), true).is_none());
    assert_eq!(adopted_view_headers(Some(&log), false).map(|headers| headers.len()), Some(3));
    assert!(adopted_view_headers(None, false).is_none());
}

#[test]
fn suffix_is_refreshed_only_when_stale() {
    let journal = window(vec![held(2), held(3)]);
    assert!(refresh_dvc_suffix(false, 3, 2, false, None, Some(&journal)).is_none());
    let fresh = refresh_dvc_suffix(true, 3, 9, false, None, Some(&journal)).expect("stale");
    assert_eq!(floor(&fresh), Some(3));
    let unjournaled = refresh_dvc_suffix(true, 3, 2, false, None, None).expect("stale");
    assert_eq!(unjournaled.len(), 0);
    assert_eq!((unjournaled.nack_bitset, unjournaled.present_bitset), (0, 0));
    assert_eq!(dvc_window_range(3, 2, false, None), (2, 3));
    assert_eq!(dvc_window_range(0, 0, false, None), (1, 0));
    assert_eq!(dvc_window_range(3, 2, false, Some(&parked())), (2, 100));
}

#[test]
fn view_entries_are_matched_by_identity() {
    assert!(header_is_view_entry(&sealed(4, 1), &sealed(4, 1)));
    assert!(!header_is_view_entry(&sealed(4, 2), &sealed(4, 1)));
    let log = MergedLog {
        op_head: 5,
        commit_max: 3,
        headers: vec![sealed(5, 1)],
        committed_elsewhere: vec![sealed(2, 1)],
    };
    assert_eq!(canonical_header(&log, 2), Some(sealed(2, 1)));
    assert_eq!(canonical_header(&log, 4), None);
    assert!(repair_disagrees_with_view(Some(&log), 5, 1));
    assert!(!repair_disagrees_with_view(Some(&log), 5, sealed(5, 1).checksum));
    assert!(!repair_disagrees_with_view(Some(&log), 4, 1));
    assert_eq!(view_header_at(&log.headers, 5), Some(sealed(5, 1)));
    assert_eq!(view_header_at(&log.headers, 6), None);
}

#[test]
fn empty_suffix_describes_nothing() {
    let suffix = DvcSuffix::empty();
    assert_eq!(suffix.len(), 0);
    assert_eq!(suffix.index_of(5, 5), None);
}
