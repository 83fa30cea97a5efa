use shard::control::{
    control_body_checksum, control_suffix_body, control_suffix_body_verified, dispatch_partition_journal_actions, dispatch_vsr_actions,
    outruns_superblock, seal_control_body, split_local_actions, ControlFrame, ControlSeal, DispatchStep, ReplicaContext, RetransmitTarget, VsrAction,
};
use shard::view_log::{DvcSuffix, HeaderWindow};
use shard::wire::{dvc_blank, Operation, PrepareHeader};

const HEADER_SIZE: usize = 256;

fn hash(body: &[u8]) -> u64 {
    let mut digest: u64 = 0xcbf2_9ce4_8422_2325;
    for byte in body {
        digest = (digest ^ u64::from(*byte)).wrapping_mul(0x0000_0100_0000_01b3);
    }
    digest
}

/// A control frame carrying `entries` suffix headers.
fn frame(entries: usize) -> Vec<u8> {
    let total = HEADER_SIZE + entries * HEADER_SIZE;
    let mut bytes = vec![0u8; total];
    for (index, byte) in bytes[HEADER_SIZE..total].iter_mut().enumerate() {
        *byte = u8::try_from(index % 251).expect("modulus fits u8");
    }
    bytes
}

#[test]
fn given_view_change_actions_when_split_should_keep_locals_out_of_the_gate() {
    let actions = vec![
        VsrAction::SendStartView {
            view: 4,
            op: 9,
            commit: 3,
            incarnation: 0,
            target: None,
            group: 7,
            suffix: Vec::new(),
        },
        VsrAction::CommitJournal,
        VsrAction::RebuildPipeline { from_op: 3, to_op: 9 },
    ];
    let (local, wire) = split_local_actions(actions);
    assert!(
        local.iter().all(|action| matches!(
            action,
            VsrAction::CommitJournal | VsrAction::RebuildPipeline { .. }
        )),
        "locals must hold exactly the act-side actions"
    );
    assert_eq!(local.len(), 2, "both act-side actions stay local");
    assert_eq!(wire.len(), 1, "only the send is fenced by the persist");
    assert!(matches!(wire[0], VsrAction::SendStartView { .. }));
}

#[test]
fn given_send_only_actions_when_split_should_leave_locals_empty() {
    let actions = vec![VsrAction::SendStartViewChange { view: 2, group: 7 }];
    let (local, wire) = split_local_actions(actions);
    assert!(local.is_empty());
    assert_eq!(wire.len(), 1);
}

#[test]
fn given_a_sealed_body_when_verifying_should_accept() {
    let msg = frame(2);
    let sealed_value = control_body_checksum(&msg[HEADER_SIZE..], hash);
    assert!(
        control_suffix_body_verified(&msg, HEADER_SIZE, msg.len() as u32, sealed_value, hash).is_some(),
        "a correctly sealed body must be accepted"
    );
}

#[test]
fn given_a_body_with_a_zeroed_checksum_when_verifying_should_reject() {
    let msg = frame(2);
    assert!(
        control_suffix_body_verified(&msg, HEADER_SIZE, msg.len() as u32, 0, hash).is_none(),
        "a non-empty body with a zeroed checksum must be rejected, not waved through"
    );
}

#[test]
fn given_a_corrupted_body_when_verifying_should_reject() {
    let mut msg = frame(2);
    let sealed_value = control_body_checksum(&msg[HEADER_SIZE..], hash);
    msg[HEADER_SIZE] ^= 0xFF;
    assert!(
        control_suffix_body_verified(&msg, HEADER_SIZE, msg.len() as u32, sealed_value, hash).is_none(),
        "a body that does not match its checksum must be rejected"
    );
}

#[test]
fn given_a_header_only_frame_when_verifying_should_accept() {
    let msg = frame(0);
    let body = control_suffix_body_verified(&msg, HEADER_SIZE, msg.len() as u32, 0, hash)
        .expect("a header-only frame has nothing to verify");
    assert!(body.is_empty());
}

#[test]
fn body_past_the_declared_size_is_not_part_of_the_frame() {
    let msg = frame(2);
    assert_eq!(control_suffix_body(&msg, HEADER_SIZE, HEADER_SIZE as u32 + 3), &[0, 1, 2]);
    assert_eq!(control_suffix_body(&msg, HEADER_SIZE, 1), &[] as &[u8]);
}

#[test]
fn empty_body_has_the_unsealed_checksum() {
    assert_eq!(control_body_checksum(&[], hash), 0);
    assert_eq!(control_body_checksum(&[1], hash), u128::from(hash(&[1])));
}

fn context() -> ReplicaContext {
    ReplicaContext {
        cluster: 99,
        self_id: 1,
        replica_count: 3,
        view: 4,
        commit_max: 6,
        incarnation: 1234,
        needs_superblock_persist: false,
    }
}

fn held(op: u64) -> PrepareHeader {
    PrepareHeader { operation: Operation::Metadata(1), request: op + 1, checksum: u128::from(op), ..dvc_blank(op) }
}

fn journal(ops: &[u64]) -> HeaderWindow {
    let mut window = HeaderWindow::new();
    for op in ops {
        window.insert(held(*op));
    }
    window
}

#[test]
fn broadcast_reaches_every_peer_once() {
    let steps = dispatch_vsr_actions(&context(), None, &vec![VsrAction::SendStartViewChange { view: 4, group: 7 }]);
    match &steps[..] {
        [DispatchStep::Send { targets, frame: ControlFrame::StartViewChange { cluster: 99, replica: 1, view: 4, group: 7 }, body }] => {
            assert_eq!(targets, &vec![0, 2]);
            assert!(body.is_empty());
        }
        _ => panic!("one broadcast"),
    }
}

#[test]
fn do_view_change_is_broadcast_with_its_suffix() {
    let suffix = DvcSuffix { headers: vec![held(5)], nack_bitset: 0, present_bitset: 1 };
    let action = VsrAction::SendDoViewChange { view: 4, target: 2, log_view: 3, op: 5, commit: 4, group: 7, suffix };
    match &dispatch_vsr_actions(&context(), None, &vec![action])[..] {
        [DispatchStep::Send { targets, frame: ControlFrame::DoViewChange { log_view: 3, present_bitset: 1, .. }, body }] => {
            assert_eq!(targets, &vec![0, 2]);
            assert_eq!(body.len(), 1);
        }
        _ => panic!("one broadcast"),
    }
}

#[test]
fn start_view_goes_to_its_target() {
    let action = VsrAction::SendStartView {
        view: 4,
        op: 5,
        commit: 4,
        incarnation: 8,
        target: Some(2),
        group: 7,
        suffix: vec![held(5)],
    };
    match &dispatch_vsr_actions(&context(), None, &vec![action])[..] {
        [DispatchStep::Send { targets, frame: ControlFrame::StartView { incarnation: 8, .. }, .. }] => {
            assert_eq!(targets, &vec![2]);
        }
        _ => panic!("one unicast"),
    }
}

#[test]
fn request_start_view_carries_the_incarnation() {
    match &dispatch_vsr_actions(&context(), None, &vec![VsrAction::SendRequestStartView { view: 4, group: 7 }])[..] {
        [DispatchStep::Send { frame: ControlFrame::RequestStartView { incarnation: 1234, .. }, .. }] => {}
        _ => panic!("one broadcast"),
    }
}

#[test]
fn journal_actions_need_a_journal() {
    let actions = || {
        vec![
            VsrAction::SendPrepareOk { view: 4, from_op: 5, to_op: 7, target: 0, group: 7 },
            VsrAction::RetransmitPrepares { targets: vec![RetransmitTarget { header: held(6), replicas: vec![0, 2] }] },
            VsrAction::RebuildPipeline { from_op: 5, to_op: 7 },
        ]
    };
    assert!(dispatch_vsr_actions(&context(), None, &actions()).is_empty());
    let steps = dispatch_partition_journal_actions(&context(), &journal(&[5, 6]), &actions());
    let acks = steps
        .iter()
        .filter(|step| matches!(step, DispatchStep::Send { frame: ControlFrame::PrepareOk { .. }, .. }))
        .count();
    assert_eq!(acks, 2, "an op the journal lacks is not acknowledged");
    assert!(steps
        .iter()
        .any(|step| matches!(step, DispatchStep::Retransmit { targets, view: 4, .. } if targets == &vec![0, 2])));
    assert!(steps
        .iter()
        .any(|step| matches!(step, DispatchStep::Rebuild { from_op: 5, to_op: 7 })));
}

#[test]
fn two_dispatchers_split_the_actions() {
    let broadcast = vec![VsrAction::SendCommit { view: 4, commit: 6, group: 7, timestamp_monotonic: 1 }];
    assert!(dispatch_partition_journal_actions(&context(), &journal(&[5]), &broadcast).is_empty());
    assert_eq!(dispatch_vsr_actions(&context(), None, &broadcast).len(), 1);
}

#[test]
fn sealed_body_passes_its_check() {
    let header = [9u8; HEADER_SIZE];
    for body in [&[][..], &[1, 2, 3][..]] {
        let seal = seal_control_body(HEADER_SIZE, body, hash);
        assert_eq!(seal.size as usize, HEADER_SIZE + body.len());
        let frame = [&header[..], body].concat();
        let verified = control_suffix_body_verified(&frame, HEADER_SIZE, seal.size, seal.checksum_body, hash);
        assert_eq!(verified, Some(body));
    }
    assert_eq!(seal_control_body(4, &[], hash), ControlSeal { size: 4, checksum_body: 0 });
    assert_eq!(
        seal_control_body(4, &[1, 2], hash),
        ControlSeal { size: 6, checksum_body: u128::from(hash(&[1, 2])) }
    );
}

#[test]
fn every_view_scoped_action_waits_for_the_superblock() {
    let behind = ReplicaContext { needs_superblock_persist: true, ..context() };
    let level = ReplicaContext { needs_superblock_persist: false, ..context() };
    let commit = || VsrAction::SendCommit { view: 4, commit: 2, group: 7, timestamp_monotonic: 1 };
    let probe = || VsrAction::SendRequestStartView { view: 4, group: 7 };
    let vote = || VsrAction::SendStartViewChange { view: 4, group: 7 };
    let ack = || VsrAction::SendPrepareOk { view: 4, from_op: 1, to_op: 2, target: 0, group: 7 };
    assert!(outruns_superblock(&behind, &vec![probe(), commit()]));
    assert!(outruns_superblock(&behind, &vec![vote()]));
    assert!(outruns_superblock(&behind, &vec![ack()]));
    assert!(!outruns_superblock(&behind, &vec![probe(), VsrAction::CommitJournal]));
    assert!(!outruns_superblock(&level, &vec![commit(), vote(), ack()]));
}
