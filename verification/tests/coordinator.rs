use std::collections::HashSet;
use std::rc::Rc;

use shard::channel::{shard_channel, Receiver, ShardCtorError, TaggedSender};
use shard::coordinator::{
    client_setup, rr_pick, CoordinatorConfig, DelegateError, ShardZeroCoordinator, CLIENT_ID_SHARD_SHIFT, CLIENT_SEQUENCE_MASK,
};
use shard::frames::{ClientConnMeta, ClientTransportKind, LifecycleFrame, ShardFrame};
use shard::metrics::{frame_drop_reason, frame_drop_variant, ShardMetrics};

type Handle = u32;

fn build_senders(total: u16) -> Rc<Vec<TaggedSender<Handle>>> {
    let mut senders = Vec::with_capacity(total as usize);
    for shard_id in 0..total {
        let (tx, _rx, _reply_rx) = shard_channel::<Handle>(shard_id, 16, 16);
        senders.push(tx);
    }
    Rc::new(senders)
}

fn build_senders_with_rx(total: u16) -> (Rc<Vec<TaggedSender<Handle>>>, Vec<Receiver<ShardFrame<Handle>>>) {
    let mut senders = Vec::with_capacity(total as usize);
    let mut receivers = Vec::with_capacity(total as usize);
    for shard_id in 0..total {
        let (tx, rx, _reply_rx) = shard_channel::<Handle>(shard_id, 16, 16);
        senders.push(tx);
        receivers.push(rx);
    }
    (Rc::new(senders), receivers)
}

fn build(total: u16, cfg: CoordinatorConfig) -> ShardZeroCoordinator<Handle> {
    match ShardZeroCoordinator::new(build_senders(total), total, cfg) {
        Ok(coordinator) => coordinator,
        Err(error) => panic!("coord ctor ok, got {error:?}"),
    }
}

#[test]
fn ctor_rejects_permuted_sender_vec() {
    let (tx0, _rx0, _reply0) = shard_channel::<Handle>(0, 16, 16);
    let (tx1, _rx1, _reply1) = shard_channel::<Handle>(1, 16, 16);
    let (tx2, _rx2, _reply2) = shard_channel::<Handle>(2, 16, 16);
    let (tx3, _rx3, _reply3) = shard_channel::<Handle>(3, 16, 16);
    let permuted = Rc::new(vec![tx0, tx2, tx1, tx3]);
    let result = ShardZeroCoordinator::new(permuted, 4, CoordinatorConfig::default());
    assert!(
        matches!(result.as_ref().err(), Some(ShardCtorError::SenderOrderingInvalid { .. })),
        "expected SenderOrderingInvalid, got {:?}",
        result.as_ref().err(),
    );
}

#[test]
fn ctor_rejects_a_shard_count_other_than_its_senders() {
    let result = ShardZeroCoordinator::new(build_senders(3), 4, CoordinatorConfig::default());
    assert_eq!(
        result.err(),
        Some(ShardCtorError::CoordinatorSendersMismatch { senders: 3, total_shards: 4 })
    );
    let empty = ShardZeroCoordinator::new(build_senders(0), 0, CoordinatorConfig::default());
    assert_eq!(
        empty.err(),
        Some(ShardCtorError::CoordinatorSendersMismatch { senders: 0, total_shards: 0 })
    );
}

#[test]
fn replica_rr_default_skips_shard_zero() {
    let mut coord = build(4, CoordinatorConfig::default());

    assert_eq!(coord.next_replica_target(), 1);
    assert_eq!(coord.next_replica_target(), 2);
    assert_eq!(coord.next_replica_target(), 3);
    assert_eq!(coord.next_replica_target(), 1);
    assert_eq!(coord.next_replica_target(), 2);

    assert_eq!(coord.next_client_target(), 0);
    assert_eq!(coord.next_client_target(), 1);
    assert_eq!(coord.next_client_target(), 2);
    assert_eq!(coord.next_client_target(), 3);
    assert_eq!(coord.next_client_target(), 0);
}

#[test]
fn rr_includes_shard_zero_when_skip_flags_off() {
    let cfg = CoordinatorConfig { skip_shard_zero_for_replicas: false, skip_shard_zero_for_clients: false };
    let mut coord = build(4, cfg);

    assert_eq!(coord.next_replica_target(), 0);
    assert_eq!(coord.next_replica_target(), 1);
    assert_eq!(coord.next_replica_target(), 2);
    assert_eq!(coord.next_replica_target(), 3);
    assert_eq!(coord.next_replica_target(), 0);

    assert_eq!(coord.next_client_target(), 0);
    assert_eq!(coord.next_client_target(), 1);
}

#[test]
fn rr_skips_shard_zero_when_both_flags_on() {
    let cfg = CoordinatorConfig { skip_shard_zero_for_replicas: true, skip_shard_zero_for_clients: true };
    let mut coord = build(4, cfg);

    for _ in 0..8 {
        let r = coord.next_replica_target();
        let c = coord.next_client_target();
        assert!((1..4).contains(&r), "replica target {r} must skip shard 0");
        assert!((1..4).contains(&c), "client target {c} must skip shard 0");
    }
}

#[test]
fn rr_single_shard_returns_zero_regardless_of_flags() {
    let cfg = CoordinatorConfig { skip_shard_zero_for_replicas: true, skip_shard_zero_for_clients: true };
    let mut coord = build(1, cfg);
    for _ in 0..4 {
        assert_eq!(coord.next_replica_target(), 0);
        assert_eq!(coord.next_client_target(), 0);
    }
}

#[test]
fn rr_counter_wraps_without_panicking() {
    let mut counter: u16 = u16::MAX;
    assert_eq!(rr_pick(&mut counter, 4, false), u16::MAX % 4);
    assert_eq!(counter, 0);
    assert_eq!(rr_pick(&mut counter, 4, true), 1);
}

#[test]
fn mint_client_id_encodes_target_shard() {
    let mut coord = build(8, CoordinatorConfig::default());

    let id = coord.mint_client_id(5);
    assert_eq!((id >> 112) as u16, 5);
    assert_eq!(id & ((1u128 << 112) - 1), 1, "first seq is 1");
}

#[test]
fn seed_client_sequence_mints_above_recovered_ids() {
    let mut coord = build(4, CoordinatorConfig::default());

    let recovered = vec![
        (1u128 << CLIENT_ID_SHARD_SHIFT) | 0x07,
        (3u128 << CLIENT_ID_SHARD_SHIFT) | 0x2a,
        9,
    ];
    coord.seed_client_sequence(0, &recovered);

    let id = coord.mint_client_id(2);
    assert_eq!(
        id & ((1u128 << CLIENT_ID_SHARD_SHIFT) - 1),
        0x2b,
        "must mint above the highest recovered sequence"
    );
    assert_eq!((id >> CLIENT_ID_SHARD_SHIFT) as u16, 2, "tag preserved");
}

#[test]
fn seed_client_sequence_never_lowers_the_counter() {
    let mut coord = build(2, CoordinatorConfig::default());

    for _ in 0..5 {
        let _ = coord.mint_client_id(0);
    }
    coord.seed_client_sequence(0, &Vec::new());
    coord.seed_client_sequence(1, &vec![1u128, 2]);

    let id = coord.mint_client_id(0);
    assert_eq!(
        id & ((1u128 << CLIENT_ID_SHARD_SHIFT) - 1),
        6,
        "counter must keep advancing from where minting left off"
    );
}

#[test]
fn mint_never_carries_the_sequence_into_the_shard_tag() {
    let mut coord = build(4, CoordinatorConfig::default());

    coord.seed_client_sequence(0, &vec![CLIENT_SEQUENCE_MASK]);
    for _ in 0..4 {
        let id = coord.mint_shard_zero_client_id();
        assert_eq!(id >> CLIENT_ID_SHARD_SHIFT, 0, "shard-0 mint must keep tag 0, got id {id:#x}");
        assert_ne!(id, 0, "the wire header rejects client == 0");
    }
}

#[test]
fn seed_ignores_ids_tagged_outside_this_node() {
    let mut coord = build(2, CoordinatorConfig::default());

    coord.seed_client_sequence(0, &vec![(9u128 << CLIENT_ID_SHARD_SHIFT) | 0x0f_ff_ff]);
    assert_eq!(
        coord.mint_shard_zero_client_id() & CLIENT_SEQUENCE_MASK,
        1,
        "an id tagged outside this node must not move the counter"
    );
}

#[test]
fn seed_refolds_the_table_once_per_view() {
    let mut coord = build(2, CoordinatorConfig::default());

    coord.seed_client_sequence(4, &vec![0x10]);
    assert_eq!(coord.mint_shard_zero_client_id() & CLIENT_SEQUENCE_MASK, 0x11);

    coord.seed_client_sequence(4, &vec![0x80]);
    assert_eq!(coord.mint_shard_zero_client_id() & CLIENT_SEQUENCE_MASK, 0x12);

    coord.seed_client_sequence(5, &vec![0x80]);
    assert_eq!(
        coord.mint_shard_zero_client_id() & CLIENT_SEQUENCE_MASK,
        0x81,
        "a promoted primary must mint above what its predecessor committed"
    );
}

#[test]
fn shard_zero_local_and_delegated_ids_never_collide() {
    let mut coord = build(4, CoordinatorConfig::default());

    let mut ids = HashSet::new();
    for _ in 0..8 {
        assert!(ids.insert(coord.mint_shard_zero_client_id()));
        assert!(ids.insert(coord.mint_client_id(0)));
    }
    assert_eq!(ids.len(), 16, "every minted shard-0 client id must be unique");
}

#[test]
fn delegate_replica_inbound_ships_setup_to_target_shard() {
    let (senders, receivers) = build_senders_with_rx(4);
    let mut metrics = ShardMetrics::for_shard();
    let mut coord = match ShardZeroCoordinator::new(senders, 4, CoordinatorConfig::default()) {
        Ok(coord) => coord,
        Err(error) => panic!("coord ctor ok, got {error:?}"),
    };

    let target = match coord.delegate_replica_inbound::<String>(&mut metrics, Ok(900), 42) {
        Ok(target) => target,
        Err(error) => panic!("delegate ok, got {error:?}"),
    };
    assert_eq!(target, 1, "first replica target skips shard 0 under default config");

    match receivers[target as usize].drain.rx.try_recv() {
        Ok(ShardFrame::Lifecycle(LifecycleFrame::ReplicaInboundSetup { fd, slot })) => {
            assert_eq!(slot, 42);
            assert_eq!(fd, 900);
        }
        _ => panic!("expected ReplicaInboundSetup on target shard"),
    }
    for (idx, rx) in receivers.iter().enumerate() {
        if idx == target as usize {
            continue;
        }
        assert!(
            rx.drain.rx.try_recv().is_err(),
            "shard {idx} unexpectedly received a frame after delegate_replica_inbound",
        );
    }
}

#[test]
fn delegate_replica_outbound_ships_setup_with_peer_id() {
    let (senders, receivers) = build_senders_with_rx(4);
    let mut metrics = ShardMetrics::for_shard();
    let mut coord = match ShardZeroCoordinator::new(senders, 4, CoordinatorConfig::default()) {
        Ok(coord) => coord,
        Err(error) => panic!("coord ctor ok, got {error:?}"),
    };
    let target = match coord.delegate_replica_outbound::<String>(&mut metrics, Ok(901), 7) {
        Ok(target) => target,
        Err(error) => panic!("delegate ok, got {error:?}"),
    };
    match receivers[target as usize].drain.rx.try_recv() {
        Ok(ShardFrame::Lifecycle(LifecycleFrame::ReplicaOutboundSetup { fd, replica_id })) => {
            assert_eq!(replica_id, 7);
            assert_eq!(fd, 901);
        }
        _ => panic!("expected ReplicaOutboundSetup on target shard"),
    }
}

#[test]
fn delegate_client_ships_setup_with_meta_transport_tcp() {
    let (senders, receivers) = build_senders_with_rx(4);
    let mut metrics = ShardMetrics::for_shard();
    let mut coord = match ShardZeroCoordinator::new(senders, 4, CoordinatorConfig::default()) {
        Ok(coord) => coord,
        Err(error) => panic!("coord ctor ok, got {error:?}"),
    };
    let client_id = match coord.delegate_client::<String>(&mut metrics, Ok(("127.0.0.1:9".to_string(), 902))) {
        Ok(client_id) => client_id,
        Err(error) => panic!("delegate ok, got {error:?}"),
    };
    let target = (client_id >> CLIENT_ID_SHARD_SHIFT) as usize;
    assert!((0..4).contains(&target), "client target out of range; got {target}");
    match receivers[target].drain.rx.try_recv() {
        Ok(ShardFrame::Lifecycle(LifecycleFrame::ClientConnectionSetup { fd, meta })) => {
            assert_eq!(fd, 902);
            assert_eq!(meta.client_id, client_id);
            assert_eq!(meta.transport, ClientTransportKind::Tcp);
            assert_eq!(meta.peer_addr, "127.0.0.1:9");
        }
        _ => panic!("expected ClientConnectionSetup on target shard"),
    }
}

#[test]
fn delegate_ws_client_ships_setup_with_meta_transport_ws() {
    let (senders, receivers) = build_senders_with_rx(4);
    let mut metrics = ShardMetrics::for_shard();
    let mut coord = match ShardZeroCoordinator::new(senders, 4, CoordinatorConfig::default()) {
        Ok(coord) => coord,
        Err(error) => panic!("coord ctor ok, got {error:?}"),
    };
    let client_id = match coord.delegate_ws_client::<String>(&mut metrics, Ok(("127.0.0.1:9".to_string(), 903))) {
        Ok(client_id) => client_id,
        Err(error) => panic!("delegate ok, got {error:?}"),
    };
    let target = (client_id >> CLIENT_ID_SHARD_SHIFT) as usize;
    assert!((0..4).contains(&target), "client target out of range; got {target}");
    match receivers[target].drain.rx.try_recv() {
        Ok(ShardFrame::Lifecycle(LifecycleFrame::ClientWsConnectionSetup { fd, meta })) => {
            assert_eq!(fd, 903);
            assert_eq!(meta.client_id, client_id);
            assert_eq!(meta.transport, ClientTransportKind::Ws);
        }
        _ => panic!("expected ClientWsConnectionSetup on target shard"),
    }
}

#[test]
fn delegate_without_a_handle_still_spends_the_target() {
    let mut metrics = ShardMetrics::for_shard();
    let mut coord = build(4, CoordinatorConfig::default());
    let unduplicated = coord.delegate_replica_inbound(&mut metrics, Err("no descriptors"), 1);
    assert!(matches!(unduplicated, Err(DelegateError::DupFailed("no descriptors"))));
    assert_eq!(coord.next_replica_target(), 2);
    let unread = coord.delegate_client(&mut metrics, Err("no peer"));
    assert!(matches!(unread, Err(DelegateError::DupFailed("no peer"))));
    assert_eq!(coord.mint_client_id(0) & CLIENT_SEQUENCE_MASK, 2);
}

#[test]
fn delegate_to_a_gone_shard_is_recorded() {
    let mut metrics = ShardMetrics::for_shard();
    // The receivers of these lanes were dropped.
    let mut coord = build(4, CoordinatorConfig::default());
    assert!(matches!(
        coord.delegate_replica_inbound::<String>(&mut metrics, Ok(904), 1),
        Err(DelegateError::RoutingFailed(1))
    ));
    assert_eq!(
        metrics.frame_drop_count(frame_drop_variant::FD_TRANSFER, frame_drop_reason::DISCONNECTED),
        1
    );
}

#[test]
fn delegate_to_a_full_shard_is_recorded() {
    let (senders, receivers) = build_senders_with_rx(2);
    let mut metrics = ShardMetrics::for_shard();
    let mut coord = match ShardZeroCoordinator::new(senders, 2, CoordinatorConfig::default()) {
        Ok(coord) => coord,
        Err(error) => panic!("coord ctor ok, got {error:?}"),
    };
    for slot in 0..16 {
        assert!(matches!(coord.delegate_replica_inbound::<String>(&mut metrics, Ok(905), slot), Ok(1)));
    }
    assert!(matches!(
        coord.delegate_replica_inbound::<String>(&mut metrics, Ok(906), 16),
        Err(DelegateError::RoutingFailed(1))
    ));
    assert_eq!(metrics.frame_drop_count(frame_drop_variant::FD_TRANSFER, frame_drop_reason::FULL), 1);
    assert_eq!(metrics.frame_drop_count(frame_drop_variant::FD_TRANSFER, frame_drop_reason::DISCONNECTED), 0);
    assert!((0..16).all(|_| receivers[1].drain.rx.try_recv().is_ok()));
    assert!(receivers[1].drain.rx.try_recv().is_err());
}

#[test]
fn client_setup_follows_the_transport() {
    let meta = |transport| ClientConnMeta { client_id: 5, peer_addr: "a".to_string(), transport };
    assert!(matches!(
        client_setup(1u32, meta(ClientTransportKind::Ws)),
        LifecycleFrame::ClientWsConnectionSetup { fd: 1, .. }
    ));
    assert!(matches!(
        client_setup(2u32, meta(ClientTransportKind::Tcp)),
        LifecycleFrame::ClientConnectionSetup { fd: 2, .. }
    ));
}

#[test]
fn no_id_repeats_across_mints_and_seedings() {
    let mut coord = build(4, CoordinatorConfig::default());
    let mut ids = HashSet::new();
    for view in 0..6u32 {
        for shard in 0..4 {
            assert!(ids.insert(coord.mint_client_id(shard)));
        }
        assert!(ids.insert(coord.mint_shard_zero_client_id()));
        let table: Vec<u128> = ids.iter().copied().chain([u128::from(view) * 10]).collect();
        coord.seed_client_sequence(view, &table);
    }
    assert_eq!(ids.len(), 30);
}
