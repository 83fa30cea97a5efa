use shard::channel::{
    channel, classify_try_send_err, shard_channel, shard_mesh_channels, validate_sender_ordering, SendRefusal, ShardCtorError,
};
use shard::frames::{LifecycleFrame, ShardFrame};
use shard::metrics::frame_drop_reason;

type Handle = u32;

#[test]
fn refused_item_comes_back_with_its_reason() {
    let (mut tx, rx) = channel::<u64>(1);
    assert!(tx.try_send(1).is_ok());
    match tx.try_send(2) {
        Err(refusal) => {
            assert_eq!(classify_try_send_err(&refusal), frame_drop_reason::FULL);
            assert!(matches!(refusal, SendRefusal::Full(2)));
        }
        Ok(()) => panic!("a full channel must refuse"),
    }
    assert_eq!(rx.drain.rx.try_recv().ok(), Some(1));
    drop(rx);
    match tx.try_send(3) {
        Err(refusal) => {
            assert_eq!(classify_try_send_err(&refusal), frame_drop_reason::DISCONNECTED);
            assert!(matches!(refusal, SendRefusal::Disconnected(3)));
        }
        Ok(()) => panic!("a gone receiver must refuse"),
    }
}

#[test]
fn duplicated_sender_feeds_the_same_channel() {
    let (tx, rx) = channel::<u64>(4);
    let mut another = tx.duplicate();
    drop(tx);
    assert!(another.try_send(8).is_ok());
    assert_eq!(rx.drain.rx.try_recv().ok(), Some(8));
}

#[test]
fn lanes_are_independent() {
    let (mut tx, rx, reply_rx) = shard_channel::<Handle>(2, 1, 1);
    assert_eq!(tx.shard_id(), 2);
    assert!(tx.try_send(ShardFrame::lifecycle(LifecycleFrame::ReconcileApply)).is_ok());
    assert!(tx.try_send(ShardFrame::lifecycle(LifecycleFrame::ReconcileApply)).is_err());
    let reply = ShardFrame::lifecycle(LifecycleFrame::ForwardClientSend { client_id: 1, msg: vec![] });
    assert!(tx.reply_sender().duplicate().try_send(reply).is_ok());
    assert!(rx.drain.rx.try_recv().is_ok());
    assert!(matches!(
        reply_rx.drain.rx.try_recv(),
        Ok(ShardFrame::Lifecycle(LifecycleFrame::ForwardClientSend { client_id: 1, .. }))
    ));
}

#[test]
fn each_lane_holds_its_own_capacity() {
    let (mut tx, _rx, _reply_rx) = shard_channel::<Handle>(0, 3, 0);
    for _ in 0..3 {
        assert!(tx.try_send(ShardFrame::lifecycle(LifecycleFrame::ReconcileApply)).is_ok());
    }
    assert!(tx.try_send(ShardFrame::lifecycle(LifecycleFrame::ReconcileApply)).is_err());
    assert!(tx.reply.try_send(ShardFrame::lifecycle(LifecycleFrame::ReconcileApply)).is_ok());
    assert!(tx.reply.try_send(ShardFrame::lifecycle(LifecycleFrame::ReconcileApply)).is_err());
}

#[test]
fn mesh_is_in_canonical_order() {
    let (senders, inboxes, replies) = shard_mesh_channels::<Handle>(3, 2, 2);
    assert!(validate_sender_ordering(&senders).is_ok());
    assert_eq!(inboxes.len(), 3);
    assert!(replies.iter().all(|reply| reply.is_some()));
    let mut copy = senders[1].duplicate();
    assert!(copy.try_send(ShardFrame::lifecycle(LifecycleFrame::MetadataCommitTick)).is_ok());
    assert!(inboxes[1].as_ref().expect("inbox").drain.rx.try_recv().is_ok());
}

#[test]
fn frame_reaches_its_own_inbox_only() {
    let (mut senders, inboxes, replies) = shard_mesh_channels::<Handle>(3, 2, 2);
    let frame = || ShardFrame::<Handle>::lifecycle(LifecycleFrame::MetadataCommitTick);
    for shard in 0..3 {
        assert!(senders[shard].try_send(frame()).is_ok());
        for (index, inbox) in inboxes.iter().enumerate() {
            let received = inbox.as_ref().expect("inbox").drain.rx.try_recv().is_ok();
            assert_eq!(received, index == shard);
        }
        assert!(replies.iter().all(|reply| reply.as_ref().expect("reply inbox").drain.rx.try_recv().is_err()));
        assert!(senders[shard].reply_sender().duplicate().try_send(frame()).is_ok());
        for (index, reply) in replies.iter().enumerate() {
            let received = reply.as_ref().expect("reply inbox").drain.rx.try_recv().is_ok();
            assert_eq!(received, index == shard);
        }
        assert!(inboxes.iter().all(|inbox| inbox.as_ref().expect("inbox").drain.rx.try_recv().is_err()));
    }
}

#[test]
fn first_misplaced_sender_is_named() {
    let (mut senders, _inboxes, _replies) = shard_mesh_channels::<Handle>(4, 1, 1);
    senders.swap(1, 3);
    assert_eq!(
        validate_sender_ordering(&senders),
        Err(ShardCtorError::SenderOrderingInvalid { index: 1, expected: 1, actual: 3 })
    );
}

#[test]
fn more_senders_than_ids_are_refused() {
    let (lane, _rx, _reply) = shard_channel::<Handle>(0, 1, 1);
    let mut senders = Vec::new();
    for index in 0..=u16::MAX {
        let mut sender = lane.duplicate();
        sender.shard_id = index;
        senders.push(sender);
    }
    assert_eq!(
        validate_sender_ordering(&senders),
        Err(ShardCtorError::ShardCountOverflow { count: 65536 })
    );
    senders.pop();
    assert!(validate_sender_ordering(&senders).is_ok());
}
