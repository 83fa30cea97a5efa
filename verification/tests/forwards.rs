use shard::channel::channel;
use shard::forwards::{forward_nonce_seed, next_nonce, ForwardResult, ForwardTable};

fn result(nonce: u128, client: u128) -> ForwardResult {
    ForwardResult { nonce, client, verdict: vec![1, 2] }
}

#[test]
fn verdict_reaches_its_waiter_once() {
    let mut table = ForwardTable::new();
    let (tx, rx) = channel::<ForwardResult>(1);
    table.park(5, 9, tx);
    assert!(table.deliver(result(5, 9)).is_some());
    match rx.drain.rx.try_recv() {
        Ok(delivered) => assert_eq!(delivered.verdict, vec![1, 2]),
        Err(_) => panic!("the verdict must arrive"),
    }
    assert!(table.deliver(result(5, 9)).is_none());
}

#[test]
fn foreign_verdict_evicts_nothing() {
    let mut table = ForwardTable::new();
    let (tx, rx) = channel::<ForwardResult>(1);
    table.park(5, 9, tx);
    assert!(table.deliver(result(5, 8)).is_none());
    assert!(table.deliver(result(6, 9)).is_none());
    assert!(rx.drain.rx.try_recv().is_err());
    assert!(table.take(5, 9).is_some());
    assert!(table.take(5, 9).is_none());
}

#[test]
fn parking_again_replaces_the_waiter() {
    let mut table = ForwardTable::new();
    let (first, first_rx) = channel::<ForwardResult>(1);
    let (second, second_rx) = channel::<ForwardResult>(1);
    table.park(5, 9, first);
    table.park(5, 9, second);
    assert_eq!(table.entries.len(), 1);
    assert!(table.deliver(result(5, 9)).is_some());
    assert!(first_rx.drain.rx.try_recv().is_err());
    assert!(second_rx.drain.rx.try_recv().is_ok());
}

#[test]
fn verdict_for_a_waiter_that_left_is_no_fault() {
    let mut table = ForwardTable::new();
    let (tx, rx) = channel::<ForwardResult>(1);
    drop(rx);
    table.park(5, 9, tx);
    assert!(table.deliver(result(5, 9)).is_some());
}

#[test]
fn nonces_skip_zero_and_carry_the_replica() {
    let mut counter = 41;
    assert_eq!(next_nonce(&mut counter, 0), 42);
    assert_eq!(next_nonce(&mut counter, 3), (3u128 << 64) | 43);
    counter = u64::MAX;
    assert_eq!(next_nonce(&mut counter, 1), (1u128 << 64) | 1);
    assert_eq!(counter, 1);
}

#[test]
fn seed_is_the_low_half_of_the_incarnation() {
    assert_eq!(forward_nonce_seed(None), 0);
    assert_eq!(forward_nonce_seed(Some((7u128 << 64) | 19)), 19);
    assert_eq!(forward_nonce_seed(Some(u128::MAX)), u64::MAX);
}
