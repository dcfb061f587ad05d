use rendezvous::signal::settle_wait;
use rendezvous::table::{settle_delivery, OfferOutcome, RendezvousTable};
use rendezvous::RendezvousError;

/// What a suspended caller's wait comes to: the test settles the consumer
/// half synchronously, outside any runtime.
fn resolve(rx: tokio::sync::oneshot::Receiver<Vec<u8>>) -> Result<Vec<u8>, RendezvousError> {
    settle_wait(rx.blocking_recv().ok())
}

#[test]
fn pairing_delivers_both_marked_payloads() {
    let mut t = RendezvousTable::new();
    let first = t.offer(b"room1".to_vec(), b"OFFER:actpass".to_vec());
    let rx = match first {
        OfferOutcome::Suspended(rx) => rx,
        _ => panic!("first arrival must suspend"),
    };
    let second = t.offer(b"room1".to_vec(), b"ANSWER:actpass".to_vec());
    match second {
        OfferOutcome::Paired(reply) => assert_eq!(reply, b"OFFER:active".to_vec()),
        _ => panic!("second arrival must pair"),
    }
    assert_eq!(resolve(rx), Ok(b"ANSWER:passive".to_vec()));
}

#[test]
fn pairing_swaps_payloads_without_placeholder() {
    let mut t = RendezvousTable::new();
    let rx = match t.offer(b"k".to_vec(), b"first payload".to_vec()) {
        OfferOutcome::Suspended(rx) => rx,
        _ => panic!("first arrival must suspend"),
    };
    match t.offer(b"k".to_vec(), b"second payload".to_vec()) {
        OfferOutcome::Paired(reply) => assert_eq!(reply, b"first payload".to_vec()),
        _ => panic!("second arrival must pair"),
    }
    assert_eq!(resolve(rx), Ok(b"second payload".to_vec()));
}

#[test]
fn remove_releases_suspended_caller() {
    let mut t = RendezvousTable::new();
    let rx = match t.offer(b"roomX".to_vec(), b"A".to_vec()) {
        OfferOutcome::Suspended(rx) => rx,
        _ => panic!("first arrival must suspend"),
    };
    assert!(t.remove(&b"roomX".to_vec()));
    assert_eq!(resolve(rx), Err(RendezvousError::PartnerUnavailable));
    assert!(t.list_keys().is_empty());
}

#[test]
fn remove_of_absent_key_returns_false() {
    let mut t = RendezvousTable::new();
    assert!(!t.remove(&b"nobody".to_vec()));
    let rx = match t.offer(b"present".to_vec(), b"P".to_vec()) {
        OfferOutcome::Suspended(rx) => rx,
        _ => panic!("first arrival must suspend"),
    };
    assert!(!t.remove(&b"absent".to_vec()));
    assert_eq!(t.list_keys(), vec![b"present".to_vec()]);
    drop(rx);
}

#[test]
fn clear_releases_every_caller_and_counts() {
    let mut t = RendezvousTable::new();
    let rx1 = match t.offer(b"a".to_vec(), b"p1".to_vec()) {
        OfferOutcome::Suspended(rx) => rx,
        _ => panic!("first arrival must suspend"),
    };
    let rx2 = match t.offer(b"b".to_vec(), b"p2".to_vec()) {
        OfferOutcome::Suspended(rx) => rx,
        _ => panic!("first arrival must suspend"),
    };
    assert_eq!(t.clear(), 2);
    assert_eq!(resolve(rx1), Err(RendezvousError::PartnerUnavailable));
    assert_eq!(resolve(rx2), Err(RendezvousError::PartnerUnavailable));
    assert!(t.list_keys().is_empty());
}

#[test]
fn clear_twice_evicts_nothing_the_second_time() {
    let mut t = RendezvousTable::new();
    let rx = match t.offer(b"a".to_vec(), b"p".to_vec()) {
        OfferOutcome::Suspended(rx) => rx,
        _ => panic!("first arrival must suspend"),
    };
    assert_eq!(t.clear(), 1);
    assert_eq!(t.clear(), 0);
    assert!(t.list_keys().is_empty());
    assert_eq!(resolve(rx), Err(RendezvousError::PartnerUnavailable));
}

#[test]
fn delivery_fails_when_consumer_is_gone() {
    let mut t = RendezvousTable::new();
    let rx = match t.offer(b"gone".to_vec(), b"first".to_vec()) {
        OfferOutcome::Suspended(rx) => rx,
        _ => panic!("first arrival must suspend"),
    };
    drop(rx);
    match t.offer(b"gone".to_vec(), b"second".to_vec()) {
        OfferOutcome::DeliveryFailed => {}
        _ => panic!("delivery into an abandoned slot must fail"),
    }
    assert!(t.list_keys().is_empty());
}

#[test]
fn third_caller_starts_a_fresh_rendezvous() {
    let mut t = RendezvousTable::new();
    let rx1 = match t.offer(b"k".to_vec(), b"p1".to_vec()) {
        OfferOutcome::Suspended(rx) => rx,
        _ => panic!("first arrival must suspend"),
    };
    match t.offer(b"k".to_vec(), b"p2".to_vec()) {
        OfferOutcome::Paired(reply) => assert_eq!(reply, b"p1".to_vec()),
        _ => panic!("second arrival must pair"),
    }
    let rx3 = match t.offer(b"k".to_vec(), b"p3".to_vec()) {
        OfferOutcome::Suspended(rx) => rx,
        _ => panic!("a third arrival must start fresh"),
    };
    assert_eq!(t.list_keys(), vec![b"k".to_vec()]);
    assert_eq!(resolve(rx1), Ok(b"p2".to_vec()));
    drop(rx3);
}

#[test]
fn list_keys_snapshots_each_pending_key_once() {
    let mut t = RendezvousTable::new();
    let mut receivers = Vec::new();
    for key in [b"one".to_vec(), b"two".to_vec(), b"three".to_vec()] {
        match t.offer(key, b"p".to_vec()) {
            OfferOutcome::Suspended(rx) => receivers.push(rx),
            _ => panic!("first arrival must suspend"),
        }
    }
    let mut keys = t.list_keys();
    keys.sort();
    assert_eq!(keys, vec![b"one".to_vec(), b"three".to_vec(), b"two".to_vec()]);
    drop(receivers);
}

#[test]
fn interleaved_offers_keep_one_entry_per_key() {
    let mut t = RendezvousTable::new();
    let mut receivers = Vec::new();
    match t.offer(b"k".to_vec(), b"p1".to_vec()) {
        OfferOutcome::Suspended(rx) => receivers.push(rx),
        _ => panic!("first arrival must suspend"),
    }
    match t.offer(b"k".to_vec(), b"p2".to_vec()) {
        OfferOutcome::Paired(_) => {}
        _ => panic!("second arrival must pair"),
    }
    match t.offer(b"k".to_vec(), b"p3".to_vec()) {
        OfferOutcome::Suspended(rx) => receivers.push(rx),
        _ => panic!("a third arrival must start fresh"),
    }
    assert!(t.remove(&b"k".to_vec()));
    match t.offer(b"k".to_vec(), b"p4".to_vec()) {
        OfferOutcome::Suspended(rx) => receivers.push(rx),
        _ => panic!("an arrival after eviction must start fresh"),
    }
    match t.offer(b"other".to_vec(), b"q".to_vec()) {
        OfferOutcome::Suspended(rx) => receivers.push(rx),
        _ => panic!("first arrival must suspend"),
    }
    let mut keys = t.list_keys();
    keys.sort();
    assert_eq!(keys, vec![b"k".to_vec(), b"other".to_vec()]);
    drop(receivers);
}

#[test]
fn settle_delivery_reports_each_outcome() {
    match settle_delivery(true, b"reply".to_vec()) {
        OfferOutcome::Paired(v) => assert_eq!(v, b"reply".to_vec()),
        _ => panic!("an accepted delivery completes the pairing"),
    }
    match settle_delivery(false, b"reply".to_vec()) {
        OfferOutcome::DeliveryFailed => {}
        _ => panic!("a rejected delivery closes the pairing window"),
    }
}

#[test]
fn settle_wait_reports_each_outcome() {
    assert_eq!(settle_wait(Some(b"v".to_vec())), Ok(b"v".to_vec()));
    assert_eq!(
        settle_wait(None),
        Err::<Vec<u8>, _>(RendezvousError::PartnerUnavailable)
    );
}
