use zmq_rep::PeerIdentity;
use zmq_rep::ZmqMessage;
use zmq_rep::fair_queue::FairQueue;
use zmq_rep::fair_queue::InboundItem;
use zmq_rep::fair_queue::PullOutcome;

fn id(bytes: &[u8]) -> PeerIdentity {
    PeerIdentity::from_bytes(bytes.to_vec())
}

fn data(payload: &[u8]) -> InboundItem {
    InboundItem::Data(ZmqMessage::from_frames(vec![payload.to_vec()]))
}

fn pulled_from(q: &mut FairQueue) -> Option<Vec<u8>> {
    match q.pull() {
        PullOutcome::Item(peer, _) => Some(peer.as_bytes().clone()),
        _ => None,
    }
}

#[test]
fn fresh_registry_is_pending() {
    // Before any source is registered, a first peer may still connect, so
    // pulling waits rather than reporting exhaustion.
    let mut q = FairQueue::new(true);
    assert!(matches!(q.pull(), PullOutcome::Pending));
    assert!(matches!(q.pull(), PullOutcome::Pending));
}

#[test]
fn registered_but_silent_source_is_pending() {
    let mut q = FairQueue::new(true);
    q.register(id(b"A"));
    assert!(matches!(q.pull(), PullOutcome::Pending));
}

#[test]
fn items_of_one_source_come_in_order() {
    let mut q = FairQueue::new(true);
    q.register(id(b"A"));
    assert!(q.deliver(&id(b"A"), data(b"one")));
    assert!(q.deliver(&id(b"A"), data(b"two")));
    for expected in [b"one".to_vec(), b"two".to_vec()] {
        match q.pull() {
            PullOutcome::Item(_, InboundItem::Data(m)) => {
                assert_eq!(m.frame(0).unwrap(), &expected);
            }
            _ => panic!("expected an item"),
        }
    }
    assert!(matches!(q.pull(), PullOutcome::Pending));
}

#[test]
fn rotation_alternates_between_ready_sources() {
    let mut q = FairQueue::new(true);
    q.register(id(b"A"));
    q.register(id(b"B"));
    for _ in 0..3 {
        assert!(q.deliver(&id(b"A"), data(b"a")));
        assert!(q.deliver(&id(b"B"), data(b"b")));
    }
    let order: Vec<Vec<u8>> = (0..6).map(|_| pulled_from(&mut q).unwrap()).collect();
    assert_eq!(
        order,
        vec![
            b"A".to_vec(),
            b"B".to_vec(),
            b"A".to_vec(),
            b"B".to_vec(),
            b"A".to_vec(),
            b"B".to_vec()
        ]
    );
}

#[test]
fn deliver_to_unknown_source_is_refused() {
    let mut q = FairQueue::new(true);
    q.register(id(b"A"));
    assert!(!q.deliver(&id(b"B"), data(b"stray")));
}

#[test]
fn deliver_to_ended_source_is_refused() {
    let mut q = FairQueue::new(true);
    q.register(id(b"A"));
    assert!(q.deliver(&id(b"A"), data(b"kept")));
    q.end_source(&id(b"A"));
    assert!(!q.deliver(&id(b"A"), data(b"late")));
}

#[test]
fn ended_source_is_drained_then_evicted() {
    let mut q = FairQueue::new(true);
    q.register(id(b"A"));
    assert!(q.deliver(&id(b"A"), data(b"last")));
    q.end_source(&id(b"A"));
    // The buffered item still comes out...
    assert!(matches!(q.pull(), PullOutcome::Item(_, _)));
    // ...and the drained, ended source is gone: the registry is exhausted.
    assert!(matches!(q.pull(), PullOutcome::Empty));
}

#[test]
fn ending_a_drained_source_evicts_it_at_once() {
    let mut q = FairQueue::new(true);
    q.register(id(b"A"));
    q.end_source(&id(b"A"));
    assert!(matches!(q.pull(), PullOutcome::Empty));
}

#[test]
fn without_auto_eviction_an_ended_source_stays() {
    let mut q = FairQueue::new(false);
    q.register(id(b"A"));
    q.end_source(&id(b"A"));
    // Exhausted, but the registry keeps the ended source either way.
    assert!(matches!(q.pull(), PullOutcome::Empty));
    assert!(matches!(q.pull(), PullOutcome::Empty));
}

#[test]
fn reregistering_resets_a_source() {
    let mut q = FairQueue::new(true);
    q.register(id(b"A"));
    assert!(q.deliver(&id(b"A"), data(b"stale")));
    q.register(id(b"A"));
    // The replacement stream starts empty and open.
    assert!(matches!(q.pull(), PullOutcome::Pending));
    assert!(q.deliver(&id(b"A"), data(b"fresh")));
    match q.pull() {
        PullOutcome::Item(_, InboundItem::Data(m)) => {
            assert_eq!(m.frame(0).unwrap(), &b"fresh".to_vec());
        }
        _ => panic!("expected an item"),
    }
}
