use zmq_rep::PeerIdentity;
use zmq_rep::ReturnReason;
use zmq_rep::ZmqError;
use zmq_rep::ZmqMessage;
use zmq_rep::fair_queue::InboundItem;
use zmq_rep::rep::RecvPoll;
use zmq_rep::rep::RepSocket;

fn msg(frames: &[&[u8]]) -> ZmqMessage {
    let mut v: Vec<Vec<u8>> = Vec::new();
    for f in frames {
        v.push(f.to_vec());
    }
    ZmqMessage::from_frames(v)
}

fn frames_of(m: &ZmqMessage) -> Vec<Vec<u8>> {
    let mut v: Vec<Vec<u8>> = Vec::new();
    let mut i = 0;
    while let Some(f) = m.frame(i) {
        v.push(f.clone());
        i += 1;
    }
    v
}

fn id(bytes: &[u8]) -> PeerIdentity {
    PeerIdentity::from_bytes(bytes.to_vec())
}

#[test]
fn hello_world_round_trip() {
    let mut s = RepSocket::new();
    let c1 = id(b"C1");
    s.peer_connected(&c1);
    assert!(s.inbound(&c1, InboundItem::Data(msg(&[b"", b"hello"]))));
    match s.recv() {
        RecvPoll::Delivered(p) => {
            assert_eq!(frames_of(&p), vec![b"hello".to_vec()]);
        }
        _ => panic!("expected a delivered payload"),
    }
    assert!(s.send(msg(&[b"world"])).is_ok());
    let out = s.peer_outbox(&c1).expect("peer registered");
    assert_eq!(out.len(), 1);
    assert_eq!(frames_of(&out[0]), vec![b"".to_vec(), b"world".to_vec()]);
}

#[test]
fn envelope_with_routing_frame_round_trip() {
    let mut s = RepSocket::new();
    let c1 = id(b"C1");
    s.peer_connected(&c1);
    assert!(s.inbound(&c1, InboundItem::Data(msg(&[b"route", b"", b"req", b"body"]))));
    match s.recv() {
        RecvPoll::Delivered(p) => {
            assert_eq!(frames_of(&p), vec![b"req".to_vec(), b"body".to_vec()]);
        }
        _ => panic!("expected a delivered payload"),
    }
    assert!(s.send(msg(&[b"resp"])).is_ok());
    let out = s.peer_outbox(&c1).expect("peer registered");
    assert_eq!(
        frames_of(&out[0]),
        vec![b"route".to_vec(), b"".to_vec(), b"resp".to_vec()]
    );
}

#[test]
fn send_without_recv_returns_message() {
    let mut s = RepSocket::new();
    let reply = msg(&[b"unwanted"]);
    match s.send(reply) {
        Err(ZmqError::ReturnToSender { reason, message }) => {
            assert!(matches!(reason, ReturnReason::NoRequestInProgress));
            assert_eq!(frames_of(&message), vec![b"unwanted".to_vec()]);
        }
        _ => panic!("expected a return-to-sender error"),
    }
}

#[test]
fn second_send_after_one_recv_fails() {
    let mut s = RepSocket::new();
    let c1 = id(b"C1");
    s.peer_connected(&c1);
    assert!(s.inbound(&c1, InboundItem::Data(msg(&[b"", b"ping"]))));
    assert!(matches!(s.recv(), RecvPoll::Delivered(_)));
    assert!(s.send(msg(&[b"pong"])).is_ok());
    match s.send(msg(&[b"extra"])) {
        Err(ZmqError::ReturnToSender { reason, message }) => {
            assert!(matches!(reason, ReturnReason::NoRequestInProgress));
            assert_eq!(frames_of(&message), vec![b"extra".to_vec()]);
        }
        _ => panic!("expected a return-to-sender error"),
    }
    let out = s.peer_outbox(&c1).expect("peer registered");
    assert_eq!(out.len(), 1);
}

#[test]
fn disconnect_between_recv_and_send() {
    let mut s = RepSocket::new();
    let c1 = id(b"C1");
    s.peer_connected(&c1);
    assert!(s.inbound(&c1, InboundItem::Data(msg(&[b"", b"req"]))));
    assert!(matches!(s.recv(), RecvPoll::Delivered(_)));
    s.peer_disconnected(&c1);
    match s.send(msg(&[b"late"])) {
        Err(ZmqError::ReturnToSender { reason, message }) => {
            assert!(matches!(reason, ReturnReason::ClientDisconnected));
            assert_eq!(frames_of(&message), vec![b"late".to_vec()]);
        }
        _ => panic!("expected a return-to-sender error"),
    }
}

#[test]
fn fairness_continuous_sender_does_not_starve() {
    let mut s = RepSocket::new();
    let a = id(b"A");
    let b = id(b"B");
    s.peer_connected(&a);
    s.peer_connected(&b);
    for _ in 0..8 {
        assert!(s.inbound(&a, InboundItem::Data(msg(&[b"", b"from-a"]))));
    }
    assert!(s.inbound(&b, InboundItem::Data(msg(&[b"", b"from-b"]))));
    let mut saw_b_at = None;
    for pull in 0..3 {
        match s.recv() {
            RecvPoll::Delivered(p) => {
                if frames_of(&p) == vec![b"from-b".to_vec()] {
                    saw_b_at = Some(pull);
                    break;
                }
            }
            _ => panic!("expected a delivered payload"),
        }
    }
    // B stands one rotation position behind A, so B is served by the second
    // pull however many messages A has queued.
    assert_eq!(saw_b_at, Some(1));
}

#[test]
fn short_message_is_protocol_violation_not_crash() {
    let mut s = RepSocket::new();
    let c1 = id(b"C1");
    s.peer_connected(&c1);
    assert!(s.inbound(&c1, InboundItem::Data(msg(&[b"lonely"]))));
    assert!(matches!(
        s.recv(),
        RecvPoll::Rejected(ZmqError::ProtocolViolation)
    ));
    // The violation corrupts nothing: the next exchange still works.
    assert!(s.inbound(&c1, InboundItem::Data(msg(&[b"", b"good"]))));
    match s.recv() {
        RecvPoll::Delivered(p) => assert_eq!(frames_of(&p), vec![b"good".to_vec()]),
        _ => panic!("expected a delivered payload"),
    }
    assert!(s.send(msg(&[b"reply"])).is_ok());
    let out = s.peer_outbox(&c1).expect("peer registered");
    assert_eq!(frames_of(&out[0]), vec![b"".to_vec(), b"reply".to_vec()]);
}

#[test]
fn many_peers_round_trip_with_correct_targeting() {
    let mut s = RepSocket::new();
    let n = 10u8;
    let ids: Vec<PeerIdentity> = (0..n).map(|k| id(&[k])).collect();
    for p in &ids {
        s.peer_connected(p);
    }
    for (k, p) in ids.iter().enumerate() {
        assert!(s.inbound(p, InboundItem::Data(msg(&[b"", &[b'q', k as u8]]))));
    }
    for _ in 0..n {
        let payload = match s.recv() {
            RecvPoll::Delivered(p) => frames_of(&p),
            _ => panic!("expected a delivered payload"),
        };
        let k = payload[0][1];
        assert!(s.send(msg(&[&[b'r', k]])).is_ok());
    }
    for (k, p) in ids.iter().enumerate() {
        let out = s.peer_outbox(p).expect("peer registered");
        assert_eq!(out.len(), 1, "peer {k} got {} replies", out.len());
        assert_eq!(
            frames_of(&out[0]),
            vec![b"".to_vec(), vec![b'r', k as u8]],
            "peer {k} got someone else's reply"
        );
    }
}

#[test]
fn control_frame_is_unsupported_inbound() {
    let mut s = RepSocket::new();
    let c1 = id(b"C1");
    s.peer_connected(&c1);
    assert!(s.inbound(&c1, InboundItem::Control));
    assert!(matches!(
        s.recv(),
        RecvPoll::Rejected(ZmqError::UnsupportedInbound)
    ));
}

#[test]
fn read_error_is_unsupported_inbound() {
    let mut s = RepSocket::new();
    let c1 = id(b"C1");
    s.peer_connected(&c1);
    assert!(s.inbound(&c1, InboundItem::ReadError));
    assert!(matches!(
        s.recv(),
        RecvPoll::Rejected(ZmqError::UnsupportedInbound)
    ));
}

#[test]
fn recv_before_any_peer_is_pending() {
    // A fresh socket waits for its first peer instead of failing.
    let mut s = RepSocket::new();
    assert!(matches!(s.recv(), RecvPoll::Pending));
    assert!(matches!(s.recv(), RecvPoll::Pending));
}

#[test]
fn recv_after_all_streams_end_is_no_message() {
    let mut s = RepSocket::new();
    let c1 = id(b"C1");
    s.peer_connected(&c1);
    s.inbound_closed(&c1);
    assert!(matches!(s.recv(), RecvPoll::Rejected(ZmqError::NoMessage)));
}

#[test]
fn recv_with_idle_peer_is_pending() {
    let mut s = RepSocket::new();
    let c1 = id(b"C1");
    s.peer_connected(&c1);
    assert!(matches!(s.recv(), RecvPoll::Pending));
}

#[test]
fn second_recv_overwrites_pending_exchange() {
    let mut s = RepSocket::new();
    let a = id(b"A");
    let b = id(b"B");
    s.peer_connected(&a);
    s.peer_connected(&b);
    assert!(s.inbound(&a, InboundItem::Data(msg(&[b"", b"first"]))));
    assert!(s.inbound(&b, InboundItem::Data(msg(&[b"", b"second"]))));
    assert!(matches!(s.recv(), RecvPoll::Delivered(_)));
    assert!(matches!(s.recv(), RecvPoll::Delivered(_)));
    // The reply goes to the later request's peer; the first is unanswerable.
    assert!(s.send(msg(&[b"reply"])).is_ok());
    assert_eq!(s.peer_outbox(&a).expect("registered").len(), 0);
    assert_eq!(s.peer_outbox(&b).expect("registered").len(), 1);
}

#[test]
fn zero_frame_message_is_protocol_violation() {
    let mut s = RepSocket::new();
    let c1 = id(b"C1");
    s.peer_connected(&c1);
    assert!(s.inbound(&c1, InboundItem::Data(ZmqMessage::from_frames(Vec::new()))));
    assert!(matches!(
        s.recv(),
        RecvPoll::Rejected(ZmqError::ProtocolViolation)
    ));
}

#[test]
fn trailing_delimiter_yields_empty_payload() {
    let mut s = RepSocket::new();
    let c1 = id(b"C1");
    s.peer_connected(&c1);
    assert!(s.inbound(&c1, InboundItem::Data(msg(&[b"route", b""]))));
    match s.recv() {
        RecvPoll::Delivered(p) => assert_eq!(p.len(), 0),
        _ => panic!("expected a delivered payload"),
    }
    assert!(s.send(msg(&[b"reply"])).is_ok());
    let out = s.peer_outbox(&c1).expect("peer registered");
    assert_eq!(
        frames_of(&out[0]),
        vec![b"route".to_vec(), b"".to_vec(), b"reply".to_vec()]
    );
}

#[test]
fn take_outbound_drains_replies_oldest_first() {
    let mut s = RepSocket::new();
    let c1 = id(b"C1");
    s.peer_connected(&c1);
    for k in 0..2u8 {
        assert!(s.inbound(&c1, InboundItem::Data(msg(&[b"", &[b'q', k]]))));
        assert!(matches!(s.recv(), RecvPoll::Delivered(_)));
        assert!(s.send(msg(&[&[b'r', k]])).is_ok());
    }
    let first = s.take_outbound(&c1).expect("first reply queued");
    assert_eq!(frames_of(&first), vec![b"".to_vec(), vec![b'r', 0]]);
    let second = s.take_outbound(&c1).expect("second reply queued");
    assert_eq!(frames_of(&second), vec![b"".to_vec(), vec![b'r', 1]]);
    assert!(s.take_outbound(&c1).is_none());
    assert_eq!(s.peer_outbox(&c1).expect("registered").len(), 0);
}

#[test]
fn take_outbound_from_unknown_peer_is_none() {
    let mut s = RepSocket::new();
    assert!(s.take_outbound(&id(b"ghost")).is_none());
}

#[test]
fn shutdown_clears_peers_and_is_idempotent() {
    let mut s = RepSocket::new();
    let c1 = id(b"C1");
    s.peer_connected(&c1);
    s.shutdown();
    assert!(s.peer_outbox(&c1).is_none());
    s.shutdown();
    assert!(s.peer_outbox(&c1).is_none());
}

#[test]
fn socket_type_is_rep() {
    let s = RepSocket::new();
    assert!(matches!(s.socket_type(), zmq_rep::SocketType::REP));
}

#[test]
fn monitor_sees_disconnect() {
    let mut s = RepSocket::new();
    let c1 = id(b"C1");
    s.peer_connected(&c1);
    let mut receiver = s.monitor().into_inner();
    s.peer_disconnected(&c1);
    match receiver.try_next() {
        Ok(Some(zmq_rep::SocketEvent::Disconnected(p))) => {
            assert!(p.same_as(&c1));
        }
        other => panic!("expected a disconnect event, got {:?}", other.is_ok()),
    }
}

#[test]
fn replacing_monitor_drops_previous_subscriber() {
    let mut s = RepSocket::new();
    let c1 = id(b"C1");
    s.peer_connected(&c1);
    let mut first = s.monitor().into_inner();
    let mut second = s.monitor().into_inner();
    s.peer_disconnected(&c1);
    // The first receiver's channel is closed; only the second sees events.
    assert!(matches!(first.try_next(), Ok(None)));
    assert!(matches!(
        second.try_next(),
        Ok(Some(zmq_rep::SocketEvent::Disconnected(_)))
    ));
}

#[test]
fn reconnect_replaces_peer_state() {
    let mut s = RepSocket::new();
    let c1 = id(b"C1");
    s.peer_connected(&c1);
    assert!(s.inbound(&c1, InboundItem::Data(msg(&[b"", b"req"]))));
    assert!(matches!(s.recv(), RecvPoll::Delivered(_)));
    assert!(s.send(msg(&[b"resp"])).is_ok());
    assert_eq!(s.peer_outbox(&c1).expect("registered").len(), 1);
    // A new connection under the same identity starts with an empty sink.
    s.peer_connected(&c1);
    assert_eq!(s.peer_outbox(&c1).expect("registered").len(), 0);
}
