use zmq_rep::PeerIdentity;
use zmq_rep::ReturnReason;
use zmq_rep::ZmqMessage;

fn msg(frames: &[&[u8]]) -> ZmqMessage {
    let mut v: Vec<Vec<u8>> = Vec::new();
    for f in frames {
        v.push(f.to_vec());
    }
    ZmqMessage::from_frames(v)
}

fn frames_of(m: &ZmqMessage) -> Vec<Vec<u8>> {
    let mut v: Vec<Vec<u8>> = Vec::new();
    let mut i = 0;
    while let Some(f) = m.frame(i) {
        v.push(f.clone());
        i += 1;
    }
    v
}

#[test]
fn split_point_is_one_past_first_empty_frame() {
    assert_eq!(msg(&[b"route", b"", b"body"]).envelope_split(), 2);
    assert_eq!(msg(&[b"", b"body"]).envelope_split(), 1);
    assert_eq!(msg(&[b"a", b"b", b"", b"c", b""]).envelope_split(), 3);
}

#[test]
fn split_point_defaults_to_one_without_empty_frame() {
    assert_eq!(msg(&[b"only"]).envelope_split(), 1);
    assert_eq!(msg(&[b"a", b"b", b"c"]).envelope_split(), 1);
}

#[test]
fn split_off_keeps_prefix_and_returns_tail() {
    let mut m = msg(&[b"a", b"b", b"c", b"d"]);
    let tail = m.split_off(2);
    assert_eq!(frames_of(&m), vec![b"a".to_vec(), b"b".to_vec()]);
    assert_eq!(frames_of(&tail), vec![b"c".to_vec(), b"d".to_vec()]);
}

#[test]
fn prepend_puts_envelope_frames_first() {
    let mut m = msg(&[b"body"]);
    m.prepend(msg(&[b"route", b""]));
    assert_eq!(
        frames_of(&m),
        vec![b"route".to_vec(), b"".to_vec(), b"body".to_vec()]
    );
}

#[test]
fn push_back_appends_a_frame() {
    let mut m = msg(&[b"a"]);
    m.push_back(b"b".to_vec());
    assert_eq!(m.len(), 2);
    assert_eq!(m.frame(1).unwrap(), &b"b".to_vec());
    assert!(m.frame(2).is_none());
}

#[test]
fn identities_compare_by_bytes() {
    let a = PeerIdentity::from_bytes(b"peer".to_vec());
    let b = PeerIdentity::from_bytes(b"peer".to_vec());
    let c = PeerIdentity::from_bytes(b"other".to_vec());
    assert!(a.same_as(&b));
    assert!(!a.same_as(&c));
    assert!(a.same_as(&a.clone_id()));
    assert_eq!(a.as_bytes(), &b"peer".to_vec());
}

#[test]
fn return_reasons_have_distinct_text() {
    assert_eq!(
        ReturnReason::NoRequestInProgress.text(),
        "Unable to send reply. No request in progress"
    );
    assert_eq!(ReturnReason::ClientDisconnected.text(), "Client disconnected");
}
