use vstd::prelude::*;
use crate::peer::PeerIdentity;

verus! {

/// The socket pattern this backend implements.
pub enum SocketType {
    REP,
}

/// Best-effort lifecycle notification, keyed by the peer it concerns.
pub enum SocketEvent {
    Connected(PeerIdentity),
    Disconnected(PeerIdentity),
}

#[verifier::external_type_specification]
#[verifier::external_body]
#[verifier::reject_recursive_types(T)]
pub struct ExSender<T>(futures::channel::mpsc::Sender<T>);

#[verifier::external_type_specification]
#[verifier::external_body]
#[verifier::reject_recursive_types(T)]
pub struct ExReceiver<T>(futures::channel::mpsc::Receiver<T>);

/// The sending half of one lifecycle-event channel.  The ghost stamp names
/// the channel the half belongs to: it is a snapshot of the sender as the
/// channel was built, taken in `event_channel` before anything could alter
/// it, and equal stamps mean the halves came out of the same call.
pub struct EventSender {
    inner: futures::channel::mpsc::Sender<SocketEvent>,
    stamp: Ghost<futures::channel::mpsc::Sender<SocketEvent>>,
    offered: Ghost<Seq<SocketEvent>>,
}

/// The receiving half of one lifecycle-event channel; see `EventSender`.
pub struct EventReceiver {
    inner: futures::channel::mpsc::Receiver<SocketEvent>,
    stamp: Ghost<futures::channel::mpsc::Sender<SocketEvent>>,
}

impl EventSender {
    /// The channel this half belongs to.
    pub closed spec fn channel_stamp(&self) -> futures::channel::mpsc::Sender<SocketEvent> {
        self.stamp@
    }

    /// Every event offered to this channel so far, oldest first.  Delivery
    /// is best effort, so this logs what was handed to the channel, not
    /// what the subscriber got.
    pub closed spec fn offered(&self) -> Seq<SocketEvent> {
        self.offered@
    }

    /// Offers `event` to the subscriber, best effort: false when the
    /// channel is full or its receiver is gone.  Which channel this half
    /// belongs to does not change.
    pub fn try_send_event(&mut self, event: SocketEvent) -> (r: bool)
        ensures
            final(self).channel_stamp() == old(self).channel_stamp(),
            final(self).offered() == old(self).offered().push(event),
    {
        let ghost ev = event;
        let r = event_try_send(&mut self.inner, event);
        self.offered = Ghost(self.offered@.push(ev));
        r
    }
}

impl EventReceiver {
    /// The channel this half belongs to.
    pub closed spec fn channel_stamp(&self) -> futures::channel::mpsc::Sender<SocketEvent> {
        self.stamp@
    }

    /// Hands out the raw receiving half, for the subscriber to read events
    /// from.
    pub fn into_inner(self) -> futures::channel::mpsc::Receiver<SocketEvent> {
        self.inner
    }
}

/// Relies on futures::channel::mpsc::channel: builds a fresh bounded channel
/// and returns its two halves.  The callee asserts that the requested
/// buffer stays below a quarter of the address space (each sender gets a
/// guaranteed extra slot), so larger requests are kept out here.
#[verifier::external_body]
fn raw_event_channel(capacity: usize) -> (r: (
    futures::channel::mpsc::Sender<SocketEvent>,
    futures::channel::mpsc::Receiver<SocketEvent>,
))
    requires
        capacity < usize::MAX / 4,
{
    futures::channel::mpsc::channel(capacity)
}

/// Builds one lifecycle-event channel and stamps both halves with the same
/// channel identity, so that a contract can say that a receiver is the
/// counterpart of a particular installed sender.
pub(crate) fn event_channel(capacity: usize) -> (r: (EventSender, EventReceiver))
    requires
        capacity < usize::MAX / 4,
    ensures
        r.0.channel_stamp() == r.1.channel_stamp(),
        r.0.offered() == Seq::<SocketEvent>::empty(),
{
    let (sender, receiver) = raw_event_channel(capacity);
    let ghost stamp = sender;
    (
        EventSender { inner: sender, stamp: Ghost(stamp), offered: Ghost(Seq::empty()) },
        EventReceiver { inner: receiver, stamp: Ghost(stamp) },
    )
}

/// Relies on futures::channel::mpsc::Sender::try_send: hands the event to the
/// channel if it has room and its receiver is still alive; best effort, so a
/// full or abandoned channel merely makes it return false.
#[verifier::external_body]
pub(crate) fn event_try_send(
    sender: &mut futures::channel::mpsc::Sender<SocketEvent>,
    event: SocketEvent,
) -> (r: bool) {
    sender.try_send(event).is_ok()
}

} // verus!
