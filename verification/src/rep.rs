use vstd::prelude::*;
use crate::error::ReturnReason;
use crate::error::ZmqError;
use crate::events::EventReceiver;
use crate::events::EventSender;
use crate::events::SocketEvent;
use crate::events::SocketType;
use crate::events::event_channel;
use crate::fair_queue::FairQueue;
use crate::fair_queue::InboundItem;
use crate::fair_queue::ItemView;
use crate::fair_queue::PullOutcome;
use crate::fair_queue::SourceView;
use crate::fair_queue::exists_live;
use crate::fair_queue::exists_ready;
use crate::fair_queue::first_ready;
use crate::fair_queue::has_id;
use crate::fair_queue::id_index;
use crate::fair_queue::serve_result;
use crate::fair_queue::wf_sources;
use crate::message::ZmqMessage;
use crate::message::split_point;
use crate::message::split_point_from;
use crate::peer::PeerIdentity;

verus! {

/// One connected requester, as the backend routes to it: its identity and
/// its outbound sink, modelled as the ordered messages pushed to it.
struct RepPeer {
    identity: PeerIdentity,
    outbox: Vec<ZmqMessage>,
}

/// Abstraction of one registered peer.
#[verifier::ext_equal]
pub ghost struct PeerView {
    pub id: Seq<u8>,
    pub outbox: Seq<Seq<Seq<u8>>>,
}

impl View for RepPeer {
    type V = PeerView;

    closed spec fn view(&self) -> PeerView {
        PeerView {
            id: self.identity@,
            outbox: Seq::new(self.outbox@.len(), |i: int| self.outbox@[i]@),
        }
    }
}

/// Position of the peer registered for `id` at or after `i`, or `ps.len()`
/// when none is.
pub open spec fn peer_index_from(ps: Seq<PeerView>, id: Seq<u8>, i: int) -> int
    decreases ps.len() - i when 0 <= i <= ps.len()
{
    if i >= ps.len() {
        ps.len() as int
    } else if ps[i].id == id {
        i
    } else {
        peer_index_from(ps, id, i + 1)
    }
}

/// Position of the peer registered for `id`, or `ps.len()` when none is.
pub open spec fn peer_index(ps: Seq<PeerView>, id: Seq<u8>) -> int {
    peer_index_from(ps, id, 0)
}

pub open spec fn has_peer(ps: Seq<PeerView>, id: Seq<u8>) -> bool {
    exists|i: int| 0 <= i < ps.len() && ps[i].id == id
}

/// No two registered peers share an identity.
pub open spec fn wf_peers(ps: Seq<PeerView>) -> bool {
    forall|i: int, j: int| 0 <= i < j < ps.len() ==> ps[i].id != ps[j].id
}

pub proof fn lemma_peer_index_from(ps: Seq<PeerView>, id: Seq<u8>, i: int)
    requires
        0 <= i <= ps.len(),
    ensures
        i <= peer_index_from(ps, id, i) <= ps.len(),
        peer_index_from(ps, id, i) < ps.len() ==> ps[peer_index_from(ps, id, i)].id == id,
        forall|j: int| i <= j < peer_index_from(ps, id, i) ==> ps[j].id != id,
    decreases ps.len() - i,
{
    if i < ps.len() && ps[i].id != id {
        lemma_peer_index_from(ps, id, i + 1);
    }
}

pub proof fn lemma_peer_index(ps: Seq<PeerView>, id: Seq<u8>)
    ensures
        has_peer(ps, id) <==> (0 <= peer_index(ps, id) < ps.len() && ps[peer_index(ps, id)].id
            == id),
        !has_peer(ps, id) ==> peer_index(ps, id) == ps.len(),
        forall|j: int| 0 <= j < peer_index(ps, id) ==> ps[j].id != id,
{
    lemma_peer_index_from(ps, id, 0);
    if peer_index(ps, id) == ps.len() && has_peer(ps, id) {
        let w = choose|i: int| 0 <= i < ps.len() && ps[i].id == id;
        assert(ps[w].id != id);
    }
}

proof fn lemma_wf_peer_remove(ps: Seq<PeerView>, k: int)
    requires
        wf_peers(ps),
        0 <= k < ps.len(),
    ensures
        wf_peers(ps.remove(k)),
        forall|j: int|
            0 <= j < ps.len() - 1 ==> ps.remove(k)[j] == (if j < k {
                ps[j]
            } else {
                ps[j + 1]
            }),
{
    let t = ps.remove(k);
    assert forall|j: int| 0 <= j < ps.len() - 1 implies t[j] == (if j < k {
        ps[j]
    } else {
        ps[j + 1]
    }) by {
        assert(t == ps.subrange(0, k) + ps.subrange(k + 1, ps.len() as int));
    }
    assert forall|i: int, j: int| 0 <= i < j < t.len() implies t[i].id != t[j].id by {
        let oi = if i < k {
            i
        } else {
            i + 1
        };
        let oj = if j < k {
            j
        } else {
            j + 1
        };
        assert(t[i] == ps[oi]);
        assert(t[j] == ps[oj]);
        assert(ps[oi].id != ps[oj].id);
    }
}

proof fn lemma_wf_peer_register(ps: Seq<PeerView>, id: Seq<u8>)
    requires
        wf_peers(ps),
    ensures
        ({
            let fresh = (PeerView { id, outbox: Seq::empty() });
            if has_peer(ps, id) {
                wf_peers(ps.remove(peer_index(ps, id)).push(fresh))
            } else {
                wf_peers(ps.push(fresh))
            }
        }),
{
    lemma_peer_index(ps, id);
    let fresh = (PeerView { id, outbox: Seq::empty() });
    if has_peer(ps, id) {
        let k = peer_index(ps, id);
        lemma_wf_peer_remove(ps, k);
        let t = ps.remove(k);
        assert forall|j: int| 0 <= j < t.len() implies t[j].id != id by {
            if j < k {
                assert(t[j] == ps[j]);
                assert(ps[j].id != ps[k].id);
            } else {
                assert(t[j] == ps[j + 1]);
                assert(ps[k].id != ps[j + 1].id);
            }
        }
        let u = t.push(fresh);
        assert forall|i: int, j: int| 0 <= i < j < u.len() implies u[i].id != u[j].id by {
            if j == u.len() - 1 {
                assert(u[i] == t[i]);
            } else {
                assert(u[i] == t[i]);
                assert(u[j] == t[j]);
            }
        }
    } else {
        let u = ps.push(fresh);
        assert forall|i: int, j: int| 0 <= i < j < u.len() implies u[i].id != u[j].id by {
            if j == u.len() - 1 {
                assert(u[i] == ps[i]);
                if ps[i].id == id {
                    assert(has_peer(ps, id));
                }
            } else {
                assert(u[i] == ps[i]);
                assert(u[j] == ps[j]);
            }
        }
    }
}

/// The registry half of the REP socket: the routing table from peer identity
/// to outbound sink, the inbound multiplexer those peers feed, and the
/// optional lifecycle-event subscriber.  The transport layer registers and
/// removes peers here; the socket front end routes replies through it.
pub struct RepSocketBackend {
    peers: Vec<RepPeer>,
    fair_queue: FairQueue,
    socket_monitor: Option<EventSender>,
}

impl RepSocketBackend {
    /// The outbound peer registry, in registration order.
    pub closed spec fn peers(&self) -> Seq<PeerView> {
        Seq::new(self.peers@.len(), |i: int| self.peers@[i]@)
    }

    /// The inbound multiplexer's registered sources, in rotation order.
    pub closed spec fn sources(&self) -> Seq<SourceView> {
        self.fair_queue@
    }

    pub closed spec fn auto_evicts(&self) -> bool {
        self.fair_queue.auto_evicts()
    }

    /// Whether an inbound stream was ever registered; see
    /// `FairQueue::had_sources`.
    pub closed spec fn had_sources(&self) -> bool {
        self.fair_queue.had_sources()
    }

    /// The channel identity of the installed event subscriber, if one is;
    /// the receiver `monitor` handed out for it carries the same identity.
    pub closed spec fn monitor_stamp(&self) -> Option<futures::channel::mpsc::Sender<SocketEvent>> {
        match self.socket_monitor {
            Some(s) => Some(s.channel_stamp()),
            None => None,
        }
    }

    /// The events offered to the installed subscriber so far, oldest first,
    /// if one is installed; offering is best effort (see
    /// `EventSender::offered`).
    pub closed spec fn monitor_offered(&self) -> Option<Seq<SocketEvent>> {
        match self.socket_monitor {
            Some(s) => Some(s.offered()),
            None => None,
        }
    }

    /// Whether an event subscriber is installed.
    pub open spec fn has_monitor(&self) -> bool {
        self.monitor_stamp() is Some
    }

    pub open spec fn wf(&self) -> bool {
        wf_peers(self.peers()) && wf_sources(self.sources())
    }

    pub fn new() -> (r: RepSocketBackend)
        ensures
            r.wf(),
            r.peers() == Seq::<PeerView>::empty(),
            r.sources() == Seq::<SourceView>::empty(),
            r.auto_evicts(),
            !r.had_sources(),
            !r.has_monitor(),
            r.monitor_offered() is None,
    {
        let r = RepSocketBackend {
            peers: Vec::new(),
            fair_queue: FairQueue::new(true),
            socket_monitor: None,
        };
        proof {
            assert(r.peers() =~= Seq::<PeerView>::empty());
        }
        r
    }

    /// Position of the peer registered for `id`, or the registry's length
    /// when none is.
    fn position_of(&self, id: &PeerIdentity) -> (r: usize)
        ensures
            r == peer_index(self.peers(), id@),
    {
        let n = self.peers.len();
        let mut i: usize = 0;
        while i < n
            invariant
                0 <= i <= n,
                n == self.peers().len(),
                peer_index(self.peers(), id@) == peer_index_from(self.peers(), id@, i as int),
            decreases n - i,
        {
            if self.peers[i].identity.same_as(id) {
                return i;
            }
            i = i + 1;
        }
        n
    }

    /// Connect hook, called by the transport layer once per accepted
    /// connection: registers the peer's outbound sink and its inbound stream
    /// under the same identity.  A peer still registered under that identity
    /// is replaced.
    pub fn peer_connected(&mut self, id: &PeerIdentity)
        requires
            old(self).wf(),
        ensures
            final(self).wf(),
            final(self).auto_evicts() == old(self).auto_evicts(),
            final(self).had_sources(),
            final(self).monitor_stamp() == old(self).monitor_stamp(),
            final(self).monitor_offered() == old(self).monitor_offered(),
            ({
                let ps = old(self).peers();
                let fresh = (PeerView { id: id@, outbox: Seq::empty() });
                if has_peer(ps, id@) {
                    final(self).peers() == ps.remove(peer_index(ps, id@)).push(fresh)
                } else {
                    final(self).peers() == ps.push(fresh)
                }
            }),
            ({
                let ss = old(self).sources();
                let fresh = (SourceView { id: id@, items: Seq::empty(), closed: false });
                if has_id(ss, id@) {
                    final(self).sources() == ss.remove(id_index(ss, id@)).push(fresh)
                } else {
                    final(self).sources() == ss.push(fresh)
                }
            }),
    {
        proof {
            lemma_peer_index(old(self).peers(), id@);
            lemma_wf_peer_register(old(self).peers(), id@);
        }
        let pos = self.position_of(id);
        if pos < self.peers.len() {
            self.peers.remove(pos);
            proof {
                assert(self.peers() =~~= old(self).peers().remove(
                    peer_index(old(self).peers(), id@),
                ));
            }
        }
        let ghost mid = self.peers();
        self.peers.push(RepPeer { identity: id.clone_id(), outbox: Vec::new() });
        proof {
            assert(self.peers() =~~= mid.push((PeerView { id: id@, outbox: Seq::empty() })));
        }
        self.fair_queue.register(id.clone_id());
    }

    /// Disconnect hook: removes the peer's outbound entry, so later sends
    /// addressed to it fail fast, and tells the subscriber, best effort.
    /// The peer's inbound stream is not touched here: the transport signals
    /// its end separately, and the multiplexer then evicts it.
    pub fn peer_disconnected(&mut self, id: &PeerIdentity)
        requires
            old(self).wf(),
        ensures
            final(self).wf(),
            final(self).auto_evicts() == old(self).auto_evicts(),
            final(self).had_sources() == old(self).had_sources(),
            final(self).sources() == old(self).sources(),
            final(self).monitor_stamp() == old(self).monitor_stamp(),
            ({
                if old(self).has_monitor() {
                    let pre = old(self).monitor_offered().unwrap();
                    let evs = final(self).monitor_offered().unwrap();
                    &&& final(self).monitor_offered() is Some
                    &&& evs.len() == pre.len() + 1
                    &&& evs.subrange(0, pre.len() as int) == pre
                    &&& (evs.last() matches SocketEvent::Disconnected(p) && p@ == id@)
                } else {
                    final(self).monitor_offered() == old(self).monitor_offered()
                }
            }),
            ({
                let ps = old(self).peers();
                if has_peer(ps, id@) {
                    final(self).peers() == ps.remove(peer_index(ps, id@))
                } else {
                    final(self).peers() == ps
                }
            }),
    {
        proof {
            lemma_peer_index(old(self).peers(), id@);
        }
        match self.socket_monitor.take() {
            Some(mut monitor) => {
                let ghost pre = monitor.offered();
                let _accepted = monitor.try_send_event(SocketEvent::Disconnected(id.clone_id()));
                proof {
                    assert(monitor.offered().subrange(0, pre.len() as int) =~= pre);
                }
                self.socket_monitor = Some(monitor);
            },
            None => {},
        }
        let pos = self.position_of(id);
        if pos < self.peers.len() {
            proof {
                lemma_wf_peer_remove(self.peers(), peer_index(self.peers(), id@));
            }
            self.peers.remove(pos);
            proof {
                assert(self.peers() =~~= old(self).peers().remove(
                    peer_index(old(self).peers(), id@),
                ));
            }
        }
    }

    /// The socket pattern this backend serves.
    pub fn socket_type(&self) -> (r: SocketType)
        ensures
            r == SocketType::REP,
    {
        SocketType::REP
    }

    /// Clears the whole peer registry; used on socket teardown, idempotent.
    pub fn shutdown(&mut self)
        requires
            old(self).wf(),
        ensures
            final(self).wf(),
            final(self).auto_evicts() == old(self).auto_evicts(),
            final(self).had_sources() == old(self).had_sources(),
            final(self).peers() == Seq::<PeerView>::empty(),
            final(self).sources() == old(self).sources(),
            final(self).monitor_stamp() == old(self).monitor_stamp(),
            final(self).monitor_offered() == old(self).monitor_offered(),
    {
        self.peers.clear();
        proof {
            assert(self.peers() =~= Seq::<PeerView>::empty());
        }
    }

    /// Installs `sender` as the event subscriber, replacing any previous
    /// one; the replaced subscriber's channel is simply dropped.
    pub fn attach_monitor(&mut self, sender: EventSender)
        ensures
            final(self).wf() == old(self).wf(),
            final(self).auto_evicts() == old(self).auto_evicts(),
            final(self).had_sources() == old(self).had_sources(),
            final(self).peers() == old(self).peers(),
            final(self).sources() == old(self).sources(),
            final(self).monitor_stamp() == Some(sender.channel_stamp()),
            final(self).monitor_offered() == Some(sender.offered()),
    {
        self.socket_monitor = Some(sender);
    }

    /// Hands the multiplexer one item from `id`'s inbound stream; false when
    /// no open stream is registered for that peer.
    pub fn inbound(&mut self, id: &PeerIdentity, item: InboundItem) -> (r: bool)
        requires
            old(self).wf(),
        ensures
            final(self).wf(),
            final(self).auto_evicts() == old(self).auto_evicts(),
            final(self).had_sources() == old(self).had_sources(),
            final(self).peers() == old(self).peers(),
            final(self).monitor_stamp() == old(self).monitor_stamp(),
            final(self).monitor_offered() == old(self).monitor_offered(),
            ({
                let ss = old(self).sources();
                let k = id_index(ss, id@);
                if has_id(ss, id@) && !ss[k].closed {
                    r == true && final(self).sources() == ss.update(
                        k,
                        (SourceView { id: ss[k].id, items: ss[k].items.push(item@), closed: false }),
                    )
                } else {
                    r == false && final(self).sources() == ss
                }
            }),
    {
        self.fair_queue.deliver(id, item)
    }

    /// Marks `id`'s inbound stream ended (its connection closed); the
    /// multiplexer stops scheduling it and, once drained, evicts it.
    pub fn inbound_closed(&mut self, id: &PeerIdentity)
        requires
            old(self).wf(),
        ensures
            final(self).wf(),
            final(self).auto_evicts() == old(self).auto_evicts(),
            final(self).had_sources() == old(self).had_sources(),
            final(self).peers() == old(self).peers(),
            final(self).monitor_stamp() == old(self).monitor_stamp(),
            final(self).monitor_offered() == old(self).monitor_offered(),
            ({
                let ss = old(self).sources();
                let k = id_index(ss, id@);
                if has_id(ss, id@) {
                    if old(self).auto_evicts() && ss[k].items.len() == 0 {
                        final(self).sources() == ss.remove(k)
                    } else {
                        final(self).sources() == ss.update(
                            k,
                            (SourceView { id: ss[k].id, items: ss[k].items, closed: true }),
                        )
                    }
                } else {
                    final(self).sources() == ss
                }
            }),
    {
        self.fair_queue.end_source(id)
    }

    /// The messages pushed so far to `id`'s outbound sink, oldest first.
    pub fn peer_outbox(&self, id: &PeerIdentity) -> (r: Option<&Vec<ZmqMessage>>)
        ensures
            has_peer(self.peers(), id@) ==> (r matches Some(v) && Seq::new(
                v@.len(),
                |i: int| v@[i]@,
            ) == self.peers()[peer_index(self.peers(), id@)].outbox),
            !has_peer(self.peers(), id@) ==> r is None,
    {
        proof {
            lemma_peer_index(self.peers(), id@);
        }
        let pos = self.position_of(id);
        if pos < self.peers.len() {
            let r = &self.peers[pos].outbox;
            proof {
                assert(Seq::new(r@.len(), |i: int| r@[i]@) =~~= self.peers()[peer_index(
                    self.peers(),
                    id@,
                )].outbox);
            }
            Some(r)
        } else {
            None
        }
    }

    /// Takes the oldest message off `id`'s outbound sink, for the transport's
    /// write task to put on the wire; `None` when the peer is not registered
    /// or its sink is drained.
    pub fn take_outbound(&mut self, id: &PeerIdentity) -> (r: Option<ZmqMessage>)
        requires
            old(self).wf(),
        ensures
            final(self).wf(),
            final(self).auto_evicts() == old(self).auto_evicts(),
            final(self).had_sources() == old(self).had_sources(),
            final(self).sources() == old(self).sources(),
            final(self).monitor_stamp() == old(self).monitor_stamp(),
            final(self).monitor_offered() == old(self).monitor_offered(),
            ({
                let ps = old(self).peers();
                let k = peer_index(ps, id@);
                if has_peer(ps, id@) && ps[k].outbox.len() > 0 {
                    &&& (r matches Some(m) && m@ == ps[k].outbox[0])
                    &&& final(self).peers() == ps.update(
                        k,
                        (PeerView { id: ps[k].id, outbox: ps[k].outbox.drop_first() }),
                    )
                } else {
                    r is None && final(self).peers() == ps
                }
            }),
    {
        proof {
            lemma_peer_index(old(self).peers(), id@);
        }
        let pos = self.position_of(id);
        if pos < self.peers.len() {
            if self.peers[pos].outbox.len() == 0 {
                return None;
            }
            let ghost ps = old(self).peers();
            let ghost k = peer_index(ps, id@);
            let mut p = self.peers.remove(pos);
            let m = p.outbox.remove(0);
            self.peers.insert(pos, p);
            proof {
                assert(m@ == ps[k].outbox[0]);
                assert(self.peers() =~~= ps.update(
                    k,
                    (PeerView { id: ps[k].id, outbox: ps[k].outbox.drop_first() }),
                ));
                assert forall|i: int, j: int| 0 <= i < j < self.peers().len() implies self
                    .peers()[i].id != self.peers()[j].id by {
                    assert(self.peers()[i].id == ps[i].id);
                    assert(self.peers()[j].id == ps[j].id);
                }
            }
            Some(m)
        } else {
            None
        }
    }
}

/// One step of receiving: either a payload was delivered, or this attempt
/// failed with a recoverable error, or nothing is ready yet and the caller
/// suspends until more inbound data arrives.
pub enum RecvPoll {
    Delivered(ZmqMessage),
    Rejected(ZmqError),
    Pending,
}

/// The server half of a strict request/reply exchange, serving any number of
/// connected requesters.  `recv` pulls the next fairly-scheduled request,
/// strips and saves its routing envelope, and remembers which peer is owed
/// the reply; `send` reattaches the envelope and routes the reply to exactly
/// that peer.  The socket is driven by a single owner; the backend's hooks
/// are called by the transport layer as connections come and go.
pub struct RepSocket {
    backend: RepSocketBackend,
    envelope: Option<ZmqMessage>,
    current_request: Option<PeerIdentity>,
}

impl RepSocket {
    pub closed spec fn peers(&self) -> Seq<PeerView> {
        self.backend.peers()
    }

    pub closed spec fn sources(&self) -> Seq<SourceView> {
        self.backend.sources()
    }

    pub closed spec fn auto_evicts(&self) -> bool {
        self.backend.auto_evicts()
    }

    /// Whether an inbound stream was ever registered; see
    /// `FairQueue::had_sources`.
    pub closed spec fn had_sources(&self) -> bool {
        self.backend.had_sources()
    }

    /// The channel identity of the installed event subscriber, if one is;
    /// see `monitor`.
    pub closed spec fn monitor_stamp(&self) -> Option<futures::channel::mpsc::Sender<SocketEvent>> {
        self.backend.monitor_stamp()
    }

    /// The events offered to the installed subscriber so far, if one is;
    /// see `RepSocketBackend::monitor_offered`.
    pub closed spec fn monitor_offered(&self) -> Option<Seq<SocketEvent>> {
        self.backend.monitor_offered()
    }

    /// Whether an event subscriber is installed; see `monitor`.
    pub open spec fn has_monitor(&self) -> bool {
        self.monitor_stamp() is Some
    }

    /// The saved routing envelope of the request being served, if one is.
    pub closed spec fn envelope_v(&self) -> Option<Seq<Seq<u8>>> {
        match self.envelope {
            Some(m) => Some(m@),
            None => None,
        }
    }

    /// The peer owed a reply, if one is: set by `recv`, taken by `send`.
    pub closed spec fn current_v(&self) -> Option<Seq<u8>> {
        match self.current_request {
            Some(p) => Some(p@),
            None => None,
        }
    }

    /// Idle (no pending exchange) or AwaitingReply (exchange pending); the
    /// envelope and the owing peer are saved and cleared together.
    pub open spec fn wf(&self) -> bool {
        &&& wf_peers(self.peers())
        &&& wf_sources(self.sources())
        &&& (self.envelope_v() is Some <==> self.current_v() is Some)
    }

    /// A fresh socket: Idle, with no peers and no inbound sources.  Sources
    /// are evicted automatically when their stream ends.
    pub fn new() -> (r: RepSocket)
        ensures
            r.wf(),
            r.peers() == Seq::<PeerView>::empty(),
            r.sources() == Seq::<SourceView>::empty(),
            r.envelope_v() is None,
            r.current_v() is None,
            r.auto_evicts(),
            !r.had_sources(),
            !r.has_monitor(),
            r.monitor_offered() is None,
    {
        RepSocket { backend: RepSocketBackend::new(), envelope: None, current_request: None }
    }

    /// The socket pattern this socket implements.
    pub fn socket_type(&self) -> (r: SocketType)
        ensures
            r == SocketType::REP,
    {
        SocketType::REP
    }

    /// Subscribes to lifecycle events: builds a fresh bounded channel,
    /// installs its sending half as the subscriber — replacing any previous
    /// one, whose channel is dropped — and returns the matching receiving
    /// half: the returned receiver's channel identity equals the installed
    /// sender's.  Delivery is fire-and-forget: a full or abandoned channel
    /// never blocks or fails the operation that emits the event.
    pub fn monitor(&mut self) -> (r: EventReceiver)
        ensures
            final(self).wf() == old(self).wf(),
            final(self).peers() == old(self).peers(),
            final(self).sources() == old(self).sources(),
            final(self).auto_evicts() == old(self).auto_evicts(),
            final(self).had_sources() == old(self).had_sources(),
            final(self).envelope_v() == old(self).envelope_v(),
            final(self).current_v() == old(self).current_v(),
            final(self).monitor_stamp() == Some(r.channel_stamp()),
            final(self).monitor_offered() == Some(Seq::<SocketEvent>::empty()),
    {
        let (sender, receiver) = event_channel(MONITOR_CAPACITY);
        self.backend.attach_monitor(sender);
        receiver
    }

    /// Connect hook; see `RepSocketBackend::peer_connected`.
    pub fn peer_connected(&mut self, id: &PeerIdentity)
        requires
            old(self).wf(),
        ensures
            final(self).wf(),
            final(self).auto_evicts() == old(self).auto_evicts(),
            final(self).had_sources(),
            final(self).envelope_v() == old(self).envelope_v(),
            final(self).current_v() == old(self).current_v(),
            final(self).monitor_stamp() == old(self).monitor_stamp(),
            final(self).monitor_offered() == old(self).monitor_offered(),
            ({
                let ps = old(self).peers();
                let fresh = (PeerView { id: id@, outbox: Seq::empty() });
                if has_peer(ps, id@) {
                    final(self).peers() == ps.remove(peer_index(ps, id@)).push(fresh)
                } else {
                    final(self).peers() == ps.push(fresh)
                }
            }),
            ({
                let ss = old(self).sources();
                let fresh = (SourceView { id: id@, items: Seq::empty(), closed: false });
                if has_id(ss, id@) {
                    final(self).sources() == ss.remove(id_index(ss, id@)).push(fresh)
                } else {
                    final(self).sources() == ss.push(fresh)
                }
            }),
    {
        self.backend.peer_connected(id);
    }

    /// Disconnect hook; see `RepSocketBackend::peer_disconnected`.
    pub fn peer_disconnected(&mut self, id: &PeerIdentity)
        requires
            old(self).wf(),
        ensures
            final(self).wf(),
            final(self).auto_evicts() == old(self).auto_evicts(),
            final(self).had_sources() == old(self).had_sources(),
            final(self).sources() == old(self).sources(),
            final(self).envelope_v() == old(self).envelope_v(),
            final(self).current_v() == old(self).current_v(),
            final(self).monitor_stamp() == old(self).monitor_stamp(),
            ({
                if old(self).has_monitor() {
                    let pre = old(self).monitor_offered().unwrap();
                    let evs = final(self).monitor_offered().unwrap();
                    &&& final(self).monitor_offered() is Some
                    &&& evs.len() == pre.len() + 1
                    &&& evs.subrange(0, pre.len() as int) == pre
                    &&& (evs.last() matches SocketEvent::Disconnected(p) && p@ == id@)
                } else {
                    final(self).monitor_offered() == old(self).monitor_offered()
                }
            }),
            ({
                let ps = old(self).peers();
                if has_peer(ps, id@) {
                    final(self).peers() == ps.remove(peer_index(ps, id@))
                } else {
                    final(self).peers() == ps
                }
            }),
    {
        self.backend.peer_disconnected(id);
    }

    /// Transport delivery; see `RepSocketBackend::inbound`.
    pub fn inbound(&mut self, id: &PeerIdentity, item: InboundItem) -> (r: bool)
        requires
            old(self).wf(),
        ensures
            final(self).wf(),
            final(self).auto_evicts() == old(self).auto_evicts(),
            final(self).had_sources() == old(self).had_sources(),
            final(self).peers() == old(self).peers(),
            final(self).envelope_v() == old(self).envelope_v(),
            final(self).current_v() == old(self).current_v(),
            final(self).monitor_stamp() == old(self).monitor_stamp(),
            final(self).monitor_offered() == old(self).monitor_offered(),
            ({
                let ss = old(self).sources();
                let k = id_index(ss, id@);
                if has_id(ss, id@) && !ss[k].closed {
                    r == true && final(self).sources() == ss.update(
                        k,
                        (SourceView { id: ss[k].id, items: ss[k].items.push(item@), closed: false }),
                    )
                } else {
                    r == false && final(self).sources() == ss
                }
            }),
    {
        self.backend.inbound(id, item)
    }

    /// End-of-stream signal; see `RepSocketBackend::inbound_closed`.
    pub fn inbound_closed(&mut self, id: &PeerIdentity)
        requires
            old(self).wf(),
        ensures
            final(self).wf(),
            final(self).auto_evicts() == old(self).auto_evicts(),
            final(self).had_sources() == old(self).had_sources(),
            final(self).peers() == old(self).peers(),
            final(self).envelope_v() == old(self).envelope_v(),
            final(self).current_v() == old(self).current_v(),
            final(self).monitor_stamp() == old(self).monitor_stamp(),
            final(self).monitor_offered() == old(self).monitor_offered(),
            ({
                let ss = old(self).sources();
                let k = id_index(ss, id@);
                if has_id(ss, id@) {
                    if old(self).auto_evicts() && ss[k].items.len() == 0 {
                        final(self).sources() == ss.remove(k)
                    } else {
                        final(self).sources() == ss.update(
                            k,
                            (SourceView { id: ss[k].id, items: ss[k].items, closed: true }),
                        )
                    }
                } else {
                    final(self).sources() == ss
                }
            }),
    {
        self.backend.inbound_closed(id)
    }

    /// Tears the socket down: every peer is cleared, whatever the state.
    pub fn shutdown(&mut self)
        requires
            old(self).wf(),
        ensures
            final(self).wf(),
            final(self).auto_evicts() == old(self).auto_evicts(),
            final(self).had_sources() == old(self).had_sources(),
            final(self).peers() == Seq::<PeerView>::empty(),
            final(self).sources() == old(self).sources(),
            final(self).envelope_v() == old(self).envelope_v(),
            final(self).current_v() == old(self).current_v(),
            final(self).monitor_stamp() == old(self).monitor_stamp(),
            final(self).monitor_offered() == old(self).monitor_offered(),
    {
        self.backend.shutdown();
    }

    /// Outbound-sink inspection; see `RepSocketBackend::peer_outbox`.
    pub fn peer_outbox(&self, id: &PeerIdentity) -> (r: Option<&Vec<ZmqMessage>>)
        ensures
            has_peer(self.peers(), id@) ==> (r matches Some(v) && Seq::new(
                v@.len(),
                |i: int| v@[i]@,
            ) == self.peers()[peer_index(self.peers(), id@)].outbox),
            !has_peer(self.peers(), id@) ==> r is None,
    {
        self.backend.peer_outbox(id)
    }

    /// Outbound-sink drain; see `RepSocketBackend::take_outbound`.
    pub fn take_outbound(&mut self, id: &PeerIdentity) -> (r: Option<ZmqMessage>)
        requires
            old(self).wf(),
        ensures
            final(self).wf(),
            final(self).auto_evicts() == old(self).auto_evicts(),
            final(self).had_sources() == old(self).had_sources(),
            final(self).sources() == old(self).sources(),
            final(self).envelope_v() == old(self).envelope_v(),
            final(self).current_v() == old(self).current_v(),
            final(self).monitor_stamp() == old(self).monitor_stamp(),
            final(self).monitor_offered() == old(self).monitor_offered(),
            ({
                let ps = old(self).peers();
                let k = peer_index(ps, id@);
                if has_peer(ps, id@) && ps[k].outbox.len() > 0 {
                    &&& (r matches Some(m) && m@ == ps[k].outbox[0])
                    &&& final(self).peers() == ps.update(
                        k,
                        (PeerView { id: ps[k].id, outbox: ps[k].outbox.drop_first() }),
                    )
                } else {
                    r is None && final(self).peers() == ps
                }
            }),
    {
        self.backend.take_outbound(id)
    }

    /// One attempt to receive the next request.
    ///
    /// The frontmost ready inbound source is served (see `FairQueue::pull`
    /// for the rotation that keeps this starvation-free).  A delivered
    /// message with at least two frames is split at `split_point`: the
    /// routing envelope is saved together with the producing peer's
    /// identity — overwriting any exchange still pending — and the payload
    /// is returned.  A message with fewer than two frames is a protocol
    /// violation; a control frame or a transport read error is reported as
    /// unsupported; both leave the pending exchange untouched.  When no
    /// source is ready but one may yet produce — because a stream is still
    /// open, or because no peer has connected yet — the caller suspends
    /// (`Pending`); only once streams were registered and every one of them
    /// has ended does `recv` fail with `NoMessage`.
    pub fn recv(&mut self) -> (r: RecvPoll)
        requires
            old(self).wf(),
        ensures
            final(self).wf(),
            final(self).auto_evicts() == old(self).auto_evicts(),
            final(self).had_sources() == old(self).had_sources(),
            final(self).peers() == old(self).peers(),
            final(self).monitor_stamp() == old(self).monitor_stamp(),
            final(self).monitor_offered() == old(self).monitor_offered(),
            ({
                let ss = old(self).sources();
                &&& exists_ready(ss) ==> ({
                    let i = first_ready(ss);
                    &&& final(self).sources() == serve_result(ss, i, old(self).auto_evicts())
                    &&& (ss[i].items[0] matches ItemView::Data(m) ==> {
                        &&& m.len() >= 2 ==> {
                            &&& (r matches RecvPoll::Delivered(p) && p@ == m.subrange(
                                split_point(m),
                                m.len() as int,
                            ))
                            &&& final(self).envelope_v() == Some(m.subrange(0, split_point(m)))
                            &&& final(self).current_v() == Some(ss[i].id)
                        }
                        &&& m.len() < 2 ==> {
                            &&& r == RecvPoll::Rejected(ZmqError::ProtocolViolation)
                            &&& final(self).envelope_v() == old(self).envelope_v()
                            &&& final(self).current_v() == old(self).current_v()
                        }
                    })
                    &&& !(ss[i].items[0] is Data) ==> {
                        &&& r == RecvPoll::Rejected(ZmqError::UnsupportedInbound)
                        &&& final(self).envelope_v() == old(self).envelope_v()
                        &&& final(self).current_v() == old(self).current_v()
                    }
                })
                &&& !exists_ready(ss) && exists_live(ss) ==> {
                    &&& r == RecvPoll::Pending
                    &&& final(self).sources() == ss
                    &&& final(self).envelope_v() == old(self).envelope_v()
                    &&& final(self).current_v() == old(self).current_v()
                }
                &&& !exists_ready(ss) && !exists_live(ss) ==> {
                    &&& final(self).sources() == ss
                    &&& old(self).had_sources() ==> r == RecvPoll::Rejected(ZmqError::NoMessage)
                    &&& !old(self).had_sources() ==> r == RecvPoll::Pending
                    &&& final(self).envelope_v() == old(self).envelope_v()
                    &&& final(self).current_v() == old(self).current_v()
                }
            }),
    {
        let ghost ss = old(self).sources();
        let pulled = self.backend.fair_queue.pull();
        match pulled {
            PullOutcome::Item(peer_id, InboundItem::Data(mut m)) => {
                let ghost m0 = m@;
                proof {
                    if !exists_ready(ss) {
                        assert(false);
                    }
                    crate::fair_queue::lemma_first_ready(ss);
                    let i = first_ready(ss);
                    assert(ss[i].items[0] == ItemView::Data(m0));
                    assert(peer_id@ == ss[i].id);
                }
                if m.len() < 2 {
                    RecvPoll::Rejected(ZmqError::ProtocolViolation)
                } else {
                    let at = m.envelope_split();
                    let payload = m.split_off(at);
                    proof {
                        assert(payload@ == m0.subrange(split_point(m0), m0.len() as int));
                        assert(m@ == m0.subrange(0, split_point(m0)));
                    }
                    self.envelope = Some(m);
                    self.current_request = Some(peer_id);
                    RecvPoll::Delivered(payload)
                }
            },
            PullOutcome::Item(_, InboundItem::Control) => {
                proof {
                    if !exists_ready(ss) {
                        assert(false);
                    }
                    crate::fair_queue::lemma_first_ready(ss);
                }
                RecvPoll::Rejected(ZmqError::UnsupportedInbound)
            },
            PullOutcome::Item(_, InboundItem::ReadError) => {
                proof {
                    if !exists_ready(ss) {
                        assert(false);
                    }
                    crate::fair_queue::lemma_first_ready(ss);
                }
                RecvPoll::Rejected(ZmqError::UnsupportedInbound)
            },
            PullOutcome::Pending => RecvPoll::Pending,
            PullOutcome::Empty => RecvPoll::Rejected(ZmqError::NoMessage),
        }
    }

    /// Sends the reply to the one peer owed it.
    ///
    /// The pending exchange is taken — and cleared, whatever the outcome —
    /// before anything else.  With no exchange pending, or with the owing
    /// peer no longer registered, the untouched reply comes back to the
    /// caller inside a `ReturnToSender` error whose reason distinguishes
    /// the two cases, and no other peer's sink is touched.  Otherwise the
    /// saved envelope's frames are reattached in front of the reply and the
    /// combined message is pushed onto exactly that peer's sink.
    pub fn send(&mut self, message: ZmqMessage) -> (r: Result<(), ZmqError>)
        requires
            old(self).wf(),
        ensures
            final(self).wf(),
            final(self).auto_evicts() == old(self).auto_evicts(),
            final(self).had_sources() == old(self).had_sources(),
            final(self).sources() == old(self).sources(),
            final(self).envelope_v() is None,
            final(self).current_v() is None,
            final(self).monitor_stamp() == old(self).monitor_stamp(),
            final(self).monitor_offered() == old(self).monitor_offered(),
            ({
                let ps = old(self).peers();
                &&& old(self).current_v() is None ==> {
                    &&& (r matches Err(ZmqError::ReturnToSender { reason, message: back })
                        && reason == ReturnReason::NoRequestInProgress && back == message)
                    &&& final(self).peers() == ps
                }
                &&& old(self).current_v() matches Some(cid) ==> ({
                    let k = peer_index(ps, cid);
                    let combined = old(self).envelope_v().unwrap() + message@;
                    &&& !has_peer(ps, cid) ==> {
                        &&& (r matches Err(ZmqError::ReturnToSender { reason, message: back })
                            && reason == ReturnReason::ClientDisconnected && back == message)
                        &&& final(self).peers() == ps
                    }
                    &&& has_peer(ps, cid) ==> {
                        &&& r is Ok
                        &&& final(self).peers() == ps.update(
                            k,
                            (PeerView { id: ps[k].id, outbox: ps[k].outbox.push(combined) }),
                        )
                    }
                })
            }),
    {
        match self.current_request.take() {
            Some(peer_id) => {
                proof {
                    lemma_peer_index(self.peers(), peer_id@);
                }
                let pos = self.backend.position_of(&peer_id);
                if pos < self.backend.peers.len() {
                    let mut msg = message;
                    if let Some(env) = self.envelope.take() {
                        msg.prepend(env);
                    }
                    let ghost ps = old(self).peers();
                    let ghost k = peer_index(ps, peer_id@);
                    let mut p = self.backend.peers.remove(pos);
                    p.outbox.push(msg);
                    self.backend.peers.insert(pos, p);
                    proof {
                        assert(self.peers() =~~= ps.update(
                            k,
                            (PeerView {
                                id: ps[k].id,
                                outbox: ps[k].outbox.push(
                                    old(self).envelope_v().unwrap() + message@,
                                ),
                            }),
                        ));
                        assert forall|i: int, j: int| 0 <= i < j < self.peers().len() implies self
                            .peers()[i].id != self.peers()[j].id by {
                            assert(self.peers()[i].id == ps[i].id);
                            assert(self.peers()[j].id == ps[j].id);
                        }
                    }
                    Ok(())
                } else {
                    self.envelope = None;
                    Err(ZmqError::ReturnToSender {
                        reason: ReturnReason::ClientDisconnected,
                        message,
                    })
                }
            },
            None => Err(ZmqError::ReturnToSender {
                reason: ReturnReason::NoRequestInProgress,
                message,
            }),
        }
    }
}

/// Round trip: a request framed as `[routing, delimiter, payload...]` with a
/// non-empty routing frame splits exactly after the delimiter, so `recv`
/// returns precisely the payload frames and saves `[routing, delimiter]` as
/// the envelope; a reply with that envelope reattached is
/// `[routing, delimiter, reply...]`, which is what `send` pushes onto the
/// requesting peer's sink.
pub proof fn lemma_round_trip(routing: Seq<u8>, payload: Seq<Seq<u8>>, reply: Seq<Seq<u8>>)
    requires
        routing.len() > 0,
        payload.len() >= 1,
    ensures
        ({
            let m = seq![routing, Seq::<u8>::empty()] + payload;
            &&& m.len() >= 2
            &&& split_point(m) == 2
            &&& m.subrange(split_point(m), m.len() as int) == payload
            &&& m.subrange(0, split_point(m)) + reply == seq![routing, Seq::<u8>::empty()] + reply
        }),
{
    let m = seq![routing, Seq::<u8>::empty()] + payload;
    assert(m[0] == routing);
    assert(m[1] == Seq::<u8>::empty());
    assert(split_point_from(m, 0) == split_point_from(m, 1));
    assert(split_point_from(m, 1) == 2);
    assert(m.subrange(2, m.len() as int) =~= payload);
    assert(m.subrange(0, 2) + reply =~= seq![routing, Seq::<u8>::empty()] + reply);
}

/// Capacity of the lifecycle-event channel handed out by `monitor`.
const MONITOR_CAPACITY: usize = 1024;

} // verus!
