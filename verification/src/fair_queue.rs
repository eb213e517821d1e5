use vstd::prelude::*;
use crate::message::ZmqMessage;
use crate::peer::PeerIdentity;

verus! {

/// One item produced by a peer's inbound stream: a whole multipart message,
/// a non-data control frame, or a transport-level read failure.
pub enum InboundItem {
    Data(ZmqMessage),
    Control,
    ReadError,
}

/// Abstraction of an inbound item.
#[verifier::ext_equal]
pub ghost enum ItemView {
    Data(Seq<Seq<u8>>),
    Control,
    ReadError,
}

impl View for InboundItem {
    type V = ItemView;

    open spec fn view(&self) -> ItemView {
        match self {
            InboundItem::Data(m) => ItemView::Data(m@),
            InboundItem::Control => ItemView::Control,
            InboundItem::ReadError => ItemView::ReadError,
        }
    }
}

/// One registered inbound stream: the peer it belongs to, the items it has
/// produced that are not yet pulled, and whether it reached end-of-stream.
struct Source {
    id: PeerIdentity,
    items: Vec<InboundItem>,
    closed: bool,
}

/// Abstraction of one registered source.
#[verifier::ext_equal]
pub ghost struct SourceView {
    pub id: Seq<u8>,
    pub items: Seq<ItemView>,
    pub closed: bool,
}

impl View for Source {
    type V = SourceView;

    closed spec fn view(&self) -> SourceView {
        SourceView {
            id: self.id@,
            items: Seq::new(self.items@.len(), |j: int| self.items@[j]@),
            closed: self.closed,
        }
    }
}

/// A source is ready when it has an undelivered item.
pub open spec fn is_ready(s: SourceView) -> bool {
    s.items.len() > 0
}

/// A source is live while its stream has not ended: more items may arrive.
pub open spec fn is_live(s: SourceView) -> bool {
    !s.closed
}

pub open spec fn exists_ready(ss: Seq<SourceView>) -> bool {
    exists|i: int| 0 <= i < ss.len() && is_ready(ss[i])
}

pub open spec fn exists_live(ss: Seq<SourceView>) -> bool {
    exists|i: int| 0 <= i < ss.len() && is_live(ss[i])
}

/// The first ready source at or after `i`, or `ss.len()` when none is.
pub open spec fn first_ready_from(ss: Seq<SourceView>, i: int) -> int
    decreases ss.len() - i when 0 <= i <= ss.len()
{
    if i >= ss.len() {
        ss.len() as int
    } else if is_ready(ss[i]) {
        i
    } else {
        first_ready_from(ss, i + 1)
    }
}

/// The rotation-order position the multiplexer serves next: the frontmost
/// ready source.
pub open spec fn first_ready(ss: Seq<SourceView>) -> int {
    first_ready_from(ss, 0)
}

pub proof fn lemma_first_ready_from(ss: Seq<SourceView>, i: int)
    requires
        0 <= i <= ss.len(),
    ensures
        i <= first_ready_from(ss, i) <= ss.len(),
        first_ready_from(ss, i) < ss.len() ==> is_ready(ss[first_ready_from(ss, i)]),
        forall|j: int| i <= j < first_ready_from(ss, i) ==> !is_ready(ss[j]),
    decreases ss.len() - i,
{
    if i < ss.len() && !is_ready(ss[i]) {
        lemma_first_ready_from(ss, i + 1);
    }
}

/// The frontmost ready source is ready, and nothing before it is.
pub proof fn lemma_first_ready(ss: Seq<SourceView>)
    requires
        exists_ready(ss),
    ensures
        0 <= first_ready(ss) < ss.len(),
        is_ready(ss[first_ready(ss)]),
        forall|j: int| 0 <= j < first_ready(ss) ==> !is_ready(ss[j]),
{
    lemma_first_ready_from(ss, 0);
    if first_ready(ss) == ss.len() {
        let w = choose|i: int| 0 <= i < ss.len() && is_ready(ss[i]);
        assert(!is_ready(ss[w]));
    }
}

/// The served source with its first item consumed.
pub open spec fn after_serving(s: SourceView) -> SourceView {
    SourceView { id: s.id, items: s.items.drop_first(), closed: s.closed }
}

/// Whether the served source stays registered: with automatic eviction, a
/// source that has ended and was just drained leaves the registry.
pub open spec fn serve_keeps(s: SourceView, auto_evict: bool) -> bool {
    !(auto_evict && s.closed && s.items.len() == 1)
}

/// The registry after serving the source at position `i`: everything behind
/// it moves to the front of the rotation, in order, and the served source
/// itself rejoins at the back (or leaves, when drained and ended).
pub open spec fn serve_result(ss: Seq<SourceView>, i: int, auto_evict: bool) -> Seq<SourceView> {
    let rest = ss.subrange(i + 1, ss.len() as int) + ss.subrange(0, i);
    if serve_keeps(ss[i], auto_evict) {
        rest.push(after_serving(ss[i]))
    } else {
        rest
    }
}

/// No two registered sources belong to the same peer.
pub open spec fn wf_sources(ss: Seq<SourceView>) -> bool {
    forall|i: int, j: int| 0 <= i < j < ss.len() ==> ss[i].id != ss[j].id
}

/// Position of the source registered for `id` at or after `i`, or `ss.len()`
/// when none is.
pub open spec fn id_index_from(ss: Seq<SourceView>, id: Seq<u8>, i: int) -> int
    decreases ss.len() - i when 0 <= i <= ss.len()
{
    if i >= ss.len() {
        ss.len() as int
    } else if ss[i].id == id {
        i
    } else {
        id_index_from(ss, id, i + 1)
    }
}

/// Position of the source registered for `id`, or `ss.len()` when none is.
pub open spec fn id_index(ss: Seq<SourceView>, id: Seq<u8>) -> int {
    id_index_from(ss, id, 0)
}

pub open spec fn has_id(ss: Seq<SourceView>, id: Seq<u8>) -> bool {
    exists|i: int| 0 <= i < ss.len() && ss[i].id == id
}

pub proof fn lemma_id_index_from(ss: Seq<SourceView>, id: Seq<u8>, i: int)
    requires
        0 <= i <= ss.len(),
    ensures
        i <= id_index_from(ss, id, i) <= ss.len(),
        id_index_from(ss, id, i) < ss.len() ==> ss[id_index_from(ss, id, i)].id == id,
        forall|j: int| i <= j < id_index_from(ss, id, i) ==> ss[j].id != id,
    decreases ss.len() - i,
{
    if i < ss.len() && ss[i].id != id {
        lemma_id_index_from(ss, id, i + 1);
    }
}

pub proof fn lemma_id_index(ss: Seq<SourceView>, id: Seq<u8>)
    ensures
        has_id(ss, id) <==> (0 <= id_index(ss, id) < ss.len() && ss[id_index(ss, id)].id == id),
        !has_id(ss, id) ==> id_index(ss, id) == ss.len(),
        forall|j: int| 0 <= j < id_index(ss, id) ==> ss[j].id != id,
{
    lemma_id_index_from(ss, id, 0);
    if id_index(ss, id) == ss.len() && has_id(ss, id) {
        let w = choose|i: int| 0 <= i < ss.len() && ss[i].id == id;
        assert(ss[w].id != id);
    }
}

proof fn lemma_wf_remove(ss: Seq<SourceView>, k: int)
    requires
        wf_sources(ss),
        0 <= k < ss.len(),
    ensures
        wf_sources(ss.remove(k)),
        forall|j: int|
            0 <= j < ss.len() - 1 ==> ss.remove(k)[j] == (if j < k {
                ss[j]
            } else {
                ss[j + 1]
            }),
{
    let t = ss.remove(k);
    assert forall|j: int| 0 <= j < ss.len() - 1 implies t[j] == (if j < k {
        ss[j]
    } else {
        ss[j + 1]
    }) by {
        assert(t == ss.subrange(0, k) + ss.subrange(k + 1, ss.len() as int));
    }
    assert forall|i: int, j: int| 0 <= i < j < t.len() implies t[i].id != t[j].id by {
        let oi = if i < k {
            i
        } else {
            i + 1
        };
        let oj = if j < k {
            j
        } else {
            j + 1
        };
        assert(t[i] == ss[oi]);
        assert(t[j] == ss[oj]);
        assert(ss[oi].id != ss[oj].id);
    }
}

proof fn lemma_wf_after_register(ss: Seq<SourceView>, id: Seq<u8>)
    requires
        wf_sources(ss),
    ensures
        ({
            let fresh = (SourceView { id, items: Seq::empty(), closed: false });
            if has_id(ss, id) {
                wf_sources(ss.remove(id_index(ss, id)).push(fresh))
            } else {
                wf_sources(ss.push(fresh))
            }
        }),
{
    lemma_id_index(ss, id);
    let fresh = (SourceView { id, items: Seq::empty(), closed: false });
    if has_id(ss, id) {
        let k = id_index(ss, id);
        lemma_wf_remove(ss, k);
        let t = ss.remove(k);
        assert forall|j: int| 0 <= j < t.len() implies t[j].id != id by {
            if j < k {
                assert(t[j] == ss[j]);
                assert(ss[j].id != ss[k].id);
            } else {
                assert(t[j] == ss[j + 1]);
                assert(ss[k].id != ss[j + 1].id);
            }
        }
        let u = t.push(fresh);
        assert forall|i: int, j: int| 0 <= i < j < u.len() implies u[i].id != u[j].id by {
            if j == u.len() - 1 {
                assert(u[i] == t[i]);
                assert(u[j] == fresh);
            } else {
                assert(u[i] == t[i]);
                assert(u[j] == t[j]);
            }
        }
    } else {
        let u = ss.push(fresh);
        assert forall|i: int, j: int| 0 <= i < j < u.len() implies u[i].id != u[j].id by {
            if j == u.len() - 1 {
                assert(u[i] == ss[i]);
                if ss[i].id == id {
                    assert(has_id(ss, id));
                }
            } else {
                assert(u[i] == ss[i]);
                assert(u[j] == ss[j]);
            }
        }
    }
}

proof fn lemma_wf_serve(ss: Seq<SourceView>, i: int, auto_evict: bool)
    requires
        wf_sources(ss),
        0 <= i < ss.len(),
    ensures
        wf_sources(serve_result(ss, i, auto_evict)),
{
    let n = ss.len() as int;
    let rest = ss.subrange(i + 1, n) + ss.subrange(0, i);
    assert forall|k: int| 0 <= k < rest.len() implies rest[k] == (if k < n - 1 - i {
        ss[i + 1 + k]
    } else {
        ss[k - (n - 1 - i)]
    }) by {
    }
    assert forall|p: int, q: int| 0 <= p < q < rest.len() implies rest[p].id != rest[q].id by {
        let op = if p < n - 1 - i {
            i + 1 + p
        } else {
            p - (n - 1 - i)
        };
        let oq = if q < n - 1 - i {
            i + 1 + q
        } else {
            q - (n - 1 - i)
        };
        assert(rest[p] == ss[op]);
        assert(rest[q] == ss[oq]);
        if op != oq {
            if op < oq {
                assert(ss[op].id != ss[oq].id);
            } else {
                assert(ss[oq].id != ss[op].id);
            }
        }
    }
    if serve_keeps(ss[i], auto_evict) {
        let u = rest.push(after_serving(ss[i]));
        assert forall|p: int, q: int| 0 <= p < q < u.len() implies u[p].id != u[q].id by {
            if q == u.len() - 1 {
                assert(u[p] == rest[p]);
                let op = if p < n - 1 - i {
                    i + 1 + p
                } else {
                    p - (n - 1 - i)
                };
                assert(rest[p] == ss[op]);
                assert(u[q].id == ss[i].id);
                if op < i {
                    assert(ss[op].id != ss[i].id);
                } else {
                    assert(ss[i].id != ss[op].id);
                }
            } else {
                assert(u[p] == rest[p]);
                assert(u[q] == rest[q]);
            }
        }
    }
}

/// No starvation: serving the frontmost ready source moves every other
/// ready source strictly toward the front of the rotation with its items
/// intact, and `pull` always serves the frontmost ready source; so a ready
/// source standing j places from the front is served within j + 1 pulls,
/// however many items the sources ahead of it hold.
pub proof fn lemma_fair_rotation(ss: Seq<SourceView>, auto_evict: bool, j: int)
    requires
        wf_sources(ss),
        exists_ready(ss),
        0 <= j < ss.len(),
        is_ready(ss[j]),
        j != first_ready(ss),
    ensures
        first_ready(ss) < j,
        0 <= j - first_ready(ss) - 1 < j,
        serve_result(ss, first_ready(ss), auto_evict)[j - first_ready(ss) - 1] == ss[j],
{
    lemma_first_ready(ss);
    let i = first_ready(ss);
    assert(i < j);
    let rest = ss.subrange(i + 1, ss.len() as int) + ss.subrange(0, i);
    assert(rest[j - i - 1] == ss[j]);
}

/// Bounded delivery: along any run of pulls that each serve something, a
/// source that stands k places from the front and has an item is itself
/// served within k + 1 pulls, however many items the sources ahead of it
/// keep producing.  (`trace` lists the registry before each pull;
/// `serve_result` is what `pull` guarantees of each step; a source is
/// served at a step when it is the frontmost ready one, which `pull`'s
/// contract says is the one drained.)
pub proof fn lemma_no_starvation(trace: Seq<Seq<SourceView>>, b: Seq<u8>, auto_evict: bool)
    requires
        wf_sources(trace[0]),
        forall|t: int| #![trigger trace[t]]
            0 <= t < trace.len() - 1 ==> exists_ready(trace[t]) && trace[t + 1] == serve_result(
                trace[t],
                first_ready(trace[t]),
                auto_evict,
            ),
        has_id(trace[0], b),
        is_ready(trace[0][id_index(trace[0], b)]),
        trace.len() > id_index(trace[0], b) + 1,
    ensures
        exists|t: int|
            0 <= t <= id_index(trace[0], b) && first_ready(trace[t]) == id_index(trace[t], b),
    decreases trace.len(),
{
    let s0 = trace[0];
    let k0 = id_index(s0, b);
    lemma_id_index(s0, b);
    if first_ready(s0) == k0 {
        assert(0 <= 0 <= k0 && first_ready(trace[0]) == id_index(trace[0], b));
    } else {
        let i = first_ready(s0);
        lemma_fair_rotation(s0, auto_evict, k0);
        lemma_wf_serve(s0, i, auto_evict);
        let s1 = serve_result(s0, i, auto_evict);
        assert(trace[1] == s1);
        let k1 = k0 - i - 1;
        assert(s1[k1] == s0[k0]);
        assert(s1[k1].id == b);
        assert(has_id(s1, b));
        lemma_id_index(s1, b);
        if id_index(s1, b) < k1 {
            assert(s1[id_index(s1, b)].id != s1[k1].id);
        }
        assert(id_index(s1, b) == k1);
        let sub = trace.drop_first();
        assert forall|t: int| #![trigger sub[t]] 0 <= t < sub.len() - 1 implies exists_ready(
            sub[t],
        ) && sub[t + 1] == serve_result(sub[t], first_ready(sub[t]), auto_evict) by {
            assert(sub[t] == trace[t + 1]);
            assert(sub[t + 1] == trace[t + 2]);
        }
        assert(sub[0] == trace[1]);
        lemma_no_starvation(sub, b, auto_evict);
        let t = choose|t: int|
            0 <= t <= id_index(sub[0], b) && first_ready(sub[t]) == id_index(sub[t], b);
        assert(sub[t] == trace[t + 1]);
        assert(0 <= t + 1 <= k0 && first_ready(trace[t + 1]) == id_index(trace[t + 1], b));
    }
}

/// The result of one attempt to pull the next fairly-scheduled item.
pub enum PullOutcome {
    /// The frontmost ready source produced its oldest item.
    Item(PeerIdentity, InboundItem),
    /// No source has an item and either no stream was ever registered or
    /// one is still open: an item may yet arrive (a first peer may still
    /// connect), so the caller suspends and retries.
    Pending,
    /// No source has an item, at least one stream was registered, and every
    /// registered stream has ended: the multiplexer is exhausted.
    Empty,
}

/// Merges the inbound streams of any number of peers into one ordered stream
/// of items, scheduling the sources in rotation so that no single source's
/// continuous readiness can starve another ready source.
pub struct FairQueue {
    sources: Vec<Source>,
    auto_evict: bool,
    had_sources: bool,
}

impl View for FairQueue {
    type V = Seq<SourceView>;

    closed spec fn view(&self) -> Seq<SourceView> {
        Seq::new(self.sources@.len(), |i: int| self.sources@[i]@)
    }
}

impl FairQueue {
    /// Whether sources are dropped from the registry automatically when they
    /// signal end-of-stream, as opposed to staying registered (exhausted)
    /// until the whole registry is torn down.
    pub closed spec fn auto_evicts(&self) -> bool {
        self.auto_evict
    }

    /// Whether a stream was ever registered.  While this is false, an empty
    /// registry means a first peer may still connect, so pulling stays
    /// `Pending`; exhaustion (`Empty`) is reported only once streams were
    /// registered and all of them have ended.
    pub closed spec fn had_sources(&self) -> bool {
        self.had_sources
    }

    pub open spec fn wf(&self) -> bool {
        wf_sources(self@)
    }

    pub fn new(auto_evict: bool) -> (r: FairQueue)
        ensures
            r@ == Seq::<SourceView>::empty(),
            r.auto_evicts() == auto_evict,
            !r.had_sources(),
            r.wf(),
    {
        let r = FairQueue { sources: Vec::new(), auto_evict, had_sources: false };
        proof {
            assert(r@ =~= Seq::<SourceView>::empty());
        }
        r
    }

    /// Position of the source registered for `id`, or the registry's length
    /// when none is.
    fn position_of(&self, id: &PeerIdentity) -> (r: usize)
        ensures
            r == id_index(self@, id@),
    {
        let n = self.sources.len();
        let mut i: usize = 0;
        while i < n
            invariant
                0 <= i <= n,
                n == self@.len(),
                id_index(self@, id@) == id_index_from(self@, id@, i as int),
            decreases n - i,
        {
            if self.sources[i].id.same_as(id) {
                return i;
            }
            i = i + 1;
        }
        n
    }

    /// Registers the inbound stream of a newly connected peer, replacing any
    /// stream still registered under the same identity.
    pub fn register(&mut self, id: PeerIdentity)
        requires
            old(self).wf(),
        ensures
            final(self).wf(),
            final(self).auto_evicts() == old(self).auto_evicts(),
            final(self).had_sources(),
            ({
                let ss = old(self)@;
                let fresh = (SourceView { id: id@, items: Seq::empty(), closed: false });
                if has_id(ss, id@) {
                    final(self)@ == ss.remove(id_index(ss, id@)).push(fresh)
                } else {
                    final(self)@ == ss.push(fresh)
                }
            }),
    {
        proof {
            lemma_id_index(old(self)@, id@);
            lemma_wf_after_register(old(self)@, id@);
        }
        self.had_sources = true;
        let pos = self.position_of(&id);
        if pos < self.sources.len() {
            self.sources.remove(pos);
            proof {
                assert(self@ =~~= old(self)@.remove(id_index(old(self)@, id@)));
            }
        }
        let ghost mid = self@;
        self.sources.push(Source { id, items: Vec::new(), closed: false });
        proof {
            let fresh = (SourceView { id: id@, items: Seq::empty(), closed: false });
            assert(self@ =~~= mid.push(fresh));
        }
    }

    /// Hands the multiplexer one item that arrived from `id`'s stream.
    /// Returns false, changing nothing, when no open stream is registered
    /// for that peer.
    pub fn deliver(&mut self, id: &PeerIdentity, item: InboundItem) -> (r: bool)
        requires
            old(self).wf(),
        ensures
            final(self).wf(),
            final(self).auto_evicts() == old(self).auto_evicts(),
            final(self).had_sources() == old(self).had_sources(),
            ({
                let ss = old(self)@;
                let k = id_index(ss, id@);
                if has_id(ss, id@) && !ss[k].closed {
                    r == true && final(self)@ == ss.update(
                        k,
                        (SourceView { id: ss[k].id, items: ss[k].items.push(item@), closed: false }),
                    )
                } else {
                    r == false && final(self)@ == ss
                }
            }),
    {
        proof {
            lemma_id_index(old(self)@, id@);
        }
        let pos = self.position_of(id);
        if pos < self.sources.len() {
            if self.sources[pos].closed {
                return false;
            }
            let mut src = self.sources.remove(pos);
            src.items.push(item);
            self.sources.insert(pos, src);
            proof {
                let ss = old(self)@;
                let k = id_index(ss, id@);
                assert(self@ =~~= ss.update(
                    k,
                    (SourceView { id: ss[k].id, items: ss[k].items.push(item@), closed: false }),
                ));
                assert forall|i: int, j: int| 0 <= i < j < self@.len() implies self@[i].id
                    != self@[j].id by {
                    assert(self@[i].id == ss[i].id);
                    assert(self@[j].id == ss[j].id);
                }
            }
            true
        } else {
            false
        }
    }

    /// Marks `id`'s stream as ended: no further item will be delivered from
    /// it.  With automatic eviction an already-drained stream leaves the
    /// registry at once; one with undelivered items leaves once drained.
    pub fn end_source(&mut self, id: &PeerIdentity)
        requires
            old(self).wf(),
        ensures
            final(self).wf(),
            final(self).auto_evicts() == old(self).auto_evicts(),
            final(self).had_sources() == old(self).had_sources(),
            ({
                let ss = old(self)@;
                let k = id_index(ss, id@);
                if has_id(ss, id@) {
                    if old(self).auto_evicts() && ss[k].items.len() == 0 {
                        final(self)@ == ss.remove(k)
                    } else {
                        final(self)@ == ss.update(
                            k,
                            (SourceView { id: ss[k].id, items: ss[k].items, closed: true }),
                        )
                    }
                } else {
                    final(self)@ == ss
                }
            }),
    {
        proof {
            lemma_id_index(old(self)@, id@);
        }
        let pos = self.position_of(id);
        if pos < self.sources.len() {
            let ghost ss = old(self)@;
            let ghost k = id_index(ss, id@);
            if self.auto_evict && self.sources[pos].items.len() == 0 {
                self.sources.remove(pos);
                proof {
                    assert(self@ =~~= ss.remove(k));
                    lemma_wf_remove(ss, k);
                }
            } else {
                let mut src = self.sources.remove(pos);
                src.closed = true;
                self.sources.insert(pos, src);
                proof {
                    assert(self@ =~~= ss.update(
                        k,
                        (SourceView { id: ss[k].id, items: ss[k].items, closed: true }),
                    ));
                    assert forall|i: int, j: int| 0 <= i < j < self@.len() implies self@[i].id
                        != self@[j].id by {
                        assert(self@[i].id == ss[i].id);
                        assert(self@[j].id == ss[j].id);
                    }
                }
            }
        }
    }

    /// Pulls the next fairly-scheduled item.
    ///
    /// Fair rotation: the frontmost ready source is served, everything that
    /// stood behind it moves ahead of it, and the served source rejoins at
    /// the back.  Hence every other ready source moves strictly toward the
    /// front on each pull, so a ready source at position k is served after
    /// at most k + 1 pulls, however much data the sources ahead of it keep
    /// producing.
    pub fn pull(&mut self) -> (r: PullOutcome)
        requires
            old(self).wf(),
        ensures
            final(self).wf(),
            final(self).auto_evicts() == old(self).auto_evicts(),
            final(self).had_sources() == old(self).had_sources(),
            ({
                let ss = old(self)@;
                &&& exists_ready(ss) ==> ({
                    let i = first_ready(ss);
                    &&& (r matches PullOutcome::Item(pid, item) && pid@ == ss[i].id && item@
                        == ss[i].items[0])
                    &&& final(self)@ == serve_result(ss, i, old(self).auto_evicts())
                })
                &&& !exists_ready(ss) && exists_live(ss) ==> r is Pending && final(self)@ == ss
                &&& !exists_ready(ss) && !exists_live(ss) ==> {
                    &&& final(self)@ == ss
                    &&& old(self).had_sources() ==> r is Empty
                    &&& !old(self).had_sources() ==> r is Pending
                }
            }),
    {
        let ghost ss = old(self)@;
        let n = self.sources.len();
        let mut i: usize = 0;
        while i < n
            invariant
                0 <= i <= n,
                n == old(self)@.len(),
                ss == old(self)@,
                self@ == old(self)@,
                wf_sources(old(self)@),
                self.auto_evicts() == old(self).auto_evicts(),
                self.had_sources() == old(self).had_sources(),
                first_ready(ss) == first_ready_from(ss, i as int),
                forall|j: int| 0 <= j < i ==> !is_ready(ss[j]),
            decreases n - i,
        {
            if self.sources[i].items.len() > 0 {
                proof {
                    assert(is_ready(ss[i as int]));
                    assert(first_ready(ss) == i as int);
                }
                return self.serve_at(i);
            }
            i = i + 1;
        }
        proof {
            if exists_ready(ss) {
                let w = choose|k: int| 0 <= k < ss.len() && is_ready(ss[k]);
                assert(!is_ready(ss[w]));
            }
        }
        // No source has data: if a stream is still open, or none was ever
        // registered (a first peer may still connect), data may yet arrive;
        // only a registry whose streams have all ended is spent.
        let mut j: usize = 0;
        while j < n
            invariant
                0 <= j <= n,
                n == old(self)@.len(),
                ss == old(self)@,
                self@ == old(self)@,
                wf_sources(old(self)@),
                self.auto_evicts() == old(self).auto_evicts(),
                self.had_sources() == old(self).had_sources(),
                forall|k: int| 0 <= k < n ==> !is_ready(ss[k]),
                forall|k: int| 0 <= k < j ==> !is_live(ss[k]),
            decreases n - j,
        {
            if !self.sources[j].closed {
                proof {
                    assert(is_live(ss[j as int]));
                }
                return PullOutcome::Pending;
            }
            j = j + 1;
        }
        proof {
            if exists_live(ss) {
                let w = choose|k: int| 0 <= k < ss.len() && is_live(ss[k]);
                assert(!is_live(ss[w]));
            }
        }
        if self.had_sources {
            PullOutcome::Empty
        } else {
            PullOutcome::Pending
        }
    }

    /// Serves the ready source standing at position `pos`.
    fn serve_at(&mut self, pos: usize) -> (r: PullOutcome)
        requires
            old(self).wf(),
            pos < old(self)@.len(),
            is_ready(old(self)@[pos as int]),
            first_ready(old(self)@) == pos as int,
        ensures
            final(self).wf(),
            final(self).auto_evicts() == old(self).auto_evicts(),
            final(self).had_sources() == old(self).had_sources(),
            ({
                let ss = old(self)@;
                let i = first_ready(ss);
                &&& (r matches PullOutcome::Item(pid, item) && pid@ == ss[i].id && item@
                    == ss[i].items[0])
                &&& final(self)@ == serve_result(ss, i, old(self).auto_evicts())
            }),
    {
        let ghost ss = old(self)@;
        let ghost i = pos as int;
        let ghost ae = self.auto_evict;
        let ghost hs = self.had_sources;
        let mut src = self.sources.remove(pos);
        let item = src.items.remove(0);
        let pid = src.id.clone_id();
        proof {
            assert(item@ == ss[i].items[0]);
            assert(src@ =~~= after_serving(ss[i]));
            assert(self@ =~~= ss.subrange(0, i) + ss.subrange(i + 1, ss.len() as int));
        }
        // Rotate: the sources that stood behind the served one move to the
        // front of the registry; those that stood before it move behind them.
        let ghost c = self@;
        let mut k: usize = 0;
        while k < pos
            invariant
                0 <= k <= pos,
                pos <= c.len(),
                c.len() == self@.len(),
                self@ == c.subrange(k as int, c.len() as int) + c.subrange(0, k as int),
                self.auto_evict == ae,
                self.had_sources == hs,
                src@ == after_serving(ss[i]),
                src.closed == ss[i].closed,
                src.items@.len() == ss[i].items.len() - 1,
            decreases pos - k,
        {
            let ghost before = self@;
            let s = self.sources.remove(0);
            self.sources.push(s);
            proof {
                assert(self@ =~~= before.drop_first().push(before[0]));
                assert(self@ =~~= c.subrange(k + 1, c.len() as int) + c.subrange(0, k + 1));
            }
            k = k + 1;
        }
        proof {
            assert(self@ =~~= ss.subrange(i + 1, ss.len() as int) + ss.subrange(0, i));
        }
        let keep = !(self.auto_evict && src.closed && src.items.len() == 0);
        proof {
            assert(keep == serve_keeps(ss[i], ae));
        }
        if keep {
            let ghost mid = self@;
            self.sources.push(src);
            proof {
                assert(self@ =~~= mid.push(after_serving(ss[i])));
            }
        }
        proof {
            assert(self@ =~~= serve_result(ss, i, ae));
            lemma_wf_serve(ss, i, ae);
        }
        PullOutcome::Item(pid, item)
    }
}

} // verus!
