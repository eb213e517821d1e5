use vstd::prelude::*;

verus! {

/// Frame-by-frame abstraction of a list of byte blobs.
pub open spec fn frames_view(frames: Seq<Vec<u8>>) -> Seq<Seq<u8>> {
    Seq::new(frames.len(), |i: int| frames[i]@)
}

/// A multipart message: an ordered sequence of byte-blob frames transmitted
/// as one logical unit.  An empty frame is semantically significant: it is
/// the delimiter that separates the routing envelope from the payload.
pub struct ZmqMessage {
    frames: Vec<Vec<u8>>,
}

impl View for ZmqMessage {
    type V = Seq<Seq<u8>>;

    closed spec fn view(&self) -> Seq<Seq<u8>> {
        frames_view(self.frames@)
    }
}

/// Scans `m` from index `i` for the first empty frame; the split point is one
/// past it.  When no empty frame exists the split point defaults to 1, so the
/// first frame alone is treated as the routing prefix.
pub open spec fn split_point_from(m: Seq<Seq<u8>>, i: int) -> int
    decreases m.len() - i when 0 <= i <= m.len()
{
    if i >= m.len() {
        1
    } else if m[i].len() == 0 {
        i + 1
    } else {
        split_point_from(m, i + 1)
    }
}

/// Index just past the routing envelope of a received message: one past the
/// first empty frame, or 1 when no frame is empty.
pub open spec fn split_point(m: Seq<Seq<u8>>) -> int {
    split_point_from(m, 0)
}

pub proof fn lemma_split_point_bounds(m: Seq<Seq<u8>>)
    requires
        m.len() >= 1,
    ensures
        1 <= split_point(m) <= m.len(),
{
    lemma_split_point_from_bounds(m, 0);
}

proof fn lemma_split_point_from_bounds(m: Seq<Seq<u8>>, i: int)
    requires
        0 <= i <= m.len(),
        m.len() >= 1,
    ensures
        1 <= split_point_from(m, i) <= m.len(),
    decreases m.len() - i,
{
    if i >= m.len() {
    } else if m[i].len() == 0 {
    } else {
        lemma_split_point_from_bounds(m, i + 1);
    }
}

impl ZmqMessage {
    /// Builds a message out of its frames, in order.
    pub fn from_frames(frames: Vec<Vec<u8>>) -> (r: ZmqMessage)
        ensures
            r@ == frames_view(frames@),
    {
        ZmqMessage { frames }
    }

    pub fn len(&self) -> (r: usize)
        ensures
            r == self@.len(),
    {
        self.frames.len()
    }

    pub fn frame(&self, i: usize) -> (r: Option<&Vec<u8>>)
        ensures
            i < self@.len() ==> (r matches Some(f) && f@ == self@[i as int]),
            i >= self@.len() ==> r is None,
    {
        if i < self.frames.len() {
            Some(&self.frames[i])
        } else {
            None
        }
    }

    pub fn push_back(&mut self, frame: Vec<u8>)
        ensures
            final(self)@ == old(self)@.push(frame@),
    {
        self.frames.push(frame);
        proof {
            assert(self@ =~= old(self)@.push(frame@));
        }
    }

    /// Splits the message in two: `self` keeps the frames before `at`, the
    /// returned message holds the frames from `at` on.
    pub fn split_off(&mut self, at: usize) -> (r: ZmqMessage)
        requires
            at <= old(self)@.len(),
        ensures
            final(self)@ == old(self)@.subrange(0, at as int),
            r@ == old(self)@.subrange(at as int, old(self)@.len() as int),
    {
        let tail = self.frames.split_off(at);
        let r = ZmqMessage { frames: tail };
        proof {
            assert(self@ =~= old(self)@.subrange(0, at as int));
            assert(r@ =~= old(self)@.subrange(at as int, old(self)@.len() as int));
        }
        r
    }

    /// Reattaches a routing envelope: the envelope's frames come first, then
    /// the message's own frames, in their original orders.
    pub fn prepend(&mut self, envelope: ZmqMessage)
        ensures
            final(self)@ == envelope@ + old(self)@,
    {
        let mut combined = envelope.frames;
        combined.append(&mut self.frames);
        self.frames = combined;
        proof {
            assert(self@ =~= envelope@ + old(self)@);
        }
    }

    /// The split point of this message, computed frame by frame: one past the
    /// first empty frame, or 1 when no frame is empty.
    pub fn envelope_split(&self) -> (r: usize)
        requires
            self@.len() >= 1,
        ensures
            r == split_point(self@),
            1 <= r <= self@.len(),
    {
        let n = self.frames.len();
        let mut i: usize = 0;
        while i < n
            invariant
                0 <= i <= n,
                n == self@.len(),
                n >= 1,
                split_point(self@) == split_point_from(self@, i as int),
            decreases n - i,
        {
            if self.frames[i].len() == 0 {
                proof {
                    lemma_split_point_bounds(self@);
                }
                return i + 1;
            }
            i = i + 1;
        }
        proof {
            lemma_split_point_bounds(self@);
        }
        1
    }
}

} // verus!
