use vstd::prelude::*;

verus! {

use vstd::std_specs::cmp::PartialEqSpec;

/// Opaque byte identifier assigned to a connection at accept time.  It keys
/// both the outbound peer registry and the inbound multiplexer's source
/// table, and is unique among live connections.
pub struct PeerIdentity {
    bytes: Vec<u8>,
}

impl View for PeerIdentity {
    type V = Seq<u8>;

    closed spec fn view(&self) -> Seq<u8> {
        self.bytes@
    }
}

impl PeerIdentity {
    pub fn from_bytes(bytes: Vec<u8>) -> (r: PeerIdentity)
        ensures
            r@ == bytes@,
    {
        PeerIdentity { bytes }
    }

    pub fn clone_id(&self) -> (r: PeerIdentity)
        ensures
            r@ == self@,
    {
        let mut out: Vec<u8> = Vec::new();
        let mut i: usize = 0;
        while i < self.bytes.len()
            invariant
                i <= self.bytes@.len(),
                out@ == self.bytes@.subrange(0, i as int),
            decreases self.bytes@.len() - i,
        {
            out.push(self.bytes[i]);
            i = i + 1;
            proof {
                assert(out@ =~= self.bytes@.subrange(0, i as int));
            }
        }
        proof {
            assert(out@ =~= self.bytes@);
        }
        PeerIdentity { bytes: out }
    }

    /// Whether two identities name the same connection.
    pub fn same_as(&self, other: &PeerIdentity) -> (r: bool)
        ensures
            r == (self@ == other@),
    {
        let r = self.bytes == other.bytes;
        proof {
            if r {
                assert(self.bytes@ =~= other.bytes@);
            } else {
                if self.bytes@ == other.bytes@ {
                    assert(self.bytes.eq_spec(&other.bytes));
                }
            }
        }
        r
    }

    pub fn as_bytes(&self) -> (r: &Vec<u8>)
        ensures
            r@ == self@,
    {
        &self.bytes
    }
}

} // verus!
