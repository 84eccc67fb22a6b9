//! The peer registry: the one collection shared by every discovery service
//! and the controller. Discovered peers are appended (no deduplication and
//! no expiry), looked up by instance id with the first match winning, and
//! copied out whole for display. Mutation is confined to the owner; callers
//! that share it across tasks serialise access outside this module and do no
//! I/O while holding it.

use crate::device::{Endpoint, EndpointView, RemoteTcpDevice, RemoteTcpDeviceView};
use crate::text;
use vstd::prelude::*;

verus! {

/// The shared collection of discovered remote peers, in arrival order.
pub struct PeerRegistry {
    devices: Vec<RemoteTcpDevice>,
}

impl View for PeerRegistry {
    type V = Seq<RemoteTcpDeviceView>;

    closed spec fn view(&self) -> Seq<RemoteTcpDeviceView> {
        Seq::new(self.devices@.len(), |i: int| self.devices@[i]@)
    }
}

/// The address of the first record whose device id equals `id`.
pub open spec fn find_spec(s: Seq<RemoteTcpDeviceView>, id: Seq<char>) -> Option<EndpointView>
    decreases s.len(),
{
    if s.len() == 0 {
        None
    } else if s[0].device.id == id {
        Some(s[0].addr)
    } else {
        find_spec(s.drop_first(), id)
    }
}

impl PeerRegistry {
    /// An empty registry.
    pub fn new() -> (r: PeerRegistry)
        ensures
            r@ == Seq::<RemoteTcpDeviceView>::empty(),
    {
        let r = PeerRegistry { devices: Vec::new() };
        proof {
            assert(r@ =~= Seq::<RemoteTcpDeviceView>::empty());
        }
        r
    }

    /// How many peers have been recorded.
    pub fn len(&self) -> (n: usize)
        ensures
            n == self@.len(),
    {
        self.devices.len()
    }

    /// Append a newly discovered peer. Duplicate announcements append
    /// duplicate records: nothing is ever updated in place or removed.
    pub fn insert(&mut self, d: RemoteTcpDevice)
        ensures
            final(self)@ == old(self)@.push(d@),
    {
        let ghost dv = d@;
        self.devices.push(d);
        proof {
            assert(self@ =~= old(self)@.push(dv));
        }
    }

    /// The peer record at position `i`, as recorded.
    pub fn get(&self, i: usize) -> (r: &RemoteTcpDevice)
        requires
            i < self@.len(),
        ensures
            r@ == self@[i as int],
    {
        &self.devices[i]
    }

    /// The transfer address of the first recorded peer whose id is `id`,
    /// if any peer announced that id.
    pub fn find_by_id(&self, id: &str) -> (r: Option<Endpoint>)
        ensures
            r is Some <==> find_spec(self@, id@) is Some,
            r matches Some(e) ==> find_spec(self@, id@) == Some(e@),
    {
        let mut i: usize = 0;
        proof {
            assert(self@.skip(0) =~= self@);
        }
        while i < self.devices.len()
            invariant
                i <= self.devices.len(),
                find_spec(self@, id@) == find_spec(self@.skip(i as int), id@),
            decreases self.devices.len() - i,
        {
            proof {
                assert(self@.skip(i as int)[0] == self@[i as int]);
                assert(self@.skip(i as int).drop_first() =~= self@.skip(i + 1));
            }
            if text::str_eq(self.devices[i].device.id.as_str(), id) {
                return Some(self.devices[i].addr.duplicate());
            }
            i = i + 1;
        }
        proof {
            assert(self@.skip(self.devices@.len() as int).len() == 0);
        }
        None
    }

    /// A copy of every recorded peer, in arrival order, for read-only
    /// display.
    pub fn snapshot(&self) -> (r: Vec<RemoteTcpDevice>)
        ensures
            r@.len() == self@.len(),
            forall|k: int| 0 <= k < r@.len() ==> r@[k]@ == self@[k],
    {
        let mut out: Vec<RemoteTcpDevice> = Vec::new();
        let mut i: usize = 0;
        while i < self.devices.len()
            invariant
                i <= self.devices.len(),
                out@.len() == i,
                forall|k: int| 0 <= k < i ==> out@[k]@ == self@[k],
            decreases self.devices.len() - i,
        {
            out.push(self.devices[i].duplicate());
            i = i + 1;
        }
        out
    }
}

} // verus!
