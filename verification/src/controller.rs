//! The controller: owns the peer registry and the process-wide view of the
//! running discovery services, decides which network interfaces take part,
//! and turns the two kinds of incoming events — a discovered peer, an
//! operator's add-peer-by-address request — into registry changes and send
//! actions. All I/O stays with the caller; the decisions live here.

use crate::device::{Device, DeviceView, Endpoint, RemoteTcpDevice, RemoteTcpDeviceView};
use crate::discoverer::{announcement_spec, announce_to, UdpSend, UDP_PORT};
use crate::registry::{find_spec, PeerRegistry};
use crate::text::{contains_seq, str_contains};
use vstd::prelude::*;
use vstd::utf8::encode_utf8;

verus! {

/// An interface takes part when it is up, has an address, is not the
/// loopback, and is not a virtualization artifact by name.
pub open spec fn eligible_spec(up: bool, loopback: bool, has_addrs: bool, name: Seq<char>) -> bool {
    up && has_addrs && !loopback && !contains_seq(name, "docker"@)
}

/// Whether to start a discovery service and a transfer server on an
/// interface with these properties.
pub fn interface_eligible(up: bool, loopback: bool, has_addrs: bool, name: &str) -> (r: bool)
    ensures
        r == eligible_spec(up, loopback, has_addrs, name@),
{
    up && has_addrs && !loopback && !str_contains(name, "docker")
}

/// What the controller hears in its fan-in loop.
pub enum ControllerEvent {
    /// A discovery service saw a new peer.
    Discovered(RemoteTcpDevice),
    /// An operator asked to add a peer by address.
    AddPeer(String),
}

/// What one event makes the controller do: possibly ask the display to
/// redraw, and possibly send announcements.
pub struct ControllerEffects {
    pub repaint: bool,
    pub sends: Vec<UdpSend>,
}

/// The controller's long-lived state: the host identity, the shared peer
/// registry, and how many discovery services were started.
pub struct Controller {
    host: Device,
    registry: PeerRegistry,
    services: usize,
}

pub struct ControllerView {
    pub host: DeviceView,
    pub peers: Seq<RemoteTcpDeviceView>,
    pub services: usize,
}

impl View for Controller {
    type V = ControllerView;

    closed spec fn view(&self) -> ControllerView {
        ControllerView { host: self.host@, peers: self.registry@, services: self.services }
    }
}

impl Controller {
    /// A controller for this host, before any service is started.
    pub fn new(host: Device) -> (r: Controller)
        ensures
            r@.host == host@,
            r@.peers == Seq::<RemoteTcpDeviceView>::empty(),
            r@.services == 0,
    {
        Controller { host, registry: PeerRegistry::new(), services: 0 }
    }

    /// The host identity this controller announces.
    pub fn host(&self) -> (r: &Device)
        ensures
            r@ == self@.host,
    {
        &self.host
    }

    /// How many discovery services run.
    pub fn service_count(&self) -> (n: usize)
        ensures
            n == self@.services,
    {
        self.services
    }

    /// Record that one more discovery service runs.
    pub fn service_started(&mut self)
        requires
            old(self)@.services < usize::MAX,
        ensures
            final(self)@.host == old(self)@.host,
            final(self)@.peers == old(self)@.peers,
            final(self)@.services == old(self)@.services + 1,
    {
        self.services = self.services + 1;
    }

    /// The fan-in decision. A discovered peer is appended to the registry
    /// and the display is asked to redraw; an add-peer request leaves the
    /// registry alone and produces exactly one unicast announcement to the
    /// given address per running discovery service — never a multicast.
    pub fn handle_event(&mut self, e: ControllerEvent) -> (eff: ControllerEffects)
        ensures
            final(self)@.host == old(self)@.host,
            final(self)@.services == old(self)@.services,
            (match e {
                ControllerEvent::Discovered(d) => {
                    &&& final(self)@.peers == old(self)@.peers.push(d@)
                    &&& eff.repaint
                    &&& eff.sends@.len() == 0
                },
                ControllerEvent::AddPeer(ip) => {
                    &&& final(self)@.peers == old(self)@.peers
                    &&& !eff.repaint
                    &&& eff.sends@.len() == old(self)@.services
                    &&& forall|k: int|
                        0 <= k < eff.sends@.len() ==> (#[trigger] eff.sends@[k]).target_ip@ == ip@
                            && eff.sends@[k].target_port == UDP_PORT
                            && eff.sends@[k].payload@ == encode_utf8(
                            crate::wire::enc_discovery(announcement_spec(old(self)@.host)),
                        )
                },
            }),
    {
        match e {
            ControllerEvent::Discovered(d) => {
                self.registry.insert(d);
                ControllerEffects { repaint: true, sends: Vec::new() }
            },
            ControllerEvent::AddPeer(ip) => {
                let mut sends: Vec<UdpSend> = Vec::new();
                let mut k: usize = 0;
                while k < self.services
                    invariant
                        k <= self.services,
                        sends@.len() == k,
                        forall|j: int|
                            0 <= j < k ==> (#[trigger] sends@[j]).target_ip@ == ip@
                                && sends@[j].target_port == UDP_PORT && sends@[j].payload@
                                == encode_utf8(
                                crate::wire::enc_discovery(announcement_spec(self@.host)),
                            ),
                    decreases self.services - k,
                {
                    sends.push(announce_to(&self.host, ip.as_str()));
                    k = k + 1;
                }
                ControllerEffects { repaint: false, sends }
            },
        }
    }

    /// The transfer address recorded for the peer with this instance id:
    /// the first match wins.
    pub fn get_device_addr(&self, id: &str) -> (r: Option<Endpoint>)
        ensures
            r is Some <==> find_spec(self@.peers, id@) is Some,
            r matches Some(e) ==> find_spec(self@.peers, id@) == Some(e@),
    {
        self.registry.find_by_id(id)
    }

    /// How many peers the registry holds.
    pub fn peer_count(&self) -> (n: usize)
        ensures
            n == self@.peers.len(),
    {
        self.registry.len()
    }

    /// A copy of the recorded peers, in arrival order, for display.
    pub fn peers(&self) -> (r: Vec<RemoteTcpDevice>)
        ensures
            r@.len() == self@.peers.len(),
            forall|k: int| 0 <= k < r@.len() ==> r@[k]@ == self@.peers[k],
    {
        self.registry.snapshot()
    }
}

} // verus!
