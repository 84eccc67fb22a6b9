//! Discovery of peers over UDP multicast. A node announces itself with
//! `ack == true`; every node that hears a foreign announcement records the
//! sender and, exactly when the message asks for it, replies once with
//! `ack == false` — a reply therefore never triggers a further reply, and a
//! node never reacts to its own messages.

use crate::device::{Device, DeviceView, RemoteTcpDevice, RemoteTcpDeviceView, EndpointView};
use vstd::prelude::*;

verus! {

/// The wire protocol version this crate speaks.
pub const VERSION: u32 = 1;

/// The UDP port every node listens on for discovery datagrams.
pub const UDP_PORT: u16 = 52637;

/// The TCP port every node's transfer server listens on.
pub const TCP_ACCEPTER_PORT: u16 = 52638;

/// The multicast group discovery announcements are sent to.
pub const MULTICAST_IP: &'static str = "224.0.0.123";

/// One discovery datagram: protocol version, the sender's identity, the TCP
/// port its transfer server listens on, and whether a reply is requested.
pub struct DiscoveryReq {
    pub version: u32,
    pub device: Device,
    pub port: u16,
    pub ack: bool,
}

pub struct DiscoveryReqView {
    pub version: u32,
    pub device: DeviceView,
    pub port: u16,
    pub ack: bool,
}

impl View for DiscoveryReq {
    type V = DiscoveryReqView;

    open spec fn view(&self) -> DiscoveryReqView {
        DiscoveryReqView {
            version: self.version,
            device: self.device@,
            port: self.port,
            ack: self.ack,
        }
    }
}

impl DiscoveryReq {
    /// A datagram for this identity, at the current protocol version.
    pub fn new(device: &Device, port: u16, ack: bool) -> (m: DiscoveryReq)
        ensures
            m@ == (DiscoveryReqView { version: VERSION, device: device@, port, ack }),
    {
        DiscoveryReq { version: VERSION, device: device.duplicate(), port, ack }
    }

    /// An identical copy of this datagram.
    pub fn duplicate(&self) -> (m: DiscoveryReq)
        ensures
            m@ == self@,
    {
        DiscoveryReq {
            version: self.version,
            device: self.device.duplicate(),
            port: self.port,
            ack: self.ack,
        }
    }
}

/// A foreign message is recorded; a node's own echo is not.
pub open spec fn should_emit(host: DeviceView, msg: DiscoveryReqView) -> bool {
    msg.device.id != host.id
}

/// A node replies exactly to foreign messages that carry `ack == true`.
pub open spec fn should_reply(host: DeviceView, msg: DiscoveryReqView) -> bool {
    msg.device.id != host.id && msg.ack
}

/// The reply a node sends: its own identity, its transfer port, and
/// `ack == false` so that the reply invites no further reply.
pub open spec fn reply_spec(host: DeviceView) -> DiscoveryReqView {
    DiscoveryReqView { version: VERSION, device: host, port: TCP_ACCEPTER_PORT, ack: false }
}

/// The peer record a foreign message produces: the sender's IP with the
/// announced transfer port, and the announced identity.
pub open spec fn emitted_peer(sender_ip: Seq<char>, msg: DiscoveryReqView) -> RemoteTcpDeviceView {
    RemoteTcpDeviceView {
        addr: EndpointView { ip: sender_ip, port: msg.port },
        device: msg.device,
    }
}

/// What one received datagram leads to: possibly a newly seen peer for the
/// controller, and possibly a reply to the sender.
pub struct DiscoveryOutcome {
    pub emit: Option<RemoteTcpDevice>,
    pub reply: Option<DiscoveryReq>,
}

/// Decide what a parsed discovery message leads to. No reply and no record
/// for the node's own echo; a record of the sender for every foreign
/// message; a reply exactly when the foreign message asked for one.
pub fn handle_datagram(host: &Device, sender_ip: &str, msg: &DiscoveryReq) -> (out:
    DiscoveryOutcome)
    ensures
        out.emit is Some <==> should_emit(host@, msg@),
        out.emit matches Some(p) ==> p@ == emitted_peer(sender_ip@, msg@),
        out.reply is Some <==> should_reply(host@, msg@),
        out.reply matches Some(r) ==> r@ == reply_spec(host@),
{
    if crate::text::str_eq(msg.device.id.as_str(), host.id.as_str()) {
        DiscoveryOutcome { emit: None, reply: None }
    } else {
        let peer = RemoteTcpDevice::new(
            <String as vstd::string::StringExecFns>::from_str(sender_ip),
            msg.port,
            msg.device.duplicate(),
        );
        let reply = if msg.ack {
            Some(DiscoveryReq::new(host, TCP_ACCEPTER_PORT, false))
        } else {
            None
        };
        DiscoveryOutcome { emit: Some(peer), reply }
    }
}

/// Self-suppression: a message carrying the node's own id is neither
/// recorded nor answered.
pub proof fn lemma_self_suppression(host: DeviceView, msg: DiscoveryReqView)
    ensures
        msg.device.id == host.id ==> !should_emit(host, msg) && !should_reply(host, msg),
{
}

/// Ack discipline: a node replies to a foreign message exactly when it
/// carries `ack == true`; every reply carries `ack == false`; and a reply
/// received by any node — its original addressee or not — triggers no
/// further reply.
pub proof fn lemma_ack_discipline(host: DeviceView, other: DeviceView, msg: DiscoveryReqView)
    ensures
        should_reply(host, msg) <==> (msg.device.id != host.id && msg.ack),
        reply_spec(host).ack == false,
        !should_reply(other, reply_spec(host)),
{
}

/// Mutual discovery, for the schedule in which one node's announcement is
/// heard and its reply comes back: the announcement draws exactly one
/// reply, the reply draws none, and each side's registry — starting empty
/// and fed exactly what its listener emits — ends with exactly one entry
/// naming the other node at its address. The registry itself appends every
/// sighting without deduplication, so a schedule in which both nodes also
/// hear each other's own announcements records a further entry per side.
pub proof fn lemma_mutual_discovery(a: DeviceView, b: DeviceView, ip_a: Seq<char>, ip_b: Seq<char>)
    requires
        a.id != b.id,
    ensures
        should_emit(b, announcement_spec(a)),
        should_reply(b, announcement_spec(a)),
        should_emit(a, reply_spec(b)),
        !should_reply(a, reply_spec(b)),
        ({
            let at_b = Seq::<RemoteTcpDeviceView>::empty().push(
                emitted_peer(ip_a, announcement_spec(a)),
            );
            let at_a = Seq::<RemoteTcpDeviceView>::empty().push(emitted_peer(ip_b, reply_spec(b)));
            &&& at_b.len() == 1
            &&& at_b[0].device == a
            &&& at_b[0].addr == (EndpointView { ip: ip_a, port: TCP_ACCEPTER_PORT })
            &&& at_a.len() == 1
            &&& at_a[0].device == b
            &&& at_a[0].addr == (EndpointView { ip: ip_b, port: TCP_ACCEPTER_PORT })
        }),
{
}

/// The announcement a node sends when it starts, or when an operator adds a
/// peer by address: its identity and transfer port, with `ack == true` to
/// invite a reply.
pub fn announcement(host: &Device) -> (m: DiscoveryReq)
    ensures
        m@ == (DiscoveryReqView {
            version: VERSION,
            device: host@,
            port: TCP_ACCEPTER_PORT,
            ack: true,
        }),
{
    DiscoveryReq::new(host, TCP_ACCEPTER_PORT, true)
}

/// The announcement a node sends, as a spec value.
pub open spec fn announcement_spec(host: DeviceView) -> DiscoveryReqView {
    DiscoveryReqView { version: VERSION, device: host, port: TCP_ACCEPTER_PORT, ack: true }
}

/// One UDP datagram to send: where to, and the exact payload bytes.
pub struct UdpSend {
    pub target_ip: String,
    pub target_port: u16,
    pub payload: Vec<u8>,
}

/// The one datagram an "add peer by address" request produces in a
/// discovery service: a single unicast announcement to exactly the given
/// address on the discovery port — never a multicast send.
pub fn announce_to(host: &Device, target_ip: &str) -> (s: UdpSend)
    ensures
        s.target_ip@ == target_ip@,
        s.target_port == UDP_PORT,
        s.payload@ == vstd::utf8::encode_utf8(crate::wire::enc_discovery(announcement_spec(host@))),
{
    let msg = announcement(host);
    UdpSend {
        target_ip: <String as vstd::string::StringExecFns>::from_str(target_ip),
        target_port: UDP_PORT,
        payload: crate::wire::discovery_bytes(&msg),
    }
}

/// The datagram a discovery service multicasts when it starts.
pub fn multicast_announce(host: &Device) -> (s: UdpSend)
    ensures
        s.target_ip@ == MULTICAST_IP@,
        s.target_port == UDP_PORT,
        s.payload@ == vstd::utf8::encode_utf8(crate::wire::enc_discovery(announcement_spec(host@))),
{
    announce_to(host, MULTICAST_IP)
}

/// The datagram that answers an announcement: a unicast reply to the
/// sender's IP on the discovery port, carrying `ack == false`.
pub fn reply_to(reply: &DiscoveryReq, sender_ip: &str) -> (s: UdpSend)
    ensures
        s.target_ip@ == sender_ip@,
        s.target_port == UDP_PORT,
        s.payload@ == vstd::utf8::encode_utf8(crate::wire::enc_discovery(reply@)),
{
    UdpSend {
        target_ip: <String as vstd::string::StringExecFns>::from_str(sender_ip),
        target_port: UDP_PORT,
        payload: crate::wire::discovery_bytes(reply),
    }
}

/// The per-interface listening loop's state: the node's own identity and
/// the bytes received so far that do not yet form a complete message.
pub struct DiscoveryListener {
    host: Device,
    buf: Vec<u8>,
}

pub struct DiscoveryListenerView {
    pub host: DeviceView,
    pub buf: Seq<u8>,
}

impl View for DiscoveryListener {
    type V = DiscoveryListenerView;

    closed spec fn view(&self) -> DiscoveryListenerView {
        DiscoveryListenerView { host: self.host@, buf: self.buf@ }
    }
}

impl DiscoveryListener {
    /// A listener for this node, with an empty buffer.
    pub fn new(host: Device) -> (r: DiscoveryListener)
        ensures
            r@.host == host@,
            r@.buf == Seq::<u8>::empty(),
    {
        DiscoveryListener { host, buf: Vec::new() }
    }

    /// One received datagram: append its bytes to the buffer; exactly when
    /// the whole buffer is one discovery message, consume it and decide —
    /// suppress the node's own echo, otherwise emit the sender as a peer
    /// and reply when asked to.
    pub fn on_datagram(&mut self, sender_ip: &str, data: &Vec<u8>) -> (r: Option<
        DiscoveryOutcome,
    >)
        ensures
            final(self)@.host == old(self)@.host,
            ({
                let b = old(self)@.buf + data@;
                let complete = vstd::utf8::valid_utf8(b) && crate::wire::parse_discovery(
                    vstd::utf8::decode_utf8(b),
                ) is Some;
                &&& (r is Some <==> complete)
                &&& (r is None ==> final(self)@.buf == b)
                &&& (complete ==> final(self)@.buf == Seq::<u8>::empty() && {
                    let m = crate::wire::parse_discovery(vstd::utf8::decode_utf8(b))->0;
                    let out = r->0;
                    &&& (out.emit is Some <==> should_emit(old(self)@.host, m))
                    &&& (out.emit matches Some(p) ==> p@ == emitted_peer(sender_ip@, m))
                    &&& (out.reply is Some <==> should_reply(old(self)@.host, m))
                    &&& (out.reply matches Some(rep) ==> rep@ == reply_spec(old(self)@.host))
                })
            }),
    {
        let mut incoming = data.clone();
        self.buf.append(&mut incoming);
        match crate::wire::try_decode_discovery(&self.buf) {
            Some(msg) => {
                self.buf.clear();
                Some(handle_datagram(&self.host, sender_ip, &msg))
            },
            None => None,
        }
    }
}

} // verus!
