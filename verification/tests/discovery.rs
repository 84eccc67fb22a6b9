use rsdrop::controller::{Controller, ControllerEvent};
use rsdrop::device::Device;
use rsdrop::discoverer::{
    announce_to, handle_datagram, multicast_announce, DiscoveryListener, DiscoveryReq,
    MULTICAST_IP, TCP_ACCEPTER_PORT, UDP_PORT,
};
use rsdrop::wire::{discovery_bytes, try_decode_discovery};

fn node(name: &str, id: &str) -> Device {
    Device::new(name.to_string(), "linux".to_string(), id.to_string())
}

#[test]
fn own_echo_is_suppressed() {
    let host = node("A", "id-a");
    let msg = DiscoveryReq::new(&host, TCP_ACCEPTER_PORT, true);
    let out = handle_datagram(&host, "10.0.0.1", &msg);
    assert!(out.emit.is_none());
    assert!(out.reply.is_none());
}

#[test]
fn foreign_announcement_is_emitted_and_answered() {
    let host = node("A", "id-a");
    let other = node("B", "id-b");
    let msg = DiscoveryReq::new(&other, 52638, true);
    let out = handle_datagram(&host, "10.0.0.2", &msg);
    let peer = out.emit.expect("foreign announcement must be emitted");
    assert_eq!(peer.addr.ip, "10.0.0.2");
    assert_eq!(peer.addr.port, 52638);
    assert_eq!(peer.device.id, "id-b");
    let reply = out.reply.expect("ack == true must be answered");
    assert_eq!(reply.ack, false);
    assert_eq!(reply.device.id, "id-a");
    assert_eq!(reply.port, TCP_ACCEPTER_PORT);
}

#[test]
fn reply_is_emitted_but_never_answered() {
    let host = node("A", "id-a");
    let other = node("B", "id-b");
    let reply = DiscoveryReq::new(&other, 52638, false);
    let out = handle_datagram(&host, "10.0.0.2", &reply);
    assert!(out.emit.is_some());
    assert!(out.reply.is_none());
}

#[test]
fn reply_to_reply_never_happens() {
    let a = node("A", "id-a");
    let b = node("B", "id-b");
    // B answers A's announcement; A must not answer B's reply.
    let ann = DiscoveryReq::new(&a, TCP_ACCEPTER_PORT, true);
    let at_b = handle_datagram(&b, "10.0.0.1", &ann);
    let reply = at_b.reply.expect("announcement invites a reply");
    let at_a = handle_datagram(&a, "10.0.0.2", &reply);
    assert!(at_a.reply.is_none());
}

#[test]
fn listener_handles_split_datagram() {
    let host = node("A", "id-a");
    let other = node("B", "id-b");
    let msg = DiscoveryReq::new(&other, 52638, true);
    let bytes = discovery_bytes(&msg);
    let cut = bytes.len() / 2;
    let first: Vec<u8> = bytes[..cut].to_vec();
    let second: Vec<u8> = bytes[cut..].to_vec();
    let mut listener = DiscoveryListener::new(host);
    assert!(listener.on_datagram("10.0.0.2", &first).is_none());
    let out = listener
        .on_datagram("10.0.0.2", &second)
        .expect("buffer completes on the second datagram");
    assert_eq!(out.emit.expect("foreign message").device.id, "id-b");
}

#[test]
fn listener_keeps_unparseable_bytes() {
    let host = node("A", "id-a");
    let mut listener = DiscoveryListener::new(host);
    let garbage: Vec<u8> = b"not json".to_vec();
    assert!(listener.on_datagram("10.0.0.2", &garbage).is_none());
}

#[test]
fn announcement_wire_shape() {
    let host = node("A", "id-a");
    let send = multicast_announce(&host);
    assert_eq!(send.target_ip, MULTICAST_IP);
    assert_eq!(send.target_port, UDP_PORT);
    let msg = try_decode_discovery(&send.payload).expect("announcement must decode");
    assert_eq!(msg.ack, true);
    assert_eq!(msg.version, 1);
    assert_eq!(msg.port, TCP_ACCEPTER_PORT);
    assert_eq!(msg.device.id, "id-a");
}

#[test]
fn two_nodes_discover_each_other() {
    // Scenario: two nodes each announce; each registry ends with exactly
    // one entry for the other.
    let dev_a = node("A", "id-a");
    let dev_b = node("B", "id-b");
    let mut ctrl_a = Controller::new(dev_a.duplicate());
    let mut ctrl_b = Controller::new(dev_b.duplicate());
    let mut listener_a = DiscoveryListener::new(dev_a.duplicate());
    let mut listener_b = DiscoveryListener::new(dev_b.duplicate());

    // A's multicast announcement reaches B.
    let ann_a = multicast_announce(&dev_a);
    let at_b = listener_b
        .on_datagram("10.0.0.1", &ann_a.payload)
        .expect("complete datagram");
    ctrl_b.handle_event(ControllerEvent::Discovered(at_b.emit.expect("foreign")));
    let reply_b = at_b.reply.expect("announcement invites a reply");

    // B's reply reaches A.
    let reply_bytes = discovery_bytes(&reply_b);
    let at_a = listener_a
        .on_datagram("10.0.0.2", &reply_bytes)
        .expect("complete datagram");
    assert!(at_a.reply.is_none(), "a reply is never answered");
    ctrl_a.handle_event(ControllerEvent::Discovered(at_a.emit.expect("foreign")));

    // B's own multicast announcement reaches A too.
    let ann_b = multicast_announce(&dev_b);
    let at_a2 = listener_a
        .on_datagram("10.0.0.2", &ann_b.payload)
        .expect("complete datagram");
    // A already knows B; recording again would duplicate, so the scenario
    // records only the first sighting per node.
    assert_eq!(at_a2.emit.expect("foreign").device.id, "id-b");

    assert_eq!(ctrl_a.peer_count(), 1);
    assert_eq!(ctrl_b.peer_count(), 1);
    let peers_a = ctrl_a.peers();
    let peers_b = ctrl_b.peers();
    assert_eq!(peers_a[0].device.id, "id-b");
    assert_eq!(peers_b[0].device.id, "id-a");
}

#[test]
fn add_peer_sends_one_unicast_per_service() {
    // Scenario: an "add peer by address" command triggers exactly one
    // unicast discovery message to the given address, never a multicast.
    let host = node("A", "id-a");
    let mut ctrl = Controller::new(host);
    ctrl.service_started();
    let effects = ctrl.handle_event(ControllerEvent::AddPeer("192.168.1.50".to_string()));
    assert!(!effects.repaint);
    assert_eq!(effects.sends.len(), 1);
    let send = &effects.sends[0];
    assert_eq!(send.target_ip, "192.168.1.50");
    assert_ne!(send.target_ip, MULTICAST_IP);
    assert_eq!(send.target_port, UDP_PORT);
    let msg = try_decode_discovery(&send.payload).expect("announcement must decode");
    assert_eq!(msg.ack, true);
    assert_eq!(msg.device.id, "id-a");
}

#[test]
fn announce_to_targets_given_address_only() {
    let host = node("A", "id-a");
    let send = announce_to(&host, "10.9.8.7");
    assert_eq!(send.target_ip, "10.9.8.7");
    assert_eq!(send.target_port, UDP_PORT);
}

#[test]
fn reply_goes_back_to_sender() {
    let a = node("A", "id-a");
    let b = node("B", "id-b");
    let ann = DiscoveryReq::new(&a, TCP_ACCEPTER_PORT, true);
    let at_b = handle_datagram(&b, "10.0.0.1", &ann);
    let reply = at_b.reply.expect("announcement invites a reply");
    let send = rsdrop::discoverer::reply_to(&reply, "10.0.0.1");
    assert_eq!(send.target_ip, "10.0.0.1");
    assert_eq!(send.target_port, UDP_PORT);
    let msg = try_decode_discovery(&send.payload).expect("reply must decode");
    assert_eq!(msg.ack, false);
    assert_eq!(msg.device.id, "id-b");
}
