use rsdrop::controller::interface_eligible;
use rsdrop::device::{make_instance_id, Device, Endpoint, RemoteTcpDevice};
use rsdrop::registry::PeerRegistry;
use rsdrop::DropError;

fn peer(ip: &str, port: u16, id: &str) -> RemoteTcpDevice {
    RemoteTcpDevice::new(
        ip.to_string(),
        port,
        Device::new("N".to_string(), "linux".to_string(), id.to_string()),
    )
}

#[test]
fn share_line_format() {
    let d = Device::new("Box".to_string(), "linux".to_string(), "42-7".to_string());
    assert_eq!(d.share(), "drop://42-7/linux#Box");
    let r = RemoteTcpDevice::new("10.0.0.9".to_string(), 52638, d);
    assert_eq!(r.share(), "drop://42-7/linux#Box");
    assert_eq!(r.device_type(), "linux");
}

#[test]
fn platform_tags() {
    assert_eq!(Device::host_device_type("linux"), "linux");
    assert_eq!(Device::host_device_type("windows"), "windows");
    assert_eq!(Device::host_device_type("macos"), "macos");
    assert_eq!(Device::host_device_type("ios"), "ios");
    assert_eq!(Device::host_device_type("android"), "android");
    assert_eq!(Device::host_device_type("plan9"), "unknown");
}

#[test]
fn instance_id_format() {
    assert_eq!(make_instance_id(123456, 789), "123456-789");
    assert_eq!(make_instance_id(0, 0), "0-0");
}

#[test]
fn registry_insert_and_find_first_match() {
    let mut reg = PeerRegistry::new();
    assert_eq!(reg.len(), 0);
    assert!(reg.find_by_id("id-1").is_none());
    reg.insert(peer("10.0.0.1", 52638, "id-1"));
    reg.insert(peer("10.0.0.2", 52638, "id-2"));
    // A duplicate announcement appends a duplicate entry.
    reg.insert(peer("10.0.0.3", 52638, "id-1"));
    assert_eq!(reg.len(), 3);
    let addr = reg.find_by_id("id-1").expect("known id");
    assert_eq!(addr.ip, "10.0.0.1", "the first match wins");
    assert_eq!(addr.port, 52638);
    assert!(reg.find_by_id("id-9").is_none());
}

#[test]
fn registry_snapshot_preserves_order() {
    let mut reg = PeerRegistry::new();
    reg.insert(peer("10.0.0.1", 1, "a"));
    reg.insert(peer("10.0.0.2", 2, "b"));
    let snap = reg.snapshot();
    assert_eq!(snap.len(), 2);
    assert_eq!(snap[0].device.id, "a");
    assert_eq!(snap[1].device.id, "b");
    assert_eq!(snap[1].addr.ip, "10.0.0.2");
}

#[test]
fn interface_eligibility() {
    assert!(interface_eligible(true, false, true, "eth0"));
    assert!(!interface_eligible(false, false, true, "eth0"));
    assert!(!interface_eligible(true, true, true, "lo"));
    assert!(!interface_eligible(true, false, false, "eth0"));
    assert!(!interface_eligible(true, false, true, "docker0"));
    assert!(!interface_eligible(true, false, true, "br-docker-net"));
}

#[test]
fn endpoint_copy() {
    let e = Endpoint { ip: "1.2.3.4".to_string(), port: 9 };
    let c = e.duplicate();
    assert_eq!(c.ip, "1.2.3.4");
    assert_eq!(c.port, 9);
}

#[test]
fn error_labels() {
    assert_eq!(DropError::IntegrityMismatch.label(), "integrity mismatch");
    assert_eq!(DropError::ConnectionAborted.label(), "connection aborted");
}
