//! The local device identity and the record kept for each discovered remote
//! peer. A device is described by a display name, a platform tag and an
//! instance id unique to one run of the process; comparing ids is the sole
//! mechanism by which a node recognises its own announcements.

use crate::json::enc_nat;
use crate::text;
use vstd::prelude::*;
use vstd::string::StringExecFns;

verus! {

/// The identity a node announces: display name, platform tag, instance id.
pub struct Device {
    pub name: String,
    pub kind: String,
    pub id: String,
}

/// The mathematical value of a `Device`: its three fields as character
/// sequences.
pub struct DeviceView {
    pub name: Seq<char>,
    pub kind: Seq<char>,
    pub id: Seq<char>,
}

impl View for Device {
    type V = DeviceView;

    open spec fn view(&self) -> DeviceView {
        DeviceView { name: self.name@, kind: self.kind@, id: self.id@ }
    }
}

/// The platform tag for an operating-system name: one of the five known
/// names maps to itself, anything else to the fallback tag.
pub open spec fn platform_tag(os: Seq<char>) -> Seq<char> {
    if os == "windows"@ || os == "linux"@ || os == "macos"@ || os == "ios"@ || os
        == "android"@ {
        os
    } else {
        "unknown"@
    }
}

/// The instance id built from the boot timestamp (microseconds) and the
/// process id: the two numbers in decimal with a dash between.
pub open spec fn instance_id(micros: u64, pid: u64) -> Seq<char> {
    enc_nat(micros as nat) + "-"@ + enc_nat(pid as nat)
}

impl Device {
    /// A device identity from its three parts.
    pub fn new(name: String, kind: String, id: String) -> (d: Device)
        ensures
            d@ == (DeviceView { name: name@, kind: kind@, id: id@ }),
    {
        Device { name, kind, id }
    }

    /// The platform tag for the given operating-system name.
    pub fn host_device_type(os: &str) -> (r: String)
        ensures
            r@ == platform_tag(os@),
    {
        if text::str_eq(os, "windows") || text::str_eq(os, "linux") || text::str_eq(os, "macos")
            || text::str_eq(os, "ios") || text::str_eq(os, "android") {
            String::from_str(os)
        } else {
            String::from_str("unknown")
        }
    }

    /// The platform tag of this device.
    pub fn device_type(&self) -> (r: &str)
        ensures
            r@ == self.kind@,
    {
        self.kind.as_str()
    }

    /// A one-line shareable description of this device.
    pub fn share(&self) -> (r: String)
        ensures
            r@ == "drop://"@ + self.id@ + "/"@ + self.kind@ + "#"@ + self.name@,
    {
        let mut s = String::from_str("drop://");
        s.append(self.id.as_str());
        s.append("/");
        s.append(self.kind.as_str());
        s.append("#");
        s.append(self.name.as_str());
        s
    }

    /// An identical copy of this identity.
    pub fn duplicate(&self) -> (d: Device)
        ensures
            d@ == self@,
    {
        Device { name: self.name.clone(), kind: self.kind.clone(), id: self.id.clone() }
    }
}

/// The per-run unique instance id, from the boot timestamp in microseconds
/// and the process id.
pub fn make_instance_id(micros: u64, pid: u64) -> (r: String)
    ensures
        r@ == instance_id(micros, pid),
{
    let mut out: Vec<char> = Vec::new();
    crate::json::push_u64(&mut out, micros);
    text::push_lit(&mut out, "-");
    crate::json::push_u64(&mut out, pid);
    text::chars_string(&out)
}

/// Where a remote peer's transfer server listens: its IP in text form and
/// the TCP port.
pub struct Endpoint {
    pub ip: String,
    pub port: u16,
}

pub struct EndpointView {
    pub ip: Seq<char>,
    pub port: u16,
}

impl View for Endpoint {
    type V = EndpointView;

    open spec fn view(&self) -> EndpointView {
        EndpointView { ip: self.ip@, port: self.port }
    }
}

impl Endpoint {
    /// An identical copy of this endpoint.
    pub fn duplicate(&self) -> (e: Endpoint)
        ensures
            e@ == self@,
    {
        Endpoint { ip: self.ip.clone(), port: self.port }
    }
}

/// A discovered remote peer: where to reach its transfer server, and the
/// identity it announced.
pub struct RemoteTcpDevice {
    pub addr: Endpoint,
    pub device: Device,
}

pub struct RemoteTcpDeviceView {
    pub addr: EndpointView,
    pub device: DeviceView,
}

impl View for RemoteTcpDevice {
    type V = RemoteTcpDeviceView;

    open spec fn view(&self) -> RemoteTcpDeviceView {
        RemoteTcpDeviceView { addr: self.addr@, device: self.device@ }
    }
}

impl RemoteTcpDevice {
    /// A peer record from the sender's IP, the announced port and identity.
    pub fn new(ip: String, port: u16, dev: Device) -> (r: RemoteTcpDevice)
        ensures
            r@ == (RemoteTcpDeviceView {
                addr: EndpointView { ip: ip@, port },
                device: dev@,
            }),
    {
        RemoteTcpDevice { addr: Endpoint { ip, port }, device: dev }
    }

    /// A one-line shareable description of the peer's identity.
    pub fn share(&self) -> (r: String)
        ensures
            r@ == "drop://"@ + self.device.id@ + "/"@ + self.device.kind@ + "#"@
                + self.device.name@,
    {
        self.device.share()
    }

    /// The platform tag the peer announced.
    pub fn device_type(&self) -> (r: &str)
        ensures
            r@ == self.device.kind@,
    {
        self.device.device_type()
    }

    /// An identical copy of this record.
    pub fn duplicate(&self) -> (r: RemoteTcpDevice)
        ensures
            r@ == self@,
    {
        RemoteTcpDevice { addr: self.addr.duplicate(), device: self.device.duplicate() }
    }
}

} // verus!
