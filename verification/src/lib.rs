//! Peer-to-peer local-network file drop: UDP multicast discovery of peers and
//! direct TCP file transfer with manifest negotiation and content-integrity
//! checking. The wire messages are JSON; this crate states the format exactly
//! and proves that encoding and decoding invert each other.

pub mod accepter;
pub mod connector;
pub mod controller;
pub mod device;
pub mod digest;
pub mod discoverer;
pub mod file_meta;
pub mod json;
pub mod key_object;
pub mod keys;
pub mod registry;
pub mod text;
pub mod wire;

use vstd::prelude::*;

verus! {

/// The error kinds a transfer connection or a local operation can surface.
#[derive(Clone, Copy, Debug, PartialEq, Eq, Structural)]
pub enum DropError {
    /// A wire message was malformed or carried the wrong type tag.
    ProtocolData,
    /// The peer's public key did not decode.
    InvalidKey,
    /// The peer closed the connection before the declared bytes arrived.
    ConnectionAborted,
    /// A received file's checksum disagreed with the manifest.
    IntegrityMismatch,
    /// A local read or write failed.
    LocalIo,
}

impl DropError {
    /// A short stable label for the error, for reporting at the task boundary.
    pub fn label(&self) -> (r: &'static str)
        ensures
            r@ == self.label_spec(),
    {
        match self {
            DropError::ProtocolData => "protocol data error",
            DropError::InvalidKey => "invalid public key",
            DropError::ConnectionAborted => "connection aborted",
            DropError::IntegrityMismatch => "integrity mismatch",
            DropError::LocalIo => "local i/o error",
        }
    }

    pub open spec fn label_spec(&self) -> Seq<char> {
        match self {
            DropError::ProtocolData => "protocol data error"@,
            DropError::InvalidKey => "invalid public key"@,
            DropError::ConnectionAborted => "connection aborted"@,
            DropError::IntegrityMismatch => "integrity mismatch"@,
            DropError::LocalIo => "local i/o error"@,
        }
    }
}

} // verus!
