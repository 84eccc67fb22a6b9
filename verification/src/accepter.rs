//! The receiving side of a transfer connection. After the key exchange and
//! the manifest, the server consumes exactly `size` raw bytes per
//! descriptor, in manifest order, in fixed-size chunks, and accepts a file
//! only when the recomputed checksum equals the declared one — only then
//! may the temporary file take the final name.

use crate::digest::{hasher_fed, hex_of, md5_of, to_hex, Md5Hasher};
use crate::file_meta::{FileMeta, MetaList};
use crate::keys::{pem_parses, validate_key_envelope};
use crate::wire::{parse_key, parse_manifest, try_decode_key, try_decode_manifest};
use crate::DropError;
use vstd::prelude::*;
use vstd::utf8::{decode_utf8, valid_utf8};

verus! {

/// The single byte the server sends to signal it is ready for file bytes.
pub const READY_ACK: u8 = 1;

/// The fixed chunk size for streaming file bytes.
pub const CHUNK_SIZE: usize = 10240;

/// How many bytes to move next when `remaining` bytes of a file are left:
/// a full chunk, or the shorter tail.
pub open spec fn chunk_of(remaining: u64) -> u64 {
    if remaining >= CHUNK_SIZE as u64 {
        CHUNK_SIZE as u64
    } else {
        remaining
    }
}

/// Receives the bytes of one file against its descriptor: counts down the
/// declared size exactly, digests every byte as it arrives, and at the end
/// accepts or rejects by comparing checksums.
pub struct FileReceiver {
    name: String,
    expected: u64,
    remaining: u64,
    declared: String,
    hasher: Md5Hasher,
}

pub struct FileReceiverView {
    pub name: Seq<char>,
    pub expected: u64,
    pub remaining: u64,
    pub declared: Seq<char>,
    pub received: Seq<u8>,
}

impl View for FileReceiver {
    type V = FileReceiverView;

    closed spec fn view(&self) -> FileReceiverView {
        FileReceiverView {
            name: self.name@,
            expected: self.expected,
            remaining: self.remaining,
            declared: self.declared@,
            received: hasher_fed(self.hasher),
        }
    }
}

/// The receiver's running invariant: what has arrived plus what is still
/// owed is exactly the declared size.
pub open spec fn receiver_wf(v: FileReceiverView) -> bool {
    v.received.len() + v.remaining == v.expected
}

/// Exact byte accounting: a well-formed receiver that is owed nothing has
/// absorbed exactly the declared number of bytes, however the chunks were
/// cut.
pub proof fn lemma_exact_byte_accounting(v: FileReceiverView)
    requires
        receiver_wf(v),
        v.remaining == 0,
    ensures
        v.received.len() == v.expected,
{
}

/// Integrity, honest side: when the descriptor was computed from a file's
/// content and the receiver absorbed exactly that content, the checksums
/// agree and the file is accepted under its final name.
pub proof fn lemma_integrity_honest(name: Seq<char>, content: Seq<u8>, v: FileReceiverView)
    requires
        v.declared == crate::file_meta::meta_of(name, content).verity.data,
        v.received == content,
    ensures
        hex_of(md5_of(v.received)) == v.declared,
{
}

impl FileReceiver {
    /// Start receiving the file a descriptor announces.
    pub fn new(meta: &FileMeta) -> (r: FileReceiver)
        ensures
            r@.name == meta@.name,
            r@.expected == meta@.size,
            r@.remaining == meta@.size,
            r@.declared == meta@.verity.data,
            r@.received == Seq::<u8>::empty(),
            receiver_wf(r@),
    {
        FileReceiver {
            name: meta.name.clone(),
            expected: meta.size,
            remaining: meta.size,
            declared: meta.verity.data.clone(),
            hasher: Md5Hasher::new(),
        }
    }

    /// Whether the declared byte count has been consumed. A descriptor with
    /// size zero is done immediately, with no read at all.
    pub fn done(&self) -> (b: bool)
        ensures
            b == (self@.remaining == 0),
    {
        self.remaining == 0
    }

    /// How many bytes to request from the connection next.
    pub fn next_chunk_len(&self) -> (n: u64)
        ensures
            n == chunk_of(self@.remaining),
    {
        if self.remaining >= CHUNK_SIZE as u64 {
            CHUNK_SIZE as u64
        } else {
            self.remaining
        }
    }

    /// Absorb one chunk read from the connection. The caller never hands
    /// over more than is still owed.
    pub fn accept_chunk(&mut self, data: &Vec<u8>)
        requires
            data@.len() <= old(self)@.remaining,
        ensures
            final(self)@.name == old(self)@.name,
            final(self)@.expected == old(self)@.expected,
            final(self)@.declared == old(self)@.declared,
            final(self)@.received == old(self)@.received + data@,
            final(self)@.remaining == old(self)@.remaining - data@.len(),
            receiver_wf(old(self)@) ==> receiver_wf(final(self)@),
    {
        self.hasher.update(data);
        self.remaining = self.remaining - data.len() as u64;
    }

    /// After the declared byte count arrived: recompute the checksum and
    /// compare it to the declared one. `Ok` — and with it the rename to the
    /// final name — comes exactly when the two agree; otherwise the
    /// connection fails with an integrity error and the temporary artifact
    /// is to be discarded.
    pub fn finish(self) -> (r: Result<String, DropError>)
        requires
            self@.remaining == 0,
        ensures
            r is Ok <==> hex_of(md5_of(self@.received)) == self@.declared,
            r matches Ok(name) ==> name@ == self@.name,
            r is Err ==> r == Err::<String, DropError>(DropError::IntegrityMismatch),
    {
        let FileReceiver { name, expected: _, remaining: _, declared, hasher } = self;
        let digest = hasher.finalize();
        let computed = to_hex(&digest);
        if computed == declared {
            Ok(name)
        } else {
            Err(DropError::IntegrityMismatch)
        }
    }
}

/// What one read of the connection leads to during an
/// accumulate-until-parse phase of the handshake.
pub enum KeyPhaseStep {
    /// The buffer does not yet hold a complete envelope: keep reading.
    Incomplete,
    /// A complete envelope arrived and its key decoded: the handshake moves
    /// on with the peer's key.
    Accepted(rsa::RsaPublicKey),
    /// A complete envelope arrived but was unacceptable: fail the
    /// connection.
    Rejected(DropError),
}

/// One step of the key-exchange phase, shared by the server and the
/// initiating client: append the newly read bytes to the buffer; once the
/// whole buffer is one key envelope, consume it and validate the key — the
/// key is accepted exactly when the tag is "rsa" and the payload decodes as
/// a PEM public key.
pub fn key_phase_step(buf: &mut Vec<u8>, data: &Vec<u8>) -> (r: KeyPhaseStep)
    ensures
        ({
            let b = old(buf)@ + data@;
            let complete = valid_utf8(b) && parse_key(decode_utf8(b)) is Some;
            &&& (r is Incomplete <==> !complete)
            &&& (r is Incomplete ==> final(buf)@ == b)
            &&& (complete ==> final(buf)@ == Seq::<u8>::empty() && {
                let k = parse_key(decode_utf8(b))->0;
                &&& (r is Accepted <==> (k.kind == "rsa"@ && pem_parses(k.data)))
                &&& (k.kind != "rsa"@ <==> r == KeyPhaseStep::Rejected(DropError::ProtocolData))
                &&& ((k.kind == "rsa"@ && !pem_parses(k.data)) <==> r == KeyPhaseStep::Rejected(
                    DropError::InvalidKey,
                ))
            })
        }),
{
    let mut incoming = data.clone();
    buf.append(&mut incoming);
    match try_decode_key(buf) {
        Some(envelope) => {
            buf.clear();
            match validate_key_envelope(&envelope) {
                Ok(key) => KeyPhaseStep::Accepted(key),
                Err(e) => KeyPhaseStep::Rejected(e),
            }
        },
        None => KeyPhaseStep::Incomplete,
    }
}

/// One step of the manifest phase on the receiving side: append the newly
/// read bytes; once the whole buffer is one manifest, consume it and hand
/// the manifest back — the caller then writes the single ready byte.
pub fn manifest_phase_step(buf: &mut Vec<u8>, data: &Vec<u8>) -> (r: Option<MetaList>)
    ensures
        ({
            let b = old(buf)@ + data@;
            let complete = valid_utf8(b) && parse_manifest(decode_utf8(b)) is Some;
            &&& (r is Some <==> complete)
            &&& (r is None ==> final(buf)@ == b)
            &&& (r matches Some(m) ==> final(buf)@ == Seq::<u8>::empty() && parse_manifest(
                decode_utf8(b),
            ) == Some(m@))
        }),
{
    let mut incoming = data.clone();
    buf.append(&mut incoming);
    match try_decode_manifest(buf) {
        Some(manifest) => {
            buf.clear();
            Some(manifest)
        },
        None => None,
    }
}

/// The ready byte the server writes after accepting a manifest.
pub fn ready_ack() -> (b: u8)
    ensures
        b == READY_ACK,
{
    READY_ACK
}

} // verus!
