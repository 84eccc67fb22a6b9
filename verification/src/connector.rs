//! The initiating side of a transfer connection. The client sends its key
//! envelope, accumulates the peer's envelope the same way the server does,
//! sends the manifest it built from the files to transfer, waits for the
//! single ready byte, and then streams each file's bytes in manifest order
//! in fixed-size chunks.

use crate::accepter::{chunk_of, CHUNK_SIZE, READY_ACK};
use crate::file_meta::{meta_of, FileMeta, MetaList};
use crate::DropError;
use vstd::prelude::*;

verus! {

/// The single response byte after the manifest must be the ready value;
/// anything else is a protocol error.
pub fn check_ready_ack(b: u8) -> (r: Result<(), DropError>)
    ensures
        r is Ok <==> b == READY_ACK,
        r is Err ==> r == Err::<(), DropError>(DropError::ProtocolData),
{
    if b == READY_ACK {
        Ok(())
    } else {
        Err(DropError::ProtocolData)
    }
}

/// The manifest for the caller-supplied file list: one descriptor per file,
/// in the caller's order, each with the file's exact size and the checksum
/// of its full content.
pub fn build_manifest(files: &Vec<(String, Vec<u8>)>) -> (m: MetaList)
    requires
        forall|k: int| 0 <= k < files@.len() ==> (#[trigger] files@[k]).1@.len() <= u64::MAX,
    ensures
        m@.len() == files@.len(),
        forall|k: int|
            0 <= k < files@.len() ==> m@[k] == meta_of(
                (#[trigger] files@[k]).0@,
                files@[k].1@,
            ),
{
    let mut m = MetaList::new();
    let mut i: usize = 0;
    while i < files.len()
        invariant
            i <= files.len(),
            m@.len() == i,
            forall|k: int| 0 <= k < files@.len() ==> (#[trigger] files@[k]).1@.len() <= u64::MAX,
            forall|k: int|
                0 <= k < i ==> m@[k] == meta_of((#[trigger] files@[k]).0@, files@[k].1@),
        decreases files.len() - i,
    {
        let meta = FileMeta::new(files[i].0.clone(), &files[i].1);
        m.push(meta);
        i = i + 1;
    }
    m
}

/// The sending ledger for one file: counts down the declared size so that
/// exactly `size` bytes go out, in fixed-size chunks, with no re-buffering
/// beyond one chunk.
pub struct FileSender {
    size: u64,
    remaining: u64,
    sent: Ghost<Seq<u8>>,
}

pub struct FileSenderView {
    pub size: u64,
    pub remaining: u64,
    pub sent: Seq<u8>,
}

impl View for FileSender {
    type V = FileSenderView;

    closed spec fn view(&self) -> FileSenderView {
        FileSenderView { size: self.size, remaining: self.remaining, sent: self.sent@ }
    }
}

/// The sender's running invariant: bytes out plus bytes still owed equal
/// the declared size.
pub open spec fn sender_wf(v: FileSenderView) -> bool {
    v.sent.len() + v.remaining == v.size
}

impl FileSender {
    /// Start sending a file of the declared size.
    pub fn new(size: u64) -> (r: FileSender)
        ensures
            r@.size == size,
            r@.remaining == size,
            r@.sent == Seq::<u8>::empty(),
            sender_wf(r@),
    {
        FileSender { size, remaining: size, sent: Ghost(Seq::empty()) }
    }

    /// Whether the declared byte count has gone out.
    pub fn done(&self) -> (b: bool)
        ensures
            b == (self@.remaining == 0),
    {
        self.remaining == 0
    }

    /// How many bytes to read from disk and write to the connection next.
    pub fn next_chunk_len(&self) -> (n: u64)
        ensures
            n == chunk_of(self@.remaining),
    {
        if self.remaining >= CHUNK_SIZE as u64 {
            CHUNK_SIZE as u64
        } else {
            self.remaining
        }
    }

    /// Record one chunk as written to the connection.
    pub fn record_chunk(&mut self, data: &Vec<u8>)
        requires
            data@.len() <= old(self)@.remaining,
        ensures
            final(self)@.size == old(self)@.size,
            final(self)@.sent == old(self)@.sent + data@,
            final(self)@.remaining == old(self)@.remaining - data@.len(),
            sender_wf(old(self)@) ==> sender_wf(final(self)@),
    {
        proof {
            self.sent@ = self.sent@ + data@;
        }
        self.remaining = self.remaining - data.len() as u64;
    }
}

/// A sender that owes nothing has written exactly the declared number of
/// bytes.
pub proof fn lemma_sender_exact(v: FileSenderView)
    requires
        sender_wf(v),
        v.remaining == 0,
    ensures
        v.sent.len() == v.size,
{
}

} // verus!
