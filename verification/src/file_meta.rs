//! What the manifest says of one file: its base name, its exact size in
//! bytes, and the checksum of its content, computed once before any bytes
//! are sent.

use crate::digest::{hex_of, md5_hex, md5_of};
use vstd::prelude::*;
use vstd::string::StringExecFns;

verus! {

/// The checksum entry of a file descriptor: an algorithm tag and the hex
/// digest.
pub struct FileVerity {
    pub kind: String,
    pub data: String,
}

pub struct FileVerityView {
    pub kind: Seq<char>,
    pub data: Seq<char>,
}

impl View for FileVerity {
    type V = FileVerityView;

    open spec fn view(&self) -> FileVerityView {
        FileVerityView { kind: self.kind@, data: self.data@ }
    }
}

/// One file of a transfer: base name, byte count, checksum.
pub struct FileMeta {
    pub name: String,
    pub size: u64,
    pub verity: FileVerity,
}

pub struct FileMetaView {
    pub name: Seq<char>,
    pub size: u64,
    pub verity: FileVerityView,
}

impl View for FileMeta {
    type V = FileMetaView;

    open spec fn view(&self) -> FileMetaView {
        FileMetaView { name: self.name@, size: self.size, verity: self.verity@ }
    }
}

/// The descriptor the sender builds for a file with the given base name and
/// content: the exact size and the MD5 digest, under the protocol's fixed
/// algorithm tag.
pub open spec fn meta_of(name: Seq<char>, content: Seq<u8>) -> FileMetaView {
    FileMetaView {
        name: name,
        size: content.len() as u64,
        verity: FileVerityView { kind: "rsa"@, data: hex_of(md5_of(content)) },
    }
}

impl FileMeta {
    /// The descriptor for a file with this base name and content. The
    /// checksum is computed here, before any byte of the file is sent.
    pub fn new(name: String, content: &Vec<u8>) -> (m: FileMeta)
        requires
            content@.len() <= u64::MAX,
        ensures
            m@ == meta_of(name@, content@),
    {
        let digest = md5_hex(content);
        FileMeta {
            name,
            size: content.len() as u64,
            verity: FileVerity { kind: String::from_str("rsa"), data: digest },
        }
    }

    /// A descriptor from an already-computed size and hex digest, for a
    /// sender that digests a file in chunks instead of holding it whole.
    pub fn with_digest(name: String, size: u64, digest: String) -> (m: FileMeta)
        ensures
            m@ == (FileMetaView {
                name: name@,
                size,
                verity: FileVerityView { kind: "rsa"@, data: digest@ },
            }),
    {
        FileMeta { name, size, verity: FileVerity { kind: String::from_str("rsa"), data: digest } }
    }

    /// An identical copy of this descriptor.
    pub fn duplicate(&self) -> (m: FileMeta)
        ensures
            m@ == self@,
    {
        FileMeta {
            name: self.name.clone(),
            size: self.size,
            verity: FileVerity { kind: self.verity.kind.clone(), data: self.verity.data.clone() },
        }
    }
}

/// The manifest: the ordered list of file descriptors agreed before
/// streaming begins. The order is load-bearing: the receiver consumes
/// exactly `size` bytes per descriptor, in this order, from one stream.
pub struct MetaList {
    pub files: Vec<FileMeta>,
}

impl View for MetaList {
    type V = Seq<FileMetaView>;

    open spec fn view(&self) -> Seq<FileMetaView> {
        Seq::new(self.files@.len(), |i: int| self.files@[i]@)
    }
}

impl MetaList {
    /// An empty manifest.
    pub fn new() -> (m: MetaList)
        ensures
            m@ == Seq::<FileMetaView>::empty(),
    {
        let m = MetaList { files: Vec::new() };
        proof {
            assert(m@ =~= Seq::<FileMetaView>::empty());
        }
        m
    }

    /// Append one descriptor.
    pub fn push(&mut self, m: FileMeta)
        ensures
            final(self)@ == old(self)@.push(m@),
    {
        let ghost mv = m@;
        self.files.push(m);
        proof {
            assert(self@ =~= old(self)@.push(mv));
        }
    }

    /// How many files the manifest lists.
    pub fn len(&self) -> (n: usize)
        ensures
            n == self@.len(),
    {
        self.files.len()
    }

    /// The descriptor at position `i`.
    pub fn get(&self, i: usize) -> (m: &FileMeta)
        requires
            i < self@.len(),
        ensures
            m@ == self@[i as int],
    {
        &self.files[i]
    }

    /// An identical copy of this manifest.
    pub fn duplicate(&self) -> (m: MetaList)
        ensures
            m@ == self@,
    {
        let mut files: Vec<FileMeta> = Vec::new();
        let mut i: usize = 0;
        while i < self.files.len()
            invariant
                i <= self.files.len(),
                files@.len() == i,
                forall|k: int| 0 <= k < i ==> files@[k]@ == self@[k],
            decreases self.files.len() - i,
        {
            files.push(self.files[i].duplicate());
            i = i + 1;
        }
        let m = MetaList { files };
        proof {
            assert(m@ =~= self@);
        }
        m
    }
}

} // verus!
