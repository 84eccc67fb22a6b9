//! The three wire messages — discovery datagram, key envelope, transfer
//! manifest — as JSON text. The spec functions here give the one canonical
//! encoding of each message and a strict whole-buffer parser for it, and
//! the lemmas prove the two exact: a buffer parses as a message if and
//! only if it is that message's canonical encoding. Because no message
//! framing exists on the wire, a receiver accumulates bytes and treats the
//! buffer as one complete message once it parses.

use crate::device::{Device, DeviceView};
use crate::discoverer::{DiscoveryReq, DiscoveryReqView};
use crate::file_meta::{FileMeta, FileMetaView, FileVerity, FileVerityView, MetaList};
use crate::json::{
    enc_bool, enc_nat, enc_str, lemma_bool_complete, lemma_bool_sound, lemma_lit_complete,
    lemma_str_complete, lemma_str_sound, lemma_u64_complete, lemma_u64_sound, parse_bool,
    parse_lit, parse_str, parse_u64, p_bool, p_lit, p_str, p_u64, push_bool, push_json_str,
    push_u64, is_digit,
};
use crate::key_object::{KeyObject, KeyObjectView};
use crate::text::{chars_string, push_lit, str_chars, utf8_to_string};
use vstd::prelude::*;
use vstd::string::StrSliceExecFns;
use vstd::utf8::{decode_utf8, encode_utf8, encode_utf8_decode_utf8, encode_utf8_valid_utf8, valid_utf8};

verus! {

// ------------------------------------------------------------------
// Spec: canonical message encodings
// ------------------------------------------------------------------
/// The JSON object for a device identity.
pub open spec fn enc_device(d: DeviceView) -> Seq<char> {
    "{\"name\":"@ + enc_str(d.name) + ",\"type\":"@ + enc_str(d.kind) + ",\"id\":"@ + enc_str(
        d.id,
    ) + "}"@
}

/// The JSON object for a discovery datagram.
pub open spec fn enc_discovery(m: DiscoveryReqView) -> Seq<char> {
    "{\"version\":"@ + enc_nat(m.version as nat) + ",\"device\":"@ + enc_device(m.device)
        + ",\"port\":"@ + enc_nat(m.port as nat) + ",\"ack\":"@ + enc_bool(m.ack) + "}"@
}

/// The JSON object for a key envelope.
pub open spec fn enc_key(k: KeyObjectView) -> Seq<char> {
    "{\"type\":"@ + enc_str(k.kind) + ",\"data\":"@ + enc_str(k.data) + "}"@
}

/// The JSON object for one file descriptor.
pub open spec fn enc_meta(m: FileMetaView) -> Seq<char> {
    "{\"name\":"@ + enc_str(m.name) + ",\"size\":"@ + enc_nat(m.size as nat)
        + ",\"verity\":{\"type\":"@ + enc_str(m.verity.kind) + ",\"data\":"@ + enc_str(
        m.verity.data,
    ) + "}}"@
}

/// The comma-separated file descriptors of a manifest.
pub open spec fn enc_metas(ms: Seq<FileMetaView>) -> Seq<char>
    decreases ms.len(),
{
    if ms.len() == 0 {
        Seq::empty()
    } else if ms.len() == 1 {
        enc_meta(ms[0])
    } else {
        enc_meta(ms[0]) + ","@ + enc_metas(ms.drop_first())
    }
}

/// The JSON object for a whole manifest.
pub open spec fn enc_manifest(ms: Seq<FileMetaView>) -> Seq<char> {
    "{\"files\":["@ + enc_metas(ms) + "]}"@
}

// ------------------------------------------------------------------
// Spec: strict message parsing
// ------------------------------------------------------------------
/// Parse a device object at `i`.
pub open spec fn parse_device(s: Seq<char>, i: int) -> Option<(DeviceView, int)> {
    match parse_lit(s, i, "{\"name\":"@) {
        None => None,
        Some(i1) => match parse_str(s, i1) {
            None => None,
            Some((name, i2)) => match parse_lit(s, i2, ",\"type\":"@) {
                None => None,
                Some(i3) => match parse_str(s, i3) {
                    None => None,
                    Some((kind, i4)) => match parse_lit(s, i4, ",\"id\":"@) {
                        None => None,
                        Some(i5) => match parse_str(s, i5) {
                            None => None,
                            Some((id, i6)) => match parse_lit(s, i6, "}"@) {
                                None => None,
                                Some(i7) => Some((DeviceView { name, kind, id }, i7)),
                            },
                        },
                    },
                },
            },
        },
    }
}

/// Parse a discovery object at `i`; the version must fit `u32` and the port
/// must fit `u16`.
pub open spec fn parse_discovery_at(s: Seq<char>, i: int) -> Option<(DiscoveryReqView, int)> {
    match parse_lit(s, i, "{\"version\":"@) {
        None => None,
        Some(i1) => match parse_u64(s, i1) {
            None => None,
            Some((version, i2)) => if version > u32::MAX as u64 {
                None
            } else {
                match parse_lit(s, i2, ",\"device\":"@) {
                    None => None,
                    Some(i3) => match parse_device(s, i3) {
                        None => None,
                        Some((device, i4)) => match parse_lit(s, i4, ",\"port\":"@) {
                            None => None,
                            Some(i5) => match parse_u64(s, i5) {
                                None => None,
                                Some((port, i6)) => if port > u16::MAX as u64 {
                                    None
                                } else {
                                    match parse_lit(s, i6, ",\"ack\":"@) {
                                        None => None,
                                        Some(i7) => match parse_bool(s, i7) {
                                            None => None,
                                            Some((ack, i8)) => match parse_lit(s, i8, "}"@) {
                                                None => None,
                                                Some(i9) => Some(
                                                    (
                                                        DiscoveryReqView {
                                                            version: version as u32,
                                                            device,
                                                            port: port as u16,
                                                            ack,
                                                        },
                                                        i9,
                                                    ),
                                                ),
                                            },
                                        },
                                    }
                                },
                            },
                        },
                    },
                }
            },
        },
    }
}

/// A whole buffer holding exactly one discovery datagram.
pub open spec fn parse_discovery(s: Seq<char>) -> Option<DiscoveryReqView> {
    match parse_discovery_at(s, 0) {
        None => None,
        Some((m, j)) => if j == s.len() {
            Some(m)
        } else {
            None
        },
    }
}

/// Parse a key envelope object at `i`.
pub open spec fn parse_key_at(s: Seq<char>, i: int) -> Option<(KeyObjectView, int)> {
    match parse_lit(s, i, "{\"type\":"@) {
        None => None,
        Some(i1) => match parse_str(s, i1) {
            None => None,
            Some((kind, i2)) => match parse_lit(s, i2, ",\"data\":"@) {
                None => None,
                Some(i3) => match parse_str(s, i3) {
                    None => None,
                    Some((data, i4)) => match parse_lit(s, i4, "}"@) {
                        None => None,
                        Some(i5) => Some((KeyObjectView { kind, data }, i5)),
                    },
                },
            },
        },
    }
}

/// A whole buffer holding exactly one key envelope.
pub open spec fn parse_key(s: Seq<char>) -> Option<KeyObjectView> {
    match parse_key_at(s, 0) {
        None => None,
        Some((k, j)) => if j == s.len() {
            Some(k)
        } else {
            None
        },
    }
}

/// Parse one file descriptor object at `i`; the size must fit `u64`.
pub open spec fn parse_meta(s: Seq<char>, i: int) -> Option<(FileMetaView, int)> {
    match parse_lit(s, i, "{\"name\":"@) {
        None => None,
        Some(i1) => match parse_str(s, i1) {
            None => None,
            Some((name, i2)) => match parse_lit(s, i2, ",\"size\":"@) {
                None => None,
                Some(i3) => match parse_u64(s, i3) {
                    None => None,
                    Some((size, i4)) => match parse_lit(s, i4, ",\"verity\":{\"type\":"@) {
                        None => None,
                        Some(i5) => match parse_str(s, i5) {
                            None => None,
                            Some((vkind, i6)) => match parse_lit(s, i6, ",\"data\":"@) {
                                None => None,
                                Some(i7) => match parse_str(s, i7) {
                                    None => None,
                                    Some((vdata, i8)) => match parse_lit(s, i8, "}}"@) {
                                        None => None,
                                        Some(i9) => Some(
                                            (
                                                FileMetaView {
                                                    name,
                                                    size,
                                                    verity: FileVerityView {
                                                        kind: vkind,
                                                        data: vdata,
                                                    },
                                                },
                                                i9,
                                            ),
                                        ),
                                    },
                                },
                            },
                        },
                    },
                },
            },
        },
    }
}

/// Parse one or more comma-separated file descriptors at `i`.
pub open spec fn parse_items(s: Seq<char>, i: int) -> Option<(Seq<FileMetaView>, int)>
    decreases s.len() - i,
{
    match parse_meta(s, i) {
        None => None,
        Some((m, j)) => match parse_lit(s, j, ","@) {
            None => Some((seq![m], j)),
            Some(j2) => if j2 <= i || j2 > s.len() {
                None
            } else {
                match parse_items(s, j2) {
                    None => None,
                    Some((ms, j3)) => Some((seq![m] + ms, j3)),
                }
            },
        },
    }
}

/// A whole buffer holding exactly one manifest.
pub open spec fn parse_manifest(s: Seq<char>) -> Option<Seq<FileMetaView>> {
    match parse_lit(s, 0, "{\"files\":["@) {
        None => None,
        Some(j) => match parse_lit(s, j, "]}"@) {
            Some(j2) => if j2 == s.len() {
                Some(Seq::<FileMetaView>::empty())
            } else {
                None
            },
            None => match parse_items(s, j) {
                None => None,
                Some((ms, j3)) => match parse_lit(s, j3, "]}"@) {
                    None => None,
                    Some(j4) => if j4 == s.len() {
                        Some(ms)
                    } else {
                        None
                    },
                },
            },
        },
    }
}

// ------------------------------------------------------------------
// Exec: encoders
// ------------------------------------------------------------------
fn encode_device_into(out: &mut Vec<char>, d: &Device)
    ensures
        final(out)@ == old(out)@ + enc_device(d@),
{
    push_lit(out, "{\"name\":");
    push_json_str(out, d.name.as_str());
    push_lit(out, ",\"type\":");
    push_json_str(out, d.kind.as_str());
    push_lit(out, ",\"id\":");
    push_json_str(out, d.id.as_str());
    push_lit(out, "}");
    assert(out@ =~= old(out)@ + enc_device(d@));
}

/// The canonical JSON text of a discovery datagram.
pub fn encode_discovery(m: &DiscoveryReq) -> (r: String)
    ensures
        r@ == enc_discovery(m@),
{
    let mut out: Vec<char> = Vec::new();
    push_lit(&mut out, "{\"version\":");
    push_u64(&mut out, m.version as u64);
    push_lit(&mut out, ",\"device\":");
    encode_device_into(&mut out, &m.device);
    push_lit(&mut out, ",\"port\":");
    push_u64(&mut out, m.port as u64);
    push_lit(&mut out, ",\"ack\":");
    push_bool(&mut out, m.ack);
    push_lit(&mut out, "}");
    assert(out@ =~= enc_discovery(m@));
    chars_string(&out)
}

/// The canonical JSON text of a key envelope.
pub fn encode_key(k: &KeyObject) -> (r: String)
    ensures
        r@ == enc_key(k@),
{
    let mut out: Vec<char> = Vec::new();
    push_lit(&mut out, "{\"type\":");
    push_json_str(&mut out, k.kind.as_str());
    push_lit(&mut out, ",\"data\":");
    push_json_str(&mut out, k.data.as_str());
    push_lit(&mut out, "}");
    assert(out@ =~= enc_key(k@));
    chars_string(&out)
}

fn encode_meta_into(out: &mut Vec<char>, m: &FileMeta)
    ensures
        final(out)@ == old(out)@ + enc_meta(m@),
{
    push_lit(out, "{\"name\":");
    push_json_str(out, m.name.as_str());
    push_lit(out, ",\"size\":");
    push_u64(out, m.size);
    push_lit(out, ",\"verity\":{\"type\":");
    push_json_str(out, m.verity.kind.as_str());
    push_lit(out, ",\"data\":");
    push_json_str(out, m.verity.data.as_str());
    push_lit(out, "}}");
    assert(out@ =~= old(out)@ + enc_meta(m@));
}

/// `enc_metas` unrolled one descriptor at a time, from the front.
proof fn lemma_enc_metas_take(ms: Seq<FileMetaView>, i: int)
    requires
        0 <= i < ms.len(),
    ensures
        i < ms.len() - 1 ==> enc_metas(ms.skip(i)) == enc_meta(ms[i]) + ","@ + enc_metas(
            ms.skip(i + 1),
        ),
        i == ms.len() - 1 ==> enc_metas(ms.skip(i)) == enc_meta(ms[i]),
{
    assert(ms.skip(i).len() == ms.len() - i);
    assert(ms.skip(i)[0] == ms[i]);
    if i < ms.len() - 1 {
        assert(ms.skip(i).drop_first() =~= ms.skip(i + 1));
    }
}

/// The canonical JSON text of a manifest.
pub fn encode_manifest(m: &MetaList) -> (r: String)
    ensures
        r@ == enc_manifest(m@),
{
    let mut out: Vec<char> = Vec::new();
    push_lit(&mut out, "{\"files\":[");
    let ghost prefix = out@;
    let n = m.len();
    let mut i: usize = 0;
    proof {
        assert(m@.skip(0) =~= m@);
    }
    while i < n
        invariant
            n == m@.len(),
            i <= n,
            out@ + enc_metas(m@.skip(i as int)) == prefix + enc_metas(m@),
        decreases n - i,
    {
        proof {
            lemma_enc_metas_take(m@, i as int);
        }
        encode_meta_into(&mut out, m.get(i));
        if i + 1 < n {
            push_lit(&mut out, ",");
            proof {
                reveal_strlit(",");
            }
        }
        proof {
            assert(out@ + enc_metas(m@.skip(i + 1)) =~= prefix + enc_metas(m@));
        }
        i = i + 1;
    }
    push_lit(&mut out, "]}");
    proof {
        if n == 0 {
            assert(enc_metas(m@.skip(0)) =~= enc_metas(m@));
        }
        assert(m@.skip(n as int).len() == 0);
        assert(out@ =~= enc_manifest(m@));
    }
    chars_string(&out)
}

// ------------------------------------------------------------------
// Exec: decoders
// ------------------------------------------------------------------
fn p_device(s: &Vec<char>, i: usize) -> (r: Option<(Device, usize)>)
    ensures
        r is Some <==> parse_device(s@, i as int) is Some,
        r matches Some(p) ==> parse_device(s@, i as int) == Some((p.0@, p.1 as int)) && p.1
            <= s.len(),
{
    let i1 = match p_lit(s, i, "{\"name\":") {
        Some(j) => j,
        None => {
            return None;
        },
    };
    let (name, i2) = match p_str(s, i1) {
        Some(p) => p,
        None => {
            return None;
        },
    };
    let i3 = match p_lit(s, i2, ",\"type\":") {
        Some(j) => j,
        None => {
            return None;
        },
    };
    let (kind, i4) = match p_str(s, i3) {
        Some(p) => p,
        None => {
            return None;
        },
    };
    let i5 = match p_lit(s, i4, ",\"id\":") {
        Some(j) => j,
        None => {
            return None;
        },
    };
    let (id, i6) = match p_str(s, i5) {
        Some(p) => p,
        None => {
            return None;
        },
    };
    let i7 = match p_lit(s, i6, "}") {
        Some(j) => j,
        None => {
            return None;
        },
    };
    Some((Device { name, kind, id }, i7))
}

/// Parse a whole buffer as one discovery datagram, strictly: exactly the
/// canonical encoding of one message, nothing before or after it.
pub fn decode_discovery(s: &Vec<char>) -> (r: Option<DiscoveryReq>)
    ensures
        r is Some <==> parse_discovery(s@) is Some,
        r matches Some(m) ==> parse_discovery(s@) == Some(m@),
{
    let i1 = match p_lit(s, 0, "{\"version\":") {
        Some(j) => j,
        None => {
            return None;
        },
    };
    let (version, i2) = match p_u64(s, i1) {
        Some(p) => p,
        None => {
            return None;
        },
    };
    if version > u32::MAX as u64 {
        return None;
    }
    let i3 = match p_lit(s, i2, ",\"device\":") {
        Some(j) => j,
        None => {
            return None;
        },
    };
    let (device, i4) = match p_device(s, i3) {
        Some(p) => p,
        None => {
            return None;
        },
    };
    let i5 = match p_lit(s, i4, ",\"port\":") {
        Some(j) => j,
        None => {
            return None;
        },
    };
    let (port, i6) = match p_u64(s, i5) {
        Some(p) => p,
        None => {
            return None;
        },
    };
    if port > u16::MAX as u64 {
        return None;
    }
    let i7 = match p_lit(s, i6, ",\"ack\":") {
        Some(j) => j,
        None => {
            return None;
        },
    };
    let (ack, i8) = match p_bool(s, i7) {
        Some(p) => p,
        None => {
            return None;
        },
    };
    let i9 = match p_lit(s, i8, "}") {
        Some(j) => j,
        None => {
            return None;
        },
    };
    if i9 != s.len() {
        return None;
    }
    Some(DiscoveryReq { version: version as u32, device, port: port as u16, ack })
}

/// Parse a whole buffer as one key envelope, strictly.
pub fn decode_key(s: &Vec<char>) -> (r: Option<KeyObject>)
    ensures
        r is Some <==> parse_key(s@) is Some,
        r matches Some(k) ==> parse_key(s@) == Some(k@),
{
    let i1 = match p_lit(s, 0, "{\"type\":") {
        Some(j) => j,
        None => {
            return None;
        },
    };
    let (kind, i2) = match p_str(s, i1) {
        Some(p) => p,
        None => {
            return None;
        },
    };
    let i3 = match p_lit(s, i2, ",\"data\":") {
        Some(j) => j,
        None => {
            return None;
        },
    };
    let (data, i4) = match p_str(s, i3) {
        Some(p) => p,
        None => {
            return None;
        },
    };
    let i5 = match p_lit(s, i4, "}") {
        Some(j) => j,
        None => {
            return None;
        },
    };
    if i5 != s.len() {
        return None;
    }
    Some(KeyObject { kind, data })
}

fn p_meta(s: &Vec<char>, i: usize) -> (r: Option<(FileMeta, usize)>)
    ensures
        r is Some <==> parse_meta(s@, i as int) is Some,
        r matches Some(p) ==> parse_meta(s@, i as int) == Some((p.0@, p.1 as int)) && p.1
            <= s.len(),
{
    let i1 = match p_lit(s, i, "{\"name\":") {
        Some(j) => j,
        None => {
            return None;
        },
    };
    let (name, i2) = match p_str(s, i1) {
        Some(p) => p,
        None => {
            return None;
        },
    };
    let i3 = match p_lit(s, i2, ",\"size\":") {
        Some(j) => j,
        None => {
            return None;
        },
    };
    let (size, i4) = match p_u64(s, i3) {
        Some(p) => p,
        None => {
            return None;
        },
    };
    let i5 = match p_lit(s, i4, ",\"verity\":{\"type\":") {
        Some(j) => j,
        None => {
            return None;
        },
    };
    let (vkind, i6) = match p_str(s, i5) {
        Some(p) => p,
        None => {
            return None;
        },
    };
    let i7 = match p_lit(s, i6, ",\"data\":") {
        Some(j) => j,
        None => {
            return None;
        },
    };
    let (vdata, i8) = match p_str(s, i7) {
        Some(p) => p,
        None => {
            return None;
        },
    };
    let i9 = match p_lit(s, i8, "}}") {
        Some(j) => j,
        None => {
            return None;
        },
    };
    Some((FileMeta { name, size, verity: FileVerity { kind: vkind, data: vdata } }, i9))
}

/// The views of a parsed descriptor vector, in order.
pub open spec fn metas_view(v: Seq<FileMeta>) -> Seq<FileMetaView> {
    Seq::new(v.len(), |i: int| v[i]@)
}

fn p_items(s: &Vec<char>, start: usize) -> (r: Option<(Vec<FileMeta>, usize)>)
    ensures
        r is Some <==> parse_items(s@, start as int) is Some,
        r matches Some(p) ==> parse_items(s@, start as int) == Some(
            (metas_view(p.0@), p.1 as int),
        ) && p.1 <= s.len(),
{
    let mut acc: Vec<FileMeta> = Vec::new();
    let mut i: usize = start;
    loop
        invariant
            start <= i,
            parse_items(s@, start as int) == (match parse_items(s@, i as int) {
                Some(p) => Some::<(Seq<FileMetaView>, int)>((metas_view(acc@) + p.0, p.1)),
                None => None::<(Seq<FileMetaView>, int)>,
            }),
        decreases s.len() + 1 - i,
    {
        let (m, j) = match p_meta(s, i) {
            Some(p) => p,
            None => {
                return None;
            },
        };
        let ghost mv = m@;
        match p_lit(s, j, ",") {
            None => {
                proof {
                    assert(metas_view(acc@.push(m)) =~= metas_view(acc@) + seq![mv]);
                }
                acc.push(m);
                return Some((acc, j));
            },
            Some(j2) => {
                if j2 <= i {
                    return None;
                }
                proof {
                    assert(metas_view(acc@.push(m)) =~= metas_view(acc@) + seq![mv]);
                    let rest = parse_items(s@, j2 as int);
                    if rest is Some {
                        assert((metas_view(acc@) + seq![mv]) + (rest->0).0 =~= metas_view(acc@)
                            + (seq![mv] + (rest->0).0));
                    }
                }
                acc.push(m);
                i = j2;
            },
        }
    }
}

/// Parse a whole buffer as one manifest, strictly.
pub fn decode_manifest(s: &Vec<char>) -> (r: Option<MetaList>)
    ensures
        r is Some <==> parse_manifest(s@) is Some,
        r matches Some(m) ==> parse_manifest(s@) == Some(m@),
{
    let j = match p_lit(s, 0, "{\"files\":[") {
        Some(j) => j,
        None => {
            return None;
        },
    };
    match p_lit(s, j, "]}") {
        Some(j2) => {
            if j2 == s.len() {
                let m = MetaList::new();
                proof {
                    assert(m@ =~= Seq::<FileMetaView>::empty());
                }
                return Some(m);
            }
            return None;
        },
        None => {},
    }
    let (files, j3) = match p_items(s, j) {
        Some(p) => p,
        None => {
            return None;
        },
    };
    let j4 = match p_lit(s, j3, "]}") {
        Some(p) => p,
        None => {
            return None;
        },
    };
    if j4 != s.len() {
        return None;
    }
    let m = MetaList { files };
    proof {
        assert(m@ =~= metas_view(m.files@));
    }
    Some(m)
}

// ------------------------------------------------------------------
// Completeness: each parser accepts the canonical encoding
// ------------------------------------------------------------------
/// A part of `w` sits in `s` at offset `off` from `i`.
proof fn lemma_piece(s: Seq<char>, i: int, w: Seq<char>, off: int, part: Seq<char>)
    requires
        0 <= i,
        i + w.len() <= s.len(),
        forall|j: int| 0 <= j < w.len() ==> s[i + j] == #[trigger] w[j],
        0 <= off,
        off + part.len() <= w.len(),
        forall|k: int| 0 <= k < part.len() ==> w[off + k] == #[trigger] part[k],
    ensures
        s.subrange(i + off, i + off + part.len() as int) == part,
{
    assert forall|k: int|
        0 <= k < part.len() implies s.subrange(i + off, i + off + part.len() as int)[k]
        == part[k] by {
        assert(s[i + (off + k)] == w[off + k]);
    }
    assert(s.subrange(i + off, i + off + part.len() as int) =~= part);
}

/// The canonical device object at `i` parses back to the same device.
pub proof fn lemma_device_complete(s: Seq<char>, d: DeviceView, i: int)
    requires
        0 <= i,
        i + enc_device(d).len() <= s.len(),
        s.subrange(i, i + enc_device(d).len() as int) == enc_device(d),
    ensures
        parse_device(s, i) == Some((d, i + enc_device(d).len() as int)),
{
    let w = enc_device(d);
    let l1 = "{\"name\":"@;
    let e1 = enc_str(d.name);
    let l2 = ",\"type\":"@;
    let e2 = enc_str(d.kind);
    let l3 = ",\"id\":"@;
    let e3 = enc_str(d.id);
    let l4 = "}"@;
    assert(forall|j: int|
        0 <= j < w.len() ==> s[i + j] == #[trigger] w[j]) by {
        assert(forall|j: int|
            0 <= j < w.len() ==> s.subrange(i, i + w.len() as int)[j] == #[trigger] w[j]);
    }
    let o1 = l1.len() as int;
    let o2 = o1 + e1.len();
    let o3 = o2 + l2.len();
    let o4 = o3 + e2.len();
    let o5 = o4 + l3.len();
    let o6 = o5 + e3.len();
    assert(forall|k: int| 0 <= k < l1.len() ==> w[0 + k] == #[trigger] l1[k]);
    assert(forall|k: int| 0 <= k < e1.len() ==> w[o1 + k] == #[trigger] e1[k]);
    assert(forall|k: int| 0 <= k < l2.len() ==> w[o2 + k] == #[trigger] l2[k]);
    assert(forall|k: int| 0 <= k < e2.len() ==> w[o3 + k] == #[trigger] e2[k]);
    assert(forall|k: int| 0 <= k < l3.len() ==> w[o4 + k] == #[trigger] l3[k]);
    assert(forall|k: int| 0 <= k < e3.len() ==> w[o5 + k] == #[trigger] e3[k]);
    assert(forall|k: int| 0 <= k < l4.len() ==> w[o6 + k] == #[trigger] l4[k]);
    lemma_piece(s, i, w, 0, l1);
    lemma_lit_complete(s, l1, i);
    lemma_piece(s, i, w, o1, e1);
    lemma_str_complete(s, d.name, i + o1);
    lemma_piece(s, i, w, o2, l2);
    lemma_lit_complete(s, l2, i + o2);
    lemma_piece(s, i, w, o3, e2);
    lemma_str_complete(s, d.kind, i + o3);
    lemma_piece(s, i, w, o4, l3);
    lemma_lit_complete(s, l3, i + o4);
    lemma_piece(s, i, w, o5, e3);
    lemma_str_complete(s, d.id, i + o5);
    lemma_piece(s, i, w, o6, l4);
    lemma_lit_complete(s, l4, i + o6);
}

/// The canonical key envelope object at `i` parses back to the same
/// envelope.
pub proof fn lemma_key_at_complete(s: Seq<char>, k: KeyObjectView, i: int)
    requires
        0 <= i,
        i + enc_key(k).len() <= s.len(),
        s.subrange(i, i + enc_key(k).len() as int) == enc_key(k),
    ensures
        parse_key_at(s, i) == Some((k, i + enc_key(k).len() as int)),
{
    let w = enc_key(k);
    let l1 = "{\"type\":"@;
    let e1 = enc_str(k.kind);
    let l2 = ",\"data\":"@;
    let e2 = enc_str(k.data);
    let l3 = "}"@;
    assert(forall|j: int|
        0 <= j < w.len() ==> s[i + j] == #[trigger] w[j]) by {
        assert(forall|j: int|
            0 <= j < w.len() ==> s.subrange(i, i + w.len() as int)[j] == #[trigger] w[j]);
    }
    let o1 = l1.len() as int;
    let o2 = o1 + e1.len();
    let o3 = o2 + l2.len();
    let o4 = o3 + e2.len();
    assert(forall|k2: int| 0 <= k2 < l1.len() ==> w[0 + k2] == #[trigger] l1[k2]);
    assert(forall|k2: int| 0 <= k2 < e1.len() ==> w[o1 + k2] == #[trigger] e1[k2]);
    assert(forall|k2: int| 0 <= k2 < l2.len() ==> w[o2 + k2] == #[trigger] l2[k2]);
    assert(forall|k2: int| 0 <= k2 < e2.len() ==> w[o3 + k2] == #[trigger] e2[k2]);
    assert(forall|k2: int| 0 <= k2 < l3.len() ==> w[o4 + k2] == #[trigger] l3[k2]);
    lemma_piece(s, i, w, 0, l1);
    lemma_lit_complete(s, l1, i);
    lemma_piece(s, i, w, o1, e1);
    lemma_str_complete(s, k.kind, i + o1);
    lemma_piece(s, i, w, o2, l2);
    lemma_lit_complete(s, l2, i + o2);
    lemma_piece(s, i, w, o3, e2);
    lemma_str_complete(s, k.data, i + o3);
    lemma_piece(s, i, w, o4, l3);
    lemma_lit_complete(s, l3, i + o4);
}

/// The canonical discovery object at `i` parses back to the same message.
#[verifier::rlimit(60)]
pub proof fn lemma_discovery_at_complete(s: Seq<char>, m: DiscoveryReqView, i: int)
    requires
        0 <= i,
        i + enc_discovery(m).len() <= s.len(),
        s.subrange(i, i + enc_discovery(m).len() as int) == enc_discovery(m),
    ensures
        parse_discovery_at(s, i) == Some((m, i + enc_discovery(m).len() as int)),
{
    let w = enc_discovery(m);
    let l1 = "{\"version\":"@;
    let e1 = enc_nat(m.version as nat);
    let l2 = ",\"device\":"@;
    let e2 = enc_device(m.device);
    let l3 = ",\"port\":"@;
    let e3 = enc_nat(m.port as nat);
    let l4 = ",\"ack\":"@;
    let e4 = enc_bool(m.ack);
    let l5 = "}"@;
    assert(forall|j: int|
        0 <= j < w.len() ==> s[i + j] == #[trigger] w[j]) by {
        assert(forall|j: int|
            0 <= j < w.len() ==> s.subrange(i, i + w.len() as int)[j] == #[trigger] w[j]);
    }
    let o1 = l1.len() as int;
    let o2 = o1 + e1.len();
    let o3 = o2 + l2.len();
    let o4 = o3 + e2.len();
    let o5 = o4 + l3.len();
    let o6 = o5 + e3.len();
    let o7 = o6 + l4.len();
    let o8 = o7 + e4.len();
    assert(forall|k: int| 0 <= k < l1.len() ==> w[0 + k] == #[trigger] l1[k]);
    assert(forall|k: int| 0 <= k < e1.len() ==> w[o1 + k] == #[trigger] e1[k]);
    assert(forall|k: int| 0 <= k < l2.len() ==> w[o2 + k] == #[trigger] l2[k]);
    assert(forall|k: int| 0 <= k < e2.len() ==> w[o3 + k] == #[trigger] e2[k]);
    assert(forall|k: int| 0 <= k < l3.len() ==> w[o4 + k] == #[trigger] l3[k]);
    assert(forall|k: int| 0 <= k < e3.len() ==> w[o5 + k] == #[trigger] e3[k]);
    assert(forall|k: int| 0 <= k < l4.len() ==> w[o6 + k] == #[trigger] l4[k]);
    assert(forall|k: int| 0 <= k < e4.len() ==> w[o7 + k] == #[trigger] e4[k]);
    assert(forall|k: int| 0 <= k < l5.len() ==> w[o8 + k] == #[trigger] l5[k]);
    lemma_piece(s, i, w, 0, l1);
    lemma_lit_complete(s, l1, i);
    lemma_piece(s, i, w, o1, e1);
    reveal_strlit(",\"device\":");
    assert(s[i + o2] == l2[0]);
    assert(!is_digit(s[i + o2]));
    lemma_u64_complete(s, m.version as u64, i + o1);
    lemma_piece(s, i, w, o2, l2);
    lemma_lit_complete(s, l2, i + o2);
    lemma_piece(s, i, w, o3, e2);
    lemma_device_complete(s, m.device, i + o3);
    lemma_piece(s, i, w, o4, l3);
    lemma_lit_complete(s, l3, i + o4);
    lemma_piece(s, i, w, o5, e3);
    reveal_strlit(",\"ack\":");
    assert(s[i + o6] == l4[0]);
    assert(!is_digit(s[i + o6]));
    lemma_u64_complete(s, m.port as u64, i + o5);
    lemma_piece(s, i, w, o6, l4);
    lemma_lit_complete(s, l4, i + o6);
    lemma_piece(s, i, w, o7, e4);
    lemma_bool_complete(s, m.ack, i + o7);
    lemma_piece(s, i, w, o8, l5);
    lemma_lit_complete(s, l5, i + o8);
}

/// Round trip for discovery datagrams: the canonical encoding of a message
/// parses back to exactly that message.
pub proof fn lemma_discovery_roundtrip(m: DiscoveryReqView)
    ensures
        parse_discovery(enc_discovery(m)) == Some(m),
{
    let s = enc_discovery(m);
    assert(s.subrange(0, s.len() as int) =~= s);
    lemma_discovery_at_complete(s, m, 0);
}

/// Round trip for key envelopes.
pub proof fn lemma_key_roundtrip(k: KeyObjectView)
    ensures
        parse_key(enc_key(k)) == Some(k),
{
    let s = enc_key(k);
    assert(s.subrange(0, s.len() as int) =~= s);
    lemma_key_at_complete(s, k, 0);
}

/// The canonical descriptor object at `i` parses back to the same
/// descriptor.
#[verifier::rlimit(60)]
pub proof fn lemma_meta_complete(s: Seq<char>, m: FileMetaView, i: int)
    requires
        0 <= i,
        i + enc_meta(m).len() <= s.len(),
        s.subrange(i, i + enc_meta(m).len() as int) == enc_meta(m),
    ensures
        parse_meta(s, i) == Some((m, i + enc_meta(m).len() as int)),
{
    let w = enc_meta(m);
    let l1 = "{\"name\":"@;
    let e1 = enc_str(m.name);
    let l2 = ",\"size\":"@;
    let e2 = enc_nat(m.size as nat);
    let l3 = ",\"verity\":{\"type\":"@;
    let e3 = enc_str(m.verity.kind);
    let l4 = ",\"data\":"@;
    let e4 = enc_str(m.verity.data);
    let l5 = "}}"@;
    assert(forall|j: int|
        0 <= j < w.len() ==> s[i + j] == #[trigger] w[j]) by {
        assert(forall|j: int|
            0 <= j < w.len() ==> s.subrange(i, i + w.len() as int)[j] == #[trigger] w[j]);
    }
    let o1 = l1.len() as int;
    let o2 = o1 + e1.len();
    let o3 = o2 + l2.len();
    let o4 = o3 + e2.len();
    let o5 = o4 + l3.len();
    let o6 = o5 + e3.len();
    let o7 = o6 + l4.len();
    let o8 = o7 + e4.len();
    assert(forall|k: int| 0 <= k < l1.len() ==> w[0 + k] == #[trigger] l1[k]);
    assert(forall|k: int| 0 <= k < e1.len() ==> w[o1 + k] == #[trigger] e1[k]);
    assert(forall|k: int| 0 <= k < l2.len() ==> w[o2 + k] == #[trigger] l2[k]);
    assert(forall|k: int| 0 <= k < e2.len() ==> w[o3 + k] == #[trigger] e2[k]);
    assert(forall|k: int| 0 <= k < l3.len() ==> w[o4 + k] == #[trigger] l3[k]);
    assert(forall|k: int| 0 <= k < e3.len() ==> w[o5 + k] == #[trigger] e3[k]);
    assert(forall|k: int| 0 <= k < l4.len() ==> w[o6 + k] == #[trigger] l4[k]);
    assert(forall|k: int| 0 <= k < e4.len() ==> w[o7 + k] == #[trigger] e4[k]);
    assert(forall|k: int| 0 <= k < l5.len() ==> w[o8 + k] == #[trigger] l5[k]);
    lemma_piece(s, i, w, 0, l1);
    lemma_lit_complete(s, l1, i);
    lemma_piece(s, i, w, o1, e1);
    lemma_str_complete(s, m.name, i + o1);
    lemma_piece(s, i, w, o2, l2);
    lemma_lit_complete(s, l2, i + o2);
    lemma_piece(s, i, w, o3, e2);
    reveal_strlit(",\"verity\":{\"type\":");
    assert(s[i + o4] == l3[0]);
    assert(!is_digit(s[i + o4]));
    lemma_u64_complete(s, m.size, i + o3);
    lemma_piece(s, i, w, o4, l3);
    lemma_lit_complete(s, l3, i + o4);
    lemma_piece(s, i, w, o5, e3);
    lemma_str_complete(s, m.verity.kind, i + o5);
    lemma_piece(s, i, w, o6, l4);
    lemma_lit_complete(s, l4, i + o6);
    lemma_piece(s, i, w, o7, e4);
    lemma_str_complete(s, m.verity.data, i + o7);
    lemma_piece(s, i, w, o8, l5);
    lemma_lit_complete(s, l5, i + o8);
}

/// One or more canonical descriptors, comma-separated and followed by a
/// character other than a comma, parse back to the same list.
pub proof fn lemma_items_complete(s: Seq<char>, ms: Seq<FileMetaView>, i: int)
    requires
        ms.len() >= 1,
        0 <= i,
        i + enc_metas(ms).len() <= s.len(),
        s.subrange(i, i + enc_metas(ms).len() as int) == enc_metas(ms),
        i + enc_metas(ms).len() == s.len() || s[i + enc_metas(ms).len()] != ',',
    ensures
        parse_items(s, i) == Some((ms, i + enc_metas(ms).len() as int)),
    decreases ms.len(),
{
    let w = enc_metas(ms);
    assert(forall|j: int|
        0 <= j < w.len() ==> s[i + j] == #[trigger] w[j]) by {
        assert(forall|j: int|
            0 <= j < w.len() ==> s.subrange(i, i + w.len() as int)[j] == #[trigger] w[j]);
    }
    reveal_strlit(",");
    if ms.len() == 1 {
        assert(w == enc_meta(ms[0]));
        lemma_meta_complete(s, ms[0], i);
        let j = i + enc_meta(ms[0]).len() as int;
        assert(parse_lit(s, j, ","@) is None) by {
            if parse_lit(s, j, ","@) is Some {
                assert(s.subrange(j, j + 1) == ","@);
                assert(s.subrange(j, j + 1)[0] == ","@[0]);
                assert(s[j] == ',');
            }
        }
        assert(seq![ms[0]] =~= ms);
    } else {
        let m0 = ms[0];
        let rest = ms.drop_first();
        let e0 = enc_meta(m0);
        let er = enc_metas(rest);
        assert(w == e0 + ","@ + er);
        let o1 = e0.len() as int;
        let o2 = o1 + 1;
        assert(forall|k: int| 0 <= k < e0.len() ==> w[0 + k] == #[trigger] e0[k]);
        assert((","@).len() == 1);
        assert(forall|k: int| 0 <= k < 1 ==> w[o1 + k] == #[trigger] (","@)[k]);
        assert(forall|k: int| 0 <= k < er.len() ==> w[o2 + k] == #[trigger] er[k]);
        lemma_piece(s, i, w, 0, e0);
        lemma_meta_complete(s, m0, i);
        lemma_piece(s, i, w, o1, ","@);
        lemma_lit_complete(s, ","@, i + o1);
        lemma_piece(s, i, w, o2, er);
        assert(s.subrange(i + o2, i + o2 + er.len() as int) == er);
        lemma_items_complete(s, rest, i + o2);
        assert(parse_meta(s, i) == Some((m0, i + o1)));
        assert(parse_lit(s, i + o1, ","@) == Some(i + o2));
        assert(parse_items(s, i + o2) == Some((rest, i + o2 + er.len() as int)));
        assert(seq![m0] + rest =~= ms);
    }
}

/// Round trip for manifests: the canonical encoding of an ordered file list
/// parses back to exactly the same list, with identical names, sizes and
/// checksums.
pub proof fn lemma_manifest_roundtrip(ms: Seq<FileMetaView>)
    ensures
        parse_manifest(enc_manifest(ms)) == Some(ms),
{
    let s = enc_manifest(ms);
    let l1 = "{\"files\":["@;
    let em = enc_metas(ms);
    let l2 = "]}"@;
    assert(s == l1 + em + l2);
    assert(forall|k: int| 0 <= k < l1.len() ==> s[0 + k] == #[trigger] l1[k]);
    assert(forall|k: int| 0 <= k < em.len() ==> s[l1.len() + k] == #[trigger] em[k]);
    assert(forall|k: int| 0 <= k < l2.len() ==> s[l1.len() + em.len() + k] == #[trigger] l2[k]);
    assert(forall|j: int| 0 <= j < s.len() ==> s[0 + j] == #[trigger] s[j]);
    let o1 = l1.len() as int;
    let o2 = o1 + em.len();
    lemma_piece(s, 0, s, 0, l1);
    lemma_lit_complete(s, l1, 0);
    lemma_piece(s, 0, s, o2, l2);
    lemma_lit_complete(s, l2, o2);
    reveal_strlit("{\"files\":[");
    reveal_strlit("]}");
    reveal_strlit("{\"name\":");
    if ms.len() == 0 {
        assert(em.len() == 0);
        assert(parse_lit(s, o1, l2) == Some(o1 + 2));
        assert(o1 + 2 == s.len());
    } else {
        // the first descriptor starts with '{', so the empty-list branch is
        // not taken
        assert(parse_lit(s, o1, l2) is None) by {
            if parse_lit(s, o1, l2) is Some {
                assert(s.subrange(o1, o1 + 2) == l2);
                assert(s.subrange(o1, o1 + 2)[0] == l2[0]);
                assert(s[o1] == ']');
                assert(enc_metas(ms)[0] == enc_meta(ms[0])[0]) by {
                    if ms.len() > 1 {
                        assert(enc_metas(ms) == enc_meta(ms[0]) + ","@ + enc_metas(
                            ms.drop_first(),
                        ));
                    }
                    assert(enc_meta(ms[0])[0] == ("{\"name\":"@)[0]);
                }
                assert(s[o1] == em[0]);
                assert(false);
            }
        }
        lemma_piece(s, 0, s, o1, em);
        assert(s[o2] == l2[0]);
        assert(s[o2] != ',');
        lemma_items_complete(s, ms, o1);
    }
}


// ------------------------------------------------------------------
// Bytes on the wire
// ------------------------------------------------------------------
/// The exact datagram bytes of a discovery message: UTF-8 of its canonical
/// JSON text.
pub fn discovery_bytes(m: &DiscoveryReq) -> (r: Vec<u8>)
    ensures
        r@ == encode_utf8(enc_discovery(m@)),
{
    let s = encode_discovery(m);
    s.as_str().as_bytes_vec()
}

/// The exact stream bytes of a key envelope.
pub fn key_bytes(k: &KeyObject) -> (r: Vec<u8>)
    ensures
        r@ == encode_utf8(enc_key(k@)),
{
    let s = encode_key(k);
    s.as_str().as_bytes_vec()
}

/// The exact stream bytes of a manifest.
pub fn manifest_bytes(m: &MetaList) -> (r: Vec<u8>)
    ensures
        r@ == encode_utf8(enc_manifest(m@)),
{
    let s = encode_manifest(m);
    s.as_str().as_bytes_vec()
}

/// Try to read an accumulated byte buffer as one complete discovery
/// datagram: it is complete exactly when it is valid UTF-8 whose text is
/// one canonical message.
pub fn try_decode_discovery(buf: &Vec<u8>) -> (r: Option<DiscoveryReq>)
    ensures
        r is Some <==> (valid_utf8(buf@) && parse_discovery(decode_utf8(buf@)) is Some),
        r matches Some(m) ==> parse_discovery(decode_utf8(buf@)) == Some(m@),
{
    match utf8_to_string(buf) {
        Some(s) => {
            let chars = str_chars(s.as_str());
            decode_discovery(&chars)
        },
        None => None,
    }
}

/// Try to read an accumulated byte buffer as one complete key envelope.
pub fn try_decode_key(buf: &Vec<u8>) -> (r: Option<KeyObject>)
    ensures
        r is Some <==> (valid_utf8(buf@) && parse_key(decode_utf8(buf@)) is Some),
        r matches Some(k) ==> parse_key(decode_utf8(buf@)) == Some(k@),
{
    match utf8_to_string(buf) {
        Some(s) => {
            let chars = str_chars(s.as_str());
            decode_key(&chars)
        },
        None => None,
    }
}

/// Try to read an accumulated byte buffer as one complete manifest.
pub fn try_decode_manifest(buf: &Vec<u8>) -> (r: Option<MetaList>)
    ensures
        r is Some <==> (valid_utf8(buf@) && parse_manifest(decode_utf8(buf@)) is Some),
        r matches Some(m) ==> parse_manifest(decode_utf8(buf@)) == Some(m@),
{
    match utf8_to_string(buf) {
        Some(s) => {
            let chars = str_chars(s.as_str());
            decode_manifest(&chars)
        },
        None => None,
    }
}

/// Round trip for discovery datagrams over the wire: the bytes a node sends
/// are valid UTF-8 and parse back to exactly the message it sent.
pub proof fn lemma_discovery_bytes_roundtrip(m: DiscoveryReqView)
    ensures
        valid_utf8(encode_utf8(enc_discovery(m))),
        parse_discovery(decode_utf8(encode_utf8(enc_discovery(m)))) == Some(m),
{
    encode_utf8_valid_utf8(enc_discovery(m));
    encode_utf8_decode_utf8(enc_discovery(m));
    lemma_discovery_roundtrip(m);
}

/// Round trip for key envelopes over the wire.
pub proof fn lemma_key_bytes_roundtrip(k: KeyObjectView)
    ensures
        valid_utf8(encode_utf8(enc_key(k))),
        parse_key(decode_utf8(encode_utf8(enc_key(k)))) == Some(k),
{
    encode_utf8_valid_utf8(enc_key(k));
    encode_utf8_decode_utf8(enc_key(k));
    lemma_key_roundtrip(k);
}

/// Round trip for manifests over the wire: serialising a manifest and
/// parsing it back reproduces the same ordered file list, with identical
/// sizes and checksums.
pub proof fn lemma_manifest_bytes_roundtrip(ms: Seq<FileMetaView>)
    ensures
        valid_utf8(encode_utf8(enc_manifest(ms))),
        parse_manifest(decode_utf8(encode_utf8(enc_manifest(ms)))) == Some(ms),
{
    encode_utf8_valid_utf8(enc_manifest(ms));
    encode_utf8_decode_utf8(enc_manifest(ms));
    lemma_manifest_roundtrip(ms);
}


// ------------------------------------------------------------------
// Soundness: the parsers accept nothing but canonical encodings
// ------------------------------------------------------------------
/// A subrange split at an interior point is the two halves concatenated.
proof fn lemma_subrange_join(s: Seq<char>, a: int, b: int, c: int)
    requires
        0 <= a <= b <= c <= s.len(),
    ensures
        s.subrange(a, c) == s.subrange(a, b) + s.subrange(b, c),
{
    assert(s.subrange(a, c) =~= s.subrange(a, b) + s.subrange(b, c));
}

/// What the device parser accepts is exactly the canonical device object.
pub proof fn lemma_device_sound(s: Seq<char>, i: int, d: DeviceView, j: int)
    requires
        0 <= i <= s.len(),
        parse_device(s, i) == Some((d, j)),
    ensures
        i <= j <= s.len(),
        j == i + enc_device(d).len(),
        s.subrange(i, j) == enc_device(d),
{
    let l1 = "{\"name\":"@;
    let l2 = ",\"type\":"@;
    let l3 = ",\"id\":"@;
    let l4 = "}"@;
    let i1 = parse_lit(s, i, l1)->0;
    let r1 = parse_str(s, i1);
    let i2 = (r1->0).1;
    lemma_str_sound(s, i1, d.name, i2);
    let i3 = parse_lit(s, i2, l2)->0;
    let r2 = parse_str(s, i3);
    let i4 = (r2->0).1;
    lemma_str_sound(s, i3, d.kind, i4);
    let i5 = parse_lit(s, i4, l3)->0;
    let r3 = parse_str(s, i5);
    let i6 = (r3->0).1;
    lemma_str_sound(s, i5, d.id, i6);
    lemma_subrange_join(s, i, i1, i2);
    lemma_subrange_join(s, i, i2, i3);
    lemma_subrange_join(s, i, i3, i4);
    lemma_subrange_join(s, i, i4, i5);
    lemma_subrange_join(s, i, i5, i6);
    lemma_subrange_join(s, i, i6, j);
    assert(s.subrange(i, j) == enc_device(d));
}

/// What the key-envelope parser accepts is exactly the canonical envelope.
pub proof fn lemma_key_at_sound(s: Seq<char>, i: int, k: KeyObjectView, j: int)
    requires
        0 <= i <= s.len(),
        parse_key_at(s, i) == Some((k, j)),
    ensures
        i <= j <= s.len(),
        j == i + enc_key(k).len(),
        s.subrange(i, j) == enc_key(k),
{
    let l1 = "{\"type\":"@;
    let l2 = ",\"data\":"@;
    let l3 = "}"@;
    let i1 = parse_lit(s, i, l1)->0;
    let r1 = parse_str(s, i1);
    let i2 = (r1->0).1;
    lemma_str_sound(s, i1, k.kind, i2);
    let i3 = parse_lit(s, i2, l2)->0;
    let r2 = parse_str(s, i3);
    let i4 = (r2->0).1;
    lemma_str_sound(s, i3, k.data, i4);
    lemma_subrange_join(s, i, i1, i2);
    lemma_subrange_join(s, i, i2, i3);
    lemma_subrange_join(s, i, i3, i4);
    lemma_subrange_join(s, i, i4, j);
    assert(s.subrange(i, j) == enc_key(k));
}

/// What the discovery parser accepts is exactly the canonical discovery
/// object.
#[verifier::rlimit(60)]
pub proof fn lemma_discovery_at_sound(s: Seq<char>, i: int, m: DiscoveryReqView, j: int)
    requires
        0 <= i <= s.len(),
        parse_discovery_at(s, i) == Some((m, j)),
    ensures
        i <= j <= s.len(),
        j == i + enc_discovery(m).len(),
        s.subrange(i, j) == enc_discovery(m),
{
    let l1 = "{\"version\":"@;
    let l2 = ",\"device\":"@;
    let l3 = ",\"port\":"@;
    let l4 = ",\"ack\":"@;
    let l5 = "}"@;
    let i1 = parse_lit(s, i, l1)->0;
    let r1 = parse_u64(s, i1);
    let version = (r1->0).0;
    let i2 = (r1->0).1;
    lemma_u64_sound(s, i1, version, i2);
    assert(m.version as nat == version as nat);
    let i3 = parse_lit(s, i2, l2)->0;
    let r2 = parse_device(s, i3);
    let i4 = (r2->0).1;
    lemma_device_sound(s, i3, m.device, i4);
    let i5 = parse_lit(s, i4, l3)->0;
    let r3 = parse_u64(s, i5);
    let port = (r3->0).0;
    let i6 = (r3->0).1;
    lemma_u64_sound(s, i5, port, i6);
    assert(m.port as nat == port as nat);
    let i7 = parse_lit(s, i6, l4)->0;
    let r4 = parse_bool(s, i7);
    let i8 = (r4->0).1;
    lemma_bool_sound(s, i7, m.ack, i8);
    lemma_subrange_join(s, i, i1, i2);
    lemma_subrange_join(s, i, i2, i3);
    lemma_subrange_join(s, i, i3, i4);
    lemma_subrange_join(s, i, i4, i5);
    lemma_subrange_join(s, i, i5, i6);
    lemma_subrange_join(s, i, i6, i7);
    lemma_subrange_join(s, i, i7, i8);
    lemma_subrange_join(s, i, i8, j);
    assert(s.subrange(i, j) == enc_discovery(m));
}

/// What the descriptor parser accepts is exactly the canonical descriptor
/// object.
#[verifier::rlimit(60)]
pub proof fn lemma_meta_sound(s: Seq<char>, i: int, m: FileMetaView, j: int)
    requires
        0 <= i <= s.len(),
        parse_meta(s, i) == Some((m, j)),
    ensures
        i <= j <= s.len(),
        j == i + enc_meta(m).len(),
        s.subrange(i, j) == enc_meta(m),
{
    let l1 = "{\"name\":"@;
    let l2 = ",\"size\":"@;
    let l3 = ",\"verity\":{\"type\":"@;
    let l4 = ",\"data\":"@;
    let l5 = "}}"@;
    let i1 = parse_lit(s, i, l1)->0;
    let r1 = parse_str(s, i1);
    let i2 = (r1->0).1;
    lemma_str_sound(s, i1, m.name, i2);
    let i3 = parse_lit(s, i2, l2)->0;
    let r2 = parse_u64(s, i3);
    let i4 = (r2->0).1;
    lemma_u64_sound(s, i3, m.size, i4);
    let i5 = parse_lit(s, i4, l3)->0;
    let r3 = parse_str(s, i5);
    let i6 = (r3->0).1;
    lemma_str_sound(s, i5, m.verity.kind, i6);
    let i7 = parse_lit(s, i6, l4)->0;
    let r4 = parse_str(s, i7);
    let i8 = (r4->0).1;
    lemma_str_sound(s, i7, m.verity.data, i8);
    lemma_subrange_join(s, i, i1, i2);
    lemma_subrange_join(s, i, i2, i3);
    lemma_subrange_join(s, i, i3, i4);
    lemma_subrange_join(s, i, i4, i5);
    lemma_subrange_join(s, i, i5, i6);
    lemma_subrange_join(s, i, i6, i7);
    lemma_subrange_join(s, i, i7, i8);
    lemma_subrange_join(s, i, i8, j);
    assert(s.subrange(i, j) == enc_meta(m));
}

/// What the descriptor-list parser accepts is exactly the canonical
/// comma-separated list.
pub proof fn lemma_items_sound(s: Seq<char>, i: int, ms: Seq<FileMetaView>, j: int)
    requires
        0 <= i <= s.len(),
        parse_items(s, i) == Some((ms, j)),
    ensures
        1 <= ms.len(),
        i <= j <= s.len(),
        j == i + enc_metas(ms).len(),
        s.subrange(i, j) == enc_metas(ms),
    decreases s.len() - i,
{
    let r0 = parse_meta(s, i);
    let m = (r0->0).0;
    let jm = (r0->0).1;
    lemma_meta_sound(s, i, m, jm);
    match parse_lit(s, jm, ","@) {
        None => {
            assert(ms =~= seq![m]);
            assert(enc_metas(ms) == enc_meta(m));
        },
        Some(j2) => {
            let rr = parse_items(s, j2);
            let rest = (rr->0).0;
            lemma_items_sound(s, j2, rest, j);
            assert(ms == seq![m] + rest);
            assert(ms[0] == m);
            assert(ms.drop_first() =~= rest);
            assert(ms.len() >= 2);
            assert(enc_metas(ms) == enc_meta(m) + ","@ + enc_metas(rest));
            lemma_subrange_join(s, i, jm, j2);
            lemma_subrange_join(s, i, j2, j);
            assert(s.subrange(i, j) == enc_metas(ms));
        },
    }
}

/// A whole buffer parses as a manifest only when it is that manifest's
/// canonical encoding.
pub proof fn lemma_manifest_sound(s: Seq<char>, ms: Seq<FileMetaView>)
    requires
        parse_manifest(s) == Some(ms),
    ensures
        s == enc_manifest(ms),
{
    let l1 = "{\"files\":["@;
    let l2 = "]}"@;
    let j = parse_lit(s, 0, l1)->0;
    assert(s.subrange(0, s.len() as int) =~= s);
    match parse_lit(s, j, l2) {
        Some(j2) => {
            assert(ms =~= Seq::<FileMetaView>::empty());
            assert(enc_metas(ms) == Seq::<char>::empty());
            lemma_subrange_join(s, 0, j, j2);
            assert(l1 + enc_metas(ms) =~= l1);
            assert(s == enc_manifest(ms));
        },
        None => {
            let ri = parse_items(s, j);
            let j3 = (ri->0).1;
            lemma_items_sound(s, j, ms, j3);
            let j4 = parse_lit(s, j3, l2)->0;
            lemma_subrange_join(s, 0, j, j3);
            lemma_subrange_join(s, 0, j3, j4);
            assert(s == enc_manifest(ms));
        },
    }
}

/// A whole buffer parses as a discovery message only when it is that
/// message's canonical encoding.
pub proof fn lemma_discovery_sound(s: Seq<char>, m: DiscoveryReqView)
    requires
        parse_discovery(s) == Some(m),
    ensures
        s == enc_discovery(m),
{
    let r = parse_discovery_at(s, 0);
    let j = (r->0).1;
    lemma_discovery_at_sound(s, 0, m, j);
    assert(s.subrange(0, s.len() as int) =~= s);
}

/// A whole buffer parses as a key envelope only when it is that envelope's
/// canonical encoding.
pub proof fn lemma_key_sound(s: Seq<char>, k: KeyObjectView)
    requires
        parse_key(s) == Some(k),
    ensures
        s == enc_key(k),
{
    let r = parse_key_at(s, 0);
    let j = (r->0).1;
    lemma_key_at_sound(s, 0, k, j);
    assert(s.subrange(0, s.len() as int) =~= s);
}

/// The wire format is exact: a character buffer parses as a given
/// discovery message if and only if it is that message's one canonical
/// encoding.
pub proof fn lemma_discovery_exact(s: Seq<char>, m: DiscoveryReqView)
    ensures
        parse_discovery(s) == Some(m) <==> s == enc_discovery(m),
{
    if parse_discovery(s) == Some(m) {
        lemma_discovery_sound(s, m);
    }
    if s == enc_discovery(m) {
        lemma_discovery_roundtrip(m);
    }
}

/// The wire format is exact for key envelopes.
pub proof fn lemma_key_exact(s: Seq<char>, k: KeyObjectView)
    ensures
        parse_key(s) == Some(k) <==> s == enc_key(k),
{
    if parse_key(s) == Some(k) {
        lemma_key_sound(s, k);
    }
    if s == enc_key(k) {
        lemma_key_roundtrip(k);
    }
}

/// The wire format is exact for manifests.
pub proof fn lemma_manifest_exact(s: Seq<char>, ms: Seq<FileMetaView>)
    ensures
        parse_manifest(s) == Some(ms) <==> s == enc_manifest(ms),
{
    if parse_manifest(s) == Some(ms) {
        lemma_manifest_sound(s, ms);
    }
    if s == enc_manifest(ms) {
        lemma_manifest_roundtrip(ms);
    }
}


/// Exactness on the wire: a byte buffer completes as a given discovery
/// message if and only if it holds exactly that message's bytes.
pub proof fn lemma_discovery_wire_exact(buf: Seq<u8>, m: DiscoveryReqView)
    ensures
        (valid_utf8(buf) && parse_discovery(decode_utf8(buf)) == Some(m)) <==> buf == encode_utf8(
            enc_discovery(m),
        ),
{
    if valid_utf8(buf) && parse_discovery(decode_utf8(buf)) == Some(m) {
        lemma_discovery_sound(decode_utf8(buf), m);
        vstd::utf8::decode_utf8_encode_utf8(buf);
    }
    if buf == encode_utf8(enc_discovery(m)) {
        lemma_discovery_bytes_roundtrip(m);
    }
}

/// Exactness on the wire for key envelopes.
pub proof fn lemma_key_wire_exact(buf: Seq<u8>, k: KeyObjectView)
    ensures
        (valid_utf8(buf) && parse_key(decode_utf8(buf)) == Some(k)) <==> buf == encode_utf8(
            enc_key(k),
        ),
{
    if valid_utf8(buf) && parse_key(decode_utf8(buf)) == Some(k) {
        lemma_key_sound(decode_utf8(buf), k);
        vstd::utf8::decode_utf8_encode_utf8(buf);
    }
    if buf == encode_utf8(enc_key(k)) {
        lemma_key_bytes_roundtrip(k);
    }
}

/// Exactness on the wire for manifests: the byte stream completes as a
/// given ordered file list if and only if it is exactly that manifest's
/// bytes — names, sizes and checksums included.
pub proof fn lemma_manifest_wire_exact(buf: Seq<u8>, ms: Seq<FileMetaView>)
    ensures
        (valid_utf8(buf) && parse_manifest(decode_utf8(buf)) == Some(ms)) <==> buf == encode_utf8(
            enc_manifest(ms),
        ),
{
    if valid_utf8(buf) && parse_manifest(decode_utf8(buf)) == Some(ms) {
        lemma_manifest_sound(decode_utf8(buf), ms);
        vstd::utf8::decode_utf8_encode_utf8(buf);
    }
    if buf == encode_utf8(enc_manifest(ms)) {
        lemma_manifest_bytes_roundtrip(ms);
    }
}

} // verus!
