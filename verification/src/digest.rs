//! Content digests for transfer integrity. The MD5 digest itself is
//! computed by the md5 crate and is only named here, never restated; the
//! hexadecimal rendering of a digest is this crate's own, verified code.

use crate::json::hex_digit;
use md5::Digest;
use vstd::prelude::*;

verus! {

/// The 16-byte MD5 digest of a byte sequence. Named only: the md5 crate
/// computes it, and it is a function of the input bytes alone.
pub uninterp spec fn md5_of(data: Seq<u8>) -> Seq<u8>;

/// Relies on md5::Md5 through the Digest trait's one-shot digest: the MD5
/// digest of the input, 16 bytes, a function of the input alone.
#[verifier::external_body]
fn md5_digest(data: &Vec<u8>) -> (r: Vec<u8>)
    ensures
        r@ == md5_of(data@),
        r@.len() == 16,
{
    md5::Md5::digest(data.as_slice()).to_vec()
}

/// What a hasher has been fed so far. Named only: the hasher's state lives
/// inside the md5 crate.
pub uninterp spec fn hasher_fed(h: Md5Hasher) -> Seq<u8>;

/// An incremental MD5 hasher, for digesting a file chunk by chunk without
/// holding it in memory. The state is the md5 crate's; `hasher_fed` names
/// the bytes it has absorbed.
#[verifier::external_body]
pub struct Md5Hasher {
    inner: md5::Md5,
}

impl Md5Hasher {
    /// Relies on md5::Md5::new (Digest): a fresh hasher that has absorbed
    /// nothing.
    #[verifier::external_body]
    pub fn new() -> (h: Md5Hasher)
        ensures
            hasher_fed(h) == Seq::<u8>::empty(),
    {
        Md5Hasher { inner: md5::Md5::new() }
    }

    /// Relies on md5::Md5::update (Digest): absorbs the bytes after what
    /// was absorbed before.
    #[verifier::external_body]
    pub fn update(&mut self, data: &Vec<u8>)
        ensures
            hasher_fed(*final(self)) == hasher_fed(*old(self)) + data@,
    {
        self.inner.update(data.as_slice());
    }

    /// Relies on md5::Md5::finalize (Digest): the MD5 digest of everything
    /// absorbed, 16 bytes.
    #[verifier::external_body]
    pub fn finalize(self) -> (r: Vec<u8>)
        ensures
            r@ == md5_of(hasher_fed(self)),
            r@.len() == 16,
    {
        self.inner.finalize().to_vec()
    }
}

/// The lowercase hexadecimal rendering of a byte sequence, two digits per
/// byte.
pub open spec fn hex_of(bytes: Seq<u8>) -> Seq<char>
    decreases bytes.len(),
{
    if bytes.len() == 0 {
        Seq::empty()
    } else {
        seq![hex_digit(bytes[0] as int / 16), hex_digit(bytes[0] as int % 16)] + hex_of(
            bytes.drop_first(),
        )
    }
}

/// Hex rendering distributes over concatenation.
proof fn lemma_hex_concat(a: Seq<u8>, b: Seq<u8>)
    ensures
        hex_of(a + b) == hex_of(a) + hex_of(b),
    decreases a.len(),
{
    if a.len() == 0 {
        assert(a + b =~= b);
        assert(hex_of(a) + hex_of(b) =~= hex_of(b));
    } else {
        lemma_hex_concat(a.drop_first(), b);
        assert((a + b).drop_first() =~= a.drop_first() + b);
        assert((a + b)[0] == a[0]);
        assert(seq![hex_digit(a[0] as int / 16), hex_digit(a[0] as int % 16)] + (hex_of(
            a.drop_first(),
        ) + hex_of(b)) =~= (seq![hex_digit(a[0] as int / 16), hex_digit(a[0] as int % 16)]
            + hex_of(a.drop_first())) + hex_of(b));
    }
}

/// Two hexadecimal digits stand for each byte.
pub proof fn lemma_hex_of_len(bytes: Seq<u8>)
    ensures
        hex_of(bytes).len() == 2 * bytes.len(),
    decreases bytes.len(),
{
    if bytes.len() > 0 {
        lemma_hex_of_len(bytes.drop_first());
    }
}

/// The lowercase hexadecimal text of `bytes`.
pub fn to_hex(bytes: &Vec<u8>) -> (r: String)
    ensures
        r@ == hex_of(bytes@),
{
    let mut out: Vec<char> = Vec::new();
    let mut i: usize = 0;
    while i < bytes.len()
        invariant
            i <= bytes.len(),
            out@ == hex_of(bytes@.subrange(0, i as int)),
        decreases bytes.len() - i,
    {
        proof {
            assert(bytes@.subrange(0, i + 1) =~= bytes@.subrange(0, i as int) + seq![bytes@[i as int]]);
            lemma_hex_concat(bytes@.subrange(0, i as int), seq![bytes@[i as int]]);
            assert(hex_of(seq![bytes@[i as int]]) =~= seq![
                hex_digit(bytes@[i as int] as int / 16),
                hex_digit(bytes@[i as int] as int % 16),
            ]) by {
                reveal_with_fuel(hex_of, 2);
            }
        }
        let b = bytes[i];
        out.push(crate::json::hex_digit_char((b / 16) as u32));
        out.push(crate::json::hex_digit_char((b % 16) as u32));
        proof {
            assert(out@ =~= hex_of(bytes@.subrange(0, i + 1)));
        }
        i = i + 1;
    }
    proof {
        assert(bytes@.subrange(0, bytes@.len() as int) =~= bytes@);
    }
    crate::text::chars_string(&out)
}

/// The lowercase hexadecimal MD5 digest of `data`, as the manifest carries
/// it: 32 characters.
pub fn md5_hex(data: &Vec<u8>) -> (r: String)
    ensures
        r@ == hex_of(md5_of(data@)),
        r@.len() == 32,
{
    let d = md5_digest(data);
    proof {
        lemma_hex_of_len(d@);
    }
    to_hex(&d)
}

} // verus!
