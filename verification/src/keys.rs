//! The process key pair and the key envelopes exchanged at the start of a
//! transfer connection. The rsa crate generates and encodes the keys; this
//! module's verified code decides what the envelopes hold and how a bad one
//! is rejected. The exchange authenticates and encrypts nothing.

use crate::key_object::KeyObject;
use crate::text::str_eq;
use crate::DropError;
use vstd::prelude::*;
use vstd::string::StringExecFns;

verus! {

/// The bit size of the process key pair.
pub const KEY_BITS: usize = 2048;

#[verifier::external_type_specification]
#[verifier::external_body]
pub struct ExRsaPublicKey(rsa::RsaPublicKey);

#[verifier::external_type_specification]
#[verifier::external_body]
pub struct ExRsaPrivateKey(rsa::RsaPrivateKey);

#[verifier::external_type_specification]
#[verifier::external_body]
pub struct ExThreadRng(rand::rngs::ThreadRng);

/// Relies on rand::thread_rng: the thread-local OS-seeded generator.
#[verifier::external_body]
pub(crate) fn make_rng() -> rand::rngs::ThreadRng {
    rand::thread_rng()
}

/// Relies on rsa::RsaPrivateKey::new: a fresh private key of the given bit
/// size, or nothing when generation fails.
#[verifier::external_body]
pub(crate) fn generate_private_key(rng: &mut rand::rngs::ThreadRng, bits: usize) -> Option<
    rsa::RsaPrivateKey,
> {
    rsa::RsaPrivateKey::new(rng, bits).ok()
}

/// The public half of a private key. Named only: the rsa crate computes
/// it, and it is a function of the private key alone.
pub uninterp spec fn public_half_of(key: rsa::RsaPrivateKey) -> rsa::RsaPublicKey;

/// Relies on rsa::RsaPrivateKey::to_public_key: the public half of the key,
/// a function of the private key alone.
#[verifier::external_body]
pub(crate) fn public_key_of(key: &rsa::RsaPrivateKey) -> (r: rsa::RsaPublicKey)
    ensures
        r == public_half_of(*key),
{
    key.to_public_key()
}

/// The PEM text of a public key with LF line endings, or nothing when
/// encoding fails. Named only: the pkcs8 encoding is deterministic in the
/// key, and its statement would take pages.
pub uninterp spec fn pem_of_key(key: rsa::RsaPublicKey) -> Option<Seq<char>>;

/// Relies on rsa::RsaPublicKey::to_public_key_pem (pkcs8's EncodePublicKey),
/// with LF line endings: the PEM text of the key, a function of the key
/// alone; nothing exactly when encoding fails.
#[verifier::external_body]
pub(crate) fn public_key_pem(key: &rsa::RsaPublicKey) -> (r: Option<String>)
    ensures
        r is Some <==> pem_of_key(*key) is Some,
        r matches Some(s) ==> pem_of_key(*key) == Some(s@),
{
    rsa::pkcs8::EncodePublicKey::to_public_key_pem(key, base64ct::LineEnding::LF).ok()
}

/// Whether a text is a decodable PEM public key. Named only: acceptance is
/// a function of the text alone, and the PEM grammar would take pages.
pub uninterp spec fn pem_parses(pem: Seq<char>) -> bool;

/// Relies on rsa::RsaPublicKey::from_public_key_pem (pkcs8's
/// DecodePublicKey): a key exactly when the text is a valid PEM-encoded
/// public key; acceptance is a function of the text alone.
#[verifier::external_body]
pub(crate) fn parse_public_key_pem(pem: &str) -> (r: Option<rsa::RsaPublicKey>)
    ensures
        r is Some <==> pem_parses(pem@),
{
    rsa::pkcs8::DecodePublicKey::from_public_key_pem(pem).ok()
}

/// Generate a key pair of the given bit size. Whether generation succeeds
/// depends on the random generator; whatever came back, the second half is
/// the public half of the first.
pub fn generate_keypair_bits(bits: usize) -> (r: Option<(rsa::RsaPrivateKey, rsa::RsaPublicKey)>)
    ensures
        r matches Some(p) ==> p.1 == public_half_of(p.0),
{
    let mut rng = make_rng();
    match generate_private_key(&mut rng, bits) {
        Some(private_key) => {
            let public_key = public_key_of(&private_key);
            Some((private_key, public_key))
        },
        None => None,
    }
}

/// Generate the process key pair once, at construction.
pub fn generate_keypair() -> (r: Option<(rsa::RsaPrivateKey, rsa::RsaPublicKey)>)
    ensures
        r matches Some(p) ==> p.1 == public_half_of(p.0),
{
    generate_keypair_bits(KEY_BITS)
}

/// The envelope a node sends: the "rsa" tag and exactly the PEM text of
/// its public key; nothing exactly when the key cannot be encoded.
pub fn make_key_envelope(key: &rsa::RsaPublicKey) -> (r: Option<KeyObject>)
    ensures
        r is Some <==> pem_of_key(*key) is Some,
        r matches Some(k) ==> k@.kind == "rsa"@ && pem_of_key(*key) == Some(k@.data),
{
    match public_key_pem(key) {
        Some(pem) => Some(KeyObject::new(String::from_str("rsa"), pem)),
        None => None,
    }
}

/// Validate a received envelope. A tag other than "rsa" is a protocol-data
/// error; an "rsa" envelope whose payload is not a valid PEM public key is
/// an invalid-key error; otherwise the decoded key is returned.
pub fn validate_key_envelope(k: &KeyObject) -> (r: Result<rsa::RsaPublicKey, DropError>)
    ensures
        r is Ok <==> (k@.kind == "rsa"@ && pem_parses(k@.data)),
        k@.kind != "rsa"@ <==> r == Err::<rsa::RsaPublicKey, DropError>(DropError::ProtocolData),
        (k@.kind == "rsa"@ && !pem_parses(k@.data)) <==> r == Err::<
            rsa::RsaPublicKey,
            DropError,
        >(DropError::InvalidKey),
{
    if !str_eq(k.kind.as_str(), "rsa") {
        return Err(DropError::ProtocolData);
    }
    match parse_public_key_pem(k.data.as_str()) {
        Some(key) => Ok(key),
        None => Err(DropError::InvalidKey),
    }
}

} // verus!
