use vstd::prelude::*;

verus! {

/// The SHA-256 digest of a byte string.
pub uninterp spec fn sha256_of(data: Seq<u8>) -> Seq<u8>;

/// The RIPEMD-160 digest of a byte string.
pub uninterp spec fn ripemd160_of(data: Seq<u8>) -> Seq<u8>;

/// The key hash that locks an output: RIPEMD-160 over SHA-256.
pub open spec fn pub_key_hash_of(pub_key: Seq<u8>) -> Seq<u8> {
    ripemd160_of(sha256_of(pub_key))
}

/// Relies on `sha2::Sha256::digest`: a 32-byte digest that depends on the
/// input bytes alone.
#[verifier::external_body]
pub(crate) fn sha256(data: &[u8]) -> (r: Vec<u8>)
    ensures
        r@ == sha256_of(data@),
        r@.len() == 32,
{
    <sha2::Sha256 as sha2::Digest>::digest(data).to_vec()
}

/// Relies on `ripemd::Ripemd160::digest`: a 20-byte digest that depends on
/// the input bytes alone.
#[verifier::external_body]
fn ripemd160(data: &[u8]) -> (r: Vec<u8>)
    ensures
        r@ == ripemd160_of(data@),
        r@.len() == 20,
{
    <ripemd::Ripemd160 as ripemd::Digest>::digest(data).to_vec()
}

/// Hashes a public key into the 20-byte form that outputs are locked to.
pub fn hash_pub_key(pub_key: &[u8]) -> (r: Vec<u8>)
    ensures
        r@ == pub_key_hash_of(pub_key@),
        r@.len() == 20,
{
    let first = sha256(pub_key);
    ripemd160(first.as_slice())
}


/// The outcome of checking a compact ECDSA signature over a 32-byte digest
/// against a serialized secp256k1 public key: `None` where the signature or
/// the key does not parse.
pub uninterp spec fn ecdsa_outcome(digest: Seq<u8>, sig: Seq<u8>, pub_key: Seq<u8>) -> Option<bool>;

/// The compact ECDSA signature (deterministic nonce) of a 32-byte digest
/// under a secret key: `None` where the key is not a valid secret key.
pub uninterp spec fn ecdsa_signature(digest: Seq<u8>, secret_key: Seq<u8>) -> Option<Seq<u8>>;

/// Relies on secp256k1's `Message::from_digest_slice`,
/// `ecdsa::Signature::from_compact`, `PublicKey::from_slice` and
/// `Secp256k1::verify_ecdsa`; the outcome depends on the three byte strings
/// alone.
#[verifier::external_body]
pub(crate) fn ecdsa_verify(digest: &[u8], sig: &[u8], pub_key: &[u8]) -> (r: Option<bool>)
    requires
        digest@.len() == 32,
    ensures
        r == ecdsa_outcome(digest@, sig@, pub_key@),
{
    let msg = secp256k1::Message::from_digest_slice(digest).ok()?;
    let sig = secp256k1::ecdsa::Signature::from_compact(sig).ok()?;
    let key = secp256k1::PublicKey::from_slice(pub_key).ok()?;
    Some(secp256k1::Secp256k1::verification_only().verify_ecdsa(&msg, &sig, &key).is_ok())
}

/// Relies on secp256k1's `SecretKey::from_slice`, `Message::from_digest_slice`,
/// `Secp256k1::sign_ecdsa` (RFC 6979 nonces) and `serialize_compact`, which
/// gives 64 bytes; the result depends on the digest and the key alone.
#[verifier::external_body]
pub(crate) fn ecdsa_sign(digest: &[u8], secret_key: &[u8]) -> (r: Option<Vec<u8>>)
    requires
        digest@.len() == 32,
    ensures
        match ecdsa_signature(digest@, secret_key@) {
            Some(s) => r is Some && r.unwrap()@ == s,
            None => r is None,
        },
        r is Some ==> r.unwrap()@.len() == 64,
{
    let msg = secp256k1::Message::from_digest_slice(digest).ok()?;
    let key = secp256k1::SecretKey::from_slice(secret_key).ok()?;
    let sig = secp256k1::Secp256k1::signing_only().sign_ecdsa(&msg, &key);
    Some(sig.serialize_compact().to_vec())
}

} // verus!
