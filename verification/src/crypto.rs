//! The keyed-hash primitives behind signature verification. Their values are
//! named, never written out: both are deterministic functions of their byte
//! arguments alone, computed by an outside cryptography crate.

use vstd::prelude::*;

verus! {

/// The HMAC-SHA256 tag over `msg` under `key`.
pub uninterp spec fn hmac_sha256(key: Seq<u8>, msg: Seq<u8>) -> Seq<u8>;

/// The SHA-256 digest of `msg`.
pub uninterp spec fn sha256(msg: Seq<u8>) -> Seq<u8>;

/// Relies on ring::hmac::sign with ring::hmac::HMAC_SHA256 (and
/// ring::hmac::Key::new to shape the key): the tag is a deterministic
/// function of key and message, 32 bytes long.
#[verifier::external_body]
pub fn hmac_sha256_tag(key: &[u8], msg: &[u8]) -> (r: Vec<u8>)
    ensures
        r@ == hmac_sha256(key@, msg@),
        r@.len() == 32,
{
    let k = ring::hmac::Key::new(ring::hmac::HMAC_SHA256, key);
    ring::hmac::sign(&k, msg).as_ref().to_vec()
}

/// Relies on ring::digest::digest with ring::digest::SHA256: the digest is a
/// deterministic function of the message, 32 bytes long.
#[verifier::external_body]
pub fn sha256_digest(msg: &[u8]) -> (r: Vec<u8>)
    ensures
        r@ == sha256(msg@),
        r@.len() == 32,
{
    ring::digest::digest(&ring::digest::SHA256, msg).as_ref().to_vec()
}

} // verus!
