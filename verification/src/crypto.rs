//! The cryptographic primitives and the random number source.

use crate::bytes;
use crate::bytes::is_all_zero;
use hmac::{Hmac, KeyInit, Mac};
use sha2::{Digest, Sha256};
use vstd::prelude::*;

verus! {

/// The SHA-256 digest of the data.
pub uninterp spec fn sha256_digest(data: Seq<u8>) -> [u8; 32];

/// The HMAC-SHA256 tag of the message under the key.
pub uninterp spec fn hmac_sha256(key: Seq<u8>, message: Seq<u8>) -> [u8; 32];

/// `sha2::Sha256::digest`: the digest depends on the data alone, and is named
/// `sha256_digest`.
#[verifier::external_body]
pub(crate) fn sha256(data: &[u8]) -> (digest: [u8; 32])
    ensures
        digest == sha256_digest(data@),
{
    Sha256::digest(data).into()
}

/// `hmac::Hmac::<Sha256>`, keyed by `new_from_slice`, fed by `update` and read
/// by `finalize`: the tag depends on the key and the message alone, and is named
/// `hmac_sha256`. A key of any length is taken.
#[verifier::external_body]
pub(crate) fn hmac_tag(key: &[u8; 32], message: &[u8]) -> (tag: [u8; 32])
    ensures
        tag == hmac_sha256(key@, message@),
{
    let mut mac = Hmac::<Sha256>::new_from_slice(key).expect("HMAC takes a key of any length");
    mac.update(message);
    mac.finalize().into_bytes().into()
}

/// `hmac::Hmac::<Sha256>`, keyed and fed in the same way and asked by
/// `verify_slice`: it accepts exactly the tag that `finalize` would give, in its
/// full length.
#[verifier::external_body]
pub(crate) fn hmac_verify(key: &[u8; 32], message: &[u8], tag: &[u8]) -> (valid: bool)
    ensures
        valid == (tag@ == hmac_sha256(key@, message@)@),
{
    let mut mac = Hmac::<Sha256>::new_from_slice(key).expect("HMAC takes a key of any length");
    mac.update(message);
    mac.verify_slice(tag).is_ok()
}

/// `rand::random`: any bytes at all may come back, so nothing is claimed of
/// them. There are no arguments on which it panics; it does so where the system
/// has no random numbers to give.
#[verifier::external_body]
fn random_bytes<const N: usize>() -> (value: [u8; N])
{
    rand::random()
}

/// Draws random bytes until they are not all zero. The draws are counted down
/// from the largest counter there is; a source that yields nothing but zeros all
/// that time is answered with a single one bit.
pub fn random_nonzero<const N: usize>() -> (value: [u8; N])
    requires
        N > 0,
    ensures
        !bytes::all_zero(value@),
{
    let mut draws: u64 = u64::MAX;
    while draws > 0
        decreases draws,
    {
        let value: [u8; N] = random_bytes();
        if !is_all_zero(value.as_slice()) {
            return value;
        }
        draws -= 1;
    }
    let mut value: [u8; N] = [0u8; N];
    value[0] = 1;
    assert(value@[0] == 1);
    value
}

} // verus!
