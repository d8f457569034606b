//! Keyed message digests (HMAC with MD5, SHA-1 and SHA-256).

use vstd::prelude::*;

use hmac::Mac;

verus! {

/// The HMAC-MD5 of `message` under `key`.
pub uninterp spec fn hmac_md5_of(key: Seq<u8>, message: Seq<u8>) -> [u8; 16];

/// The HMAC-SHA-1 of `message` under `key`.
pub uninterp spec fn hmac_sha1_of(key: Seq<u8>, message: Seq<u8>) -> [u8; 20];

/// The HMAC-SHA-256 of `message` under `key`.
pub uninterp spec fn hmac_sha256_of(key: Seq<u8>, message: Seq<u8>) -> [u8; 32];

/// Calls `hmac::Hmac::<md5::Md5>`: a fresh instance with `key`, one `update`
/// with the whole message, `finalize`. An HMAC takes a key of any length, so
/// construction does not fail; the result is named, and depends on nothing
/// but the two arguments.
#[verifier::external_body]
pub(crate) fn hmac_md5(key: &[u8], message: &[u8]) -> (tag: [u8; 16])
    ensures
        tag == hmac_md5_of(key@, message@),
{
    let mut mac = hmac::Hmac::<md5::Md5>::new_from_slice(key).expect("HMAC takes any key length");
    mac.update(message);
    mac.finalize().into_bytes().into()
}

/// Calls `hmac::Hmac::<sha1::Sha1>` in the way of [`hmac_md5`]: any key
/// length, one message, a named result of 20 bytes.
#[verifier::external_body]
pub(crate) fn hmac_sha1(key: &[u8], message: &[u8]) -> (tag: [u8; 20])
    ensures
        tag == hmac_sha1_of(key@, message@),
{
    let mut mac = hmac::Hmac::<sha1::Sha1>::new_from_slice(key).expect("HMAC takes any key length");
    mac.update(message);
    mac.finalize().into_bytes().into()
}

/// Calls `hmac::Hmac::<sha2::Sha256>` in the way of [`hmac_md5`]: any key
/// length, one message, a named result of 32 bytes.
#[verifier::external_body]
pub(crate) fn hmac_sha256(key: &[u8], message: &[u8]) -> (tag: [u8; 32])
    ensures
        tag == hmac_sha256_of(key@, message@),
{
    let mut mac = hmac::Hmac::<sha2::Sha256>::new_from_slice(key).expect(
        "HMAC takes any key length",
    );
    mac.update(message);
    mac.finalize().into_bytes().into()
}

/// Calls `hmac::Mac::verify_slice` on an HMAC-SHA-256 of `message`: it accepts
/// `tag` exactly if `tag` is the 32-byte digest that [`hmac_sha256`] gives
/// (the comparison takes the same time wherever the two differ).
#[verifier::external_body]
pub(crate) fn hmac_sha256_verify(key: &[u8], message: &[u8], tag: &[u8]) -> (ok: bool)
    ensures
        ok == (tag@ == hmac_sha256_of(key@, message@)@),
{
    let mut mac = hmac::Hmac::<sha2::Sha256>::new_from_slice(key).expect(
        "HMAC takes any key length",
    );
    mac.update(message);
    mac.verify_slice(tag).is_ok()
}

} // verus!
