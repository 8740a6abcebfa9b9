//! The keyed hash that signs session tokens.

use hmac::Mac;
use vstd::prelude::*;

verus! {

/// The HMAC-SHA-256 tag (RFC 2104 over FIPS 180-4 SHA-256) of `message` under `key`.
pub uninterp spec fn hmac_sha256(key: Seq<u8>, message: Seq<u8>) -> Seq<u8>;

/// `Hmac::<sha2::Sha256>::new_from_slice`, `Mac::update` and `Mac::finalize`
/// (crates `hmac` and `sha2`). HMAC takes a key of any length (a long key is
/// hashed first), so `new_from_slice` never fails for it; the tag is trusted
/// to be `hmac_sha256(key, message)`, 32 bytes long.
#[verifier::external_body]
pub(crate) fn hmac_sha256_tag(key: &[u8], message: &[u8]) -> (tag: Vec<u8>)
    ensures
        tag@ == hmac_sha256(key@, message@),
        tag@.len() == 32,
{
    let mut mac = hmac::Hmac::<sha2::Sha256>::new_from_slice(key).expect("HMAC takes keys of any length");
    mac.update(message);
    mac.finalize().into_bytes().to_vec()
}

} // verus!
