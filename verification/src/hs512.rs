//! The pinned signing primitive: HMAC-SHA-512, base64url-encoded.
//!
//! The digest itself is outside what this crate states; its result is
//! named, and everything the codecs prove goes through that name.

use vstd::prelude::*;
use crate::b64::is_b64_byte;

verus! {

/// The base64url-encoded HMAC-SHA-512 tag of `message` under `secret`, as
/// ASCII bytes. A function of its arguments alone.
pub uninterp spec fn hs512_sig_of(secret: Seq<u8>, message: Seq<u8>) -> Seq<u8>;

/// Relies on `jsonwebtoken::crypto::sign` with `Algorithm::HS512`: it
/// returns the base64url (no padding) encoding of the 64-byte
/// HMAC-SHA-512 tag, hence 86 alphabet bytes; for HMAC algorithms it never
/// fails.
#[verifier::external_body]
pub(crate) fn hs512_sign(secret: &Vec<u8>, message: &Vec<u8>) -> (sig: Vec<u8>)
    ensures
        sig@ == hs512_sig_of(secret@, message@),
        sig@.len() == 86,
        forall|i: int| 0 <= i < sig@.len() ==> is_b64_byte(#[trigger] sig@[i]),
{
    let key = jsonwebtoken::EncodingKey::from_secret(secret.as_slice());
    let sig = jsonwebtoken::crypto::sign(
        message.as_slice(),
        &key,
        jsonwebtoken::Algorithm::HS512,
    ).unwrap_or_default();
    sig.into_bytes()
}

/// Relies on `jsonwebtoken::crypto::verify` with `Algorithm::HS512`: it
/// recomputes the tag with the same key and compares it byte for byte
/// against the given signature.
#[verifier::external_body]
pub(crate) fn hs512_verify(sig: &Vec<u8>, message: &Vec<u8>, secret: &Vec<u8>) -> (r: bool)
    ensures
        r == (sig@ == hs512_sig_of(secret@, message@)),
{
    match core::str::from_utf8(sig.as_slice()) {
        Ok(sig_str) => {
            let key = jsonwebtoken::DecodingKey::from_secret(secret.as_slice());
            jsonwebtoken::crypto::verify(
                sig_str,
                message.as_slice(),
                &key,
                jsonwebtoken::Algorithm::HS512,
            ).unwrap_or(false)
        },
        Err(_) => false,
    }
}

} // verus!
