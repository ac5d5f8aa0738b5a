//! The signature primitive of the session token: HMAC-SHA256 through
//! jsonwebtoken, named but never restated here.
use vstd::prelude::*;
use crate::jwt::base64url::b64_encode;

verus! {

/// The HMAC-SHA256 tag of a message under a key: a fixed function of
/// the two arguments alone, left without a definition here; everything
/// proved about tokens is relative to it.
pub uninterp spec fn hmac_sha256(key: Seq<u8>, msg: Seq<u8>) -> Seq<u8>;

/// jsonwebtoken's error type, declared so that the signing wrapper
/// can hand it back; verified code maps it to the library's own error.
#[verifier::external_type_specification]
#[verifier::external_body]
pub struct ExJwtError(jsonwebtoken::errors::Error);

/// Relies on jsonwebtoken's `crypto::sign` with HS256: the result is
/// the base64url (no padding) of the HMAC-SHA256 tag of the message
/// under the key. With the crate's built-in HMAC provider the call
/// cannot fail: a key from `from_secret` always carries the HMAC
/// family, every key length is accepted, and the tag computation is
/// total; so the call returns `Ok`.
#[verifier::external_body]
pub(crate) fn hs256_sign(message: &Vec<u8>, key: &[u8]) -> (r: Result<
    Vec<u8>,
    jsonwebtoken::errors::Error,
>)
    ensures
        r is Ok,
        r matches Ok(t) ==> t@ == b64_encode(hmac_sha256(key@, message@)),
{
    let k = jsonwebtoken::EncodingKey::from_secret(key);
    match jsonwebtoken::crypto::sign(message.as_slice(), &k, jsonwebtoken::Algorithm::HS256) {
        Ok(t) => Ok(t.into_bytes()),
        Err(e) => Err(e),
    }
}

/// Relies on jsonwebtoken's `crypto::verify` with HS256: it recomputes
/// the tag and compares in constant time, decoding the signature with
/// strict, canonical base64url; so it accepts exactly the canonical
/// base64url of the tag.
#[verifier::external_body]
pub(crate) fn hs256_verify(signature: &Vec<u8>, message: &Vec<u8>, key: &[u8]) -> (r: bool)
    ensures
        r == (signature@ == b64_encode(hmac_sha256(key@, message@))),
{
    let k = jsonwebtoken::DecodingKey::from_secret(key);
    match std::str::from_utf8(signature.as_slice()) {
        Ok(sig) => jsonwebtoken::crypto::verify(
            sig,
            message.as_slice(),
            &k,
            jsonwebtoken::Algorithm::HS256,
        ).unwrap_or(false),
        Err(_) => false,
    }
}

} // verus!
