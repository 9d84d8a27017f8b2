//! Trusted boundary around the outside cryptography, the clock and the
//! random identifier source. Everything else in the crate is verified
//! against the contracts stated here.

use vstd::prelude::*;

verus! {

/// The base64url text of the HMAC-SHA256 tag of `message` under `secret`,
/// as the signing backend renders it. A function of its arguments alone.
pub uninterp spec fn hmac_tag(secret: Seq<char>, message: Seq<char>) -> Seq<char>;

/// The outcome of asking the verifying backend whether `signature` matches
/// `message` under `secret`: `Some(b)` for a definite answer, `None` when
/// the signature is not even well-formed base64url text.
pub uninterp spec fn hmac_verify_outcome(
    secret: Seq<char>,
    message: Seq<char>,
    signature: Seq<char>,
) -> Option<bool>;

/// A tag that the verifying backend accepts for `message` under `secret`
/// and that contains no '.' character, the token separator.
pub open spec fn accepted_tag(secret: Seq<char>, message: Seq<char>, tag: Seq<char>) -> bool {
    &&& hmac_verify_outcome(secret, message, tag) == Some(true)
    &&& forall|i: int| 0 <= i < tag.len() ==> tag[i] != '.'
}

/// Relies on jsonwebtoken::crypto::sign with HS256: the result is the
/// base64url rendering of the HMAC-SHA256 tag of the message under the
/// secret, a function of the two arguments alone; its alphabet contains no
/// '.'; and jsonwebtoken::crypto::verify accepts it for the same message
/// and secret. With an HMAC key from EncodingKey::from_secret the signing
/// path cannot fail.
#[verifier::external_body]
pub(crate) fn hs256_sign(secret: &str, message: &str) -> (r: String)
    ensures
        r@ == hmac_tag(secret@, message@),
        accepted_tag(secret@, message@, r@),
{
    let key = jsonwebtoken::EncodingKey::from_secret(secret.as_bytes());
    jsonwebtoken::crypto::sign(message.as_bytes(), &key, jsonwebtoken::Algorithm::HS256).unwrap()
}

/// Relies on jsonwebtoken::crypto::verify with HS256: it recomputes the
/// HMAC-SHA256 tag of the message and compares; the outcome is a function
/// of secret, message and signature alone. `None` stands for its error
/// case (the signature is not valid base64url text).
#[verifier::external_body]
pub(crate) fn hs256_verify(secret: &str, message: &Vec<char>, signature: &Vec<char>) -> (r:
    Option<bool>)
    ensures
        r == hmac_verify_outcome(secret@, message@, signature@),
{
    let msg: String = message.iter().collect();
    let sig: String = signature.iter().collect();
    let key = jsonwebtoken::DecodingKey::from_secret(secret.as_bytes());
    match jsonwebtoken::crypto::verify(&sig, msg.as_bytes(), &key, jsonwebtoken::Algorithm::HS256) {
        Ok(b) => Some(b),
        Err(_) => None,
    }
}

/// Relies on chrono::Utc::now and DateTime::timestamp: seconds since the
/// Unix epoch, taken as the two's-complement image of the signed count.
/// Nothing is promised of the clock's value.
#[verifier::external_body]
pub(crate) fn now_unix_seconds() -> u64 {
    chrono::Utc::now().timestamp() as u64
}

/// Relies on uuid::Uuid::new_v4 and its hyphenated rendering: a fresh
/// random identifier. Nothing is promised of the value.
#[verifier::external_body]
pub(crate) fn fresh_token_id() -> String {
    uuid::Uuid::new_v4().to_string()
}

} // verus!
