//! Credential issuance/verification and per-user, per-resource quota
//! enforcement: a signed bearer-token layer over HMAC-SHA256 and a
//! token-bucket rate limiter whose state can be persisted and restored.

pub mod crypto;
pub mod hexnum;
pub mod rate_limiter;
pub mod strutil;
pub mod token;

use vstd::prelude::*;

verus! {

/// Identifier of a principal.
#[derive(Clone, Copy, Debug, PartialEq, Eq, Structural)]
pub struct UserId(pub i32);

impl UserId {
    /// The wire representation of a user id, as carried inside credential
    /// claims.
    pub fn to_proto(self) -> (r: u64)
        ensures
            r == self.0 as u64,
    {
        #[verifier::truncate]
        let r = self.0 as u64;
        r
    }
}

} // verus!
