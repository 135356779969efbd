//! The error taxonomy of the authentication subsystem.

use vstd::prelude::*;

verus! {

/// Why a token failed verification. Callers branch on `Expired` (to prompt a
/// re-login) and treat the other two as one "invalid token" case.
#[derive(Clone, Copy, Debug, PartialEq, Eq, Structural)]
pub enum TokenDecodeError {
    /// The token's structure or payload could not be read.
    Malformed,
    /// The signature does not match the header and payload.
    SignatureInvalid,
    /// The claim's expiry time has passed.
    Expired,
}

/// Every failure the subsystem reports.
#[derive(Clone, Copy, Debug, PartialEq, Eq, Structural)]
pub enum AuthError {
    /// Email and password do not match a stored credential; lookup misses and
    /// hash mismatches are never distinguished to the caller.
    InvalidCredentials,
    /// A claim could not be serialized into a token.
    TokenEncode,
    /// A token could not be verified.
    TokenDecode(TokenDecodeError),
    /// A required secret or salt is absent or empty; fatal at startup.
    Configuration,
    /// The shared store could not be reached; never treated as an allow or as
    /// an anonymous identity.
    StoreUnavailable,
    /// The fixed-window counter for the caller's key is over capacity.
    RateLimitExceeded,
    /// A login request's fields have an invalid shape.
    Validation,
}

} // verus!
