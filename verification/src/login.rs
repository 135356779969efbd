//! The login and logout flows. Credential lookup is an external
//! collaborator: the caller hands in the record found for the email, and the
//! flow validates the request's shape, verifies the password against the
//! stored hash in constant time, and issues a signed token. A lookup miss
//! and a hash mismatch are never distinguished to the caller.

use vstd::prelude::*;
use vstd::string::StringSliceAdditionalSpecFns;

use crate::codec::ct_eq;
use crate::errors::AuthError;
use crate::hashing::{hash, hash_spec};
use crate::identity::{user_id_key, user_id_key_bytes};
use crate::session::{SessionStore, found_record, session_expiry, session_get, store_wf};
use crate::token::{PrivateClaim, create_jwt, issue_spec, wf_str};

verus! {

/// A login request as the handler receives it.
pub struct LoginRequest {
    pub email: String,
    pub password: String,
}

/// What the credential-lookup collaborator returns for an email: the user's
/// id, email, stored password hash, and per-user salt.
pub struct UserRecord {
    pub id: Vec<u8>,
    pub email: Vec<u8>,
    pub password_hash: Vec<u8>,
    pub salt1: Vec<u8>,
}

/// Whether a string is a well-formed email address, as the `validator`
/// crate's `validate_email` decides it.
pub uninterp spec fn email_valid_of(s: Seq<char>) -> bool;

/// Relies on `validator::validate_email`: whether a string is a well-formed
/// email address, a pure function of the string alone; an empty string is
/// never one.
#[verifier::external_body]
fn validate_email_str(s: &str) -> (r: bool)
    ensures
        r == email_valid_of(s@),
        s@.len() == 0 ==> r == false,
{
    validator::validate_email(s)
}

/// A request the handler works on at all: a well-formed email and a password
/// of at least six characters.
pub open spec fn login_request_ok(email: Seq<char>, password: Seq<char>) -> bool {
    email_valid_of(email) && password.len() >= 6
}

/// Hold a login request to its shape.
pub fn validate(req: &LoginRequest) -> (r: Result<(), AuthError>)
    ensures
        r is Ok <==> login_request_ok(req.email@, req.password@),
        r is Err ==> r == Err::<(), AuthError>(AuthError::Validation),
{
    if !validate_email_str(req.email.as_str()) {
        return Err(AuthError::Validation);
    }
    if req.password.as_str().unicode_len() < 6 {
        return Err(AuthError::Validation);
    }
    Ok(())
}

/// Log a user in: validate the request, verify the password against the
/// stored hash, and issue a signed token for the claim lapsing
/// `jwt_expiration` hours after `now`.
///
/// A request of invalid shape is refused as such; an absent record and a
/// wrong password are both `InvalidCredentials`, never told apart; on a
/// match the result is exactly the issued token for the user's id and email.
pub fn login(
    req: &LoginRequest,
    user: Option<&UserRecord>,
    auth_salt: &Vec<u8>,
    jwt_key: &Vec<u8>,
    now: u64,
    jwt_expiration: u64,
) -> (r: Result<Vec<u8>, AuthError>)
    requires
        auth_salt@.len() > 0,
        now + jwt_expiration * 3600 <= u64::MAX,
        vstd::utf8::encode_utf8(req.password@).len() <= 0xffff_ffff,
        user matches Some(u) ==> 8 <= u.salt1@.len() <= 0xffff_ffff,
    ensures
        !login_request_ok(req.email@, req.password@) ==> r == Err::<Vec<u8>, AuthError>(
            AuthError::Validation,
        ),
        login_request_ok(req.email@, req.password@) && user is None ==> r == Err::<
            Vec<u8>,
            AuthError,
        >(AuthError::InvalidCredentials),
        user matches Some(u) ==> {
            let ok = login_request_ok(req.email@, req.password@);
            let matched = u.password_hash@ == hash_spec(
                vstd::utf8::encode_utf8(req.password@),
                u.salt1@,
                auth_salt@,
            );
            let wf = wf_str(u.id@) && wf_str(u.email@);
            &&& (ok && !matched ==> r == Err::<Vec<u8>, AuthError>(AuthError::InvalidCredentials))
            &&& (ok && matched && wf ==> (r matches Ok(t) && t@ == issue_spec(
                jwt_key@,
                u.id@,
                u.email@,
                (now + jwt_expiration * 3600) as u64,
            )))
            &&& (ok && matched && !wf ==> r == Err::<Vec<u8>, AuthError>(AuthError::TokenEncode))
        },
{
    if let Err(e) = validate(req) {
        return Err(e);
    }
    let u = match user {
        None => {
            return Err(AuthError::InvalidCredentials);
        },
        Some(u) => u,
    };
    let supplied = match hash(req.password.as_str(), &u.salt1, auth_salt) {
        Ok(h) => h,
        Err(e) => {
            return Err(e);
        },
    };
    if !ct_eq(&supplied, &u.password_hash) {
        return Err(AuthError::InvalidCredentials);
    }
    let claim = PrivateClaim::new(
        crate::ratelimit::vec_dup(&u.id),
        crate::ratelimit::vec_dup(&u.email),
        now,
        jwt_expiration,
    );
    create_jwt(&claim, jwt_key)
}

/// Remember a logged-in user in the shared store: the session's `user_id`
/// field is bound to the identity and its TTL re-armed from `now`.
pub fn remember_session(store: &mut SessionStore, sid: &Vec<u8>, user_id: &Vec<u8>, now: u64)
    requires
        store_wf(*old(store)),
        old(store).ttl_secs >= 1,
        now + old(store).ttl_secs <= u64::MAX,
    ensures
        store_wf(*final(store)),
        final(store).ttl_secs == old(store).ttl_secs,
        session_get(*final(store), sid@, user_id_key(), now) == Some(user_id@),
        session_expiry(*final(store), sid@) == Some((now + old(store).ttl_secs) as u64),
        forall|s2: Seq<u8>|
            s2 != sid@ ==> found_record(final(store).records@, s2) == found_record(
                old(store).records@,
                s2,
            ),
{
    let key = user_id_key_bytes();
    store.set(sid, &key, user_id, now);
    store.renew(sid, now);
}

/// Log a user out: destroy the session outright, so no later read of it —
/// any field, any time — yields anything.
pub fn logout(store: &mut SessionStore, sid: &Vec<u8>)
    requires
        store_wf(*old(store)),
    ensures
        store_wf(*final(store)),
        final(store).ttl_secs == old(store).ttl_secs,
        forall|n: Seq<u8>, t: u64| session_get(*final(store), sid@, n, t) is None,
        forall|s2: Seq<u8>|
            s2 != sid@ ==> found_record(final(store).records@, s2) == found_record(
                old(store).records@,
                s2,
            ),
{
    store.clear(sid);
}

} // verus!
