//! Rate limiter and login flow tests.

use authcore::errors::{AuthError, TokenDecodeError};
use authcore::hashing::hash;
use authcore::login::{login, logout, remember_session, LoginRequest, UserRecord};
use authcore::ratelimit::{get_ip_rate_limiter, rate_key, Decision};
use authcore::session::SessionStore;
use authcore::token::decode_jwt;

#[test]
fn two_hundred_requests_pass_and_the_next_is_rejected() {
    let mut limiter = get_ip_rate_limiter();
    let key = rate_key(Some(&b"u1".to_vec()), &b"10.0.0.9".to_vec());
    for _ in 0..200 {
        assert_eq!(limiter.permit(&key, 0), Decision::Allow);
    }
    assert_eq!(limiter.permit(&key, 0), Decision::Reject);
    assert_eq!(limiter.permit(&key, 29), Decision::Reject);
    // the 30-second window opened at 0 lapses at 30
    assert_eq!(limiter.permit(&key, 30), Decision::Allow);
}

#[test]
fn keys_are_throttled_independently() {
    let mut limiter = get_ip_rate_limiter();
    let k1 = rate_key(Some(&b"u1".to_vec()), &b"10.0.0.9".to_vec());
    let k2 = rate_key(None, &b"10.0.0.9".to_vec());
    for _ in 0..200 {
        assert_eq!(limiter.permit(&k1, 0), Decision::Allow);
    }
    assert_eq!(limiter.permit(&k1, 0), Decision::Reject);
    assert_eq!(limiter.permit(&k2, 0), Decision::Allow);
}

#[test]
fn the_key_joins_identity_and_remote_address() {
    assert_eq!(
        rate_key(Some(&b"u1".to_vec()), &b"10.0.0.9".to_vec()),
        b"u110.0.0.9".to_vec()
    );
    assert_eq!(rate_key(None, &b"10.0.0.9".to_vec()), b"10.0.0.9".to_vec());
}

fn auth_salt() -> Vec<u8> {
    b"processwide-secret".to_vec()
}

fn jwt_key() -> Vec<u8> {
    b"0123456789abcdef0123456789abcdef".to_vec()
}

fn stored_user(email: &str, password: &str) -> UserRecord {
    let salt1 = b"abcdefghijklmnopqrstuvwxyz012345".to_vec();
    let password_hash = hash(password, &salt1, &auth_salt()).unwrap();
    UserRecord {
        id: b"7d7155f2-4ff5-4b27-8afd-6b00f4d8ba4f".to_vec(),
        email: email.as_bytes().to_vec(),
        password_hash,
        salt1,
    }
}

const NOW: u64 = 1_600_000_000;

#[test]
fn login_with_correct_credentials_issues_a_token_for_the_email() {
    let user = stored_user("a@b.com", "validpass");
    let req = LoginRequest {
        email: "a@b.com".to_string(),
        password: "validpass".to_string(),
    };
    let token = login(&req, Some(&user), &auth_salt(), &jwt_key(), NOW, 24).unwrap();
    let claim = decode_jwt(&token, &jwt_key(), NOW + 1).unwrap();
    assert_eq!(claim.email, b"a@b.com".to_vec());
    assert_eq!(claim.user_id, user.id);
    assert_eq!(claim.expires_at(), NOW + 24 * 3600);
}

#[test]
fn login_with_a_wrong_password_is_invalid_credentials() {
    let user = stored_user("a@b.com", "validpass");
    let req = LoginRequest {
        email: "a@b.com".to_string(),
        password: "wrongpass".to_string(),
    };
    assert_eq!(
        login(&req, Some(&user), &auth_salt(), &jwt_key(), NOW, 24),
        Err(AuthError::InvalidCredentials)
    );
}

#[test]
fn login_for_an_unknown_email_is_the_same_invalid_credentials() {
    let req = LoginRequest {
        email: "a@b.com".to_string(),
        password: "validpass".to_string(),
    };
    assert_eq!(
        login(&req, None, &auth_salt(), &jwt_key(), NOW, 24),
        Err(AuthError::InvalidCredentials)
    );
}

#[test]
fn malformed_requests_are_refused_before_any_lookup() {
    let user = stored_user("a@b.com", "validpass");
    let req = LoginRequest {
        email: "notanemail".to_string(),
        password: "validpass".to_string(),
    };
    assert_eq!(
        login(&req, Some(&user), &auth_salt(), &jwt_key(), NOW, 24),
        Err(AuthError::Validation)
    );
    let req = LoginRequest {
        email: "a@b.com".to_string(),
        password: "short".to_string(),
    };
    assert_eq!(
        login(&req, Some(&user), &auth_salt(), &jwt_key(), NOW, 24),
        Err(AuthError::Validation)
    );
}

#[test]
fn it_logs_a_user_in() {
    let user = stored_user("satoshi@nakamotoinstitute.org", "123456");
    let req = LoginRequest {
        email: "satoshi@nakamotoinstitute.org".to_string(),
        password: "123456".to_string(),
    };
    let response = login(&req, Some(&user), &auth_salt(), &jwt_key(), NOW, 24);
    assert!(response.is_ok());
}

#[test]
fn it_logs_a_user_out() {
    let user = stored_user("satoshi@nakamotoinstitute.org", "123456");
    let req = LoginRequest {
        email: "satoshi@nakamotoinstitute.org".to_string(),
        password: "123456".to_string(),
    };
    login(&req, Some(&user), &auth_salt(), &jwt_key(), NOW, 24).unwrap();
    let mut store = SessionStore::new(20);
    let sid = b"sess-1".to_vec();
    remember_session(&mut store, &sid, &user.id, 0);
    logout(&mut store, &sid);
    assert_eq!(store.get(&sid, &b"user_id".to_vec(), 1), None);
}

#[test]
fn an_issued_login_token_expires() {
    let user = stored_user("a@b.com", "validpass");
    let req = LoginRequest {
        email: "a@b.com".to_string(),
        password: "validpass".to_string(),
    };
    let token = login(&req, Some(&user), &auth_salt(), &jwt_key(), NOW, 24).unwrap();
    assert_eq!(
        decode_jwt(&token, &jwt_key(), NOW + 24 * 3600),
        Err(TokenDecodeError::Expired)
    );
}
