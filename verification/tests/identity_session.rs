//! Identity persistence and session store tests.

use authcore::config::{get_same_site, Config, DatabaseConnection, SameSite};
use authcore::identity::{
    get_cookie_policy, get_session_service, CookiePolicy, RedisSessionPolicy, RequestCookies,
    ResponseCookies,
};
use authcore::i18n::{I18n, MissingStateError, MissingTranslationsError};
use authcore::session::SessionStore;

fn policy() -> CookiePolicy {
    CookiePolicy {
        name: b"id-session".to_vec(),
        secret: b"cookie-signing-secret".to_vec(),
        max_age_secs: 1200,
        secure: true,
        same_site: SameSite::Lax,
    }
}

/// The request a client would send after receiving the response: every bound
/// cookie is carried back, a removed one is not.
fn request_after(resp: &ResponseCookies) -> RequestCookies {
    let mut cookies: Vec<(Vec<u8>, Vec<u8>)> = Vec::new();
    for c in resp.set_cookies.iter() {
        cookies.retain(|(n, _)| *n != c.name);
        if !c.removal {
            cookies.push((c.name.clone(), c.value.clone()));
        }
    }
    RequestCookies { cookies }
}

#[test]
fn identity_round_trip_via_cookie() {
    let p = policy();
    let mut resp = ResponseCookies::new();
    p.commit_identity(Some(&b"u123".to_vec()), true, &mut resp);
    assert_eq!(resp.set_cookies.len(), 1);
    let req = request_after(&resp);
    assert_eq!(p.extract_identity(&req), Some(b"u123".to_vec()));
}

#[test]
fn logout_leaves_no_identity_behind() {
    let p = policy();
    let mut resp = ResponseCookies::new();
    p.commit_identity(Some(&b"u123".to_vec()), true, &mut resp);
    p.commit_identity(None, true, &mut resp);
    let req = request_after(&resp);
    assert_eq!(p.extract_identity(&req), None);
}

#[test]
fn unchanged_identity_writes_nothing() {
    let p = policy();
    let mut resp = ResponseCookies::new();
    p.commit_identity(Some(&b"u123".to_vec()), false, &mut resp);
    assert_eq!(resp.set_cookies.len(), 0);
}

#[test]
fn tampered_cookie_yields_no_identity() {
    let p = policy();
    let mut resp = ResponseCookies::new();
    p.commit_identity(Some(&b"u123".to_vec()), true, &mut resp);
    let mut req = request_after(&resp);
    for i in 0..req.cookies[0].1.len() {
        let mut broken = req.cookies[0].1.clone();
        broken[i] = if broken[i] == b'x' { b'y' } else { b'x' };
        req.cookies[0].1 = broken;
        assert_eq!(p.extract_identity(&req), None);
        req = request_after(&resp);
    }
}

#[test]
fn absent_cookie_yields_no_identity() {
    let p = policy();
    let req = RequestCookies { cookies: Vec::new() };
    assert_eq!(p.extract_identity(&req), None);
}

#[test]
fn session_store_set_get_renew_clear() {
    // one minute of TTL
    let mut store = SessionStore::new(1);
    let sid = b"sess-1".to_vec();
    let field = b"user_id".to_vec();
    store.set(&sid, &field, &b"u42".to_vec(), 0);
    assert_eq!(store.get(&sid, &field, 10), Some(b"u42".to_vec()));
    // the TTL lapses at second 60
    assert_eq!(store.get(&sid, &field, 60), None);
    // renewing re-arms it from the renewal instant
    store.renew(&sid, 30);
    assert_eq!(store.get(&sid, &field, 60), Some(b"u42".to_vec()));
    assert_eq!(store.get(&sid, &field, 90), None);
    // clearing destroys the record outright
    store.renew(&sid, 30);
    store.clear(&sid);
    assert_eq!(store.get(&sid, &field, 31), None);
}

#[test]
fn session_set_does_not_extend_ttl() {
    let mut store = SessionStore::new(1);
    let sid = b"sess-1".to_vec();
    store.set(&sid, &b"a".to_vec(), &b"1".to_vec(), 0);
    store.set(&sid, &b"b".to_vec(), &b"2".to_vec(), 30);
    // still bounded by the first window: set never re-arms
    assert_eq!(store.get(&sid, &b"b".to_vec(), 60), None);
}

#[test]
fn store_backed_identity_reads_the_session() {
    let mut store = SessionStore::new(20);
    let sid = b"sess-9".to_vec();
    let p = RedisSessionPolicy::new();
    assert_eq!(p.extract_identity(&store, &sid, 0), None);
    authcore::login::remember_session(&mut store, &sid, &b"u123".to_vec(), 0);
    assert_eq!(p.extract_identity(&store, &sid, 10), Some(b"u123".to_vec()));
    let mut resp = ResponseCookies::new();
    p.commit_identity(Some(&b"u123".to_vec()), true, &mut resp);
    assert_eq!(resp.set_cookies.len(), 0);
}

fn sample_config() -> Config {
    Config {
        auth_salt: b"processwide-secret".to_vec(),
        database: DatabaseConnection::Mysql,
        database_url: b"mysql://localhost/app".to_vec(),
        jwt_expiration: 24,
        jwt_key: b"0123456789abcdef0123456789abcdef".to_vec(),
        redis_url: b"127.0.0.1:6379".to_vec(),
        rust_log: b"info".to_vec(),
        server: b"127.0.0.1".to_vec(),
        port: b"3000".to_vec(),
        secure_port: b"3443".to_vec(),
        session_key: b"session-signing-secret-0123456789".to_vec(),
        session_name: b"app-session".to_vec(),
        session_secure: false,
        session_samesite: b"strict".to_vec(),
        session_timeout: 20,
        actix_ssl_cert_file: b"cert.pem".to_vec(),
        actix_ssl_key_file: b"key.pem".to_vec(),
    }
}

#[test]
fn it_gets_a_config() {
    let config = sample_config();
    assert_ne!(config.server, b"".to_vec());
}

#[test]
fn it_gets_a_config_from_the_lazy_static() {
    let config = sample_config();
    config.validate().unwrap();
    assert_ne!(config.server, b"".to_vec());
}

#[test]
fn empty_secrets_fail_validation() {
    let mut config = sample_config();
    config.jwt_key = Vec::new();
    assert_eq!(
        config.validate(),
        Err(authcore::errors::AuthError::Configuration)
    );
}

#[test]
fn same_site_parsing_is_case_insensitive_with_lax_default() {
    assert_eq!(get_same_site(&b"strict".to_vec()), SameSite::Strict);
    assert_eq!(get_same_site(&b"STRICT".to_vec()), SameSite::Strict);
    assert_eq!(get_same_site(&b"None".to_vec()), SameSite::CrossSite);
    assert_eq!(get_same_site(&b"lax".to_vec()), SameSite::Lax);
    assert_eq!(get_same_site(&b"anything".to_vec()), SameSite::Lax);
    assert_eq!(get_same_site(&b"".to_vec()), SameSite::Lax);
}

#[test]
fn constructors_apply_the_configuration() {
    let config = sample_config();
    let p = get_cookie_policy(&config);
    assert_eq!(p.name, b"id-app-session".to_vec());
    assert_eq!(p.max_age_secs, 20 * 60);
    assert_eq!(p.same_site, SameSite::Strict);
    assert!(!p.secure);
    let s = get_session_service(&config);
    assert_eq!(s.store.ttl_secs, 20 * 60);
    assert_eq!(s.cookie_name, b"app-session".to_vec());
}

#[test]
fn language_defaults_to_english() {
    let i = I18n::from_header(None);
    assert_eq!(i.lang, "en");
    let i = I18n::from_header(Some("de".to_string()));
    assert_eq!(i.lang, "de");
}

#[test]
fn error_messages_name_their_cause() {
    let e = MissingTranslationsError("fr".to_string());
    assert_eq!(e.message(), "Could not find translations for fr");
    assert_eq!(MissingStateError.message(), "Could not retrieve state");
}
