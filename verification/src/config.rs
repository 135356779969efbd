//! The configuration the subsystem is built from: secrets, salts, cookie
//! knobs and timeouts, constructed once at startup and passed by reference
//! into each component's constructor.

use vstd::prelude::*;

use crate::errors::AuthError;

verus! {

/// Which database engine the application connects to.
#[derive(Clone, Copy, Debug, PartialEq, Eq, Structural)]
pub enum DatabaseConnection {
    Mysql,
}

/// The cookie `SameSite` attribute. `CrossSite` stands for the attribute
/// value `None`.
#[derive(Clone, Copy, Debug, PartialEq, Eq, Structural)]
pub enum SameSite {
    Strict,
    Lax,
    CrossSite,
}

/// Everything the application reads from its environment. String-valued
/// settings are carried as bytes; the application's edge converts.
pub struct Config {
    pub auth_salt: Vec<u8>,
    pub database: DatabaseConnection,
    pub database_url: Vec<u8>,
    pub jwt_expiration: u64,
    pub jwt_key: Vec<u8>,
    pub redis_url: Vec<u8>,
    pub rust_log: Vec<u8>,
    pub server: Vec<u8>,
    pub port: Vec<u8>,
    pub secure_port: Vec<u8>,
    pub session_key: Vec<u8>,
    pub session_name: Vec<u8>,
    pub session_secure: bool,
    pub session_samesite: Vec<u8>,
    pub session_timeout: u64,
    pub actix_ssl_cert_file: Vec<u8>,
    pub actix_ssl_key_file: Vec<u8>,
}

/// ASCII upper-casing of one byte.
pub open spec fn upper_byte(b: u8) -> u8 {
    if 0x61 <= b <= 0x7a {
        (b - 0x20) as u8
    } else {
        b
    }
}

pub open spec fn upper_of(s: Seq<u8>) -> Seq<u8> {
    Seq::new(s.len(), |i: int| upper_byte(s[i]))
}

/// `STRICT`
pub open spec fn strict_lit() -> Seq<u8> {
    seq![0x53u8, 0x54, 0x52, 0x49, 0x43, 0x54]
}

/// `NONE`
pub open spec fn none_lit() -> Seq<u8> {
    seq![0x4eu8, 0x4f, 0x4e, 0x45]
}

/// The `SameSite` policy a configured string selects: a case-insensitive
/// `STRICT` or `NONE`, and `Lax` for anything else, the empty string
/// included.
pub open spec fn same_site_of(s: Seq<u8>) -> SameSite {
    if upper_of(s) == strict_lit() {
        SameSite::Strict
    } else if upper_of(s) == none_lit() {
        SameSite::CrossSite
    } else {
        SameSite::Lax
    }
}

/// Read the configured `SameSite` string.
pub fn get_same_site(s: &Vec<u8>) -> (r: SameSite)
    ensures
        r == same_site_of(s@),
{
    let mut up: Vec<u8> = Vec::new();
    let mut i: usize = 0;
    while i < s.len()
        invariant
            i <= s@.len(),
            up@ == upper_of(s@).take(i as int),
        decreases s@.len() - i,
    {
        let b = s[i];
        let u = if 0x61 <= b && b <= 0x7a {
            b - 0x20
        } else {
            b
        };
        up.push(u);
        proof {
            assert(upper_of(s@).take(i as int) + seq![upper_of(s@)[i as int]] =~= upper_of(
                s@,
            ).take(i + 1));
        }
        i += 1;
    }
    proof {
        assert(upper_of(s@).take(s@.len() as int) =~= upper_of(s@));
    }
    let mut strict: Vec<u8> = Vec::new();
    strict.push(0x53);
    strict.push(0x54);
    strict.push(0x52);
    strict.push(0x49);
    strict.push(0x43);
    strict.push(0x54);
    proof {
        assert(strict@ =~= strict_lit());
    }
    if crate::codec::ct_eq(&up, &strict) {
        return SameSite::Strict;
    }
    let mut none_s: Vec<u8> = Vec::new();
    none_s.push(0x4e);
    none_s.push(0x4f);
    none_s.push(0x4e);
    none_s.push(0x45);
    proof {
        assert(none_s@ =~= none_lit());
    }
    if crate::codec::ct_eq(&up, &none_s) {
        return SameSite::CrossSite;
    }
    SameSite::Lax
}

/// The widest session timeout, in minutes, the arithmetic below admits.
pub const MAX_SESSION_TIMEOUT: u64 = 0xffff_ffff;

/// The widest token expiration, in hours, the arithmetic below admits.
pub const MAX_JWT_EXPIRATION: u64 = 0xffff_ffff;

/// A configuration the subsystem can start from: every required secret and
/// salt is present and non-empty, and the timeouts are positive and small
/// enough for the second-level arithmetic they feed.
pub open spec fn config_ok(c: Config) -> bool {
    &&& c.auth_salt@.len() > 0
    &&& c.jwt_key@.len() > 0
    &&& c.session_key@.len() > 0
    &&& 1 <= c.session_timeout <= MAX_SESSION_TIMEOUT
    &&& 1 <= c.jwt_expiration <= MAX_JWT_EXPIRATION
}

impl Config {
    /// Hold the configuration to what startup demands; this failing is fatal
    /// and never recovered per request.
    pub fn validate(&self) -> (r: Result<(), AuthError>)
        ensures
            r is Ok <==> config_ok(*self),
            r is Err ==> r == Err::<(), AuthError>(AuthError::Configuration),
    {
        if self.auth_salt.len() == 0 {
            return Err(AuthError::Configuration);
        }
        if self.jwt_key.len() == 0 {
            return Err(AuthError::Configuration);
        }
        if self.session_key.len() == 0 {
            return Err(AuthError::Configuration);
        }
        if self.session_timeout < 1 || self.session_timeout > MAX_SESSION_TIMEOUT {
            return Err(AuthError::Configuration);
        }
        if self.jwt_expiration < 1 || self.jwt_expiration > MAX_JWT_EXPIRATION {
            return Err(AuthError::Configuration);
        }
        Ok(())
    }
}

} // verus!
