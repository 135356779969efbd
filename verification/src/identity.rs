//! Where a caller's identity lives between requests: either directly inside
//! a tamper-evident cookie, or as an opaque session id whose identity lives
//! in the shared store. Both variants clear the identity entirely on a
//! "forget" and never fabricate one from an absent or unsound cookie.

use vstd::prelude::*;

use crate::codec::{b64_decode, b64_decode_of, b64_encode, b64_of, ct_eq, lemma_b64_alphabet,
    lemma_b64_decode_alphabet, lemma_b64_roundtrip};
use crate::config::{Config, SameSite, config_ok, get_same_site, same_site_of};
use crate::ratelimit::vec_dup;
use crate::session::{SessionStore, field_of, lemma_field_index, session_get};
use crate::token::{lemma_split_dot_roundtrip, mac64_of, split_dot};

verus! {

/// The cookies a request carries, by name.
pub struct RequestCookies {
    pub cookies: Vec<(Vec<u8>, Vec<u8>)>,
}

/// One instruction an outgoing response gives the client: bind the cookie,
/// or remove it when `removal` is set.
pub struct SetCookie {
    pub name: Vec<u8>,
    pub value: Vec<u8>,
    pub max_age_secs: u64,
    pub secure: bool,
    pub same_site: SameSite,
    pub removal: bool,
}

/// The cookie instructions accumulated on an outgoing response.
pub struct ResponseCookies {
    pub set_cookies: Vec<SetCookie>,
}

impl ResponseCookies {
    /// A response that says nothing about cookies yet.
    pub fn new() -> (r: Self)
        ensures
            r.set_cookies@.len() == 0,
    {
        ResponseCookies { set_cookies: Vec::new() }
    }
}

/// The self-contained variant: the identity rides inside the cookie value,
/// signed so that tampering is evident.
pub struct CookiePolicy {
    pub name: Vec<u8>,
    pub secret: Vec<u8>,
    pub max_age_secs: u64,
    pub secure: bool,
    pub same_site: SameSite,
}

/// The protected cookie value for an identity: its base64url form, a dot,
/// and the MAC of that form under the policy's secret.
pub open spec fn cookie_value_of(secret: Seq<u8>, id: Seq<u8>) -> Seq<u8> {
    b64_of(id) + seq![0x2eu8] + mac64_of(secret, b64_of(id))
}

/// What a cookie value yields: the identity it carries, only when its
/// signature matches; anything unsound yields nothing.
pub open spec fn cookie_extract(secret: Seq<u8>, value: Seq<u8>) -> Option<Seq<u8>> {
    match split_dot(value) {
        None => None,
        Some((id64, sig)) => match b64_decode_of(id64) {
            None => None,
            Some(id) => if sig == mac64_of(secret, id64) {
                Some(id)
            } else {
                None
            },
        },
    }
}

/// What extraction over a whole request yields: the policy's cookie is
/// looked up by name, and its value must prove itself.
pub open spec fn extract_spec(secret: Seq<u8>, name: Seq<u8>, cookies: Seq<(Vec<u8>, Vec<u8>)>) -> Option<
    Seq<u8>,
> {
    match field_of(cookies, name) {
        None => None,
        Some(v) => cookie_extract(secret, v),
    }
}

/// Identity round-trip: the value committed for an identity extracts back to
/// exactly that identity.
pub proof fn lemma_cookie_roundtrip(secret: Seq<u8>, id: Seq<u8>)
    ensures
        cookie_extract(secret, cookie_value_of(secret, id)) == Some(id),
{
    lemma_b64_alphabet(id);
    lemma_split_dot_roundtrip(b64_of(id), mac64_of(secret, b64_of(id)));
    lemma_b64_roundtrip(id);
}

/// Identity round-trip over a request: a request whose cookie jar hands the
/// policy's cookie the exact committed value extracts the committed
/// identity.
pub proof fn lemma_commit_extract(
    secret: Seq<u8>,
    name: Seq<u8>,
    id: Seq<u8>,
    cookies: Seq<(Vec<u8>, Vec<u8>)>,
)
    requires
        field_of(cookies, name) == Some(cookie_value_of(secret, id)),
    ensures
        extract_spec(secret, name, cookies) == Some(id),
{
    lemma_cookie_roundtrip(secret, id);
}

/// Logout: a request whose jar no longer carries the policy's cookie — as
/// after a removal instruction — extracts no identity at all.
pub proof fn lemma_cleared_extract(secret: Seq<u8>, name: Seq<u8>, cookies: Seq<(Vec<u8>, Vec<u8>)>)
    requires
        field_of(cookies, name) is None,
    ensures
        extract_spec(secret, name, cookies) is None,
{
}

/// What a client sends back for a cookie after honouring a response's
/// instructions in order: the last instruction for the name wins, and a
/// removal leaves nothing.
pub open spec fn client_cookie(instructions: Seq<SetCookie>, name: Seq<u8>) -> Option<Seq<u8>>
    decreases instructions.len(),
{
    if instructions.len() == 0 {
        None
    } else if instructions.last().name@ == name {
        if instructions.last().removal {
            None
        } else {
            Some(instructions.last().value@)
        }
    } else {
        client_cookie(instructions.drop_last(), name)
    }
}

/// Identity round-trip, end to end: when a response's final instruction for
/// the policy's cookie binds the committed value, the client sends exactly
/// that value back and it extracts to exactly the committed identity.
pub proof fn lemma_identity_roundtrip(
    secret: Seq<u8>,
    name: Seq<u8>,
    id: Seq<u8>,
    instructions: Seq<SetCookie>,
)
    requires
        instructions.len() > 0,
        instructions.last().name@ == name,
        !instructions.last().removal,
        instructions.last().value@ == cookie_value_of(secret, id),
    ensures
        client_cookie(instructions, name) == Some(cookie_value_of(secret, id)),
        cookie_extract(secret, cookie_value_of(secret, id)) == Some(id),
{
    lemma_cookie_roundtrip(secret, id);
}

/// Logout, end to end: after a removal of the policy's cookie the client
/// sends nothing back for it, so no identity survives.
pub proof fn lemma_logout_roundtrip(name: Seq<u8>, instructions: Seq<SetCookie>)
    requires
        instructions.len() > 0,
        instructions.last().name@ == name,
        instructions.last().removal,
    ensures
        client_cookie(instructions, name) is None,
{
}

/// The index of the first cookie under a name.
fn find_cookie(cs: &Vec<(Vec<u8>, Vec<u8>)>, name: &Vec<u8>) -> (r: Option<usize>)
    ensures
        match r {
            Some(i) => i < cs@.len() && cs@[i as int].0@ == name@ && field_of(cs@, name@) == Some(
                cs@[i as int].1@,
            ),
            None => field_of(cs@, name@) is None,
        },
{
    let mut i: usize = 0;
    while i < cs.len()
        invariant
            i <= cs@.len(),
            forall|j: int| 0 <= j < i ==> (#[trigger] cs@[j]).0@ != name@,
        decreases cs@.len() - i,
    {
        if ct_eq(&cs[i].0, name) {
            proof {
                lemma_field_index(cs@, name@, i as int);
            }
            return Some(i);
        }
        i += 1;
    }
    proof {
        lemma_field_index(cs@, name@, cs@.len() as int);
    }
    None
}

impl CookiePolicy {
    /// Read the identity a request proves, if any.
    pub fn extract_identity(&self, req: &RequestCookies) -> (r: Option<Vec<u8>>)
        ensures
            match r {
                Some(id) => extract_spec(self.secret@, self.name@, req.cookies@) == Some(id@),
                None => extract_spec(self.secret@, self.name@, req.cookies@) is None,
            },
    {
        let i = match find_cookie(&req.cookies, &self.name) {
            None => {
                return None;
            },
            Some(i) => i,
        };
        let value = &req.cookies[i].1;
        let (id64, sig) = match crate::token::split_dot_exec(value) {
            None => {
                return None;
            },
            Some(p) => p,
        };
        let id = match b64_decode(&id64) {
            None => {
                return None;
            },
            Some(v) => v,
        };
        proof {
            lemma_b64_decode_alphabet(id64@);
        }
        let mac = crate::token::hmac_sign(&self.secret, &id64);
        if ct_eq(&sig, &mac) {
            Some(id)
        } else {
            None
        }
    }

    /// Commit an identity decision to the outgoing response. When nothing
    /// changed the response is left alone; a new identity is bound under the
    /// policy's cookie, signed; a cleared identity becomes a removal, after
    /// which nothing of it survives a later extract.
    pub fn commit_identity(&self, identity: Option<&Vec<u8>>, changed: bool, resp: &mut ResponseCookies)
        ensures
            !changed ==> final(resp).set_cookies@ == old(resp).set_cookies@,
            changed ==> final(resp).set_cookies@.len() == old(resp).set_cookies@.len() + 1,
            changed ==> (forall|j: int|
                0 <= j < old(resp).set_cookies@.len() ==> final(resp).set_cookies@[j] == old(
                    resp,
                ).set_cookies@[j]),
            changed ==> {
                let c = final(resp).set_cookies@.last();
                &&& c.name@ == self.name@
                &&& c.secure == self.secure
                &&& c.same_site == self.same_site
                &&& (match identity {
                    Some(id) => !c.removal && c.value@ == cookie_value_of(self.secret@, id@)
                        && c.max_age_secs == self.max_age_secs,
                    None => c.removal,
                })
            },
    {
        if !changed {
            return ;
        }
        match identity {
            Some(id) => {
                let id64 = b64_encode(id);
                proof {
                    lemma_b64_alphabet(id@);
                }
                let mac = crate::token::hmac_sign(&self.secret, &id64);
                let mut value = id64;
                value.push(0x2e);
                let mut k: usize = 0;
                proof {
                    assert(identity_view(identity) == id@);
                    assert(value@ =~= b64_of(identity_view(identity)) + seq![0x2eu8] + mac@.take(
                        0,
                    ));
                }
                while k < mac.len()
                    invariant
                        k <= mac@.len(),
                        value@ == b64_of(identity_view(identity)) + seq![0x2eu8] + mac@.take(
                            k as int,
                        ),
                        mac@ == mac64_of(self.secret@, b64_of(identity_view(identity))),
                    decreases mac@.len() - k,
                {
                    value.push(mac[k]);
                    proof {
                        assert(b64_of(identity_view(identity)) + seq![0x2eu8] + mac@.take(k as int)
                            + seq![mac@[k as int]] =~= b64_of(identity_view(identity))
                            + seq![0x2eu8] + mac@.take(k + 1));
                    }
                    k += 1;
                }
                proof {
                    assert(mac@.take(mac@.len() as int) =~= mac@);
                    assert(identity_view(identity) == id@);
                    assert(value@ == cookie_value_of(self.secret@, id@));
                }
                let cookie = SetCookie {
                    name: vec_dup(&self.name),
                    value,
                    max_age_secs: self.max_age_secs,
                    secure: self.secure,
                    same_site: self.same_site,
                    removal: false,
                };
                resp.set_cookies.push(cookie);
            },
            None => {
                let cookie = SetCookie {
                    name: vec_dup(&self.name),
                    value: Vec::new(),
                    max_age_secs: 0,
                    secure: self.secure,
                    same_site: self.same_site,
                    removal: true,
                };
                resp.set_cookies.push(cookie);
            },
        }
    }
}

/// The identity an optional reference carries, for writing contracts over
/// both arms at once.
pub open spec fn identity_view(identity: Option<&Vec<u8>>) -> Seq<u8> {
    match identity {
        Some(id) => id@,
        None => Seq::empty(),
    }
}

/// The store-backed variant: the cookie carries only an opaque session id;
/// the identity itself lives in the shared store under `user_id`.
pub struct RedisSessionPolicy {
}

/// The field the store-backed identity lives under.
pub open spec fn user_id_key() -> Seq<u8> {
    seq![0x75u8, 0x73, 0x65, 0x72, 0x5f, 0x69, 0x64]
}

/// `user_id`
pub fn user_id_key_bytes() -> (r: Vec<u8>)
    ensures
        r@ == user_id_key(),
{
    let mut out: Vec<u8> = Vec::new();
    out.push(0x75);
    out.push(0x73);
    out.push(0x65);
    out.push(0x72);
    out.push(0x5f);
    out.push(0x69);
    out.push(0x64);
    proof {
        assert(out@ =~= user_id_key());
    }
    out
}

impl RedisSessionPolicy {
    pub fn new() -> (r: RedisSessionPolicy) {
        RedisSessionPolicy {  }
    }

    /// Read the identity of the request's session: the `user_id` field of a
    /// live session, nothing for a lapsed or absent one.
    pub fn extract_identity(&self, store: &SessionStore, sid: &Vec<u8>, now: u64) -> (r: Option<
        Vec<u8>,
    >)
        ensures
            match r {
                Some(id) => session_get(*store, sid@, user_id_key(), now) == Some(id@),
                None => session_get(*store, sid@, user_id_key(), now) is None,
            },
    {
        let key = user_id_key_bytes();
        store.get(sid, &key, now)
    }

    /// The response-commit step of this variant leaves the response alone:
    /// identity persistence is delegated to the session layer itself, which
    /// carries the session cookie.
    pub fn commit_identity(
        &self,
        _identity: Option<&Vec<u8>>,
        _changed: bool,
        resp: &mut ResponseCookies,
    )
        ensures
            final(resp).set_cookies@ == old(resp).set_cookies@,
    {
    }
}

/// The session service the application mounts: the shared store primed with
/// the configured TTL, and the knobs of the session cookie itself.
pub struct SessionService {
    pub store: SessionStore,
    pub cookie_name: Vec<u8>,
    pub secret: Vec<u8>,
    pub secure: bool,
    pub same_site: SameSite,
}

/// Build the session service from the configuration: the store's TTL is the
/// configured minutes in seconds, and the session cookie carries the
/// configured name, secret, `Secure` flag and `SameSite` policy.
pub fn get_session_service(config: &Config) -> (r: SessionService)
    requires
        config_ok(*config),
    ensures
        r.store.ttl_secs == config.session_timeout * 60,
        r.store.records@.len() == 0,
        crate::session::store_wf(r.store),
        r.cookie_name@ == config.session_name@,
        r.secret@ == config.session_key@,
        r.secure == config.session_secure,
        r.same_site == same_site_of(config.session_samesite@),
{
    let store = SessionStore::new(config.session_timeout);
    SessionService {
        store,
        cookie_name: vec_dup(&config.session_name),
        secret: vec_dup(&config.session_key),
        secure: config.session_secure,
        same_site: get_same_site(&config.session_samesite),
    }
}

/// `id-`
pub open spec fn id_prefix() -> Seq<u8> {
    seq![0x69u8, 0x64, 0x2d]
}

/// Build the self-contained cookie policy from the configuration: the cookie
/// is named `id-` plus the configured session name, its age is the
/// configured minutes in seconds, and it carries the configured `Secure`
/// flag and `SameSite` policy.
pub fn get_cookie_policy(config: &Config) -> (r: CookiePolicy)
    requires
        config_ok(*config),
    ensures
        r.name@ == id_prefix() + config.session_name@,
        r.secret@ == config.session_key@,
        r.max_age_secs == config.session_timeout * 60,
        r.secure == config.session_secure,
        r.same_site == same_site_of(config.session_samesite@),
{
    let mut name: Vec<u8> = Vec::new();
    name.push(0x69);
    name.push(0x64);
    name.push(0x2d);
    let ghost pre = name@;
    let mut i: usize = 0;
    proof {
        assert(pre + config.session_name@.take(0) =~= pre);
    }
    while i < config.session_name.len()
        invariant
            i <= config.session_name@.len(),
            name@ == pre + config.session_name@.take(i as int),
        decreases config.session_name@.len() - i,
    {
        name.push(config.session_name[i]);
        proof {
            assert(pre + config.session_name@.take(i as int) + seq![config.session_name@[i as int]]
                =~= pre + config.session_name@.take(i + 1));
        }
        i += 1;
    }
    proof {
        assert(pre =~= id_prefix());
        assert(config.session_name@.take(config.session_name@.len() as int)
            =~= config.session_name@);
    }
    CookiePolicy {
        name,
        secret: vec_dup(&config.session_key),
        max_age_secs: config.session_timeout * 60,
        secure: config.session_secure,
        same_site: get_same_site(&config.session_samesite),
    }
}

} // verus!
