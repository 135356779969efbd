//! Signed, time-bounded identity tokens: a claim is serialized to JSON,
//! base64url-encoded, and joined with a fixed header and an HMAC signature
//! into a three-part dot-separated token. Verification recomputes the
//! signature with a constant-time comparison and then checks expiry.

use vstd::prelude::*;

use crate::codec::{
    b64_decode, b64_decode_of, b64_encode, b64_of, ct_eq, dec_of, lemma_b64_alphabet,
    lemma_b64_roundtrip, lemma_dec_digits, lemma_dec_roundtrip, parse_u64, parse_u64_rec,
};
use crate::errors::{AuthError, TokenDecodeError};

verus! {

/// The mathematical content of a claim: who, their email, and when the claim
/// lapses, in epoch seconds.
pub ghost struct ClaimView {
    pub user_id: Seq<u8>,
    pub email: Seq<u8>,
    pub exp: u64,
}

/// The set of identity facts embedded in a signed token. `exp` is fixed at
/// construction as the issue time plus the configured expiration.
#[derive(Debug)]
pub struct PrivateClaim {
    pub user_id: Vec<u8>,
    pub email: Vec<u8>,
    exp: u64,
}

impl View for PrivateClaim {
    type V = ClaimView;

    closed spec fn view(&self) -> ClaimView {
        ClaimView { user_id: self.user_id@, email: self.email@, exp: self.exp }
    }
}

impl PartialEq for PrivateClaim {
    fn eq(&self, other: &Self) -> (r: bool) {
        ct_eq(&self.user_id, &other.user_id) && ct_eq(&self.email, &other.email) && self.exp
            == other.exp
    }
}

impl vstd::std_specs::cmp::PartialEqSpecImpl for PrivateClaim {
    open spec fn obeys_eq_spec() -> bool {
        true
    }

    open spec fn eq_spec(&self, other: &Self) -> bool {
        self@ == other@
    }
}

impl PrivateClaim {
    /// Build a claim lapsing `expiration_hours` hours after `now`.
    pub fn new(user_id: Vec<u8>, email: Vec<u8>, now: u64, expiration_hours: u64) -> (r: Self)
        requires
            now + expiration_hours * 3600 <= u64::MAX,
        ensures
            r@.user_id == user_id@,
            r@.email == email@,
            r@.exp == now + expiration_hours * 3600,
    {
        let exp = now + expiration_hours * 3600;
        PrivateClaim { user_id, email, exp }
    }

    /// The epoch second from which the claim is no longer valid.
    pub fn expires_at(&self) -> (r: u64)
        ensures
            r == self@.exp,
    {
        self.exp
    }
}

/// A byte that may stand unescaped inside a JSON string: not a quote, not a
/// backslash, not a control byte.
pub open spec fn is_name_byte(b: u8) -> bool {
    b != 0x22 && b != 0x5c && b >= 0x20
}

pub open spec fn wf_str(s: Seq<u8>) -> bool {
    forall|i: int| 0 <= i < s.len() ==> is_name_byte(#[trigger] s[i])
}

/// A claim serializes cleanly when both string fields need no JSON escaping.
pub open spec fn claim_wf(c: ClaimView) -> bool {
    wf_str(c.user_id) && wf_str(c.email)
}

/// `{"user_id":"`
pub open spec fn lit_uid() -> Seq<u8> {
    seq![0x7bu8, 0x22, 0x75, 0x73, 0x65, 0x72, 0x5f, 0x69, 0x64, 0x22, 0x3a, 0x22]
}

/// `,"email":"`
pub open spec fn lit_email() -> Seq<u8> {
    seq![0x2cu8, 0x22, 0x65, 0x6d, 0x61, 0x69, 0x6c, 0x22, 0x3a, 0x22]
}

/// `,"exp":`
pub open spec fn lit_exp() -> Seq<u8> {
    seq![0x2cu8, 0x22, 0x65, 0x78, 0x70, 0x22, 0x3a]
}

/// The canonical JSON payload of a claim.
pub open spec fn claim_json(uid: Seq<u8>, email: Seq<u8>, exp: u64) -> Seq<u8> {
    lit_uid() + uid + seq![0x22u8] + lit_email() + email + seq![0x22u8] + lit_exp() + dec_of(exp)
        + seq![0x7du8]
}

/// Read a JSON string body up to its closing quote; `None` on a byte that
/// would have needed escaping.
pub open spec fn parse_name(s: Seq<u8>) -> Option<(Seq<u8>, Seq<u8>)>
    decreases s.len(),
{
    if s.len() == 0 {
        None
    } else if s[0] == 0x22 {
        Some((Seq::empty(), s.skip(1)))
    } else if is_name_byte(s[0]) {
        match parse_name(s.skip(1)) {
            Some(p) => Some((seq![s[0]] + p.0, p.1)),
            None => None,
        }
    } else {
        None
    }
}

/// Where the scan of a string body ends, `parse_name` is decided: a quote at
/// the first non-name position closes the string, anything else rejects it.
pub proof fn lemma_parse_name_at(s: Seq<u8>, i: int)
    requires
        0 <= i <= s.len(),
        forall|j: int| 0 <= j < i ==> is_name_byte(#[trigger] s[j]),
    ensures
        i < s.len() && s[i] == 0x22 ==> parse_name(s) == Some((s.take(i), s.skip(i + 1))),
        i < s.len() && !is_name_byte(s[i]) && s[i] != 0x22 ==> parse_name(s) is None,
        i == s.len() ==> parse_name(s) is None,
    decreases i,
{
    if i == 0 {
        if 0 < s.len() && s[0] == 0x22 {
            assert(s.take(0) =~= Seq::<u8>::empty());
        }
    } else {
        lemma_parse_name_at(s.skip(1), i - 1);
        assert(s[0] != 0x22 && is_name_byte(s[0]));
        if i < s.len() && s[i] == 0x22 {
            assert(s.skip(1)[i - 1] == s[i]);
            assert(seq![s[0]] + s.skip(1).take(i - 1) =~= s.take(i));
            assert(s.skip(1).skip(i) =~= s.skip(i + 1));
        } else if i < s.len() {
            assert(s.skip(1)[i - 1] == s[i]);
        }
    }
}

/// A well-formed string body followed by its closing quote parses back out.
pub proof fn lemma_parse_name_roundtrip(content: Seq<u8>, rest: Seq<u8>)
    requires
        wf_str(content),
    ensures
        parse_name(content + seq![0x22u8] + rest) == Some((content, rest)),
{
    let s = content + seq![0x22u8] + rest;
    let i = content.len() as int;
    assert(forall|j: int| 0 <= j < i ==> is_name_byte(#[trigger] s[j]));
    assert(s[i] == 0x22);
    lemma_parse_name_at(s, i);
    assert(s.take(i) =~= content);
    assert(s.skip(i + 1) =~= rest);
}

/// Split at the first dot: the part before it and everything after it.
pub open spec fn split_dot(s: Seq<u8>) -> Option<(Seq<u8>, Seq<u8>)>
    decreases s.len(),
{
    if s.len() == 0 {
        None
    } else if s[0] == 0x2e {
        Some((Seq::empty(), s.skip(1)))
    } else {
        match split_dot(s.skip(1)) {
            Some(p) => Some((seq![s[0]] + p.0, p.1)),
            None => None,
        }
    }
}

/// Where the first dot falls, `split_dot` is decided.
pub proof fn lemma_split_dot_at(s: Seq<u8>, i: int)
    requires
        0 <= i <= s.len(),
        forall|j: int| 0 <= j < i ==> #[trigger] s[j] != 0x2e,
    ensures
        i < s.len() && s[i] == 0x2e ==> split_dot(s) == Some((s.take(i), s.skip(i + 1))),
        i == s.len() ==> split_dot(s) is None,
    decreases i,
{
    if i == 0 {
        if 0 < s.len() && s[0] == 0x2e {
            assert(s.take(0) =~= Seq::<u8>::empty());
        }
    } else {
        lemma_split_dot_at(s.skip(1), i - 1);
        if i < s.len() && s[i] == 0x2e {
            assert(s.skip(1)[i - 1] == s[i]);
            assert(seq![s[0]] + s.skip(1).take(i - 1) =~= s.take(i));
            assert(s.skip(1).skip(i) =~= s.skip(i + 1));
        }
    }
}

/// A dot-free part followed by a dot splits back out.
pub proof fn lemma_split_dot_roundtrip(head: Seq<u8>, rest: Seq<u8>)
    requires
        forall|j: int| 0 <= j < head.len() ==> #[trigger] head[j] != 0x2e,
    ensures
        split_dot(head + seq![0x2eu8] + rest) == Some((head, rest)),
{
    let s = head + seq![0x2eu8] + rest;
    let i = head.len() as int;
    assert(forall|j: int| 0 <= j < i ==> #[trigger] s[j] != 0x2e);
    assert(s[i] == 0x2e);
    lemma_split_dot_at(s, i);
    assert(s.take(i) =~= head);
    assert(s.skip(i + 1) =~= rest);
}

/// `p` starts `s`.
pub open spec fn prefix_of(p: Seq<u8>, s: Seq<u8>) -> bool {
    p.len() <= s.len() && s.take(p.len() as int) == p
}

/// Parse the canonical claim payload: the three fields in order, nothing
/// more, nothing less.
pub open spec fn parse_claim(s: Seq<u8>) -> Option<(Seq<u8>, Seq<u8>, u64)> {
    if !prefix_of(lit_uid(), s) {
        None
    } else {
        match parse_name(s.skip(12)) {
            None => None,
            Some((uid, r1)) => {
                if !prefix_of(lit_email(), r1) {
                    None
                } else {
                    match parse_name(r1.skip(10)) {
                        None => None,
                        Some((email, r2)) => {
                            if !prefix_of(lit_exp(), r2) {
                                None
                            } else {
                                let r3 = r2.skip(7);
                                if r3.len() < 2 || r3[r3.len() - 1] != 0x7d {
                                    None
                                } else {
                                    match parse_u64_rec(r3.take(r3.len() - 1), 0) {
                                        None => None,
                                        Some(exp) => Some((uid, email, exp)),
                                    }
                                }
                            }
                        },
                    }
                }
            },
        }
    }
}

/// Parsing inverts serialization for a well-formed claim.
pub proof fn lemma_claim_roundtrip(uid: Seq<u8>, email: Seq<u8>, exp: u64)
    requires
        wf_str(uid),
        wf_str(email),
    ensures
        parse_claim(claim_json(uid, email, exp)) == Some((uid, email, exp)),
{
    let s = claim_json(uid, email, exp);
    let tail1 = lit_email() + email + seq![0x22u8] + lit_exp() + dec_of(exp) + seq![0x7du8];
    let tail2 = lit_exp() + dec_of(exp) + seq![0x7du8];
    assert(s.take(12) =~= lit_uid());
    assert(s.skip(12) =~= uid + seq![0x22u8] + tail1);
    lemma_parse_name_roundtrip(uid, tail1);
    assert(tail1.take(10) =~= lit_email());
    assert(tail1.skip(10) =~= email + seq![0x22u8] + tail2);
    lemma_parse_name_roundtrip(email, tail2);
    assert(tail2.take(7) =~= lit_exp());
    let r3 = tail2.skip(7);
    assert(r3 =~= dec_of(exp) + seq![0x7du8]);
    lemma_dec_digits(exp);
    assert(r3.len() >= 2);
    assert(r3[r3.len() - 1] == 0x7d);
    assert(r3.take(r3.len() - 1) =~= dec_of(exp));
    lemma_dec_roundtrip(exp);
}

/// `{"alg":"HS256","typ":"JWT"}`
pub open spec fn header_json() -> Seq<u8> {
    seq![
        0x7bu8, 0x22, 0x61, 0x6c, 0x67, 0x22, 0x3a, 0x22, 0x48, 0x53, 0x32, 0x35, 0x36, 0x22,
        0x2c, 0x22, 0x74, 0x79, 0x70, 0x22, 0x3a, 0x22, 0x4a, 0x57, 0x54, 0x22, 0x7d,
    ]
}

/// The header segment every issued token starts with.
pub open spec fn header64() -> Seq<u8> {
    b64_of(header_json())
}

/// The base64url form of the HMAC-SHA256 of a message under a secret, as
/// `jsonwebtoken` computes it.
pub uninterp spec fn mac64_of(secret: Seq<u8>, message: Seq<u8>) -> Seq<u8>;

/// Relies on `jsonwebtoken::crypto::sign` with HS256: the result is the
/// base64url form of the HMAC-SHA256 of the message under the secret, a pure
/// function of those two byte strings alone; with an HMAC algorithm `sign`
/// never returns an error. The message must be ASCII so that it can be handed
/// over as a string slice.
#[verifier::external_body]
pub(crate) fn hmac_sign(secret: &Vec<u8>, message: &Vec<u8>) -> (r: Vec<u8>)
    requires
        forall|i: int| 0 <= i < message@.len() ==> message@[i] < 128,
    ensures
        r@ == mac64_of(secret@, message@),
{
    let msg = core::str::from_utf8(message.as_slice()).unwrap();
    let key = jsonwebtoken::EncodingKey::from_secret(secret.as_slice());
    jsonwebtoken::crypto::sign(msg, &key, jsonwebtoken::Algorithm::HS256).unwrap().into_bytes()
}

/// The signing input of a claim: header and payload segments joined by a dot.
pub open spec fn signing_input(uid: Seq<u8>, email: Seq<u8>, exp: u64) -> Seq<u8> {
    header64() + seq![0x2eu8] + b64_of(claim_json(uid, email, exp))
}

/// The complete issued token for a claim under a secret.
pub open spec fn issue_spec(secret: Seq<u8>, uid: Seq<u8>, email: Seq<u8>, exp: u64) -> Seq<u8> {
    signing_input(uid, email, exp) + seq![0x2eu8] + mac64_of(secret, signing_input(uid, email, exp))
}

/// What verification returns for any token at any time: the claim fields on
/// success, and which of the three failures otherwise. Structure is read
/// first, then the signature, then expiry, so an expired token with a bad
/// signature is reported as signature-invalid, never silently accepted.
pub open spec fn verify_spec(secret: Seq<u8>, token: Seq<u8>, now: u64) -> Result<
    (Seq<u8>, Seq<u8>, u64),
    TokenDecodeError,
> {
    match split_dot(token) {
        None => Err(TokenDecodeError::Malformed),
        Some((h, rest)) => match split_dot(rest) {
            None => Err(TokenDecodeError::Malformed),
            Some((p, sig)) => {
                if h != header64() {
                    Err(TokenDecodeError::Malformed)
                } else {
                    match b64_decode_of(p) {
                        None => Err(TokenDecodeError::Malformed),
                        Some(pj) => match parse_claim(pj) {
                            None => Err(TokenDecodeError::Malformed),
                            Some((uid, email, exp)) => {
                                if sig != mac64_of(secret, h + seq![0x2eu8] + p) {
                                    Err(TokenDecodeError::SignatureInvalid)
                                } else if now >= exp {
                                    Err(TokenDecodeError::Expired)
                                } else {
                                    Ok((uid, email, exp))
                                }
                            },
                        },
                    }
                }
            },
        },
    }
}

/// How verification treats a token that carries a genuine header and payload
/// and an arbitrary signature segment: only the true MAC is accepted, and
/// expiry is checked only after the signature.
pub proof fn lemma_verify_of_issued_parts(
    secret: Seq<u8>,
    uid: Seq<u8>,
    email: Seq<u8>,
    exp: u64,
    now: u64,
    sig: Seq<u8>,
)
    requires
        wf_str(uid),
        wf_str(email),
    ensures
        verify_spec(secret, signing_input(uid, email, exp) + seq![0x2eu8] + sig, now) == (if sig
            != mac64_of(secret, signing_input(uid, email, exp)) {
            Err::<(Seq<u8>, Seq<u8>, u64), TokenDecodeError>(TokenDecodeError::SignatureInvalid)
        } else if now >= exp {
            Err::<(Seq<u8>, Seq<u8>, u64), TokenDecodeError>(TokenDecodeError::Expired)
        } else {
            Ok::<(Seq<u8>, Seq<u8>, u64), TokenDecodeError>((uid, email, exp))
        }),
{
    let h = header64();
    let p = b64_of(claim_json(uid, email, exp));
    let msg = signing_input(uid, email, exp);
    let token = msg + seq![0x2eu8] + sig;
    lemma_b64_alphabet(header_json());
    lemma_b64_alphabet(claim_json(uid, email, exp));
    assert(token =~= h + seq![0x2eu8] + (p + seq![0x2eu8] + sig));
    lemma_split_dot_roundtrip(h, p + seq![0x2eu8] + sig);
    lemma_split_dot_roundtrip(p, sig);
    lemma_b64_roundtrip(claim_json(uid, email, exp));
    lemma_claim_roundtrip(uid, email, exp);
    assert(h + seq![0x2eu8] + p =~= msg);
}

/// An issued token verifies to exactly its claim at any time strictly before
/// expiry.
pub proof fn lemma_issue_verify_ok(secret: Seq<u8>, uid: Seq<u8>, email: Seq<u8>, exp: u64, now: u64)
    requires
        wf_str(uid),
        wf_str(email),
        now < exp,
    ensures
        verify_spec(secret, issue_spec(secret, uid, email, exp), now) == Ok::<
            (Seq<u8>, Seq<u8>, u64),
            TokenDecodeError,
        >((uid, email, exp)),
{
    lemma_verify_of_issued_parts(
        secret,
        uid,
        email,
        exp,
        now,
        mac64_of(secret, signing_input(uid, email, exp)),
    );
}

/// An issued token is never accepted at or after its expiry: verification
/// fails with the expiration cause.
pub proof fn lemma_issue_verify_expired(
    secret: Seq<u8>,
    uid: Seq<u8>,
    email: Seq<u8>,
    exp: u64,
    now: u64,
)
    requires
        wf_str(uid),
        wf_str(email),
        now >= exp,
    ensures
        verify_spec(secret, issue_spec(secret, uid, email, exp), now) == Err::<
            (Seq<u8>, Seq<u8>, u64),
            TokenDecodeError,
        >(TokenDecodeError::Expired),
{
    lemma_verify_of_issued_parts(
        secret,
        uid,
        email,
        exp,
        now,
        mac64_of(secret, signing_input(uid, email, exp)),
    );
}

/// Any change to the signature segment of an issued token makes verification
/// fail with the signature-invalid cause, whatever the clock says.
pub proof fn lemma_tampered_signature(
    secret: Seq<u8>,
    uid: Seq<u8>,
    email: Seq<u8>,
    exp: u64,
    now: u64,
    sig: Seq<u8>,
)
    requires
        wf_str(uid),
        wf_str(email),
        sig != mac64_of(secret, signing_input(uid, email, exp)),
    ensures
        verify_spec(secret, signing_input(uid, email, exp) + seq![0x2eu8] + sig, now) == Err::<
            (Seq<u8>, Seq<u8>, u64),
            TokenDecodeError,
        >(TokenDecodeError::SignatureInvalid),
{
    lemma_verify_of_issued_parts(secret, uid, email, exp, now, sig);
}

/// Append a copy of `s` to `out`.
fn append_bytes(out: &mut Vec<u8>, s: &Vec<u8>)
    ensures
        final(out)@ == old(out)@ + s@,
{
    let mut i: usize = 0;
    while i < s.len()
        invariant
            i <= s@.len(),
            out@ == old(out)@ + s@.take(i as int),
        decreases s@.len() - i,
    {
        out.push(s[i]);
        proof {
            assert(old(out)@ + s@.take(i as int) + seq![s@[i as int]] =~= old(out)@ + s@.take(
                i + 1,
            ));
        }
        i += 1;
    }
    proof {
        assert(s@.take(s@.len() as int) =~= s@);
    }
}

/// The bytes of `s` from `a` up to `b`.
fn vec_range(s: &Vec<u8>, a: usize, b: usize) -> (r: Vec<u8>)
    requires
        a <= b <= s@.len(),
    ensures
        r@ == s@.subrange(a as int, b as int),
{
    let mut out: Vec<u8> = Vec::new();
    let mut i: usize = a;
    while i < b
        invariant
            a <= i <= b <= s@.len(),
            out@ == s@.subrange(a as int, i as int),
        decreases b - i,
    {
        out.push(s[i]);
        proof {
            assert(s@.subrange(a as int, i as int) + seq![s@[i as int]] =~= s@.subrange(
                a as int,
                i + 1,
            ));
        }
        i += 1;
    }
    out
}

/// Does `s` start with `p`?
fn starts_with(s: &Vec<u8>, p: &Vec<u8>) -> (r: bool)
    ensures
        r == prefix_of(p@, s@),
{
    if p.len() > s.len() {
        proof {
            assert(!prefix_of(p@, s@));
        }
        return false;
    }
    let mut i: usize = 0;
    while i < p.len()
        invariant
            p@.len() <= s@.len(),
            i <= p@.len(),
            forall|j: int| 0 <= j < i ==> s@[j] == p@[j],
        decreases p@.len() - i,
    {
        if s[i] != p[i] {
            proof {
                assert(s@.take(p@.len() as int)[i as int] != p@[i as int]);
            }
            return false;
        }
        i += 1;
    }
    proof {
        assert(s@.take(p@.len() as int) =~= p@);
    }
    true
}

/// Is every byte fit for an unescaped JSON string?
fn check_wf(v: &Vec<u8>) -> (r: bool)
    ensures
        r == wf_str(v@),
{
    let mut i: usize = 0;
    while i < v.len()
        invariant
            i <= v@.len(),
            forall|j: int| 0 <= j < i ==> is_name_byte(#[trigger] v@[j]),
        decreases v@.len() - i,
    {
        let b = v[i];
        if b == 0x22 || b == 0x5c || b < 0x20 {
            proof {
                assert(!is_name_byte(v@[i as int]));
            }
            return false;
        }
        i += 1;
    }
    true
}

/// The fixed token header, `{"alg":"HS256","typ":"JWT"}`.
fn header_bytes() -> (r: Vec<u8>)
    ensures
        r@ == header_json(),
{
    let mut out: Vec<u8> = Vec::new();
    out.push(0x7b);
    out.push(0x22);
    out.push(0x61);
    out.push(0x6c);
    out.push(0x67);
    out.push(0x22);
    out.push(0x3a);
    out.push(0x22);
    out.push(0x48);
    out.push(0x53);
    out.push(0x32);
    out.push(0x35);
    out.push(0x36);
    out.push(0x22);
    out.push(0x2c);
    out.push(0x22);
    out.push(0x74);
    out.push(0x79);
    out.push(0x70);
    out.push(0x22);
    out.push(0x3a);
    out.push(0x22);
    out.push(0x4a);
    out.push(0x57);
    out.push(0x54);
    out.push(0x22);
    out.push(0x7d);
    proof {
        assert(out@ =~= header_json());
    }
    out
}

/// `{"user_id":"`
fn lit_uid_bytes() -> (r: Vec<u8>)
    ensures
        r@ == lit_uid(),
{
    let mut out: Vec<u8> = Vec::new();
    out.push(0x7b);
    out.push(0x22);
    out.push(0x75);
    out.push(0x73);
    out.push(0x65);
    out.push(0x72);
    out.push(0x5f);
    out.push(0x69);
    out.push(0x64);
    out.push(0x22);
    out.push(0x3a);
    out.push(0x22);
    proof {
        assert(out@ =~= lit_uid());
    }
    out
}

/// `,"email":"`
fn lit_email_bytes() -> (r: Vec<u8>)
    ensures
        r@ == lit_email(),
{
    let mut out: Vec<u8> = Vec::new();
    out.push(0x2c);
    out.push(0x22);
    out.push(0x65);
    out.push(0x6d);
    out.push(0x61);
    out.push(0x69);
    out.push(0x6c);
    out.push(0x22);
    out.push(0x3a);
    out.push(0x22);
    proof {
        assert(out@ =~= lit_email());
    }
    out
}

/// `,"exp":`
fn lit_exp_bytes() -> (r: Vec<u8>)
    ensures
        r@ == lit_exp(),
{
    let mut out: Vec<u8> = Vec::new();
    out.push(0x2c);
    out.push(0x22);
    out.push(0x65);
    out.push(0x78);
    out.push(0x70);
    out.push(0x22);
    out.push(0x3a);
    proof {
        assert(out@ =~= lit_exp());
    }
    out
}

/// Serialize a claim to its canonical JSON payload.
fn claim_to_json(c: &PrivateClaim) -> (r: Vec<u8>)
    ensures
        r@ == claim_json(c@.user_id, c@.email, c@.exp),
{
    let mut out = lit_uid_bytes();
    append_bytes(&mut out, &c.user_id);
    out.push(0x22);
    let lit2 = lit_email_bytes();
    append_bytes(&mut out, &lit2);
    append_bytes(&mut out, &c.email);
    out.push(0x22);
    let lit3 = lit_exp_bytes();
    append_bytes(&mut out, &lit3);
    let digits = crate::codec::u64_to_dec(c.expires_at());
    append_bytes(&mut out, &digits);
    out.push(0x7d);
    proof {
        assert(out@ =~= claim_json(c@.user_id, c@.email, c@.exp));
    }
    out
}

/// Read a JSON string body up to its closing quote.
fn parse_name_exec(s: &Vec<u8>) -> (r: Option<(Vec<u8>, Vec<u8>)>)
    ensures
        match r {
            Some((content, rest)) => parse_name(s@) == Some((content@, rest@)),
            None => parse_name(s@) is None,
        },
{
    let mut i: usize = 0;
    while i < s.len()
        invariant
            i <= s@.len(),
            forall|j: int| 0 <= j < i ==> is_name_byte(#[trigger] s@[j]),
        decreases s@.len() - i,
    {
        let b = s[i];
        if b == 0x22 {
            let content = vec_range(s, 0, i);
            let rest = vec_range(s, i + 1, s.len());
            proof {
                lemma_parse_name_at(s@, i as int);
                assert(s@.take(i as int) =~= s@.subrange(0, i as int));
                assert(s@.skip(i + 1) =~= s@.subrange(i + 1, s@.len() as int));
            }
            return Some((content, rest));
        }
        if b == 0x5c || b < 0x20 {
            proof {
                lemma_parse_name_at(s@, i as int);
            }
            return None;
        }
        i += 1;
    }
    proof {
        lemma_parse_name_at(s@, s@.len() as int);
    }
    None
}

/// Split at the first dot.
pub(crate) fn split_dot_exec(s: &Vec<u8>) -> (r: Option<(Vec<u8>, Vec<u8>)>)
    ensures
        match r {
            Some((head, rest)) => split_dot(s@) == Some((head@, rest@)),
            None => split_dot(s@) is None,
        },
{
    let mut i: usize = 0;
    while i < s.len()
        invariant
            i <= s@.len(),
            forall|j: int| 0 <= j < i ==> #[trigger] s@[j] != 0x2e,
        decreases s@.len() - i,
    {
        if s[i] == 0x2e {
            let head = vec_range(s, 0, i);
            let rest = vec_range(s, i + 1, s.len());
            proof {
                lemma_split_dot_at(s@, i as int);
                assert(s@.take(i as int) =~= s@.subrange(0, i as int));
                assert(s@.skip(i + 1) =~= s@.subrange(i + 1, s@.len() as int));
            }
            return Some((head, rest));
        }
        i += 1;
    }
    proof {
        lemma_split_dot_at(s@, s@.len() as int);
    }
    None
}

/// Parse the canonical claim payload into its fields.
fn parse_claim_exec(s: &Vec<u8>) -> (r: Option<(Vec<u8>, Vec<u8>, u64)>)
    ensures
        match r {
            Some((uid, email, exp)) => parse_claim(s@) == Some((uid@, email@, exp)),
            None => parse_claim(s@) is None,
        },
{
    let lit1 = lit_uid_bytes();
    if !starts_with(s, &lit1) {
        return None;
    }
    let s1 = vec_range(s, 12, s.len());
    proof {
        assert(s1@ =~= s@.skip(12));
    }
    let (uid, r1) = match parse_name_exec(&s1) {
        None => {
            return None;
        },
        Some(p) => p,
    };
    let lit2 = lit_email_bytes();
    if !starts_with(&r1, &lit2) {
        return None;
    }
    let r1s = vec_range(&r1, 10, r1.len());
    proof {
        assert(r1s@ =~= r1@.skip(10));
    }
    let (email, r2) = match parse_name_exec(&r1s) {
        None => {
            return None;
        },
        Some(p) => p,
    };
    let lit3 = lit_exp_bytes();
    if !starts_with(&r2, &lit3) {
        return None;
    }
    let r3 = vec_range(&r2, 7, r2.len());
    proof {
        assert(r3@ =~= r2@.skip(7));
    }
    if r3.len() < 2 {
        return None;
    }
    if r3[r3.len() - 1] != 0x7d {
        return None;
    }
    let digits = vec_range(&r3, 0, r3.len() - 1);
    proof {
        assert(digits@ =~= r3@.take(r3@.len() - 1));
    }
    let exp = match parse_u64(&digits) {
        None => {
            return None;
        },
        Some(v) => v,
    };
    Some((uid, email, exp))
}

/// Issue a signed token for a claim.
///
/// For a claim whose string fields need no JSON escaping the result is
/// exactly `issue_spec`: header, payload and signature segments joined by
/// dots. A claim that cannot be serialized cleanly is refused.
pub fn create_jwt(claim: &PrivateClaim, secret: &Vec<u8>) -> (r: Result<Vec<u8>, AuthError>)
    ensures
        claim_wf(claim@) ==> (r matches Ok(t) && t@ == issue_spec(
            secret@,
            claim@.user_id,
            claim@.email,
            claim@.exp,
        )),
        !claim_wf(claim@) ==> r == Err::<Vec<u8>, AuthError>(AuthError::TokenEncode),
{
    if !check_wf(&claim.user_id) || !check_wf(&claim.email) {
        return Err(AuthError::TokenEncode);
    }
    let json = claim_to_json(claim);
    let payload64 = b64_encode(&json);
    let header = header_bytes();
    let mut msg = b64_encode(&header);
    msg.push(0x2e);
    append_bytes(&mut msg, &payload64);
    proof {
        assert(msg@ =~= signing_input(claim@.user_id, claim@.email, claim@.exp));
        lemma_b64_alphabet(header_json());
        lemma_b64_alphabet(claim_json(claim@.user_id, claim@.email, claim@.exp));
        assert(forall|i: int| 0 <= i < msg@.len() ==> msg@[i] < 128);
    }
    let mac = hmac_sign(secret, &msg);
    let mut out = msg;
    out.push(0x2e);
    append_bytes(&mut out, &mac);
    proof {
        assert(out@ =~= issue_spec(secret@, claim@.user_id, claim@.email, claim@.exp));
    }
    Ok(out)
}

/// Verify a token and recover its claim.
///
/// The result is exactly `verify_spec`: the claim on a genuine, unexpired
/// token, and the precise failure cause otherwise. A token must carry this
/// library's canonical header and payload form; the signature comparison
/// runs in constant time.
pub fn decode_jwt(token: &Vec<u8>, secret: &Vec<u8>, now: u64) -> (r: Result<
    PrivateClaim,
    TokenDecodeError,
>)
    ensures
        r matches Ok(c) ==> verify_spec(secret@, token@, now) == Ok::<
            (Seq<u8>, Seq<u8>, u64),
            TokenDecodeError,
        >((c@.user_id, c@.email, c@.exp)),
        r matches Err(e) ==> verify_spec(secret@, token@, now) == Err::<
            (Seq<u8>, Seq<u8>, u64),
            TokenDecodeError,
        >(e),
{
    let (h, rest) = match split_dot_exec(token) {
        None => {
            return Err(TokenDecodeError::Malformed);
        },
        Some(p) => p,
    };
    let (p, sig) = match split_dot_exec(&rest) {
        None => {
            return Err(TokenDecodeError::Malformed);
        },
        Some(p) => p,
    };
    let header = header_bytes();
    let h64 = b64_encode(&header);
    if !ct_eq(&h, &h64) {
        return Err(TokenDecodeError::Malformed);
    }
    let pj = match b64_decode(&p) {
        None => {
            return Err(TokenDecodeError::Malformed);
        },
        Some(v) => v,
    };
    let (uid, email, exp) = match parse_claim_exec(&pj) {
        None => {
            return Err(TokenDecodeError::Malformed);
        },
        Some(t) => t,
    };
    let mut msg = h64;
    msg.push(0x2e);
    append_bytes(&mut msg, &p);
    proof {
        assert(msg@ =~= header64() + seq![0x2eu8] + p@);
        lemma_b64_alphabet(header_json());
        crate::codec::lemma_b64_decode_alphabet(p@);
        assert(forall|i: int| 0 <= i < msg@.len() ==> msg@[i] < 128);
    }
    let mac = hmac_sign(secret, &msg);
    if !ct_eq(&sig, &mac) {
        return Err(TokenDecodeError::SignatureInvalid);
    }
    if now >= exp {
        return Err(TokenDecodeError::Expired);
    }
    Ok(PrivateClaim { user_id: uid, email, exp })
}

} // verus!
