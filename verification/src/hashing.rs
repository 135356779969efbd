//! Credential hashing: a per-user salt is masked with a process-wide secret
//! salt, and the password is run through Argon2i; the digest is hex-encoded.

use vstd::prelude::*;
use vstd::string::StringSliceAdditionalSpecFns;

use crate::errors::AuthError;

verus! {

/// One masked byte: the primary and secondary bytes are added and wrapped
/// into the 7-bit range.
pub open spec fn mask_byte(a: u8, b: u8) -> u8 {
    (((a as int) + (b as int)) % 128) as u8
}

/// The masked salt: as long as the primary, with the secondary cycled over it.
pub open spec fn mask_spec(primary: Seq<u8>, secondary: Seq<u8>) -> Seq<u8>
    recommends
        secondary.len() > 0,
{
    Seq::new(primary.len(), |i: int| mask_byte(primary[i], secondary[i % (secondary.len() as int)]))
}

/// Combine the per-user salt with the process-wide secret salt.
///
/// Index `i` of the result is `(primary[i] + secondary[i mod len(secondary)]) mod 128`,
/// so the result is as long as the primary and every byte is ASCII.
pub fn mask_str(primary: &Vec<u8>, secondary: &Vec<u8>) -> (r: Vec<u8>)
    requires
        secondary@.len() > 0,
    ensures
        r@ == mask_spec(primary@, secondary@),
        r@.len() == primary@.len(),
        forall|i: int| 0 <= i < r@.len() ==> r@[i] < 128,
{
    let mut out: Vec<u8> = Vec::new();
    let mut i: usize = 0;
    while i < primary.len()
        invariant
            secondary@.len() > 0,
            i <= primary@.len(),
            out@ == mask_spec(primary@.take(i as int), secondary@),
        decreases primary@.len() - i,
    {
        let a = primary[i];
        let b = secondary[i % secondary.len()];
        let s: u16 = a as u16 + b as u16;
        out.push((s % 128) as u8);
        proof {
            assert(out@ =~= mask_spec(primary@.take(i + 1 as int), secondary@));
        }
        i += 1;
    }
    proof {
        assert(primary@.take(primary@.len() as int) =~= primary@);
    }
    out
}

/// The mask repeats with period `len(secondary)`: positions with the same
/// residue and the same primary byte mask to the same byte.
pub proof fn lemma_mask_periodic(primary: Seq<u8>, secondary: Seq<u8>, i: int, j: int)
    requires
        secondary.len() > 0,
        0 <= i < primary.len(),
        0 <= j < primary.len(),
        i % (secondary.len() as int) == j % (secondary.len() as int),
        primary[i] == primary[j],
    ensures
        mask_spec(primary, secondary)[i] == mask_spec(primary, secondary)[j],
{
}

/// In particular, one full period apart the same primary byte masks the same.
pub proof fn lemma_mask_period_step(primary: Seq<u8>, secondary: Seq<u8>, i: int)
    requires
        0 < secondary.len() < primary.len(),
        0 <= i,
        i + secondary.len() < primary.len(),
        primary[i] == primary[i + secondary.len()],
    ensures
        mask_spec(primary, secondary)[i] == mask_spec(primary, secondary)[i + secondary.len()],
{
    let l = secondary.len() as int;
    assert((i + l) % l == i % l) by (nonlinear_arith)
        requires l > 0, i >= 0;
    lemma_mask_periodic(primary, secondary, i, i + l);
}

/// The lower-case hex digit for a value below 16.
pub open spec fn hex_digit(n: u8) -> u8
    recommends
        n < 16,
{
    if n < 10 {
        (0x30 + n) as u8
    } else {
        (0x61 + (n - 10)) as u8
    }
}

/// Two lower-case hex digits for each byte, high nibble first.
pub open spec fn hex_of(s: Seq<u8>) -> Seq<u8>
    decreases s.len(),
{
    if s.len() == 0 {
        Seq::empty()
    } else {
        seq![hex_digit(s.first() / 16), hex_digit((s.first() % 16) as u8)] + hex_of(s.drop_first())
    }
}

pub proof fn lemma_hex_len(s: Seq<u8>)
    ensures
        hex_of(s).len() == 2 * s.len(),
    decreases s.len(),
{
    if s.len() > 0 {
        lemma_hex_len(s.drop_first());
    }
}

/// A lower-case hex digit.
pub open spec fn is_hex_digit(b: u8) -> bool {
    (0x30 <= b <= 0x39) || (0x61 <= b <= 0x66)
}

/// Every byte of a hex encoding is a lower-case hex digit.
pub proof fn lemma_hex_alphabet(s: Seq<u8>)
    ensures
        forall|i: int| 0 <= i < hex_of(s).len() ==> is_hex_digit(#[trigger] hex_of(s)[i]),
    decreases s.len(),
{
    if s.len() > 0 {
        lemma_hex_alphabet(s.drop_first());
        assert forall|i: int| 0 <= i < hex_of(s).len() implies is_hex_digit(
            #[trigger] hex_of(s)[i],
        ) by {
            if i >= 2 {
                assert(hex_of(s)[i] == hex_of(s.drop_first())[i - 2]);
            }
        }
    }
}

/// Hex-encode a byte string, two digits per byte.
pub fn hex_encode(data: &Vec<u8>) -> (r: Vec<u8>)
    ensures
        r@ == hex_of(data@),
        r@.len() == 2 * data@.len(),
{
    let mut out: Vec<u8> = Vec::new();
    let mut i: usize = 0;
    proof {
        assert(data@.skip(0) =~= data@);
    }
    while i < data.len()
        invariant
            i <= data@.len(),
            hex_of(data@) =~= out@ + hex_of(data@.skip(i as int)),
            out@.len() == 2 * i,
        decreases data@.len() - i,
    {
        let b = data[i];
        let hi = b / 16;
        let lo = b % 16;
        out.push(if hi < 10 { 0x30 + hi } else { 0x61 + (hi - 10) });
        out.push(if lo < 10 { 0x30 + lo } else { 0x61 + (lo - 10) });
        proof {
            assert(data@.skip(i as int).first() == data@[i as int]);
            assert(data@.skip(i as int).drop_first() =~= data@.skip(i + 1 as int));
        }
        i += 1;
    }
    proof {
        assert(data@.skip(data@.len() as int) =~= Seq::<u8>::empty());
        lemma_hex_len(data@);
    }
    out
}

/// The Argon2i digest of a password and salt, as the `argon2rs` crate
/// computes it with its default parameters.
pub uninterp spec fn argon2_of(password: Seq<u8>, salt: Seq<u8>) -> Seq<u8>;

/// Relies on `argon2rs::argon2i_simple`: a 32-byte Argon2i digest that is a
/// pure function of the password bytes and the salt bytes alone. The crate
/// asserts that the salt holds 8 to 2^32 - 1 bytes and the password at most
/// 2^32 - 1, so shorter or longer inputs are ruled out here.
#[verifier::external_body]
fn argon2i_digest(password: &str, salt: &Vec<u8>) -> (r: Vec<u8>)
    requires
        8 <= salt@.len() <= 0xffff_ffff,
        forall|i: int| 0 <= i < salt@.len() ==> salt@[i] < 128,
        password.spec_bytes().len() <= 0xffff_ffff,
    ensures
        r@ == argon2_of(password.spec_bytes(), salt@),
        r@.len() == 32,
{
    let salt_str = core::str::from_utf8(salt.as_slice()).unwrap();
    argon2rs::argon2i_simple(password, salt_str).to_vec()
}

/// What `hash` returns: the hex form of the Argon2i digest of the password
/// under the masked salt.
pub open spec fn hash_spec(password: Seq<u8>, salt: Seq<u8>, secret: Seq<u8>) -> Seq<u8>
    recommends
        secret.len() > 0,
{
    hex_of(argon2_of(password, mask_spec(salt, secret)))
}

/// Hashing is deterministic: any two digests of equal password, salt and
/// secret inputs are equal.
pub proof fn lemma_hash_deterministic(
    password: Seq<u8>,
    salt: Seq<u8>,
    secret: Seq<u8>,
    h1: Seq<u8>,
    h2: Seq<u8>,
)
    requires
        h1 == hash_spec(password, salt, secret),
        h2 == hash_spec(password, salt, secret),
    ensures
        h1 == h2,
{
}

/// Hash a password under a per-user salt and the process-wide secret salt.
///
/// The result is pinned to `hash_spec`, a function of the three inputs alone,
/// so repeated calls on equal inputs return equal digests. An empty secret
/// salt is a configuration fault; an empty password is accepted and hashed.
/// The digest never equals a plaintext password whose length is not the
/// digest's own 64 bytes, nor one holding any byte outside the lower-case
/// hex alphabet.
pub fn hash(password: &str, salt: &Vec<u8>, secret: &Vec<u8>) -> (r: Result<Vec<u8>, AuthError>)
    requires
        8 <= salt@.len() <= 0xffff_ffff,
        password.spec_bytes().len() <= 0xffff_ffff,
    ensures
        secret@.len() == 0 ==> r == Err::<Vec<u8>, AuthError>(AuthError::Configuration),
        secret@.len() > 0 ==> (r matches Ok(h) && h@ == hash_spec(
            password.spec_bytes(),
            salt@,
            secret@,
        ) && h@.len() == 64),
        secret@.len() > 0 && password.spec_bytes().len() != 64 ==> (r matches Ok(h) && h@
            != password.spec_bytes()),
        secret@.len() > 0 && (exists|i: int|
            0 <= i < password.spec_bytes().len() && !is_hex_digit(
                #[trigger] password.spec_bytes()[i],
            )) ==> (r matches Ok(h) && h@ != password.spec_bytes()),
{
    if secret.len() == 0 {
        return Err(AuthError::Configuration);
    }
    let masked = mask_str(salt, secret);
    let digest = argon2i_digest(password, &masked);
    let hexed = hex_encode(&digest);
    proof {
        lemma_hex_alphabet(digest@);
        let pw = password.spec_bytes();
        if exists|i: int| 0 <= i < pw.len() && !is_hex_digit(#[trigger] pw[i]) {
            let i = choose|i: int| 0 <= i < pw.len() && !is_hex_digit(#[trigger] pw[i]);
            if hexed@ == pw {
                assert(is_hex_digit(hexed@[i]));
            }
        }
    }
    Ok(hexed)
}

} // verus!
