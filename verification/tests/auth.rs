//! Hashing, masking and token tests.

use authcore::codec::{b64_decode, b64_encode, parse_u64, u64_to_dec};
use authcore::hashing::hex_encode;
use authcore::errors::{AuthError, TokenDecodeError};
use authcore::hashing::{hash, mask_str};
use authcore::token::{create_jwt, decode_jwt, PrivateClaim};

fn salt32() -> Vec<u8> {
    b"abcdefghijklmnopqrstuvwxyz012345".to_vec()
}

fn auth_salt() -> Vec<u8> {
    b"processwide-secret".to_vec()
}

fn jwt_key() -> Vec<u8> {
    b"0123456789abcdef0123456789abcdef".to_vec()
}

const NOW: u64 = 1_600_000_000;

#[test]
fn it_hashes_a_password() {
    let password = "password";
    let salt1 = salt32();
    assert_eq!(salt1.len(), 32);
    let hashed = hash(password, &salt1, &auth_salt()).unwrap();
    assert_ne!(password.as_bytes().to_vec(), hashed);
}

#[test]
fn it_matches_2_hashed_passwords() {
    let password = "password";
    let salt = salt32();
    assert_eq!(salt.len(), 32);
    let hashed = hash(password, &salt, &auth_salt()).unwrap();
    let hashed_again = hash(password, &salt, &auth_salt()).unwrap();
    assert_eq!(hashed, hashed_again);
}

#[test]
fn it_creates_a_jwt() {
    let id = uuid::Uuid::new_v4().to_string().into_bytes();
    let claim = PrivateClaim::new(id, b"test@test.com".to_vec(), NOW, 24);
    let jwt = create_jwt(&claim, &jwt_key());
    assert!(jwt.is_ok());
}

#[test]
fn it_decodes_a_jwt() {
    let id = uuid::Uuid::new_v4().to_string().into_bytes();
    let claim = PrivateClaim::new(id, b"test@test.com".to_vec(), NOW, 24);
    let jwt = create_jwt(&claim, &jwt_key()).unwrap();
    let decoded = decode_jwt(&jwt, &jwt_key(), NOW + 1).unwrap();
    assert_eq!(claim, decoded);
}

#[test]
fn it_masks_a_string() {
    let salt1 = b"salt1salt1salt1".to_vec();
    let mask = b"mask52632".to_vec();
    let masked = mask_str(&salt1, &mask);
    assert_ne!(masked, b"".to_vec());
}

#[test]
fn mask_has_primary_length_and_ascii_range() {
    let masked = mask_str(&salt32(), &b"mask52632".to_vec());
    assert_eq!(masked.len(), 32);
    assert!(masked.iter().all(|b| *b < 128));
}

#[test]
fn mask_exact_bytes_and_period() {
    // ('a' + 'b') mod 128 = 67, ('b' + 'b') mod 128 = 68
    let masked = mask_str(&b"ab".to_vec(), &b"b".to_vec());
    assert_eq!(masked, vec![67u8, 68u8]);
    // with a secondary of length 3, equal primary bytes one period apart
    // mask to the same byte
    let masked = mask_str(&b"xyzxyz".to_vec(), &b"abc".to_vec());
    assert_eq!(masked[0], masked[3]);
    assert_eq!(masked[1], masked[4]);
    assert_eq!(masked[2], masked[5]);
}

#[test]
fn hash_with_empty_secret_salt_is_a_configuration_error() {
    let r = hash("password", &salt32(), &Vec::new());
    assert_eq!(r, Err(AuthError::Configuration));
}

#[test]
fn hash_is_hex_of_a_32_byte_digest() {
    let hashed = hash("password", &salt32(), &auth_salt()).unwrap();
    assert_eq!(hashed.len(), 64);
    assert!(hashed.iter().all(|b| b.is_ascii_hexdigit()));
}

#[test]
fn token_decodes_to_its_claim_before_expiry() {
    let claim = PrivateClaim::new(b"u-1".to_vec(), b"a@b.com".to_vec(), NOW, 2);
    let token = create_jwt(&claim, &jwt_key()).unwrap();
    let decoded = decode_jwt(&token, &jwt_key(), NOW + 2 * 3600 - 1).unwrap();
    assert_eq!(decoded, claim);
    assert_eq!(decoded.expires_at(), NOW + 2 * 3600);
}

#[test]
fn token_expires_exactly_at_its_expiry_second() {
    let claim = PrivateClaim::new(b"u-1".to_vec(), b"a@b.com".to_vec(), NOW, 2);
    let token = create_jwt(&claim, &jwt_key()).unwrap();
    let r = decode_jwt(&token, &jwt_key(), NOW + 2 * 3600);
    assert_eq!(r, Err(TokenDecodeError::Expired));
    let r = decode_jwt(&token, &jwt_key(), NOW + 2 * 3600 + 5);
    assert_eq!(r, Err(TokenDecodeError::Expired));
}

#[test]
fn tampered_signature_is_signature_invalid() {
    let claim = PrivateClaim::new(b"u-1".to_vec(), b"a@b.com".to_vec(), NOW, 2);
    let mut token = create_jwt(&claim, &jwt_key()).unwrap();
    let last = token.len() - 1;
    token[last] = if token[last] == b'A' { b'B' } else { b'A' };
    let r = decode_jwt(&token, &jwt_key(), NOW);
    assert_eq!(r, Err(TokenDecodeError::SignatureInvalid));
}

#[test]
fn any_tampered_byte_never_verifies() {
    let claim = PrivateClaim::new(b"u-1".to_vec(), b"a@b.com".to_vec(), NOW, 2);
    let token = create_jwt(&claim, &jwt_key()).unwrap();
    for i in 0..token.len() {
        let mut t = token.clone();
        t[i] = if t[i] == b'x' { b'y' } else { b'x' };
        assert!(decode_jwt(&t, &jwt_key(), NOW).is_err());
    }
}

#[test]
fn wrong_key_is_signature_invalid() {
    let claim = PrivateClaim::new(b"u-1".to_vec(), b"a@b.com".to_vec(), NOW, 2);
    let token = create_jwt(&claim, &jwt_key()).unwrap();
    let r = decode_jwt(&token, &b"another-key".to_vec(), NOW);
    assert_eq!(r, Err(TokenDecodeError::SignatureInvalid));
}

#[test]
fn garbage_tokens_are_malformed() {
    assert_eq!(
        decode_jwt(&b"garbage".to_vec(), &jwt_key(), NOW),
        Err(TokenDecodeError::Malformed)
    );
    assert_eq!(
        decode_jwt(&b"a.b".to_vec(), &jwt_key(), NOW),
        Err(TokenDecodeError::Malformed)
    );
    assert_eq!(
        decode_jwt(&Vec::new(), &jwt_key(), NOW),
        Err(TokenDecodeError::Malformed)
    );
}

#[test]
fn token_has_three_parts_and_a_real_mac() {
    let claim = PrivateClaim::new(b"u-1".to_vec(), b"a@b.com".to_vec(), NOW, 2);
    let token = create_jwt(&claim, &jwt_key()).unwrap();
    let parts: Vec<&[u8]> = token.split(|b| *b == b'.').collect();
    assert_eq!(parts.len(), 3);
    // base64url of the 27-byte fixed header
    assert_eq!(parts[0].len(), 36);
    // base64url of a 32-byte HMAC-SHA256: not the signing input handed back
    assert_eq!(parts[2].len(), 43);
}

#[test]
fn claim_with_a_quote_cannot_be_encoded() {
    let claim = PrivateClaim::new(b"u-1".to_vec(), b"a\"b@c.com".to_vec(), NOW, 2);
    assert_eq!(create_jwt(&claim, &jwt_key()), Err(AuthError::TokenEncode));
}

#[test]
fn base64url_known_answer_and_roundtrip() {
    assert_eq!(b64_encode(&b"Man".to_vec()), b"TWFu".to_vec());
    assert_eq!(b64_encode(&b"Ma".to_vec()), b"TWE".to_vec());
    assert_eq!(b64_encode(&b"M".to_vec()), b"TQ".to_vec());
    for sample in [&b""[..], &b"a"[..], &b"ab"[..], &b"abc"[..], &b"hello, world!"[..]] {
        let enc = b64_encode(&sample.to_vec());
        assert_eq!(b64_decode(&enc), Some(sample.to_vec()));
    }
    assert_eq!(b64_decode(&b"T Fu".to_vec()), None);
    assert_eq!(b64_decode(&b"TWFuX".to_vec()), None);
}

#[test]
fn decimal_roundtrip_and_rejects() {
    assert_eq!(u64_to_dec(0), b"0".to_vec());
    assert_eq!(u64_to_dec(12345), b"12345".to_vec());
    assert_eq!(parse_u64(&b"12345".to_vec()), Some(12345));
    assert_eq!(parse_u64(&u64_to_dec(u64::MAX)), Some(u64::MAX));
    assert_eq!(parse_u64(&b"12a4".to_vec()), None);
    assert_eq!(parse_u64(&b"18446744073709551616".to_vec()), None);
}

#[test]
fn hex_known_answer() {
    assert_eq!(hex_encode(&vec![0xbe, 0xef]), b"beef".to_vec());
    assert_eq!(hex_encode(&Vec::new()), b"".to_vec());
}
