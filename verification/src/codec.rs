//! Byte-level codecs that the token and cookie formats rest on: base64url
//! without padding, decimal numbers, and a constant-time comparison.

use vstd::prelude::*;

verus! {

/// The base64url alphabet character for a 6-bit value.
pub open spec fn b64_char(v: u8) -> u8
    recommends
        v < 64,
{
    if v < 26 {
        (0x41 + v) as u8  // 'A'..'Z'
    } else if v < 52 {
        (0x61 + (v - 26)) as u8  // 'a'..'z'
    } else if v < 62 {
        (0x30 + (v - 52)) as u8  // '0'..'9'
    } else if v == 62 {
        0x2d  // '-'
    } else {
        0x5f  // '_'
    }
}

/// The 6-bit value of a base64url character, if it is one.
pub open spec fn b64_val(c: u8) -> Option<u8> {
    if 0x41 <= c <= 0x5a {
        Some((c - 0x41) as u8)
    } else if 0x61 <= c <= 0x7a {
        Some((c - 0x61 + 26) as u8)
    } else if 0x30 <= c <= 0x39 {
        Some((c - 0x30 + 52) as u8)
    } else if c == 0x2d {
        Some(62u8)
    } else if c == 0x5f {
        Some(63u8)
    } else {
        None
    }
}

/// Base64url encoding without padding: each 3-byte group becomes 4 characters;
/// a trailing byte becomes 2 and a trailing pair 3.
pub open spec fn b64_of(s: Seq<u8>) -> Seq<u8>
    decreases s.len(),
{
    if s.len() == 0 {
        Seq::empty()
    } else if s.len() == 1 {
        let b0 = s[0];
        seq![b64_char((b0 / 4) as u8), b64_char(((b0 % 4) * 16) as u8)]
    } else if s.len() == 2 {
        let b0 = s[0];
        let b1 = s[1];
        seq![
            b64_char((b0 / 4) as u8),
            b64_char(((b0 % 4) * 16 + b1 / 16) as u8),
            b64_char(((b1 % 16) * 4) as u8),
        ]
    } else {
        let b0 = s[0];
        let b1 = s[1];
        let b2 = s[2];
        seq![
            b64_char((b0 / 4) as u8),
            b64_char(((b0 % 4) * 16 + b1 / 16) as u8),
            b64_char(((b1 % 16) * 4 + b2 / 64) as u8),
            b64_char((b2 % 64) as u8),
        ] + b64_of(s.skip(3))
    }
}

/// Base64url decoding of a padless encoding; `None` on a character outside
/// the alphabet or on an impossible length.
pub open spec fn b64_decode_of(s: Seq<u8>) -> Option<Seq<u8>>
    decreases s.len(),
{
    if s.len() == 0 {
        Some(Seq::empty())
    } else if s.len() == 1 {
        None
    } else if s.len() == 2 {
        match (b64_val(s[0]), b64_val(s[1])) {
            (Some(v0), Some(v1)) => Some(seq![(v0 * 4 + v1 / 16) as u8]),
            _ => None,
        }
    } else if s.len() == 3 {
        match (b64_val(s[0]), b64_val(s[1]), b64_val(s[2])) {
            (Some(v0), Some(v1), Some(v2)) => Some(
                seq![(v0 * 4 + v1 / 16) as u8, ((v1 % 16) * 16 + v2 / 4) as u8],
            ),
            _ => None,
        }
    } else {
        match (b64_val(s[0]), b64_val(s[1]), b64_val(s[2]), b64_val(s[3])) {
            (Some(v0), Some(v1), Some(v2), Some(v3)) => match b64_decode_of(s.skip(4)) {
                Some(rest) => Some(
                    seq![
                        (v0 * 4 + v1 / 16) as u8,
                        ((v1 % 16) * 16 + v2 / 4) as u8,
                        ((v2 % 4) * 64 + v3) as u8,
                    ] + rest,
                ),
                None => None,
            },
            _ => None,
        }
    }
}

/// The length of a padless encoding: 4 characters per full 3-byte group and
/// 0, 2 or 3 for the tail. In particular it is never 1 more than a multiple
/// of 4.
pub proof fn lemma_b64_len(s: Seq<u8>)
    ensures
        b64_of(s).len() == 4 * (s.len() / 3) + (if s.len() % 3 == 0 {
            0int
        } else if s.len() % 3 == 1 {
            2int
        } else {
            3int
        }),
    decreases s.len(),
{
    if s.len() >= 3 {
        lemma_b64_len(s.skip(3));
        assert(s.len() / 3 == (s.len() - 3) / 3 + 1 && s.len() % 3 == (s.len() - 3) % 3) by (nonlinear_arith)
            requires s.len() >= 3;
    }
}

/// Every character of an encoding is in the base64url alphabet: ASCII and
/// never a dot.
pub proof fn lemma_b64_alphabet(s: Seq<u8>)
    ensures
        forall|i: int|
            0 <= i < b64_of(s).len() ==> (#[trigger] b64_of(s)[i]) < 128 && b64_of(s)[i] != 0x2e
                && b64_val(b64_of(s)[i]) is Some,
    decreases s.len(),
{
    if s.len() >= 3 {
        lemma_b64_alphabet(s.skip(3));
    }
}

/// The three bytes of one 4-character group come back out of its values.
proof fn lemma_b64_group(b0: u8, b1: u8, b2: u8)
    ensures
        ((b0 / 4) as u8) * 4 + (((b0 % 4) * 16 + b1 / 16) as u8) / 16 == b0,
        ((((b0 % 4) * 16 + b1 / 16) as u8) % 16) * 16 + (((b1 % 16) * 4 + b2 / 64) as u8) / 4 == b1,
        ((((b1 % 16) * 4 + b2 / 64) as u8) % 4) * 64 + ((b2 % 64) as u8) == b2,
{
    assert(((b0 % 4) * 16 + b1 / 16) / 16 == b0 % 4 && ((b0 % 4) * 16 + b1 / 16) % 16 == b1 / 16)
        by (nonlinear_arith)
        requires b0 < 256 && b1 < 256;
    assert(((b1 % 16) * 4 + b2 / 64) / 4 == b1 % 16 && ((b1 % 16) * 4 + b2 / 64) % 4 == b2 / 64)
        by (nonlinear_arith)
        requires b1 < 256 && b2 < 256;
    assert((b0 / 4) * 4 + b0 % 4 == b0) by (nonlinear_arith)
        requires b0 < 256;
    assert((b1 / 16) * 16 + b1 % 16 == b1) by (nonlinear_arith)
        requires b1 < 256;
    assert((b2 / 64) * 64 + b2 % 64 == b2) by (nonlinear_arith)
        requires b2 < 256;
    assert(((b0 % 4) * 16) / 16 == b0 % 4 && ((b0 % 4) * 16) % 16 == 0) by (nonlinear_arith)
        requires b0 < 256;
    assert(((b1 % 16) * 4) / 4 == b1 % 16 && ((b1 % 16) * 4) % 4 == 0) by (nonlinear_arith)
        requires b1 < 256;
}

/// A string that decodes has every character in the alphabet: ASCII and
/// never a dot.
pub proof fn lemma_b64_decode_alphabet(s: Seq<u8>)
    requires
        b64_decode_of(s) is Some,
    ensures
        forall|i: int| 0 <= i < s.len() ==> (#[trigger] s[i]) < 128 && s[i] != 0x2e,
    decreases s.len(),
{
    if s.len() >= 4 {
        lemma_b64_decode_alphabet(s.skip(4));
        assert forall|i: int| 0 <= i < s.len() implies (#[trigger] s[i]) < 128 && s[i] != 0x2e by {
            if i >= 4 {
                assert(s[i] == s.skip(4)[i - 4]);
            }
        }
    }
}

/// Decoding inverts encoding.
#[verifier::rlimit(50)]
pub proof fn lemma_b64_roundtrip(s: Seq<u8>)
    ensures
        b64_decode_of(b64_of(s)) == Some(s),
    decreases s.len(),
{
    let e = b64_of(s);
    if s.len() == 0 {
        assert(b64_decode_of(e) == Some(Seq::<u8>::empty()));
        assert(Seq::<u8>::empty() =~= s);
    } else if s.len() == 1 {
        let b0 = s[0];
        lemma_b64_group(b0, 0, 0);
        let v0 = (b0 / 4) as u8;
        let v1 = ((b0 % 4) * 16) as u8;
        assert(v0 * 4 + v1 / 16 == b0);
        assert(b64_decode_of(e) == Some(seq![b0]));
        assert(seq![b0] =~= s);
    } else if s.len() == 2 {
        let b0 = s[0];
        let b1 = s[1];
        lemma_b64_group(b0, b1, 0);
        let v0 = (b0 / 4) as u8;
        let v1 = ((b0 % 4) * 16 + b1 / 16) as u8;
        let v2 = ((b1 % 16) * 4) as u8;
        assert(v0 * 4 + v1 / 16 == b0);
        assert((v1 % 16) * 16 + v2 / 4 == b1);
        assert(b64_decode_of(e) == Some(seq![b0, b1]));
        assert(seq![b0, b1] =~= s);
    } else {
        let b0 = s[0];
        let b1 = s[1];
        let b2 = s[2];
        lemma_b64_group(b0, b1, b2);
        let v0 = (b0 / 4) as u8;
        let v1 = ((b0 % 4) * 16 + b1 / 16) as u8;
        let v2 = ((b1 % 16) * 4 + b2 / 64) as u8;
        let v3 = (b2 % 64) as u8;
        lemma_b64_roundtrip(s.skip(3));
        lemma_b64_len(s.skip(3));
        assert(e.len() >= 4);
        assert(e.skip(4) =~= b64_of(s.skip(3)));
        assert(v0 * 4 + v1 / 16 == b0);
        assert((v1 % 16) * 16 + v2 / 4 == b1);
        assert((v2 % 4) * 64 + v3 == b2);
        assert(b64_decode_of(e) == Some(seq![b0, b1, b2] + s.skip(3)));
        assert(seq![b0, b1, b2] + s.skip(3) =~= s);
    }
}

/// The base64url character for a 6-bit value.
pub fn b64_char_exec(v: u8) -> (r: u8)
    requires
        v < 64,
    ensures
        r == b64_char(v),
{
    if v < 26 {
        0x41 + v
    } else if v < 52 {
        0x61 + (v - 26)
    } else if v < 62 {
        0x30 + (v - 52)
    } else if v == 62 {
        0x2d
    } else {
        0x5f
    }
}

/// The 6-bit value of a base64url character.
pub fn b64_val_exec(c: u8) -> (r: Option<u8>)
    ensures
        r == b64_val(c),
{
    if 0x41 <= c && c <= 0x5a {
        Some(c - 0x41)
    } else if 0x61 <= c && c <= 0x7a {
        Some(c - 0x61 + 26)
    } else if 0x30 <= c && c <= 0x39 {
        Some(c - 0x30 + 52)
    } else if c == 0x2d {
        Some(62)
    } else if c == 0x5f {
        Some(63)
    } else {
        None
    }
}

/// Base64url-encode a byte string, without padding.
pub fn b64_encode(data: &Vec<u8>) -> (r: Vec<u8>)
    ensures
        r@ == b64_of(data@),
{
    let mut out: Vec<u8> = Vec::new();
    let mut i: usize = 0;
    proof {
        assert(data@.skip(0) =~= data@);
    }
    while i < data.len() && data.len() - i >= 3
        invariant
            i <= data@.len(),
            b64_of(data@) =~= out@ + b64_of(data@.skip(i as int)),
        decreases data@.len() - i,
    {
        let b0 = data[i];
        let b1 = data[i + 1];
        let b2 = data[i + 2];
        out.push(b64_char_exec(b0 / 4));
        out.push(b64_char_exec((b0 % 4) * 16 + b1 / 16));
        out.push(b64_char_exec((b1 % 16) * 4 + b2 / 64));
        out.push(b64_char_exec(b2 % 64));
        proof {
            let t = data@.skip(i as int);
            assert(t[0] == data@[i as int] && t[1] == data@[i + 1] && t[2] == data@[i + 2]);
            assert(t.skip(3) =~= data@.skip(i + 3));
        }
        i += 3;
    }
    if data.len() - i == 1 {
        let b0 = data[i];
        out.push(b64_char_exec(b0 / 4));
        out.push(b64_char_exec((b0 % 4) * 16));
        proof {
            let t = data@.skip(i as int);
            assert(t.len() == 1 && t[0] == data@[i as int]);
        }
    } else if data.len() - i == 2 {
        let b0 = data[i];
        let b1 = data[i + 1];
        out.push(b64_char_exec(b0 / 4));
        out.push(b64_char_exec((b0 % 4) * 16 + b1 / 16));
        out.push(b64_char_exec((b1 % 16) * 4));
        proof {
            let t = data@.skip(i as int);
            assert(t.len() == 2 && t[0] == data@[i as int] && t[1] == data@[i + 1]);
        }
    } else {
        proof {
            assert(data@.skip(i as int).len() == 0);
        }
    }
    out
}

/// `Some(prefix + rest)` when both halves are there, else `None`.
pub open spec fn opt_concat(prefix: Seq<u8>, rest: Option<Seq<u8>>) -> Option<Seq<u8>> {
    match rest {
        Some(r) => Some(prefix + r),
        None => None,
    }
}

/// Base64url-decode a padless encoding.
pub fn b64_decode(data: &Vec<u8>) -> (r: Option<Vec<u8>>)
    ensures
        match r {
            Some(v) => b64_decode_of(data@) == Some(v@),
            None => b64_decode_of(data@) is None,
        },
{
    let mut out: Vec<u8> = Vec::new();
    let mut i: usize = 0;
    proof {
        assert(data@.skip(0) =~= data@);
    }
    while i < data.len() && data.len() - i >= 4
        invariant
            i <= data@.len(),
            b64_decode_of(data@) == opt_concat(out@, b64_decode_of(data@.skip(i as int))),
        decreases data@.len() - i,
    {
        let v0 = b64_val_exec(data[i]);
        let v1 = b64_val_exec(data[i + 1]);
        let v2 = b64_val_exec(data[i + 2]);
        let v3 = b64_val_exec(data[i + 3]);
        proof {
            let t = data@.skip(i as int);
            assert(t[0] == data@[i as int] && t[1] == data@[i + 1] && t[2] == data@[i + 2] && t[3]
                == data@[i + 3]);
            assert(t.skip(4) =~= data@.skip(i + 4));
        }
        match (v0, v1, v2, v3) {
            (Some(v0), Some(v1), Some(v2), Some(v3)) => {
                out.push(v0 * 4 + v1 / 16);
                out.push((v1 % 16) * 16 + v2 / 4);
                out.push((v2 % 4) * 64 + v3);
            },
            _ => {
                return None;
            },
        }
        i += 4;
    }
    let rem = data.len() - i;
    if rem == 0 {
        proof {
            assert(data@.skip(i as int).len() == 0);
        }
        Some(out)
    } else if rem == 1 {
        None
    } else if rem == 2 {
        proof {
            let t = data@.skip(i as int);
            assert(t.len() == 2 && t[0] == data@[i as int] && t[1] == data@[i + 1]);
        }
        match (b64_val_exec(data[i]), b64_val_exec(data[i + 1])) {
            (Some(v0), Some(v1)) => {
                out.push(v0 * 4 + v1 / 16);
                Some(out)
            },
            _ => None,
        }
    } else {
        proof {
            let t = data@.skip(i as int);
            assert(t.len() == 3 && t[0] == data@[i as int] && t[1] == data@[i + 1] && t[2]
                == data@[i + 2]);
        }
        match (b64_val_exec(data[i]), b64_val_exec(data[i + 1]), b64_val_exec(data[i + 2])) {
            (Some(v0), Some(v1), Some(v2)) => {
                out.push(v0 * 4 + v1 / 16);
                out.push((v1 % 16) * 16 + v2 / 4);
                Some(out)
            },
            _ => None,
        }
    }
}

/// The decimal form of a number, most significant digit first.
pub open spec fn dec_of(n: u64) -> Seq<u8>
    decreases n,
{
    if n < 10 {
        seq![(0x30 + n) as u8]
    } else {
        dec_of((n / 10) as u64) + seq![(0x30 + (n % 10)) as u8]
    }
}

/// Left-to-right decimal parsing with an accumulator; `None` on a non-digit
/// or when the value would pass `u64::MAX`.
pub open spec fn parse_u64_rec(s: Seq<u8>, acc: u64) -> Option<u64>
    decreases s.len(),
{
    if s.len() == 0 {
        Some(acc)
    } else if !(0x30 <= s[0] <= 0x39) {
        None
    } else if acc * 10 + (s[0] - 0x30) > u64::MAX {
        None
    } else {
        parse_u64_rec(s.skip(1), (acc * 10 + (s[0] - 0x30)) as u64)
    }
}

/// Parsing splits over concatenation: the left half runs first and hands its
/// accumulator to the right half.
pub proof fn lemma_parse_u64_append(s1: Seq<u8>, s2: Seq<u8>, acc: u64)
    ensures
        parse_u64_rec(s1 + s2, acc) == (match parse_u64_rec(s1, acc) {
            Some(a) => parse_u64_rec(s2, a),
            None => None,
        }),
    decreases s1.len(),
{
    if s1.len() == 0 {
        assert(s1 + s2 =~= s2);
    } else {
        assert((s1 + s2)[0] == s1[0]);
        assert((s1 + s2).skip(1) =~= s1.skip(1) + s2);
        if 0x30 <= s1[0] <= 0x39 && acc * 10 + (s1[0] - 0x30) <= u64::MAX {
            lemma_parse_u64_append(s1.skip(1), s2, (acc * 10 + (s1[0] - 0x30)) as u64);
        }
    }
}

/// Parsing inverts decimal formatting.
pub proof fn lemma_dec_roundtrip(n: u64)
    ensures
        parse_u64_rec(dec_of(n), 0) == Some(n),
    decreases n,
{
    if n < 10 {
        let s = dec_of(n);
        assert(s.len() == 1 && s[0] == (0x30 + n) as u8);
        assert(s.skip(1) =~= Seq::<u8>::empty());
        assert(parse_u64_rec(s.skip(1), n) == Some(n));
        assert(parse_u64_rec(s, 0) == parse_u64_rec(s.skip(1), (0 * 10 + (s[0] - 0x30)) as u64));
    } else {
        lemma_dec_roundtrip((n / 10) as u64);
        let d = seq![(0x30 + (n % 10)) as u8];
        lemma_parse_u64_append(dec_of((n / 10) as u64), d, 0);
        assert(dec_of(n) == dec_of((n / 10) as u64) + d);
        assert((n / 10) * 10 + (n % 10) == n) by (nonlinear_arith);
        assert(d.skip(1) =~= Seq::<u8>::empty());
        let a = (n / 10) as u64;
        assert(0x30 <= d[0] <= 0x39);
        assert(a * 10 + (d[0] - 0x30) == n);
        assert(parse_u64_rec(d, a) == parse_u64_rec(d.skip(1), n as u64));
        assert(parse_u64_rec(d.skip(1), n as u64) == Some(n));
    }
}

/// Every byte of a decimal form is a digit.
pub proof fn lemma_dec_digits(n: u64)
    ensures
        forall|i: int| 0 <= i < dec_of(n).len() ==> 0x30 <= #[trigger] dec_of(n)[i] <= 0x39,
        dec_of(n).len() >= 1,
    decreases n,
{
    if n >= 10 {
        lemma_dec_digits((n / 10) as u64);
    }
}

/// Format a number in decimal.
pub fn u64_to_dec(n: u64) -> (r: Vec<u8>)
    ensures
        r@ == dec_of(n),
    decreases n,
{
    if n < 10 {
        let mut out: Vec<u8> = Vec::new();
        out.push(0x30 + (n as u8));
        proof {
            assert(out@ =~= dec_of(n));
        }
        out
    } else {
        let mut out = u64_to_dec(n / 10);
        out.push(0x30 + ((n % 10) as u8));
        proof {
            assert(out@ =~= dec_of(n));
        }
        out
    }
}

/// Parse a decimal number; `None` on a non-digit or past `u64::MAX`.
pub fn parse_u64(data: &Vec<u8>) -> (r: Option<u64>)
    ensures
        r == parse_u64_rec(data@, 0),
{
    let mut acc: u64 = 0;
    let mut i: usize = 0;
    proof {
        assert(data@.skip(0) =~= data@);
    }
    while i < data.len()
        invariant
            i <= data@.len(),
            parse_u64_rec(data@, 0) == parse_u64_rec(data@.skip(i as int), acc),
        decreases data@.len() - i,
    {
        let c = data[i];
        proof {
            let t = data@.skip(i as int);
            assert(t[0] == data@[i as int]);
            assert(t.skip(1) =~= data@.skip(i + 1));
        }
        if !(0x30 <= c && c <= 0x39) {
            return None;
        }
        let d = (c - 0x30) as u64;
        let wide: u128 = (acc as u128) * 10 + (d as u128);
        if wide > u64::MAX as u128 {
            return None;
        }
        acc = wide as u64;
        i += 1;
    }
    Some(acc)
}

/// Constant-time byte-string equality: when the lengths agree, every byte is
/// visited and folded into the verdict whatever its value, so timing does not
/// reveal where two equal-length strings first differ.
pub fn ct_eq(a: &Vec<u8>, b: &Vec<u8>) -> (r: bool)
    ensures
        r == (a@ == b@),
{
    if a.len() != b.len() {
        proof {
            assert(a@ != b@);
        }
        return false;
    }
    let mut diff: u8 = 0;
    let mut i: usize = 0;
    proof {
        assert(a@.take(0) =~= b@.take(0));
    }
    while i < a.len()
        invariant
            a@.len() == b@.len(),
            i <= a@.len(),
            (diff == 0) <==> (a@.take(i as int) == b@.take(i as int)),
        decreases a@.len() - i,
    {
        let x = a[i];
        let y = b[i];
        let z = x ^ y;
        proof {
            assert((x ^ y == 0) == (x == y)) by (bit_vector);
            assert(((diff | z) == 0) == (diff == 0 && z == 0)) by (bit_vector);
            if diff == 0 && z == 0 {
                assert(a@.take(i + 1) =~= b@.take(i + 1));
            }
            if a@.take(i + 1) == b@.take(i + 1) {
                assert(a@.take(i as int) =~= a@.take(i + 1).take(i as int));
                assert(b@.take(i as int) =~= b@.take(i + 1).take(i as int));
                assert(a@[i as int] == a@.take(i + 1)[i as int]);
                assert(b@[i as int] == b@.take(i + 1)[i as int]);
            }
        }
        diff = diff | z;
        i += 1;
    }
    proof {
        assert(a@.take(a@.len() as int) =~= a@);
        assert(b@.take(b@.len() as int) =~= b@);
    }
    diff == 0
}

} // verus!
