//! Cryptographic primitives used by the runtime, and hexadecimal encoding.
//! The primitives come from `hmac`/`sha2`, `subtle`, `rand` and `argon2`;
//! their contracts are stated on the wrappers below.
use vstd::prelude::*;
use vstd::string::StringSliceAdditionalSpecFns;
use hmac::Mac;
use rand::RngCore;
use subtle::ConstantTimeEq;
use argon2::password_hash::{PasswordHash, PasswordHasher, PasswordVerifier, SaltString};

verus! {

/// HMAC-SHA256 of `msg` under `key`.
pub uninterp spec fn hmac_sha256(key: Seq<u8>, msg: Seq<u8>) -> Seq<u8>;

/// Wraps `Hmac::<Sha256>::new_from_slice`, `update` and `finalize`. The
/// contract names the tag and states its length of 32 bytes (the SHA-256
/// output size); HMAC accepts keys of any length, so the constructor does
/// not fail.
#[verifier::external_body]
pub(crate) fn hmac_sha256_tag(key: &[u8], msg: &[u8]) -> (r: Vec<u8>)
    ensures
        r@ == hmac_sha256(key@, msg@),
        r@.len() == 32,
{
    let mut mac = hmac::Hmac::<sha2::Sha256>::new_from_slice(key).expect("any key length");
    mac.update(msg);
    mac.finalize().into_bytes().to_vec()
}

/// Wraps `subtle::ConstantTimeEq::ct_eq` on byte slices, which is true
/// exactly when the slices have the same length and the same bytes.
#[verifier::external_body]
pub(crate) fn constant_time_eq(a: &[u8], b: &[u8]) -> (r: bool)
    ensures
        r == (a@ == b@),
{
    a.ct_eq(b).into()
}

/// Wraps `rand::thread_rng().fill_bytes` on 32 bytes. Nothing is stated of
/// the bytes but their number.
#[verifier::external_body]
pub(crate) fn random_bytes_32() -> (r: Vec<u8>)
    ensures
        r@.len() == 32,
{
    let mut bytes = [0u8; 32];
    rand::thread_rng().fill_bytes(&mut bytes);
    bytes.to_vec()
}

/// Whether `hash` is a PHC string that verifies `password` under Argon2.
pub uninterp spec fn password_matches(password: Seq<u8>, hash: Seq<char>) -> bool;

/// Wraps `Argon2::default().hash_password` with a fresh random salt
/// (`SaltString::generate(&mut OsRng)`). The hash differs from call to
/// call; the contract states that a hash returned verifies the password
/// (argon2's documented round trip), and nothing of an error but its text.
#[verifier::external_body]
pub(crate) fn argon2_hash(password: &[u8]) -> (r: Result<String, String>)
    ensures
        r matches Ok(h) ==> password_matches(password@, h@),
{
    let salt = SaltString::generate(&mut argon2::password_hash::rand_core::OsRng);
    match argon2::Argon2::default().hash_password(password, &salt) {
        Ok(hash) => Ok(hash.to_string()),
        Err(error) => Err(error.to_string()),
    }
}

/// Wraps `PasswordHash::new` and `Argon2::default().verify_password`: false
/// when `hash` does not parse, else whether it verifies the password.
#[verifier::external_body]
pub(crate) fn argon2_verify(password: &[u8], hash: &str) -> (r: bool)
    ensures
        r == password_matches(password@, hash@),
{
    match PasswordHash::new(hash) {
        Ok(parsed) => argon2::Argon2::default().verify_password(password, &parsed).is_ok(),
        Err(_) => false,
    }
}

// ---------------------------------------------------------------------------
// Hexadecimal
// ---------------------------------------------------------------------------

pub open spec fn lower_hex_digit(d: nat) -> char {
    if d < 10 {
        ((d + 48) as u32) as char
    } else {
        ((d + 87) as u32) as char
    }
}

/// Lowercase hex, two digits per byte (`format!("{b:02x}")` for each byte).
pub open spec fn hex_lower(b: Seq<u8>) -> Seq<char>
    decreases b.len(),
{
    if b.len() == 0 {
        Seq::empty()
    } else {
        hex_lower(b.drop_last()) + seq![
            lower_hex_digit((b.last() / 16) as nat),
            lower_hex_digit((b.last() % 16) as nat),
        ]
    }
}

/// Value of an ASCII hex digit byte.
pub open spec fn hex_value(b: u8) -> Option<nat> {
    if 48 <= b <= 57 {
        Some((b - 48) as nat)
    } else if 97 <= b <= 102 {
        Some((b - 87) as nat)
    } else if 65 <= b <= 70 {
        Some((b - 55) as nat)
    } else {
        None
    }
}

/// `u8::from_str_radix` in base 16 on a two-byte string: two hex digits, or
/// a `+` sign followed by one.
pub open spec fn pair_value(b0: u8, b1: u8) -> Option<u8> {
    if b0 == 43 {
        match hex_value(b1) {
            Some(v) => Some(v as u8),
            None => None,
        }
    } else {
        match (hex_value(b0), hex_value(b1)) {
            (Some(h), Some(l)) => Some((h * 16 + l) as u8),
            _ => None,
        }
    }
}

pub open spec fn decode_pairs(b: Seq<u8>) -> Option<Seq<u8>>
    decreases b.len(),
{
    if b.len() < 2 {
        Some(Seq::empty())
    } else {
        match (pair_value(b[0], b[1]), decode_pairs(b.skip(2))) {
            (Some(v), Some(rest)) => Some(seq![v] + rest),
            _ => None,
        }
    }
}

/// Bytes of a hex string: `None` for an empty or odd-length input, or when
/// a pair does not parse.
pub open spec fn hex_decode(b: Seq<u8>) -> Option<Seq<u8>> {
    if b.len() % 2 != 0 || b.len() == 0 {
        None
    } else {
        decode_pairs(b)
    }
}

/// The pairs of bytes that decoding reads, from index `i` up to and
/// including the first that does not parse, start and end on character
/// boundaries, so that slicing them out of the text does not panic.
pub open spec fn pairs_sliceable(b: Seq<u8>, i: int) -> bool
    decreases b.len() - i,
{
    if i < 0 || i + 2 > b.len() {
        true
    } else if !(vstd::utf8::is_char_boundary(b, i) && vstd::utf8::is_char_boundary(b, i + 2)) {
        false
    } else if pair_value(b[i], b[i + 1]) is None {
        true
    } else {
        pairs_sliceable(b, i + 2)
    }
}

/// A hex string whose decoding never slices inside a character: the pairs
/// read before the first one that fails (and that one) lie on character
/// boundaries. An empty or odd-length text is refused before any slicing.
pub open spec fn hex_sliceable(s: Seq<char>) -> bool {
    let b = vstd::utf8::encode_utf8(s);
    b.len() % 2 == 0 && b.len() > 0 ==> pairs_sliceable(b, 0)
}

proof fn lemma_all_boundaries_sliceable(b: Seq<u8>, i: int)
    requires
        0 <= i,
        forall|j: int| 0 <= j <= b.len() ==> #[trigger] vstd::utf8::is_char_boundary(b, j),
    ensures
        pairs_sliceable(b, i),
    decreases b.len() - i,
{
    if i + 2 <= b.len() {
        assert(vstd::utf8::is_char_boundary(b, i) && vstd::utf8::is_char_boundary(b, i + 2));
        lemma_all_boundaries_sliceable(b, i + 2);
    }
}

fn hex_value_exec(b: u8) -> (r: Option<u8>)
    ensures
        match r {
            Some(v) => hex_value(b) == Some(v as nat),
            None => hex_value(b) is None,
        },
{
    if 48 <= b && b <= 57 {
        Some(b - 48)
    } else if 97 <= b && b <= 102 {
        Some(b - 87)
    } else if 65 <= b && b <= 70 {
        Some(b - 55)
    } else {
        None
    }
}

fn pair_value_exec(b0: u8, b1: u8) -> (r: Option<u8>)
    ensures
        r == pair_value(b0, b1),
{
    if b0 == 43 {
        match hex_value_exec(b1) {
            Some(v) => Some(v),
            None => None,
        }
    } else {
        match (hex_value_exec(b0), hex_value_exec(b1)) {
            (Some(h), Some(l)) => Some(h * 16 + l),
            _ => None,
        }
    }
}

/// Decodes a hex string byte pair by byte pair.
pub fn hex_to_bytes(hex: &str) -> (r: Result<Vec<u8>, ()>)
    requires
        hex_sliceable(hex@),
    ensures
        match r {
            Ok(v) => hex_decode(vstd::utf8::encode_utf8(hex@)) == Some(v@),
            Err(_) => hex_decode(vstd::utf8::encode_utf8(hex@)) is None,
        },
{
    let b = hex.as_bytes();
    if b.len() % 2 != 0 || b.len() == 0 {
        return Err(());
    }
    let ghost bs = b@;
    assert(bs == hex.spec_bytes());
    assert(bs == vstd::utf8::encode_utf8(hex@));
    assert(bs.skip(0) =~= bs);
    let mut out: Vec<u8> = Vec::new();
    let mut i: usize = 0;
    while i < b.len()
        invariant
            i <= b.len(),
            i % 2 == 0,
            b.len() % 2 == 0,
            bs == b@,
            bs == vstd::utf8::encode_utf8(hex@),
            bs.len() > 0,
            decode_pairs(bs) == match decode_pairs(bs.skip(i as int)) {
                Some(rest) => Some(out@ + rest),
                None => None,
            },
        decreases b.len() - i,
    {
        assert(bs.skip(i as int).skip(2) =~= bs.skip(i + 2));
        match pair_value_exec(b[i], b[i + 1]) {
            Some(v) => {
                proof {
                    match decode_pairs(bs.skip(i + 2)) {
                        Some(rest) => {
                            assert(out@ + (seq![v] + rest) =~= out@.push(v) + rest);
                        },
                        None => {},
                    }
                }
                out.push(v);
            },
            None => {
                assert(bs.skip(i as int)[0] == b@[i as int] && bs.skip(i as int)[1] == b@[i + 1]);
                assert(decode_pairs(bs.skip(i as int)) is None);
                assert(decode_pairs(bs) is None);
                return Err(());
            },
        }
        i += 2;
    }
    assert(out@ + Seq::<u8>::empty() =~= out@);
    Ok(out)
}

fn lower_hex_char(d: u8) -> (c: char)
    requires
        d < 16,
    ensures
        c == lower_hex_digit(d as nat),
{
    if d < 10 {
        crate::text::char_from_ascii(d as u32 + 48)
    } else {
        crate::text::char_from_ascii(d as u32 + 87)
    }
}

/// Lowercase hex encoding of bytes.
pub fn to_hex_lower(b: &[u8]) -> (r: Vec<char>)
    ensures
        r@ == hex_lower(b@),
{
    let mut out: Vec<char> = Vec::new();
    let mut i: usize = 0;
    while i < b.len()
        invariant
            i <= b.len(),
            out@ == hex_lower(b@.take(i as int)),
        decreases b.len() - i,
    {
        assert(b@.take(i + 1).drop_last() =~= b@.take(i as int));
        out.push(lower_hex_char(b[i] / 16));
        out.push(lower_hex_char(b[i] % 16));
        i += 1;
        assert(out@ =~= hex_lower(b@.take(i as int)));
    }
    assert(b@.take(b.len() as int) =~= b@);
    out
}

// ---------------------------------------------------------------------------
// Round trip of the hex encoding
// ---------------------------------------------------------------------------

/// Every character of a lowercase hex encoding is ASCII.
pub proof fn lemma_hex_lower_ascii(b: Seq<u8>)
    ensures
        hex_lower(b).len() == 2 * b.len(),
        forall|i: int|
            0 <= i < hex_lower(b).len() ==> '\0' <= #[trigger] hex_lower(b)[i] <= '\u{7f}',
    decreases b.len(),
{
    if b.len() > 0 {
        lemma_hex_lower_ascii(b.drop_last());
    }
}

/// The bytes of the ASCII text of a lowercase hex encoding.
pub open spec fn hex_lower_bytes(b: Seq<u8>) -> Seq<u8>
    decreases b.len(),
{
    if b.len() == 0 {
        Seq::empty()
    } else {
        seq![lower_hex_digit((b[0] / 16) as nat) as u8, lower_hex_digit((b[0] % 16) as nat) as u8]
            + hex_lower_bytes(b.drop_first())
    }
}

proof fn lemma_hex_lower_prepend(b: Seq<u8>)
    requires
        b.len() > 0,
    ensures
        hex_lower(b) == seq![
            lower_hex_digit((b[0] / 16) as nat),
            lower_hex_digit((b[0] % 16) as nat),
        ] + hex_lower(b.drop_first()),
    decreases b.len(),
{
    if b.len() > 1 {
        lemma_hex_lower_prepend(b.drop_last());
        assert(b.drop_last().drop_first() =~= b.drop_first().drop_last());
        assert(b.drop_last()[0] == b[0]);
        assert(b.drop_first().last() == b.last());
        assert(hex_lower(b) =~= seq![
            lower_hex_digit((b[0] / 16) as nat),
            lower_hex_digit((b[0] % 16) as nat),
        ] + hex_lower(b.drop_first()));
    } else {
        assert(b.drop_first() =~= Seq::<u8>::empty());
        assert(b.drop_last() =~= Seq::<u8>::empty());
        assert(b.last() == b[0]);
        assert(hex_lower(b) =~= seq![
            lower_hex_digit((b[0] / 16) as nat),
            lower_hex_digit((b[0] % 16) as nat),
        ] + hex_lower(b.drop_first()));
    }
}

/// Hex digits decode back: the pairs of an encoding decode to the bytes.
proof fn lemma_decode_hex_lower_bytes(b: Seq<u8>)
    ensures
        decode_pairs(hex_lower_bytes(b)) == Some(b),
        hex_lower_bytes(b).len() == 2 * b.len(),
    decreases b.len(),
{
    if b.len() > 0 {
        lemma_decode_hex_lower_bytes(b.drop_first());
        let e = hex_lower_bytes(b);
        assert(e.skip(2) =~= hex_lower_bytes(b.drop_first()));
        let hi = (b[0] / 16) as nat;
        let lo = (b[0] % 16) as nat;
        assert(pair_value(e[0], e[1]) == Some(b[0]));
        assert(seq![b[0]] + b.drop_first() =~= b);
    } else {
        assert(hex_lower_bytes(b) =~= Seq::<u8>::empty());
    }
}

/// The UTF-8 bytes of ASCII characters are the character codes.
proof fn lemma_encode_hex_lower(b: Seq<u8>)
    ensures
        vstd::utf8::encode_utf8(hex_lower(b)) == hex_lower_bytes(b),
    decreases b.len(),
{
    lemma_hex_lower_ascii(b);
    let h = hex_lower(b);
    assert(vstd::utf8::is_ascii_chars(h));
    vstd::utf8::is_ascii_chars_encode_utf8(h);
    lemma_hex_bytes_are_codes(b);
    assert(vstd::utf8::encode_utf8(h) =~= hex_lower_bytes(b));
}

proof fn lemma_hex_bytes_are_codes(b: Seq<u8>)
    ensures
        hex_lower_bytes(b).len() == hex_lower(b).len(),
        forall|i: int|
            0 <= i < hex_lower(b).len() ==> #[trigger] hex_lower_bytes(b)[i] == hex_lower(b)[i] as u8,
    decreases b.len(),
{
    lemma_hex_lower_ascii(b);
    if b.len() > 0 {
        lemma_hex_bytes_are_codes(b.drop_first());
        lemma_hex_lower_prepend(b);
        lemma_hex_lower_ascii(b.drop_first());
    }
}

/// Decoding a lowercase hex encoding gives the bytes back, and the encoding
/// can be sliced pair by pair.
pub proof fn lemma_hex_round_trip(b: Seq<u8>)
    requires
        b.len() > 0,
    ensures
        hex_decode(vstd::utf8::encode_utf8(hex_lower(b))) == Some(b),
        hex_sliceable(hex_lower(b)),
{
    lemma_encode_hex_lower(b);
    lemma_decode_hex_lower_bytes(b);
    let h = hex_lower(b);
    let e = vstd::utf8::encode_utf8(h);
    lemma_hex_lower_ascii(b);
    lemma_hex_bytes_are_codes(b);
    vstd::utf8::encode_utf8_valid_utf8(h);
    vstd::utf8::is_char_boundary_start_end_of_seq(e);
    assert forall|i: int| 0 <= i <= e.len() implies #[trigger] vstd::utf8::is_char_boundary(e, i) by {
        if i < e.len() {
            vstd::utf8::is_char_boundary_iff_not_is_continuation_byte(e, i);
            assert(e[i] == h[i] as u8);
            assert(h[i] <= '\u{7f}');
        }
    }
    lemma_all_boundaries_sliceable(e, 0);
}

} // verus!
