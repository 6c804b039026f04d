//! Credential material: random salts, password digests, opaque bearer
//! tokens, and the constant-time comparisons that guard them. Every
//! call into an outside cryptography crate sits behind a small trusted
//! wrapper; everything decided on the results is verified.

use vstd::prelude::*;
use vstd::slice::slice_to_vec;
use vstd::utf8::{encode_utf8, encode_utf8_decode_utf8};
use base64::Engine;
use rand_core::TryRngCore;
use sha2::Digest;
use subtle::ConstantTimeEq;

verus! {

/// The SHA-512 digest of the input — a function of the bytes alone.
pub uninterp spec fn sha512_of(data: Seq<u8>) -> Seq<u8>;

/// The standard-alphabet, padded base64 encoding of the input — a
/// function of the bytes alone.
pub uninterp spec fn base64_std_of(data: Seq<u8>) -> Seq<char>;

/// The lowercase hex digit for a value below 16.
pub open spec fn hex_digit(n: u8) -> char
    recommends
        n < 16,
{
    if n < 10 {
        (n + 48) as char
    } else {
        (n + 87) as char
    }
}

/// Lowercase hex encoding: two digits for each input byte, high nibble
/// first.
pub open spec fn hex_of(data: Seq<u8>) -> Seq<char> {
    Seq::new(
        data.len() * 2,
        |i: int| if i % 2 == 0 {
            hex_digit(data[i / 2] / 16)
        } else {
            hex_digit(data[i / 2] % 16)
        },
    )
}

/// Relies on rand_core::OsRng::try_fill_bytes: fills the buffer from
/// the operating system's randomness source. Nothing can be promised of
/// the values, only of how many there are.
#[verifier::external_body]
fn os_random_bytes(len: usize) -> (r: Vec<u8>)
    ensures
        r@.len() == len,
{
    let mut buf = vec![0u8; len];
    rand_core::OsRng.try_fill_bytes(&mut buf).expect("operating system randomness unavailable");
    buf
}

/// Relies on sha2::Sha512 (via the Digest trait): the 64-byte SHA-512
/// digest of the input, a function of the input alone.
#[verifier::external_body]
fn sha512(data: &[u8]) -> (r: Vec<u8>)
    ensures
        r@ == sha512_of(data@),
        r@.len() == 64,
{
    sha2::Sha512::digest(data).to_vec()
}

/// Relies on hex::encode: lowercase hex, exactly two digits per byte,
/// high nibble first.
#[verifier::external_body]
fn hex_encode(data: &[u8]) -> (r: String)
    ensures
        r@ == hex_of(data@),
{
    hex::encode(data)
}

/// Relies on base64::engine::general_purpose::STANDARD (padded standard
/// alphabet): deterministic in the input, four characters for every
/// three input bytes.
#[verifier::external_body]
fn base64_encode(data: &[u8]) -> (r: String)
    ensures
        r@ == base64_std_of(data@),
        r@.len() == ((data@.len() + 2) / 3) * 4,
{
    base64::engine::general_purpose::STANDARD.encode(data)
}

/// Relies on subtle::ConstantTimeEq for byte slices: true exactly when
/// lengths and contents agree, evaluated in constant time with respect
/// to the contents.
#[verifier::external_body]
pub(crate) fn ct_bytes_eq(a: &[u8], b: &[u8]) -> (r: bool)
    ensures
        r == (a@ == b@),
{
    a.ct_eq(b).unwrap_u8() == 1
}

/// A fresh per-credential salt: 64 bytes of operating-system
/// randomness, never reused because it is drawn anew on every call.
pub fn generate_salt() -> (r: Vec<u8>)
    ensures
        r@.len() == 64,
{
    os_random_bytes(64)
}

/// The stored form of a password: lowercase hex of the SHA-512 digest
/// of the salt followed by the password's UTF-8 bytes.
pub open spec fn password_hash_of(salt: Seq<u8>, password: Seq<char>) -> Seq<char> {
    hex_of(sha512_of(salt + encode_utf8(password)))
}

/// Digest a password under its per-credential salt.
pub fn hash_password(password: &str, salt: &[u8]) -> (r: String)
    ensures
        r@ == password_hash_of(salt@, password@),
        r@.len() == 128,
{
    let mut buf: Vec<u8> = slice_to_vec(salt);
    buf.extend_from_slice(password.as_bytes());
    proof {
        assert(buf@ =~= salt@ + encode_utf8(password@));
    }
    let digest = sha512(buf.as_slice());
    hex_encode(digest.as_slice())
}

/// A fresh opaque bearer token: 64 bytes of operating-system randomness
/// in base64, an 88-character capability that must be looked up to mean
/// anything.
pub fn generate_base64_authentication_token() -> (r: String)
    ensures
        r@.len() == 88,
{
    let bytes = os_random_bytes(64);
    base64_encode(bytes.as_slice())
}

/// Compare two strings in constant time with respect to their contents.
pub fn ct_str_eq(a: &str, b: &str) -> (r: bool)
    ensures
        r == (a@ == b@),
{
    let r = ct_bytes_eq(a.as_bytes(), b.as_bytes());
    proof {
        encode_utf8_decode_utf8(a@);
        encode_utf8_decode_utf8(b@);
    }
    r
}

/// Check a client-salted token: the client sends the hash of its fresh
/// salt followed by the token, and the server recomputes the same hash
/// from its stored token and compares in constant time. (A replayed
/// salt must additionally be rejected by the caller's used-salt ledger;
/// this function only decides whether the hash matches.)
pub fn validate_salted_authentication_token(token: &str, salt: &[u8], expected_hash: &str) -> (r: bool)
    ensures
        r == (password_hash_of(salt@, token@) == expected_hash@),
{
    let computed = hash_password(token, salt);
    let r = ct_bytes_eq(computed.as_str().as_bytes(), expected_hash.as_bytes());
    proof {
        encode_utf8_decode_utf8(computed@);
        encode_utf8_decode_utf8(expected_hash@);
    }
    r
}

} // verus!
