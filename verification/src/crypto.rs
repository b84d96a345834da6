//! Password hashing, one-time passwords and session tokens.

use vstd::prelude::*;
use vstd::utf8::encode_utf8;
use sha2::{Digest, Sha256};
use rand::Rng;
use crate::text::{chars_of, string_from_chars};

verus! {

/// Random bytes in a session token.
pub const SESSION_TOKEN_BYTES: usize = 32;

/// Characters in a one-time password.
pub const OTP_LENGTH: usize = 16;

/// SHA-256 of `data`, as `sha2` computes it.
pub uninterp spec fn sha256(data: Seq<u8>) -> Seq<u8>;

/// `sha2::Sha256::digest` (that is `new`, `update`, `finalize`): the
/// 32-byte SHA-256 digest of `data`. Only its length is stated; the bytes are
/// named by `sha256`.
#[verifier::external_body]
fn sha256_digest(data: &[u8]) -> (r: Vec<u8>)
    ensures
        r@ == sha256(data@),
        r@.len() == 32,
{
    Sha256::digest(data).to_vec()
}

/// The lower-case hexadecimal digit for `n < 16`.
pub open spec fn hex_digit(n: int) -> char {
    if n < 10 {
        (48 + n) as char
    } else {
        (87 + n) as char
    }
}

/// `hex::encode`: two lower-case digits per byte, high nibble first.
pub open spec fn hex_lower(b: Seq<u8>) -> Seq<char>
    decreases b.len(),
{
    if b.len() == 0 {
        Seq::<char>::empty()
    } else {
        seq![hex_digit(b[0] as int / 16), hex_digit(b[0] as int % 16)] + hex_lower(b.drop_first())
    }
}

/// `hex::encode`: each byte becomes two lower-case hexadecimal digits,
/// high nibble first (the crate's `HEX_CHARS_LOWER` table).
#[verifier::external_body]
fn hex_encode(data: &[u8]) -> (r: String)
    ensures
        r@ == hex_lower(data@),
{
    hex::encode(data)
}

/// `rand::rng().random_range(0..bound)`: some number below `bound` (it panics
/// on an empty range, so `bound` must be positive). Which number is left open.
#[verifier::external_body]
fn random_below(bound: usize) -> (r: usize)
    requires
        bound > 0,
    ensures
        r < bound,
{
    rand::rng().random_range(0..bound)
}

/// `rand::rng().random::<u8>()`: some byte; nothing more is promised.
#[verifier::external_body]
fn random_byte() -> (r: u8) {
    rand::rng().random()
}

/// The stored form of a password: the hex SHA-256 of its UTF-8 bytes.
pub open spec fn password_hash(password: Seq<char>) -> Seq<char> {
    hex_lower(sha256(encode_utf8(password)))
}

/// Hashes a password for storage.
pub fn hash_password(password: &str) -> (r: String)
    ensures
        r@ == password_hash(password@),
{
    let digest = sha256_digest(password.as_bytes());
    hex_encode(digest.as_slice())
}

/// The characters a one-time password is drawn from: letters and digits
/// without the look-alikes `l`, `o`, `I`, `O`, `0` and `1`.
pub open spec fn otp_alphabet() -> Seq<char> {
    "abcdefghijkmnpqrstuvwxyzABCDEFGHJKLMNPQRSTUVWXYZ23456789"@
}

/// A well-formed one-time password.
pub open spec fn is_otp(s: Seq<char>) -> bool {
    &&& s.len() == OTP_LENGTH
    &&& forall|i: int| 0 <= i < s.len() ==> otp_alphabet().contains(#[trigger] s[i])
}

/// The one-time password spelled by `indices` into `otp_alphabet`.
pub open spec fn otp_of(indices: Seq<usize>) -> Seq<char> {
    indices.map_values(|k: usize| otp_alphabet()[k as int])
}

/// The one-time password whose characters are the alphabet's characters at
/// `indices`, each below the alphabet's 56 characters.
pub fn otp_from_indices(indices: &Vec<usize>) -> (r: String)
    requires
        forall|i: int| 0 <= i < indices@.len() ==> #[trigger] indices@[i] < 56,
    ensures
        r@ == otp_of(indices@),
{
    let chars = chars_of("abcdefghijkmnpqrstuvwxyzABCDEFGHJKLMNPQRSTUVWXYZ23456789");
    proof {
        reveal_strlit("abcdefghijkmnpqrstuvwxyzABCDEFGHJKLMNPQRSTUVWXYZ23456789");
    }
    let mut out: Vec<char> = Vec::new();
    let mut n: usize = 0;
    while n < indices.len()
        invariant
            n <= indices.len(),
            chars@ == otp_alphabet(),
            chars@.len() == 56,
            forall|i: int| 0 <= i < indices@.len() ==> #[trigger] indices@[i] < 56,
            out@ == otp_of(indices@).take(n as int),
        decreases indices.len() - n,
    {
        out.push(chars[indices[n]]);
        assert(otp_of(indices@).take(n + 1) =~= otp_of(indices@).take(n as int).push(
            otp_alphabet()[indices@[n as int] as int],
        ));
        n = n + 1;
    }
    assert(otp_of(indices@).take(n as int) =~= otp_of(indices@));
    string_from_chars(out.as_slice())
}

/// A fresh random one-time password: `OTP_LENGTH` characters drawn from
/// `otp_alphabet`.
pub fn generate_otp() -> (r: String)
    ensures
        is_otp(r@),
{
    proof {
        reveal_strlit("abcdefghijkmnpqrstuvwxyzABCDEFGHJKLMNPQRSTUVWXYZ23456789");
    }
    let mut indices: Vec<usize> = Vec::new();
    let mut n: usize = 0;
    while n < OTP_LENGTH
        invariant
            n <= OTP_LENGTH,
            indices@.len() == n,
            forall|i: int| 0 <= i < indices@.len() ==> #[trigger] indices@[i] < 56,
        decreases OTP_LENGTH - n,
    {
        indices.push(random_below(56));
        n = n + 1;
    }
    let r = otp_from_indices(&indices);
    assert forall|i: int| 0 <= i < r@.len() implies otp_alphabet().contains(#[trigger] r@[i]) by {
        assert(r@[i] == otp_alphabet()[indices@[i] as int]);
    }
    r
}

/// A well-formed session token: the hex form of some 32 bytes.
pub open spec fn is_session_token(s: Seq<char>) -> bool {
    exists|b: Seq<u8>| b.len() == SESSION_TOKEN_BYTES && s == hex_lower(b)
}

/// The session token made from `bytes`: their lower-case hexadecimal form.
pub fn token_from_bytes(bytes: &Vec<u8>) -> (r: String)
    ensures
        r@ == hex_lower(bytes@),
{
    hex_encode(bytes.as_slice())
}

/// A fresh random session token: the hexadecimal form of
/// `SESSION_TOKEN_BYTES` random bytes.
pub fn generate_session_token() -> (r: String)
    ensures
        is_session_token(r@),
{
    let mut bytes: Vec<u8> = Vec::new();
    let mut n: usize = 0;
    while n < SESSION_TOKEN_BYTES
        invariant
            n <= SESSION_TOKEN_BYTES,
            bytes@.len() == n,
        decreases SESSION_TOKEN_BYTES - n,
    {
        bytes.push(random_byte());
        n = n + 1;
    }
    let r = token_from_bytes(&bytes);
    assert(bytes@.len() == SESSION_TOKEN_BYTES && r@ == hex_lower(bytes@));
    r
}

/// Hexadecimal text has two digits per byte, so a session token is 64
/// characters long.
pub proof fn lemma_hex_len(b: Seq<u8>)
    ensures
        hex_lower(b).len() == 2 * b.len(),
    decreases b.len(),
{
    if b.len() > 0 {
        lemma_hex_len(b.drop_first());
    }
}

} // verus!
