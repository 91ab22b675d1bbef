//! Fingerprints of poster secrets: the lower-case hex form of the SHA-256
//! digest of the secret's UTF-8 bytes.

use vstd::prelude::*;
use vstd::utf8::encode_utf8;

verus! {

/// The SHA-256 digest of a byte string, as `ring` computes it.
pub uninterp spec fn sha256(data: Seq<u8>) -> Seq<u8>;

/// Number of bytes from which on `ring` refuses to finish a digest: the
/// length in bits must fit in 64 bits.
pub const DIGEST_INPUT_LIMIT: u64 = 0x2000_0000_0000_0000;

/// Number of bytes in a SHA-256 digest.
pub const DIGEST_LEN: usize = 32;

/// Number of characters in a fingerprint.
pub const FINGERPRINT_LEN: usize = 64;

/// The lower-case hex digit for a value below sixteen.
pub open spec fn hex_digit(nibble: int) -> char {
    "0123456789abcdef"@[nibble]
}

/// Two lower-case hex digits per byte, high nibble first.
pub open spec fn hex_lower(bytes: Seq<u8>) -> Seq<char> {
    Seq::new(
        2 * bytes.len(),
        |i: int|
            if i % 2 == 0 {
                hex_digit(bytes[i / 2] as int / 16)
            } else {
                hex_digit(bytes[i / 2] as int % 16)
            },
    )
}

/// Whether a secret is short enough to be digested.
pub open spec fn hashable(secret: Seq<char>) -> bool {
    encode_utf8(secret).len() < DIGEST_INPUT_LIMIT
}

/// The fingerprint that belongs to a secret.
pub open spec fn spec_hash(secret: Seq<char>) -> Seq<char> {
    hex_lower(sha256(encode_utf8(secret)))
}

/// Calls `ring::digest::digest` with the SHA-256 algorithm and copies the
/// digest's bytes out. Trusted: the bytes are a function of the input alone
/// (named `sha256`) and there are 32 of them. `ring` panics when the input's
/// length in bits does not fit in 64 bits, which the precondition excludes.
#[verifier::external_body]
fn sha256_digest(data: &[u8]) -> (out: Vec<u8>)
    requires
        data@.len() < DIGEST_INPUT_LIMIT,
    ensures
        out@ == sha256(data@),
        out@.len() == DIGEST_LEN,
{
    ring::digest::digest(&ring::digest::SHA256, data).as_ref().to_vec()
}

/// Calls `hex::ToHex::encode_hex`. Trusted: the result holds, for each byte
/// in turn, the lower-case hex digit of its high nibble and then that of its
/// low nibble.
#[verifier::external_body]
fn encode_hex(bytes: &[u8]) -> (out: String)
    ensures
        out@ == hex_lower(bytes@),
{
    hex::ToHex::encode_hex(&bytes)
}

/// Tells whether a secret is short enough to be digested.
pub fn is_hashable(secret: &str) -> (ok: bool)
    ensures
        ok == hashable(secret@),
{
    (secret.as_bytes().len() as u64) < DIGEST_INPUT_LIMIT
}

/// Derives the fingerprint of a secret.
pub fn hash(input: String) -> (out: String)
    requires
        hashable(input@),
    ensures
        out@ == spec_hash(input@),
        out@.len() == FINGERPRINT_LEN,
{
    let digest = sha256_digest(input.as_str().as_bytes());
    encode_hex(digest.as_slice())
}

/// Equal secrets have equal fingerprints, whenever and however often they
/// are derived.
pub proof fn lemma_hash_deterministic(a: Seq<char>, b: Seq<char>)
    requires
        a == b,
    ensures
        spec_hash(a) == spec_hash(b),
{
}

} // verus!
