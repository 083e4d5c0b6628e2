//! Trusted declarations for the cryptographic and encoding primitives the
//! library calls in outside crates, and for UTF-8 decoding from std.
//!
//! Every function here is `external_body`: its contract states what the
//! outside code does, and the rest of the library is verified against these
//! contracts.

use vstd::prelude::*;
use vstd::utf8::{encode_utf8, valid_utf8};
use base64::Engine;
use ring::rand::SecureRandom;

verus! {

#[verifier::external_type_specification]
#[verifier::external_body]
pub struct ExUnspecified(ring::error::Unspecified);

#[verifier::external_type_specification]
#[verifier::external_body]
pub struct ExDecodeError(base64::DecodeError);

#[verifier::external_type_specification]
#[verifier::external_body]
pub struct ExSystemRandom(ring::rand::SystemRandom);

/// The key that PBKDF2 with HMAC-SHA-256 derives from an iteration count, a
/// salt and a secret, at 32 bytes of output.
pub uninterp spec fn pbkdf2_hmac_sha256(iterations: u32, salt: Seq<u8>, secret: Seq<u8>) -> Seq<u8>;

/// The SHA-512 digest of a byte sequence.
pub uninterp spec fn sha512_of(data: Seq<u8>) -> Seq<u8>;

/// Ciphertext concatenated with the 16-byte tag that AES-256-GCM produces
/// from a key, a nonce, associated data and a plaintext.
pub uninterp spec fn aes256_gcm_seal(key: Seq<u8>, nonce: Seq<u8>, aad: Seq<u8>, plaintext: Seq<u8>) -> Seq<u8>;

/// The standard (padded) base64 rendering of a byte sequence.
pub uninterp spec fn b64_of(data: Seq<u8>) -> Seq<char>;

/// The longest input the SHA-256-based primitives accept, in bytes.
pub const DIGEST_MAX_INPUT_LEN: u64 = 0x1fffffffffffffff;

/// The longest plaintext AES-256-GCM seals, in bytes.
pub const GCM_MAX_PLAINTEXT_LEN: u64 = 68719476704;

/// Relies on ring::pbkdf2::derive with PBKDF2_HMAC_SHA256: fills the output
/// buffer with the PBKDF2 derivation, a deterministic function of the
/// iteration count, salt and secret; panics only on inputs too large for the
/// underlying digest, which the preconditions rule out.
#[verifier::external_body]
pub(crate) fn pbkdf2_derive_key(iterations: u32, salt: &[u8], secret: &[u8]) -> (r: Vec<u8>)
    requires
        iterations >= 1,
        salt@.len() <= DIGEST_MAX_INPUT_LEN,
        secret@.len() <= DIGEST_MAX_INPUT_LEN,
    ensures
        r@ == pbkdf2_hmac_sha256(iterations, salt@, secret@),
        r@.len() == 32,
{
    let mut key = vec![0u8; 32];
    let iters = core::num::NonZeroU32::new(iterations).unwrap();
    ring::pbkdf2::derive(ring::pbkdf2::PBKDF2_HMAC_SHA256, iters, salt, secret, &mut key);
    key
}

/// Relies on ring::digest::digest with SHA512: a 64-byte digest that is a
/// deterministic function of the input bytes alone; panics only on inputs
/// whose bit length exceeds the primitive's 64-bit counter, which the
/// precondition rules out.
#[verifier::external_body]
pub(crate) fn sha512(data: &[u8]) -> (r: Vec<u8>)
    requires
        data@.len() <= DIGEST_MAX_INPUT_LEN,
    ensures
        r@ == sha512_of(data@),
        r@.len() == 64,
{
    ring::digest::digest(&ring::digest::SHA512, data).as_ref().to_vec()
}

/// Relies on ring::rand::SystemRandom::new: a handle on the system's secure
/// random source.
#[verifier::external_body]
pub(crate) fn new_system_random() -> ring::rand::SystemRandom {
    ring::rand::SystemRandom::new()
}

/// Relies on ring::rand::SecureRandom::fill: fills the buffer with fresh
/// cryptographically secure random bytes. Nothing is promised of the values.
#[verifier::external_body]
pub(crate) fn random_bytes(rng: &ring::rand::SystemRandom, n: usize) -> (r: Result<
    Vec<u8>,
    ring::error::Unspecified,
>)
    ensures
        r matches Ok(v) ==> v@.len() == n,
{
    let mut buf = vec![0u8; n];
    rng.fill(&mut buf)?;
    Ok(buf)
}

/// Relies on ring::aead::LessSafeKey::seal_in_place_append_tag with
/// AES_256_GCM (UnboundKey::new, Nonce::try_assume_unique_for_key and
/// Aad::from convert the arguments): appends the 16-byte tag to the
/// ciphertext; the result is a deterministic function of key, nonce,
/// associated data and plaintext; it succeeds whenever the plaintext is
/// within the algorithm's length limit.
#[verifier::external_body]
pub(crate) fn aead_seal(key: &[u8], nonce: &[u8], aad: &[u8], plaintext: Vec<u8>) -> (r: Result<
    Vec<u8>,
    ring::error::Unspecified,
>)
    requires
        key@.len() == 32,
        nonce@.len() == 12,
        aad@.len() <= DIGEST_MAX_INPUT_LEN,
    ensures
        r matches Ok(v) ==> v@ == aes256_gcm_seal(key@, nonce@, aad@, plaintext@) && v@.len()
            == plaintext@.len() + 16 && plaintext@.len() <= GCM_MAX_PLAINTEXT_LEN,
        plaintext@.len() <= GCM_MAX_PLAINTEXT_LEN ==> r is Ok,
{
    let unbound = ring::aead::UnboundKey::new(&ring::aead::AES_256_GCM, key)?;
    let sealing = ring::aead::LessSafeKey::new(unbound);
    let n = ring::aead::Nonce::try_assume_unique_for_key(nonce)?;
    let mut io = plaintext;
    sealing.seal_in_place_append_tag(n, ring::aead::Aad::from(aad), &mut io)?;
    Ok(io)
}

/// Relies on ring::aead::LessSafeKey::open_in_place with AES_256_GCM: opening
/// succeeds on exactly the inputs whose tag verifies; AES-GCM is
/// deterministic and its keystream invertible, so a successful opening
/// returns the one plaintext whose sealing under the same key, nonce and
/// associated data is the given input, and sealings within the length limit
/// always open.
#[verifier::external_body]
pub(crate) fn aead_open(key: &[u8], nonce: &[u8], aad: &[u8], sealed: Vec<u8>) -> (r: Result<
    Vec<u8>,
    ring::error::Unspecified,
>)
    requires
        key@.len() == 32,
        nonce@.len() == 12,
        aad@.len() <= DIGEST_MAX_INPUT_LEN,
    ensures
        r matches Ok(p) ==> sealed@ == aes256_gcm_seal(key@, nonce@, aad@, p@) && p@.len() + 16
            == sealed@.len(),
        r matches Ok(p) ==> forall|q: Seq<u8>|
            sealed@ == #[trigger] aes256_gcm_seal(key@, nonce@, aad@, q) ==> q == p@,
        r is Err ==> forall|p: Seq<u8>|
            p.len() <= GCM_MAX_PLAINTEXT_LEN ==> sealed@ != #[trigger] aes256_gcm_seal(
                key@,
                nonce@,
                aad@,
                p,
            ),
{
    let unbound = ring::aead::UnboundKey::new(&ring::aead::AES_256_GCM, key)?;
    let opening = ring::aead::LessSafeKey::new(unbound);
    let n = ring::aead::Nonce::try_assume_unique_for_key(nonce)?;
    let mut io = sealed;
    let p = opening.open_in_place(n, ring::aead::Aad::from(aad), &mut io)?;
    Ok(p.to_vec())
}

/// Every character the standard base64 alphabet (with padding) can produce.
pub open spec fn is_b64_char(c: char) -> bool {
    ('A' <= c && c <= 'Z') || ('a' <= c && c <= 'z') || ('0' <= c && c <= '9') || c == '+' || c
        == '/' || c == '='
}

/// Relies on base64's STANDARD engine encode: the standard alphabet with
/// padding, a deterministic function of the input bytes; every output
/// character is in the standard alphabet. It panics only when the encoded
/// length cannot be computed in usize, which the precondition rules out.
#[verifier::external_body]
pub(crate) fn b64_encode(data: &[u8]) -> (r: String)
    requires
        4 * data@.len() <= 3 * (usize::MAX as int),
    ensures
        r@ == b64_of(data@),
        forall|i: int| 0 <= i < r@.len() ==> is_b64_char(#[trigger] r@[i]),
{
    base64::engine::general_purpose::STANDARD.encode(data)
}

/// Relies on base64's STANDARD engine decode: it requires canonical padding
/// and rejects nonzero trailing bits, so a string decodes successfully
/// exactly when it is the standard encoding of some byte sequence, and then
/// to those bytes; with the required padding the encoding has four characters
/// for every three bytes.
#[verifier::external_body]
pub(crate) fn b64_decode(s: &str) -> (r: Result<Vec<u8>, base64::DecodeError>)
    ensures
        r matches Ok(v) ==> s@ == b64_of(v@) && 4 * v@.len() <= 3 * s@.len(),
        r matches Ok(v) ==> forall|b: Seq<u8>| s@ == #[trigger] b64_of(b) ==> b == v@,
        r is Err ==> forall|b: Seq<u8>| s@ != #[trigger] b64_of(b),
{
    base64::engine::general_purpose::STANDARD.decode(s)
}

/// Relies on String::from_utf8: succeeds exactly on valid UTF-8, yielding the
/// string whose byte encoding is the input.
#[verifier::external_body]
pub(crate) fn bytes_to_string(v: Vec<u8>) -> (r: Option<String>)
    ensures
        valid_utf8(v@) ==> r is Some,
        r matches Some(s) ==> encode_utf8(s@) == v@,
{
    match String::from_utf8(v) {
        Ok(s) => Some(s),
        Err(_) => None,
    }
}

} // verus!
