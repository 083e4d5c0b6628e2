//! Authenticated encryption of file payloads into self-contained envelopes.
//!
//! An envelope is the base64 rendering of `ciphertext ‖ tag ‖ nonce-seed`:
//! a fresh random 16-byte nonce-seed is drawn per encryption, the cipher
//! nonce is its 12-byte prefix, and the seed travels in the envelope so the
//! receiver can reconstruct the nonce. The username is bound as associated
//! data, so a payload cannot be replayed under another user's context.

use vstd::prelude::*;
use vstd::slice::slice_to_vec;
use vstd::utf8::{encode_utf8, encode_utf8_decode_utf8, encode_utf8_valid_utf8};
use crate::CryptoError;
use crate::keys::{derive_key, derived_key_of, wf_credential, Credential};
use crate::obfuscate::{hashable, obf_id_of, ObfuscatedFileName};
use crate::primitives::{aead_open, aead_seal, aes256_gcm_seal, b64_decode, b64_encode, b64_of,
    bytes_to_string, is_b64_char, new_system_random, random_bytes, GCM_MAX_PLAINTEXT_LEN};
use crate::text::{is_token_char, token};

verus! {

/// Length of the random value an envelope carries to reconstruct the nonce.
pub const NONCE_SEED_LEN: usize = 16;

/// Length of the AES-256-GCM nonce: the seed's prefix.
pub const NONCE_LEN: usize = 12;

/// Copies `v[from..to]` into a fresh vector.
fn subvec(v: &Vec<u8>, from: usize, to: usize) -> (r: Vec<u8>)
    requires
        from <= to && to <= v@.len(),
    ensures
        r@ == v@.subrange(from as int, to as int),
{
    let mut r: Vec<u8> = Vec::new();
    let mut i: usize = from;
    while i < to
        invariant
            from <= i <= to <= v@.len(),
            r@ == v@.subrange(from as int, i as int),
        decreases to - i,
    {
        r.push(v[i]);
        proof {
            assert(r@ =~= v@.subrange(from as int, i + 1 as int));
        }
        i += 1;
    }
    r
}

/// An encrypted payload together with the obfuscated name it is stored under.
#[derive(Debug)]
pub struct EncryptedFile {
    pub name: ObfuscatedFileName,
    pub contents: String,
}

/// The envelope text that sealing `plaintext` for credential `c` under
/// nonce-seed `seed` produces.
pub open spec fn envelope_contents(c: Credential, plaintext: Seq<char>, seed: Seq<u8>) -> Seq<
    char,
> {
    b64_of(
        aes256_gcm_seal(
            derived_key_of(c),
            seed.take(NONCE_LEN as int),
            encode_utf8(c.username@),
            encode_utf8(plaintext),
        ) + seed,
    )
}

/// The whole envelope (ciphertext, tag and nonce-seed) must have a base64
/// rendering whose length fits in usize.
pub open spec fn encodable(plaintext: Seq<char>) -> bool {
    4 * (encode_utf8(plaintext).len() + 32) <= 3 * (usize::MAX as int)
}

/// Whether `contents` is the sealing of `plaintext` for credential `c` under
/// some 16-byte nonce-seed.
pub open spec fn is_envelope_for(contents: Seq<char>, c: Credential, plaintext: Seq<char>) -> bool {
    exists|seed: Seq<u8>|
        seed.len() == NONCE_SEED_LEN && contents == #[trigger] envelope_contents(c, plaintext, seed)
}

impl EncryptedFile {
    /// Seals a plaintext under the credential's derived key with the given
    /// nonce-seed. Deterministic in its inputs; succeeds whenever the
    /// plaintext is within the cipher's length limit.
    pub fn encrypt_with_seed(
        user: &Credential,
        file_name: &str,
        plaintext: &str,
        seed: &Vec<u8>,
    ) -> (r: Result<EncryptedFile, CryptoError>)
        requires
            wf_credential(*user),
            hashable(file_name@ + user.username@ + user.password@),
            encodable(plaintext@),
            seed@.len() == NONCE_SEED_LEN,
        ensures
            r matches Ok(e) ==> e.name@ == obf_id_of(*user, file_name@) && e.contents@
                == envelope_contents(*user, plaintext@, seed@) && token(e.contents@),
            encode_utf8(plaintext@).len() <= GCM_MAX_PLAINTEXT_LEN ==> r is Ok,
            r matches Err(err) ==> err == CryptoError::EncryptionFailure,
    {
        let key = derive_key(user);
        let nonce = subvec(seed, 0, NONCE_LEN);
        proof {
            assert(nonce@ =~= seed@.take(NONCE_LEN as int));
        }
        let pt: Vec<u8> = slice_to_vec(plaintext.as_bytes());
        match aead_seal(key.as_slice(), nonce.as_slice(), user.username.as_str().as_bytes(), pt) {
            Ok(mut sealed) => {
                let mut tail = subvec(seed, 0, NONCE_SEED_LEN);
                proof {
                    assert(tail@ =~= seed@);
                }
                sealed.append(&mut tail);
                let contents = b64_encode(sealed.as_slice());
                proof {
                    assert forall|i: int| 0 <= i < contents@.len() implies is_token_char(
                        #[trigger] contents@[i],
                    ) by {
                        assert(is_b64_char(contents@[i]));
                    }
                }
                Ok(
                    EncryptedFile {
                        name: ObfuscatedFileName::obfuscate(user, file_name),
                        contents,
                    },
                )
            },
            Err(_) => Err(CryptoError::EncryptionFailure),
        }
    }

    /// Seals a plaintext under a fresh random nonce-seed. The seed is drawn
    /// independently on every call, so nonce reuse under one key is
    /// vanishingly unlikely; the contract records only that the result is a
    /// well-formed envelope for some 16-byte seed.
    pub fn encrypt(user: &Credential, file_name: &str, plaintext: &str) -> (r: Result<
        EncryptedFile,
        CryptoError,
    >)
        requires
            wf_credential(*user),
            hashable(file_name@ + user.username@ + user.password@),
            encodable(plaintext@),
        ensures
            r matches Ok(e) ==> e.name@ == obf_id_of(*user, file_name@) && is_envelope_for(
                e.contents@,
                *user,
                plaintext@,
            ) && token(e.contents@),
            r matches Err(err) ==> err == CryptoError::EncryptionFailure,
    {
        let rng = new_system_random();
        match random_bytes(&rng, NONCE_SEED_LEN) {
            Ok(seed) => {
                match Self::encrypt_with_seed(user, file_name, plaintext, &seed) {
                    Ok(e) => {
                        proof {
                            assert(e.contents@ == envelope_contents(*user, plaintext@, seed@));
                            assert(is_envelope_for(e.contents@, *user, plaintext@));
                        }
                        Ok(e)
                    },
                    Err(err) => Err(err),
                }
            },
            Err(_) => Err(CryptoError::EncryptionFailure),
        }
    }

    /// Opens an envelope under the credential's derived key.
    ///
    /// Succeeds exactly on well-formed envelopes: whenever the envelope is
    /// the sealing of some plaintext for this credential (in particular, on
    /// anything `encrypt` produced — the round trip returns the original
    /// plaintext), and the returned plaintext is that one. Any other
    /// envelope — a tampered ciphertext, tag or nonce-seed, or one sealed
    /// under another credential — is rejected as an authentication failure.
    #[verifier::rlimit(50)]
    pub fn decrypt(&self, user: &Credential) -> (r: Result<String, CryptoError>)
        requires
            wf_credential(*user),
        ensures
            r matches Ok(p) ==> is_envelope_for(self.contents@, *user, p@) && 4 * encode_utf8(
                p@,
            ).len() <= 3 * self.contents@.len(),
            forall|p: Seq<char>, seed: Seq<u8>|
                (seed.len() == NONCE_SEED_LEN && encode_utf8(p).len() <= GCM_MAX_PLAINTEXT_LEN
                    && self.contents@ == #[trigger] envelope_contents(*user, p, seed)) ==> (
                r matches Ok(q) && q@ == p),
            r matches Err(err) ==> err == CryptoError::AuthenticationFailure,
    {
        let decoded = match b64_decode(self.contents.as_str()) {
            Ok(v) => v,
            Err(_) => {
                return Err(CryptoError::AuthenticationFailure);
            },
        };
        let n = decoded.len();
        if n < NONCE_SEED_LEN {
            return Err(CryptoError::AuthenticationFailure);
        }
        let seed = subvec(&decoded, n - NONCE_SEED_LEN, n);
        let ct = subvec(&decoded, 0, n - NONCE_SEED_LEN);
        let key = derive_key(user);
        let nonce = subvec(&seed, 0, NONCE_LEN);
        proof {
            assert(nonce@ =~= seed@.take(NONCE_LEN as int));
        }
        let aad = user.username.as_str().as_bytes();
        let pt_bytes = match aead_open(key.as_slice(), nonce.as_slice(), aad, ct) {
            Ok(v) => v,
            Err(_) => {
                proof {
                    assert forall|p: Seq<char>, sd: Seq<u8>|
                        sd.len() == NONCE_SEED_LEN && encode_utf8(p).len()
                            <= GCM_MAX_PLAINTEXT_LEN && self.contents@
                            == #[trigger] envelope_contents(*user, p, sd) implies false by {
                        lemma_envelope_pieces(*user, p, sd, decoded@);
                    }
                }
                return Err(CryptoError::AuthenticationFailure);
            },
        };
        let s = match bytes_to_string(pt_bytes) {
            Some(s) => s,
            None => {
                proof {
                    assert forall|p: Seq<char>, sd: Seq<u8>|
                        sd.len() == NONCE_SEED_LEN && encode_utf8(p).len()
                            <= GCM_MAX_PLAINTEXT_LEN && self.contents@
                            == #[trigger] envelope_contents(*user, p, sd) implies false by {
                        lemma_envelope_pieces(*user, p, sd, decoded@);
                        encode_utf8_valid_utf8(p);
                    }
                }
                return Err(CryptoError::AuthenticationFailure);
            },
        };
        proof {
            assert(decoded@ =~= ct@ + seed@);
            assert(self.contents@ == envelope_contents(*user, s@, seed@));
            assert(is_envelope_for(self.contents@, *user, s@));
            assert forall|p: Seq<char>, sd: Seq<u8>|
                sd.len() == NONCE_SEED_LEN && encode_utf8(p).len() <= GCM_MAX_PLAINTEXT_LEN
                    && self.contents@ == #[trigger] envelope_contents(*user, p, sd) implies s@
                == p by {
                lemma_envelope_pieces(*user, p, sd, decoded@);
                encode_utf8_decode_utf8(p);
                encode_utf8_decode_utf8(s@);
            }
        }
        Ok(s)
    }
}

/// If the bytes an envelope decodes to are the sealing of plaintext `p` under
/// nonce-seed `sd`, the sealed part and the seed are recoverable by position.
proof fn lemma_envelope_pieces(c: Credential, p: Seq<char>, sd: Seq<u8>, decoded: Seq<u8>)
    requires
        sd.len() == NONCE_SEED_LEN,
        decoded == aes256_gcm_seal(
            derived_key_of(c),
            sd.take(NONCE_LEN as int),
            encode_utf8(c.username@),
            encode_utf8(p),
        ) + sd,
    ensures
        decoded.len() >= NONCE_SEED_LEN,
        decoded.subrange(decoded.len() - NONCE_SEED_LEN, decoded.len() as int) == sd,
        decoded.subrange(0, decoded.len() - NONCE_SEED_LEN) == aes256_gcm_seal(
            derived_key_of(c),
            sd.take(NONCE_LEN as int),
            encode_utf8(c.username@),
            encode_utf8(p),
        ),
{
    let sealed = aes256_gcm_seal(
        derived_key_of(c),
        sd.take(NONCE_LEN as int),
        encode_utf8(c.username@),
        encode_utf8(p),
    );
    assert(decoded.subrange(decoded.len() - NONCE_SEED_LEN, decoded.len() as int) =~= sd);
    assert(decoded.subrange(0, decoded.len() - NONCE_SEED_LEN) =~= sealed);
}

} // verus!
