//! Credentials and the password-derived symmetric key.

use vstd::prelude::*;
use vstd::utf8::encode_utf8;
use crate::primitives::{pbkdf2_derive_key, pbkdf2_hmac_sha256, DIGEST_MAX_INPUT_LEN};

verus! {

/// A username/password pair. Never transmitted; only artifacts derived from
/// it (the key, obfuscated identifiers, encrypted payloads) leave the client.
#[derive(Clone)]
pub struct Credential {
    pub username: String,
    pub password: String,
}

pub const ENCRYPTION_KEY_LEN: usize = 32;

pub const PBKDF2_ITERATIONS: u32 = 1000;

/// The PBKDF2 salt: the username's bytes in a 32-byte buffer, zero-filled at
/// the end and truncated if the username is longer.
pub open spec fn salt_of(username_bytes: Seq<u8>) -> Seq<u8> {
    if username_bytes.len() >= ENCRYPTION_KEY_LEN {
        username_bytes.take(ENCRYPTION_KEY_LEN as int)
    } else {
        username_bytes + Seq::new((ENCRYPTION_KEY_LEN - username_bytes.len()) as nat, |i: int| 0u8)
    }
}

/// The 256-bit key a credential derives to.
pub open spec fn derived_key_of(c: Credential) -> Seq<u8> {
    pbkdf2_hmac_sha256(
        PBKDF2_ITERATIONS,
        salt_of(encode_utf8(c.username@)),
        encode_utf8(c.password@),
    )
}

/// Username and password must be valid inputs to the digest-based
/// primitives: the password feeds key derivation, the username stands as
/// associated data.
pub open spec fn wf_credential(c: Credential) -> bool {
    encode_utf8(c.username@).len() <= DIGEST_MAX_INPUT_LEN && encode_utf8(c.password@).len()
        <= DIGEST_MAX_INPUT_LEN
}

/// Derives the symmetric key for a credential. Deterministic: the same
/// credential always yields the same key.
pub fn derive_key(c: &Credential) -> (r: Vec<u8>)
    requires
        wf_credential(*c),
    ensures
        r@ == derived_key_of(*c),
        r@.len() == ENCRYPTION_KEY_LEN,
{
    let ubytes = c.username.as_str().as_bytes();
    let mut salt: Vec<u8> = Vec::new();
    let upfx: usize = if ubytes.len() < ENCRYPTION_KEY_LEN {
        ubytes.len()
    } else {
        ENCRYPTION_KEY_LEN
    };
    let mut i: usize = 0;
    while i < upfx
        invariant
            i <= upfx,
            upfx <= ubytes@.len(),
            salt@ == ubytes@.take(i as int),
        decreases upfx - i,
    {
        salt.push(ubytes[i]);
        proof {
            assert(salt@ =~= ubytes@.take(i + 1 as int));
        }
        i += 1;
    }
    while salt.len() < ENCRYPTION_KEY_LEN
        invariant
            upfx <= salt@.len() <= ENCRYPTION_KEY_LEN,
            salt@.take(upfx as int) == ubytes@.take(upfx as int),
            forall|j: int| upfx <= j < salt@.len() ==> salt@[j] == 0u8,
        decreases ENCRYPTION_KEY_LEN - salt@.len(),
    {
        salt.push(0u8);
        proof {
            assert(salt@.take(upfx as int) =~= ubytes@.take(upfx as int));
        }
    }
    proof {
        assert(salt@.len() == ENCRYPTION_KEY_LEN);
        assert forall|j: int| 0 <= j < upfx implies salt@[j] == ubytes@[j] by {
            assert(salt@.take(upfx as int)[j] == ubytes@.take(upfx as int)[j]);
        }
        if ubytes@.len() >= ENCRYPTION_KEY_LEN {
            assert(salt@ =~= ubytes@.take(ENCRYPTION_KEY_LEN as int));
        } else {
            assert(salt@ =~= ubytes@ + Seq::new(
                (ENCRYPTION_KEY_LEN - ubytes@.len()) as nat,
                |i: int| 0u8,
            ));
        }
    }
    pbkdf2_derive_key(PBKDF2_ITERATIONS, salt.as_slice(), c.password.as_str().as_bytes())
}

} // verus!
