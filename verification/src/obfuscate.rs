//! Deterministic filename obfuscation: the only names the store ever sees.

use vstd::prelude::*;
use vstd::string::StringExecFns;
use vstd::utf8::encode_utf8;
use crate::hexstr::{hex_of, is_hex_char, lemma_hex_of_chars, to_hex};
use crate::keys::Credential;
use crate::primitives::{sha512, sha512_of, DIGEST_MAX_INPUT_LEN};
use crate::text::{is_token_char, token};

verus! {

/// The lowercase hexadecimal SHA-512 digest of a string's bytes.
pub open spec fn hash_of(s: Seq<char>) -> Seq<char> {
    hex_of(sha512_of(encode_utf8(s)))
}

/// A string the digest primitive can take: its byte length fits the
/// primitive's input counter.
pub open spec fn hashable(s: Seq<char>) -> bool {
    encode_utf8(s).len() <= DIGEST_MAX_INPUT_LEN
}

/// Hashes a string to its hexadecimal SHA-512 digest, 128 characters.
pub fn get_hash(s: &str) -> (r: String)
    requires
        hashable(s@),
    ensures
        r@ == hash_of(s@),
        r@.len() == 128,
{
    let d = sha512(s.as_bytes());
    to_hex(&d)
}

/// The opaque identifier a credential and a logical filename map to: the
/// hexadecimal SHA-512 digest of filename, username and password concatenated
/// in that order. Deterministic, and not invertible by the store.
pub open spec fn obf_id_of(c: Credential, file_name: Seq<char>) -> Seq<char> {
    hash_of(file_name + c.username@ + c.password@)
}

/// A logical filename as the store sees it.
#[derive(Debug, Clone)]
pub struct ObfuscatedFileName {
    pub name: String,
}

impl View for ObfuscatedFileName {
    type V = Seq<char>;

    open spec fn view(&self) -> Seq<char> {
        self.name@
    }
}

impl ObfuscatedFileName {
    /// Computes the identifier for a filename under a credential.
    pub fn obfuscate(user: &Credential, file_name: &str) -> (r: ObfuscatedFileName)
        requires
            hashable(file_name@ + user.username@ + user.password@),
        ensures
            r.name@ == obf_id_of(*user, file_name@),
    {
        let mut data = file_name.to_owned();
        data.append(user.username.as_str());
        data.append(user.password.as_str());
        ObfuscatedFileName { name: get_hash(data.as_str()) }
    }
}

/// A hash rendering is a token: free of separator characters, so it can
/// stand in a ledger line or a wire frame.
pub proof fn lemma_hash_token(s: Seq<char>)
    ensures
        token(hash_of(s)),
{
    lemma_hex_of_chars(sha512_of(encode_utf8(s)));
    assert forall|i: int| 0 <= i < hash_of(s).len() implies is_token_char(
        #[trigger] hash_of(s)[i],
    ) by {
        assert(is_hex_char(hash_of(s)[i]));
    }
}

/// Identifier derivation is deterministic: equal credentials and filenames
/// always map to the same obfuscated identifier.
pub proof fn lemma_identifier_deterministic(
    c1: Credential,
    f1: Seq<char>,
    c2: Credential,
    f2: Seq<char>,
)
    requires
        c1.username@ == c2.username@,
        c1.password@ == c2.password@,
        f1 == f2,
    ensures
        obf_id_of(c1, f1) == obf_id_of(c2, f2),
{
}

} // verus!
