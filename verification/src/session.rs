//! Client-side orchestration of one `put` or `get` operation: derive the
//! identifier, seal or open the envelope, build the wire message, and keep
//! the integrity ledger current. Sending and receiving the framed bytes is
//! the caller's (I/O) concern.

use vstd::prelude::*;
use vstd::utf8::encode_utf8;
use crate::CryptoError;
use crate::envelope::{encodable, envelope_contents, is_envelope_for, EncryptedFile,
    NONCE_SEED_LEN};
use crate::keys::{wf_credential, Credential};
use crate::ledger::{record_if_absent_spec, verify_outcome_spec, Ledger, VerifyOutcome};
use crate::obfuscate::{hash_of, hashable, lemma_hash_token, obf_id_of, ObfuscatedFileName};
use crate::primitives::{DIGEST_MAX_INPUT_LEN, GCM_MAX_PLAINTEXT_LEN};
use crate::wire::{wf_message, Get, GetResponse, MessageType, Put};

verus! {

/// What a `get` operation reports.
#[derive(Debug, PartialEq, Eq, Clone)]
pub enum GetOutcome {
    /// The store holds nothing under the filename's identifier.
    NotFound,
    /// The stored envelope did not authenticate; nothing is delivered.
    DecryptionFailed,
    /// The plaintext, and how it compares against the integrity ledger.
    Delivered(String, VerifyOutcome),
}

/// Builds the `Put` request for a filename and content, and records
/// hash(filename) → hash(content) in the ledger: on a put the local author
/// is the ground truth, so the entry is overwritten unconditionally.
pub fn client_put(
    user: &Credential,
    file_name: &str,
    content: &str,
    ledger: &mut Ledger,
) -> (r: Result<MessageType, CryptoError>)
    requires
        wf_credential(*user),
        hashable(file_name@ + user.username@ + user.password@),
        hashable(file_name@),
        hashable(content@),
        encodable(content@),
        old(ledger).inv(),
    ensures
        final (ledger).inv(),
        r matches Ok(m) ==> (m matches MessageType::Put(p) && p.id@ == obf_id_of(
            *user,
            file_name@,
        ) && is_envelope_for(p.data@, *user, content@) && wf_message(m) && final (ledger)@ == old(
            ledger,
        )@.insert(hash_of(file_name@), hash_of(content@))),
        r matches Err(e) ==> e == CryptoError::EncryptionFailure && final (ledger)@ == old(
            ledger,
        )@,
{
    match EncryptedFile::encrypt(user, file_name, content) {
        Ok(enc) => {
            ledger.record(file_name, content);
            proof {
                lemma_hash_token(file_name@ + user.username@ + user.password@);
            }
            Ok(MessageType::Put(Put { id: enc.name.name, data: enc.contents }))
        },
        Err(e) => Err(e),
    }
}

/// Builds the `Get` request for a filename: only the obfuscated identifier
/// leaves the client.
pub fn client_get_request(user: &Credential, file_name: &str) -> (r: MessageType)
    requires
        hashable(file_name@ + user.username@ + user.password@),
    ensures
        r matches MessageType::Get(g) && g.id@ == obf_id_of(*user, file_name@),
        wf_message(r),
{
    let id = ObfuscatedFileName::obfuscate(user, file_name).name;
    proof {
        lemma_hash_token(file_name@ + user.username@ + user.password@);
    }
    MessageType::Get(Get { id })
}

/// Handles the store's answer to a `Get`: nothing stored, an envelope that
/// fails to authenticate (nothing is delivered and the ledger is untouched),
/// or the decrypted plaintext together with the integrity verdict against the
/// ledger, recording a first-ever fetch.
pub fn client_handle_response(
    user: &Credential,
    file_name: &str,
    resp: GetResponse,
    ledger: &mut Ledger,
) -> (r: GetOutcome)
    requires
        wf_credential(*user),
        hashable(file_name@ + user.username@ + user.password@),
        hashable(file_name@),
        resp.data matches Some(d) ==> d@.len() <= DIGEST_MAX_INPUT_LEN,
        old(ledger).inv(),
    ensures
        final (ledger).inv(),
        r is NotFound <==> resp.data is None,
        resp.data is None ==> final (ledger)@ == old(ledger)@,
        r is DecryptionFailed ==> final (ledger)@ == old(ledger)@,
        r matches GetOutcome::Delivered(content, integrity) ==> (resp.data matches Some(d)
            && is_envelope_for(d@, *user, content@) && integrity == verify_outcome_spec(
            old(ledger)@,
            file_name@,
            content@,
        ) && final (ledger)@ == record_if_absent_spec(
            old(ledger)@,
            hash_of(file_name@),
            hash_of(content@),
        )),
        forall|p: Seq<char>, seed: Seq<u8>|
            (resp.data matches Some(d) && seed.len() == NONCE_SEED_LEN && encode_utf8(p).len()
                <= GCM_MAX_PLAINTEXT_LEN && d@ == #[trigger] envelope_contents(*user, p, seed))
                ==> (r matches GetOutcome::Delivered(content, integrity) && content@ == p),
{
    let d = match resp.data {
        Some(d) => d,
        None => {
            return GetOutcome::NotFound;
        },
    };
    let from_store = EncryptedFile {
        name: ObfuscatedFileName::obfuscate(user, file_name),
        contents: d,
    };
    match from_store.decrypt(user) {
        Ok(content) => {
            let integrity = ledger.check_content(file_name, content.as_str());
            match integrity {
                VerifyOutcome::Unknown => {
                    ledger.record_if_absent(file_name, content.as_str());
                },
                _ => {},
            }
            GetOutcome::Delivered(content, integrity)
        },
        Err(_) => GetOutcome::DecryptionFailed,
    }
}

} // verus!
