//! Client/server library for storing files on an untrusted remote store.
//!
//! The store never sees real filenames (they are replaced by deterministic
//! obfuscated identifiers), file contents are protected by authenticated
//! encryption under a password-derived key, and a client-local integrity
//! ledger flags content that changed behind the client's back.

use vstd::prelude::*;

pub mod envelope;
pub mod hexstr;
pub mod keys;
pub mod kvseq;
pub mod ledger;
pub mod store;
pub mod obfuscate;
pub mod session;
pub mod primitives;
pub mod text;
pub mod wire;

verus! {

/// Failures of the cryptographic operations.
#[derive(Debug, PartialEq, Eq, Clone, Copy)]
pub enum CryptoError {
    /// Sealing failed: the randomness source failed or the payload is too
    /// large for the cipher.
    EncryptionFailure,
    /// Opening failed: the envelope is malformed or its tag does not verify
    /// (wrong key, tampered data, or wrong associated data).
    AuthenticationFailure,
}

} // verus!
