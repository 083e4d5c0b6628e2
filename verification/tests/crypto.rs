use base64::Engine;
use libhej::envelope::EncryptedFile;
use libhej::hexstr::to_hex;
use libhej::keys::Credential;
use libhej::obfuscate::{get_hash, ObfuscatedFileName};
use libhej::CryptoError;
use std::collections::HashSet;

fn cred(u: &str, p: &str) -> Credential {
    Credential { username: u.to_string(), password: p.to_string() }
}

#[test]
fn encryption_decryption_works() {
    let data = "Hej";

    let user = cred("a", "a");

    let encr = EncryptedFile::encrypt(&user, "hej", data).unwrap();
    let decr = encr.decrypt(&user).unwrap();

    assert_eq!(data, decr);
}

#[test]
fn hex_rendering_exact() {
    assert_eq!(to_hex(&vec![]), "");
    assert_eq!(to_hex(&vec![0x0f, 0xa0]), "0fa0");
    assert_eq!(to_hex(&vec![0x00, 0xff, 0x10]), "00ff10");
}

#[test]
fn hash_is_deterministic_and_wide() {
    let h1 = get_hash("hej");
    let h2 = get_hash("hej");
    assert_eq!(h1, h2);
    assert_eq!(h1.len(), 128);
    assert!(h1.chars().all(|c| c.is_ascii_hexdigit()));
}

#[test]
fn hash_distinguishes_inputs() {
    assert_ne!(get_hash("hej"), get_hash("hei"));
    assert_ne!(get_hash(""), get_hash(" "));
}

#[test]
fn identifier_is_deterministic() {
    let user = cred("alice", "secret");
    let a = ObfuscatedFileName::obfuscate(&user, "notes.txt");
    let b = ObfuscatedFileName::obfuscate(&user, "notes.txt");
    assert_eq!(a.name, b.name);
}

#[test]
fn identifiers_differ_across_credentials_and_names() {
    let c1 = cred("alice", "secret");
    let c2 = cred("bob", "secret");
    let c3 = cred("alice", "other");
    let a = ObfuscatedFileName::obfuscate(&c1, "f");
    assert_ne!(a.name, ObfuscatedFileName::obfuscate(&c2, "f").name);
    assert_ne!(a.name, ObfuscatedFileName::obfuscate(&c3, "f").name);
    assert_ne!(a.name, ObfuscatedFileName::obfuscate(&c1, "g").name);
}

#[test]
fn encrypt_with_seed_is_deterministic() {
    let user = cred("alice", "secret");
    let seed: Vec<u8> = (0u8..16u8).collect();
    let e1 = EncryptedFile::encrypt_with_seed(&user, "f", "payload", &seed).unwrap();
    let e2 = EncryptedFile::encrypt_with_seed(&user, "f", "payload", &seed).unwrap();
    assert_eq!(e1.contents, e2.contents);
    let other: Vec<u8> = (1u8..17u8).collect();
    let e3 = EncryptedFile::encrypt_with_seed(&user, "f", "payload", &other).unwrap();
    assert_ne!(e1.contents, e3.contents);
    assert_eq!(e1.decrypt(&user).unwrap(), "payload");
}

#[test]
fn nonce_seeds_are_fresh_across_encryptions() {
    let user = cred("a", "a");
    let mut seeds: HashSet<Vec<u8>> = HashSet::new();
    for _ in 0..1000 {
        let e = EncryptedFile::encrypt(&user, "hej", "Hej").unwrap();
        let raw = base64::engine::general_purpose::STANDARD.decode(&e.contents).unwrap();
        let seed = raw[raw.len() - 16..].to_vec();
        assert!(seeds.insert(seed), "a nonce-seed repeated");
    }
    assert_eq!(seeds.len(), 1000);
}

#[test]
fn any_bit_flip_fails_authentication() {
    let user = cred("a", "a");
    let e = EncryptedFile::encrypt(&user, "hej", "Hej").unwrap();
    let raw = base64::engine::general_purpose::STANDARD.decode(&e.contents).unwrap();
    // every byte of the ciphertext, the tag and the seed prefix the 96-bit
    // nonce consumes; the seed's last four bytes feed no computation
    for byte in 0..raw.len() - 4 {
        for bit in 0..8 {
            let mut tampered = raw.clone();
            tampered[byte] ^= 1u8 << bit;
            let contents = base64::engine::general_purpose::STANDARD.encode(&tampered);
            let fake = EncryptedFile { name: ObfuscatedFileName::obfuscate(&user, "hej"), contents };
            assert_eq!(fake.decrypt(&user), Err(CryptoError::AuthenticationFailure));
        }
    }
}

#[test]
fn truncated_or_garbled_envelopes_fail() {
    let user = cred("a", "a");
    let fake = |contents: &str| EncryptedFile {
        name: ObfuscatedFileName::obfuscate(&user, "hej"),
        contents: contents.to_string(),
    };
    assert_eq!(fake("").decrypt(&user), Err(CryptoError::AuthenticationFailure));
    assert_eq!(fake("not base64 !!!").decrypt(&user), Err(CryptoError::AuthenticationFailure));
    assert_eq!(fake("QQ==").decrypt(&user), Err(CryptoError::AuthenticationFailure));
}

#[test]
fn decryption_under_wrong_credential_fails() {
    let user = cred("alice", "secret");
    let other = cred("alice", "wrong");
    let third = cred("bob", "secret");
    let e = EncryptedFile::encrypt(&user, "f", "payload").unwrap();
    assert_eq!(e.decrypt(&other), Err(CryptoError::AuthenticationFailure));
    assert_eq!(e.decrypt(&third), Err(CryptoError::AuthenticationFailure));
    assert_eq!(e.decrypt(&user).unwrap(), "payload");
}
