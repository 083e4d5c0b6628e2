//! End-to-end scenarios: client session against an in-process store, every
//! message passing through the wire codec as it would over a connection.

use libhej::keys::Credential;
use libhej::ledger::{Ledger, VerifyOutcome};
use libhej::session::{client_get_request, client_handle_response, client_put, GetOutcome};
use libhej::store::{get, put, State};
use libhej::wire::{decode_message, decode_response, encode_message, encode_response, GetResponse,
    MessageType};

fn cred(u: &str, p: &str) -> Credential {
    Credential { username: u.to_string(), password: p.to_string() }
}

fn strip_newline(s: &str) -> &str {
    assert!(s.ends_with('\n'));
    &s[..s.len() - 1]
}

/// Sends one framed request to the store and returns its framed answer, if
/// the request calls for one.
fn serve(state: &mut State, framed: &str) -> Option<String> {
    match decode_message(strip_newline(framed)).expect("store rejected the frame") {
        MessageType::Put(p) => {
            put(state, p.id, p.data);
            None
        },
        MessageType::Get(g) => Some(encode_response(&get(state, g.id))),
    }
}

fn do_put(user: &Credential, state: &mut State, ledger: &mut Ledger, name: &str, content: &str) {
    let msg = client_put(user, name, content, ledger).unwrap();
    let framed = encode_message(&msg);
    assert!(serve(state, &framed).is_none());
}

fn do_get(user: &Credential, state: &mut State, ledger: &mut Ledger, name: &str) -> GetOutcome {
    let framed = encode_message(&client_get_request(user, name));
    let answer = serve(state, &framed).expect("a get elicits a response");
    let resp: GetResponse = decode_response(strip_newline(&answer)).unwrap();
    client_handle_response(user, name, resp, ledger)
}

#[test]
fn put_then_get_returns_content() {
    let user = cred("a", "a");
    let mut state = State::new();
    let mut ledger = Ledger::new();
    do_put(&user, &mut state, &mut ledger, "hej", "Hej");
    match do_get(&user, &mut state, &mut ledger, "hej") {
        GetOutcome::Delivered(content, integrity) => {
            assert_eq!(content, "Hej");
            assert_eq!(integrity, VerifyOutcome::Match);
        },
        other => panic!("expected delivery, got {:?}", other),
    }
}

#[test]
fn get_of_unknown_filename_is_not_found() {
    let user = cred("a", "a");
    let mut state = State::new();
    let mut ledger = Ledger::new();
    do_put(&user, &mut state, &mut ledger, "hej", "Hej");
    let outcome = do_get(&user, &mut state, &mut ledger, "never-put");
    assert_eq!(outcome, GetOutcome::NotFound);
    assert_eq!(ledger.check_content("never-put", "anything"), VerifyOutcome::Unknown);
}

#[test]
fn tampered_store_content_is_rejected() {
    let user = cred("a", "a");
    let mut state = State::new();
    let mut ledger = Ledger::new();
    do_put(&user, &mut state, &mut ledger, "x", "A");

    let id = match client_get_request(&user, "x") {
        MessageType::Get(g) => g.id,
        _ => unreachable!(),
    };
    let stored = get(&state, id.clone()).data.unwrap();
    let mut tampered: String = stored.chars().skip(1).collect();
    tampered.insert(0, if stored.starts_with('B') { 'C' } else { 'B' });
    assert_ne!(stored, tampered);
    put(&mut state, id, tampered);

    let outcome = do_get(&user, &mut state, &mut ledger, "x");
    assert_eq!(outcome, GetOutcome::DecryptionFailed);
    assert_eq!(ledger.check_content("x", "A"), VerifyOutcome::Match);
}

#[test]
fn other_credential_finds_nothing() {
    let c1 = cred("a", "a");
    let c2 = cred("b", "b");
    let mut state = State::new();
    let mut ledger1 = Ledger::new();
    let mut ledger2 = Ledger::new();
    do_put(&c1, &mut state, &mut ledger1, "x", "A");
    let outcome = do_get(&c2, &mut state, &mut ledger2, "x");
    assert_eq!(outcome, GetOutcome::NotFound);
}

#[test]
fn first_fetch_without_ledger_entry_records_it() {
    let user = cred("a", "a");
    let mut state = State::new();
    let mut writer_ledger = Ledger::new();
    do_put(&user, &mut state, &mut writer_ledger, "hej", "Hej");

    let mut fresh_ledger = Ledger::new();
    match do_get(&user, &mut state, &mut fresh_ledger, "hej") {
        GetOutcome::Delivered(content, integrity) => {
            assert_eq!(content, "Hej");
            assert_eq!(integrity, VerifyOutcome::Unknown);
        },
        other => panic!("expected delivery, got {:?}", other),
    }
    assert_eq!(fresh_ledger.check_content("hej", "Hej"), VerifyOutcome::Match);
}
