use libhej::ledger::{Ledger, VerifyOutcome};
use libhej::store::{get, put, State};

#[test]
fn store_returns_what_was_put() {
    let mut state = State::new();
    put(&mut state, "id1".to_string(), "envelope-a".to_string());
    let r = get(&state, "id1".to_string());
    assert_eq!(r.data, Some("envelope-a".to_string()));
}

#[test]
fn store_misses_unknown_identifiers() {
    let mut state = State::new();
    put(&mut state, "id1".to_string(), "envelope-a".to_string());
    assert_eq!(get(&state, "id2".to_string()).data, None);
    assert_eq!(get(&State::new(), "id1".to_string()).data, None);
}

#[test]
fn store_last_writer_wins() {
    let mut state = State::new();
    put(&mut state, "id1".to_string(), "old".to_string());
    put(&mut state, "id1".to_string(), "new".to_string());
    assert_eq!(get(&state, "id1".to_string()).data, Some("new".to_string()));
}

#[test]
fn ledger_record_if_absent_keeps_first_content() {
    let mut l = Ledger::new();
    l.record_if_absent("f", "first");
    l.record_if_absent("f", "second");
    assert_eq!(l.check_content("f", "first"), VerifyOutcome::Match);
    assert_eq!(l.check_content("f", "second"), VerifyOutcome::Mismatch);
}

#[test]
fn ledger_record_overwrites() {
    let mut l = Ledger::new();
    l.record("f", "first");
    l.record("f", "second");
    assert_eq!(l.check_content("f", "second"), VerifyOutcome::Match);
    assert_eq!(l.check_content("f", "first"), VerifyOutcome::Mismatch);
}

#[test]
fn ledger_unknown_before_any_record() {
    let l = Ledger::new();
    assert_eq!(l.check_content("f", "anything"), VerifyOutcome::Unknown);
}

#[test]
fn ledger_render_parse_round_trip() {
    let mut l = Ledger::new();
    l.record("a", "A");
    l.record("b", "B");
    l.record("a", "A2");
    let text = l.render();
    let back = Ledger::parse(&text).unwrap();
    assert_eq!(back.check_content("a", "A2"), VerifyOutcome::Match);
    assert_eq!(back.check_content("a", "A"), VerifyOutcome::Mismatch);
    assert_eq!(back.check_content("b", "B"), VerifyOutcome::Match);
    assert_eq!(back.check_content("c", "C"), VerifyOutcome::Unknown);
}

#[test]
fn ledger_parse_accepts_empty_and_rejects_malformed() {
    assert!(Ledger::parse("").is_some());
    assert_eq!(Ledger::parse("").unwrap().check_content("f", "x"), VerifyOutcome::Unknown);
    assert!(Ledger::parse("onlyonetoken\n").is_none());
    assert!(Ledger::parse("a b").is_none());
    assert!(Ledger::parse("a b c\n").is_none());
    assert!(Ledger::parse("a b\nc\n").is_none());
}
