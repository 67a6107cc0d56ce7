use siggy::TypingState;

const SEC: u64 = 1_000_000_000;

#[test]
fn default_is_idle() {
    let t = TypingState::default();
    assert!(!t.sent);
    assert_eq!(t.last_keypress, None);
    assert!(t.senders_typing(&"conv".to_string()).is_empty());
}

#[test]
fn record_and_remove() {
    let mut t = TypingState::new();
    t.record_typing("c1".to_string(), "alice".to_string(), 10 * SEC);
    t.record_typing("c1".to_string(), "bob".to_string(), 11 * SEC);
    t.record_typing("c1".to_string(), "alice".to_string(), 12 * SEC);
    let mut who = t.senders_typing(&"c1".to_string());
    who.sort();
    assert_eq!(who, vec!["alice".to_string(), "bob".to_string()]);
    t.remove_typing("c1".to_string(), "alice".to_string());
    assert_eq!(t.senders_typing(&"c1".to_string()), vec!["bob".to_string()]);
    t.remove_typing("nowhere".to_string(), "bob".to_string());
    assert_eq!(t.senders_typing(&"c1".to_string()), vec!["bob".to_string()]);
}

#[test]
fn cleanup_expires_after_five_seconds() {
    let mut t = TypingState::new();
    t.record_typing("c1".to_string(), "alice".to_string(), 10 * SEC);
    t.record_typing("c2".to_string(), "bob".to_string(), 13 * SEC);
    // 4.9 s after alice: nothing expires
    assert!(!t.cleanup_at(14 * SEC + SEC * 9 / 10));
    // exactly 5 s after alice: she expires, bob stays
    assert!(t.cleanup_at(15 * SEC));
    assert!(t.senders_typing(&"c1".to_string()).is_empty());
    assert_eq!(t.senders_typing(&"c2".to_string()), vec!["bob".to_string()]);
    // a second cleanup at the same time changes nothing
    assert!(!t.cleanup_at(15 * SEC));
    // stamps from the future never expire
    t.record_typing("c3".to_string(), "carol".to_string(), 100 * SEC);
    assert!(t.cleanup_at(20 * SEC));
    assert_eq!(t.senders_typing(&"c3".to_string()), vec!["carol".to_string()]);
}

#[test]
fn cleanup_with_clock_runs() {
    let mut t = TypingState::new();
    let now = t.now_nanos();
    assert!(now < SEC);
    t.record_typing("c1".to_string(), "alice".to_string(), now);
    assert!(!t.cleanup());
    assert_eq!(t.senders_typing(&"c1".to_string()), vec!["alice".to_string()]);
    assert!(t.now_nanos() >= now);
}

#[test]
fn timeout_of_outgoing_indicator() {
    let mut t = TypingState::new();
    assert!(!t.check_timeout_at(100 * SEC));
    t.sent = true;
    t.last_keypress = Some(10 * SEC);
    assert!(!t.check_timeout_at(15 * SEC));
    assert!(t.sent);
    assert!(t.check_timeout_at(15 * SEC + 1));
    assert!(!t.sent);
    assert_eq!(t.last_keypress, None);
    t.sent = true;
    assert!(!t.check_timeout_at(1000 * SEC));
    assert!(!t.check_timeout());
}

#[test]
fn reset_reports_typing() {
    let mut t = TypingState::new();
    t.sent = true;
    t.last_keypress = Some(5);
    assert!(t.reset());
    assert!(!t.sent);
    assert_eq!(t.last_keypress, None);
    assert!(!t.reset());
}
