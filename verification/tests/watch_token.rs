use rsoffkv::watch::WatchToken;

#[test]
fn a_watch_is_consumed_by_exactly_one_wait() {
    let mut token = WatchToken::new();
    assert!(token.begin_wait());
    assert!(!token.begin_wait());
    assert!(!token.begin_wait());
}

#[test]
fn release_is_due_exactly_once_after_a_wait() {
    let mut token = WatchToken::new();
    assert!(token.begin_wait());
    assert!(token.release());
    assert!(!token.release());
}

#[test]
fn release_is_due_even_without_a_wait() {
    let mut token = WatchToken::new();
    assert!(token.release());
    assert!(!token.release());
    assert!(!token.begin_wait());
}
