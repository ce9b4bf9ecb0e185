//! Replay protection.

use lumen_core::nonce::{NonceError, NonceStore};

#[test]
fn first_use_ok_second_is_replay() {
    let mut store = NonceStore::new();
    store.check_and_insert("abc123", 1000, 60_000).unwrap();
    assert!(matches!(
        store.check_and_insert("abc123", 2000, 60_000),
        Err(NonceError::Replay(_))
    ));
}

#[test]
fn expired_nonce_is_fresh() {
    let mut store = NonceStore::new();
    store.check_and_insert("abc123", 1000, 500).unwrap();
    store.check_and_insert("abc123", 2000, 500).unwrap();
}

#[test]
fn invalid_nonces_rejected() {
    let mut store = NonceStore::new();
    assert!(matches!(
        store.check_and_insert("", 0, 1),
        Err(NonceError::Invalid)
    ));
    assert!(matches!(
        store.check_and_insert("has space", 0, 1),
        Err(NonceError::Invalid)
    ));
}

#[test]
fn purge_bounds_memory() {
    let mut store = NonceStore::new();
    store.check_and_insert("a", 0, 10).unwrap();
    store.check_and_insert("b", 0, 10_000).unwrap();
    assert_eq!(store.purge_expired(100), 1);
    assert_eq!(store.len(), 1);
}

#[test]
fn a_nonce_lives_until_its_last_millisecond() {
    let mut store = NonceStore::default();
    assert!(store.is_empty());
    store.check_and_insert("n", 1000, 500).unwrap();
    assert_eq!(
        store.check_and_insert("n", 1499, 500),
        Err(NonceError::Replay("n".to_string()))
    );
    store.check_and_insert("n", 1500, 500).unwrap();
    assert_eq!(store.len(), 1);
}

#[test]
fn long_nonces_are_refused() {
    let mut store = NonceStore::new();
    store.check_and_insert(&"x".repeat(256), 0, 1).unwrap();
    assert_eq!(
        store.check_and_insert(&"x".repeat(257), 0, 1),
        Err(NonceError::Invalid)
    );
    assert_eq!(
        NonceError::Replay("n".to_string()).message(),
        "nonce replay detected: n"
    );
}

#[test]
fn an_endless_lifetime_saturates() {
    let mut store = NonceStore::new();
    store.check_and_insert("n", i64::MAX - 1, 10).unwrap();
    assert_eq!(store.purge_expired(i64::MAX - 1), 0);
    assert_eq!(store.purge_expired(i64::MAX), 1);
}

#[test]
fn a_nonce_is_honoured_once_over_a_history() {
    let mut store = NonceStore::new();
    store.check_and_insert("a", 0, 1_000).unwrap();
    for t in 1..50 {
        store.check_and_insert(&format!("n{t}"), t, 5).unwrap();
        assert!(matches!(
            store.check_and_insert("a", t, 1_000),
            Err(NonceError::Replay(_))
        ));
        store.purge_expired(t);
    }
    store.check_and_insert("a", 1_000, 1_000).unwrap();
}
