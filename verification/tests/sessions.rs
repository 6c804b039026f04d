use nfmw_backend::crypto::hash_password;
use nfmw_backend::token::{verify_salted_token, SaltLedger, TokenStore, UserToken};

#[test]
fn issuing_invalidates_previous_tokens() {
    let mut store = TokenStore::new();
    let old_token = store.issue(7);
    assert_eq!(store.verify(old_token.as_str()), Some(7));
    let new_token = store.issue(7);
    assert_ne!(old_token, new_token);
    assert_eq!(store.verify(old_token.as_str()), None);
    assert_eq!(store.verify(new_token.as_str()), Some(7));
}

#[test]
fn issuing_for_one_identity_leaves_others_alone() {
    let mut store = TokenStore::new();
    let token_a = store.issue(1);
    let token_b = store.issue(2);
    let _ = store.issue(1);
    assert_eq!(store.verify(token_a.as_str()), None);
    assert_eq!(store.verify(token_b.as_str()), Some(2));
}

#[test]
fn unknown_token_is_unauthenticated() {
    let mut store = TokenStore::new();
    assert_eq!(store.verify("never-issued"), None);
    let _ = store.issue(3);
    assert_eq!(store.verify("never-issued"), None);
}

#[test]
fn revoke_all_logs_the_identity_out() {
    let mut store = TokenStore::new();
    let token = store.issue(5);
    store.remove_all(5);
    assert_eq!(store.verify(token.as_str()), None);
}

#[test]
fn issued_tokens_are_long_opaque_strings() {
    let mut store = TokenStore::new();
    let a = store.issue(1);
    let b = store.issue(2);
    assert_eq!(a.len(), 88);
    assert_eq!(b.len(), 88);
    assert_ne!(a, b);
}

#[test]
fn user_token_new_keeps_its_fields() {
    let t = UserToken::new(9, "opaque".to_string());
    assert_eq!(t.user_id, 9);
    assert_eq!(t.token, "opaque");
}

#[test]
fn a_salt_is_accepted_at_most_once_per_token() {
    let mut ledger = SaltLedger::new();
    let salt: [u8; 1] = [9];
    let expected = hash_password("tok", &salt);
    assert!(verify_salted_token(&mut ledger, "tok", &salt, expected.as_str(), 100));
    // an exact replay of the captured (salt, hash) pair fails
    assert!(!verify_salted_token(&mut ledger, "tok", &salt, expected.as_str(), 101));
    // a fresh salt is accepted
    let salt2: [u8; 1] = [10];
    let expected2 = hash_password("tok", &salt2);
    assert!(verify_salted_token(&mut ledger, "tok", &salt2, expected2.as_str(), 102));
    // the same salt under another token is its own first use
    let expected3 = hash_password("other", &salt);
    assert!(verify_salted_token(&mut ledger, "other", &salt, expected3.as_str(), 103));
}

#[test]
fn a_wrong_hash_is_rejected_and_not_recorded() {
    let mut ledger = SaltLedger::new();
    let salt: [u8; 1] = [9];
    assert!(!verify_salted_token(&mut ledger, "tok", &salt, "deadbeef", 100));
    // the failed attempt did not burn the salt
    let expected = hash_password("tok", &salt);
    assert!(verify_salted_token(&mut ledger, "tok", &salt, expected.as_str(), 101));
}

#[test]
fn pruning_reopens_only_old_salts() {
    let mut ledger = SaltLedger::new();
    let old_salt: [u8; 1] = [1];
    let new_salt: [u8; 1] = [2];
    let old_hash = hash_password("tok", &old_salt);
    let new_hash = hash_password("tok", &new_salt);
    assert!(verify_salted_token(&mut ledger, "tok", &old_salt, old_hash.as_str(), 100));
    assert!(verify_salted_token(&mut ledger, "tok", &new_salt, new_hash.as_str(), 200));
    ledger.prune(150);
    assert!(verify_salted_token(&mut ledger, "tok", &old_salt, old_hash.as_str(), 201));
    assert!(!verify_salted_token(&mut ledger, "tok", &new_salt, new_hash.as_str(), 202));
}
