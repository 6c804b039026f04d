use nfmw_backend::auth::{
    create_account, login, CreateAccountOutcome, CreateAccountPayload, LoginOutcome, LoginPayload,
};
use nfmw_backend::token::TokenStore;
use nfmw_backend::user::{User, UserStore};

fn payload(username: &str, password: &str) -> CreateAccountPayload {
    CreateAccountPayload { username: username.to_string(), password: password.to_string() }
}

#[test]
fn password_rule_accepts_and_rejects() {
    assert!(User::validate_password("CorrectHorse9"));
    assert!(!User::validate_password("short1A"));
    assert!(!User::validate_password("alllowercase9"));
    assert!(!User::validate_password("ALLUPPERCASE9"));
    assert!(!User::validate_password("NoDigitsHere"));
    assert!(!User::validate_password("Has Spaces 9A"));
    assert!(!User::validate_password("Tab\tInside9A"));
    assert!(!User::validate_password("Accented\u{e9}9A"));
    assert!(User::validate_password("Aa1Aa1Aa"));
}

#[test]
fn creating_an_account_assigns_sequential_ids() {
    let mut users = UserStore::new();
    let r1 = create_account(&mut users, payload("alice", "CorrectHorse9"));
    let r2 = create_account(&mut users, payload("bob", "CorrectHorse9"));
    assert_eq!(r1, CreateAccountOutcome::Created(1));
    assert_eq!(r2, CreateAccountOutcome::Created(2));
    assert!(users.check_username_exists("alice"));
    assert!(users.check_username_exists("bob"));
    assert!(!users.check_username_exists("carol"));
}

#[test]
fn duplicate_username_is_refused_before_the_password_rule() {
    let mut users = UserStore::new();
    create_account(&mut users, payload("alice", "CorrectHorse9"));
    let r = create_account(&mut users, payload("alice", "weak"));
    assert_eq!(r, CreateAccountOutcome::UsernameExists);
}

#[test]
fn weak_password_is_refused() {
    let mut users = UserStore::new();
    let r = create_account(&mut users, payload("alice", "weak"));
    assert_eq!(r, CreateAccountOutcome::InvalidPassword);
    assert!(!users.check_username_exists("alice"));
}

#[test]
fn login_succeeds_with_the_right_password_only() {
    let mut users = UserStore::new();
    let mut tokens = TokenStore::new();
    create_account(&mut users, payload("alice", "CorrectHorse9"));
    let lp = LoginPayload { username: "alice".to_string(), password: "CorrectHorse9".to_string() };
    let r = login(&users, &mut tokens, &lp);
    let token = match r {
        LoginOutcome::Success(t) => t,
        other => panic!("expected success, got {:?}", other),
    };
    assert_eq!(tokens.verify(token.as_str()), Some(1));
    let wrong = LoginPayload { username: "alice".to_string(), password: "WrongHorse9x".to_string() };
    assert!(matches!(login(&users, &mut tokens, &wrong), LoginOutcome::InvalidCredentials));
    let unknown = LoginPayload { username: "bob".to_string(), password: "CorrectHorse9".to_string() };
    assert!(matches!(login(&users, &mut tokens, &unknown), LoginOutcome::InvalidCredentials));
}

#[test]
fn login_replaces_the_previous_session() {
    let mut users = UserStore::new();
    let mut tokens = TokenStore::new();
    create_account(&mut users, payload("alice", "CorrectHorse9"));
    let lp = LoginPayload { username: "alice".to_string(), password: "CorrectHorse9".to_string() };
    let first = match login(&users, &mut tokens, &lp) {
        LoginOutcome::Success(t) => t,
        other => panic!("expected success, got {:?}", other),
    };
    let second = match login(&users, &mut tokens, &lp) {
        LoginOutcome::Success(t) => t,
        other => panic!("expected success, got {:?}", other),
    };
    assert_eq!(tokens.verify(first.as_str()), None);
    assert_eq!(tokens.verify(second.as_str()), Some(1));
}

#[test]
fn forced_rotation_blocks_login() {
    let mut users = UserStore::new();
    let mut tokens = TokenStore::new();
    let user = User::new_from_password("alice".to_string(), "CorrectHorse9".to_string(), true);
    users.insert_or_update(user);
    let lp = LoginPayload { username: "alice".to_string(), password: "CorrectHorse9".to_string() };
    assert!(matches!(login(&users, &mut tokens, &lp), LoginOutcome::PasswordChangeRequired));
}

#[test]
fn new_from_password_builds_consistent_credentials() {
    let u = User::new_from_password("alice".to_string(), "CorrectHorse9".to_string(), false);
    assert_eq!(u.id, 0);
    assert_eq!(u.username, "alice");
    assert_eq!(u.psalt.len(), 64);
    assert_eq!(u.phash.len(), 128);
    assert!(!u.must_change_password);
    let again = User::new_from_password("alice".to_string(), "CorrectHorse9".to_string(), false);
    assert_ne!(u.psalt, again.psalt, "salts are drawn fresh");
}

#[test]
fn update_password_rotates_salt_and_hash() {
    let mut u = User::new_from_password("alice".to_string(), "CorrectHorse9".to_string(), true);
    let old_salt = u.psalt.clone();
    let old_hash = u.phash.clone();
    u.update_password("OtherHorse42".to_string(), false);
    assert_eq!(u.psalt.len(), 64);
    assert_eq!(u.phash.len(), 128);
    assert_ne!(u.psalt, old_salt);
    assert_ne!(u.phash, old_hash);
    assert!(!u.must_change_password);
    assert_eq!(u.username, "alice");
}

#[test]
fn upsert_keeps_the_id_and_replaces_credentials() {
    let mut users = UserStore::new();
    let first = User::new_from_password("alice".to_string(), "CorrectHorse9".to_string(), false);
    let id1 = users.insert_or_update(first);
    let second = User::new_from_password("alice".to_string(), "OtherHorse42".to_string(), true);
    let id2 = users.insert_or_update(second);
    assert_eq!(id1, id2);
    assert!(users.get_by_username_password("alice", "CorrectHorse9").is_none());
    let u = users.get_by_username_password("alice", "OtherHorse42").expect("new password works");
    assert_eq!(u.id, id1);
    assert!(u.must_change_password);
}

#[test]
fn lookup_by_id_and_username() {
    let mut users = UserStore::new();
    let u = User::new_from_password("alice".to_string(), "CorrectHorse9".to_string(), false);
    let id = users.insert_or_update(u);
    assert_eq!(users.get_id_from_username("alice"), Some(id));
    assert_eq!(users.get_id_from_username("bob"), None);
    assert_eq!(users.get_by_user_id(id).unwrap().username, "alice");
    assert!(users.get_by_user_id(id + 1).is_none());
}
