use nfmw_backend::crypto::{
    generate_base64_authentication_token, generate_salt, hash_password,
    validate_salted_authentication_token,
};

#[test]
fn password_hash_matches_a_known_vector() {
    let salt: [u8; 4] = [1, 2, 3, 4];
    let hash = hash_password("CorrectHorse9", &salt);
    assert_eq!(
        hash,
        "ca32f775f7c79d8f049d48fc81c325877f7526f9f3524ca60b57fc70d35490b09be7fe29550d5efe3d1fd228b94d6a7d3871b9c3fdadeeab23ad66dce7fe8610"
    );
}

#[test]
fn password_hash_depends_on_the_salt() {
    let a = hash_password("CorrectHorse9", &[1, 2, 3, 4]);
    let b = hash_password("CorrectHorse9", &[1, 2, 3, 5]);
    assert_ne!(a, b);
    assert_eq!(a.len(), 128);
    assert_eq!(b.len(), 128);
}

#[test]
fn salted_token_validation_accepts_the_recomputed_hash_only() {
    let salt: [u8; 1] = [9];
    let expected =
        "b7f48def5227fba3e43cdc2603da492a8c95e46832e56ba172ff7bd27096a7c3ce02f073d143fad3b61f48ebd1539609e88ee5ca9728fb6e206aa25dfacf8695";
    assert!(validate_salted_authentication_token("tok", &salt, expected));
    assert!(!validate_salted_authentication_token("tok2", &salt, expected));
    assert!(!validate_salted_authentication_token("tok", &[8], expected));
    assert!(!validate_salted_authentication_token("tok", &salt, "deadbeef"));
}

#[test]
fn salts_are_fresh_and_long() {
    let a = generate_salt();
    let b = generate_salt();
    assert_eq!(a.len(), 64);
    assert_eq!(b.len(), 64);
    assert_ne!(a, b);
}

#[test]
fn bearer_tokens_are_88_characters_of_base64() {
    let t = generate_base64_authentication_token();
    assert_eq!(t.len(), 88);
    assert!(t.chars().all(|c| c.is_ascii_alphanumeric() || c == '+' || c == '/' || c == '='));
}
