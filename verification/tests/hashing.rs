use identity_core::hasher::{
    constant_time_eq, generate_multiple_random_token_with_rng, hash_password,
    hash_password_with_existing_salt, verify_password,
};

#[test]
fn rehash_with_same_salt_reproduces_hash() {
    let password = "correct horse battery".to_string();
    let result = hash_password(&password).unwrap();
    let rehashed = hash_password_with_existing_salt(&password, &result.salt).unwrap();
    assert_eq!(rehashed.hash, result.hash);
    assert_eq!(rehashed.salt, result.salt);
}

#[test]
fn rehash_differs_for_other_password() {
    let result = hash_password(&"one password".to_string()).unwrap();
    let other = hash_password_with_existing_salt(&"two password".to_string(), &result.salt).unwrap();
    assert_ne!(other.hash, result.hash);
}

#[test]
fn fresh_salts_differ_between_calls() {
    let a = hash_password(&"same password".to_string()).unwrap();
    let b = hash_password(&"same password".to_string()).unwrap();
    assert_ne!(a.salt, b.salt);
    assert_ne!(a.hash, b.hash);
}

#[test]
fn undecodable_salt_yields_nothing() {
    assert!(hash_password_with_existing_salt(&"password".to_string(), &"!!!".to_string()).is_none());
}

#[test]
fn hash_and_salt_are_base64_of_64_bytes() {
    let result = hash_password(&"some password".to_string()).unwrap();
    assert_eq!(result.salt.len(), 88);
    assert_eq!(result.hash.len(), 88);
    assert_eq!(data_encoding::BASE64.decode(result.salt.as_bytes()).unwrap().len(), 64);
    assert_eq!(data_encoding::BASE64.decode(result.hash.as_bytes()).unwrap().len(), 64);
}

#[test]
fn verify_password_accepts_own_row_and_rejects_others() {
    let password = "a fine password".to_string();
    let row = hash_password(&password).unwrap();
    assert!(verify_password(&row.hash, &row.salt, &password));
    assert!(!verify_password(&row.hash, &row.salt, &"a wrong password".to_string()));
    assert!(!verify_password(&row.hash, &"***".to_string(), &password));
}

#[test]
fn token_generation_yields_the_asked_count() {
    let tokens = generate_multiple_random_token_with_rng(5).unwrap();
    assert_eq!(tokens.len(), 5);
    for token in tokens.iter() {
        assert_eq!(token.len(), 88);
        assert_eq!(data_encoding::BASE64.decode(token.as_bytes()).unwrap().len(), 64);
    }
    assert_ne!(tokens[0], tokens[1]);
}

#[test]
fn token_generation_accepts_zero() {
    let tokens = generate_multiple_random_token_with_rng(0).unwrap();
    assert!(tokens.is_empty());
}

#[test]
fn constant_time_eq_is_plain_equality() {
    assert!(constant_time_eq(b"", b""));
    assert!(constant_time_eq(b"abc", b"abc"));
    assert!(!constant_time_eq(b"abc", b"abd"));
    assert!(!constant_time_eq(b"abc", b"abcd"));
}
