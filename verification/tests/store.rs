use identity_core::domain::{CredentialType, Token, User};
use identity_core::dto::CredentialDto;
use identity_core::store::{Store, StoreError};

fn user_named(name: &str) -> User {
    User {
        id: 0,
        name: name.to_string(),
        password: "hash".to_string(),
        salt: "salt".to_string(),
        time_created: 1_000,
        last_updated: 9_999,
    }
}

#[test]
fn insert_user_assigns_fresh_ids_and_timestamps() {
    let mut store = Store::new();
    let first = store.insert_user(user_named("First Person")).unwrap();
    let second = store.insert_user(user_named("Second Person")).unwrap();
    assert_eq!(first.id, 1);
    assert_eq!(second.id, 2);
    assert_eq!(first.time_created, 1_000);
    assert_eq!(first.last_updated, 1_000);
    assert_eq!(store.users.len(), 2);
}

#[test]
fn insert_user_fails_when_the_id_space_is_exhausted() {
    let mut store = Store::new();
    store.next_user_id = i32::MAX;
    assert_eq!(store.insert_user(user_named("No Room Left")).err(), Some(StoreError::Capacity));
    assert!(store.users.is_empty());
}

#[test]
fn get_user_with_id_finds_only_present_rows() {
    let mut store = Store::new();
    let u = store.insert_user(user_named("Someone Here")).unwrap();
    let found = store.get_user_with_id(u.id).unwrap();
    assert_eq!(found.name, "Someone Here");
    assert!(store.get_user_with_id(99).is_none());
}

#[test]
fn update_user_keeps_creation_time() {
    let mut store = Store::new();
    let mut u = store.insert_user(user_named("Update Me")).unwrap();
    u.password = "newhash".to_string();
    u.salt = "newsalt".to_string();
    u.time_created = 77; // the store must ignore this
    u.last_updated = 2_000;
    let updated = store.update_user(u).unwrap();
    assert_eq!(updated.time_created, 1_000);
    assert_eq!(updated.last_updated, 2_000);
    assert_eq!(updated.password, "newhash");
}

#[test]
fn update_user_fails_for_missing_row() {
    let mut store = Store::new();
    let absent = user_named("Not Stored");
    assert_eq!(store.update_user(absent).err(), Some(StoreError::NotFound));
}

#[test]
fn delete_user_removes_the_row() {
    let mut store = Store::new();
    let u = store.insert_user(user_named("Short Lived")).unwrap();
    let removed = store.delete_user(u.id).unwrap();
    assert_eq!(removed.id, u.id);
    assert!(store.get_user_with_id(u.id).is_none());
    assert!(store.delete_user(u.id).is_none());
}

#[test]
fn credential_value_is_globally_unique() {
    let mut store = Store::new();
    let dto = CredentialDto {
        credential: "one@mail.com".to_string(),
        credential_type: CredentialType::Email,
    };
    store.insert_credential(dto.clone(), 1, 5).unwrap();
    // the same value again, even for another user, is a conflict
    assert_eq!(store.insert_credential(dto.clone(), 2, 6).err(), Some(StoreError::Conflict));
    assert_eq!(store.credentials.len(), 1);
}

#[test]
fn one_credential_per_user_and_type() {
    let mut store = Store::new();
    let first = CredentialDto {
        credential: "one@mail.com".to_string(),
        credential_type: CredentialType::Email,
    };
    let second = CredentialDto {
        credential: "two@mail.com".to_string(),
        credential_type: CredentialType::Email,
    };
    let third = CredentialDto {
        credential: "someuser".to_string(),
        credential_type: CredentialType::Username,
    };
    store.insert_credential(first, 1, 5).unwrap();
    assert_eq!(store.insert_credential(second.clone(), 1, 5).err(), Some(StoreError::Conflict));
    store.insert_credential(third, 1, 5).unwrap();
    // another user may still take an email credential
    store.insert_credential(second, 2, 5).unwrap();
}

#[test]
fn get_credential_matches_by_value() {
    let mut store = Store::new();
    let dto = CredentialDto {
        credential: "look@me.up".to_string(),
        credential_type: CredentialType::Email,
    };
    store.insert_credential(dto, 7, 5).unwrap();
    let row = store.get_credential(&"look@me.up".to_string()).unwrap();
    assert_eq!(row.user_id, 7);
    assert!(!row.validated);
    assert!(store.get_credential(&"other@me.up".to_string()).is_none());
}

#[test]
fn fetch_user_credentials_filters_by_owner() {
    let mut store = Store::new();
    let a = CredentialDto { credential: "a@b.c".to_string(), credential_type: CredentialType::Email };
    let b = CredentialDto { credential: "12345678".to_string(), credential_type: CredentialType::PhoneNumber };
    let c = CredentialDto { credential: "d@e.f".to_string(), credential_type: CredentialType::Email };
    store.insert_credential(a, 1, 5).unwrap();
    store.insert_credential(b, 1, 5).unwrap();
    store.insert_credential(c, 2, 5).unwrap();
    let mine = store.fetch_user_credentials(1);
    assert_eq!(mine.len(), 2);
    assert_eq!(mine[0].credential, "a@b.c");
    assert_eq!(mine[1].credential, "12345678");
    assert!(store.fetch_user_credentials(3).is_empty());
}

fn token_for(user_id: i32, auth: &str, refresh: &str, at: i64) -> Token {
    Token {
        id: 0,
        user_id,
        auth_token: auth.to_string(),
        refresh_token: refresh.to_string(),
        time_created: at,
        last_updated: at,
    }
}

#[test]
fn insert_token_assigns_ids_and_update_time() {
    let mut store = Store::new();
    let t = store.insert_token(token_for(4, "auth", "refresh", 123)).unwrap();
    assert_eq!(t.id, 1);
    assert_eq!(t.user_id, 4);
    assert_eq!(t.last_updated, 123);
}

#[test]
fn validate_user_token_needs_both_user_and_value() {
    let mut store = Store::new();
    store.insert_token(token_for(4, "auth-a", "refresh-a", 10)).unwrap();
    assert!(store.validate_user_token(4, &"auth-a".to_string()).is_some());
    assert!(store.validate_user_token(5, &"auth-a".to_string()).is_none());
    assert!(store.validate_user_token(4, &"auth-b".to_string()).is_none());
}

#[test]
fn update_token_rewrites_only_the_addressed_row() {
    let mut store = Store::new();
    store.insert_token(token_for(4, "auth-a", "refresh-a", 10)).unwrap();
    store.insert_token(token_for(4, "auth-b", "refresh-b", 20)).unwrap();
    let t = store.update_token(4, &"refresh-b".to_string(), "auth-c".to_string(), 99).unwrap();
    assert_eq!(t.auth_token, "auth-c");
    assert_eq!(t.refresh_token, "refresh-b");
    assert_eq!(t.time_created, 20);
    assert_eq!(t.last_updated, 99);
    assert_eq!(store.tokens[0].auth_token, "auth-a");
    assert_eq!(store.tokens[0].last_updated, 10);
}

#[test]
fn update_token_fails_without_matching_row() {
    let mut store = Store::new();
    store.insert_token(token_for(4, "auth-a", "refresh-a", 10)).unwrap();
    assert_eq!(
        store.update_token(4, &"refresh-x".to_string(), "auth-c".to_string(), 99).err(),
        Some(StoreError::NotFound)
    );
    assert_eq!(
        store.update_token(5, &"refresh-a".to_string(), "auth-c".to_string(), 99).err(),
        Some(StoreError::NotFound)
    );
    assert_eq!(store.tokens[0].auth_token, "auth-a");
}

#[test]
fn remove_token_deletes_by_id() {
    let mut store = Store::new();
    let t = store.insert_token(token_for(4, "auth-a", "refresh-a", 10)).unwrap();
    let removed = store.remove_token(t.id).unwrap();
    assert_eq!(removed.auth_token, "auth-a");
    assert!(store.tokens.is_empty());
    assert!(store.remove_token(t.id).is_none());
}
