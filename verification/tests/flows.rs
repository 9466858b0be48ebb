use identity_core::domain::CredentialType;
use identity_core::dto::{
    AuthenticateUserDto, CredentialDto, RefreshAuthTokenForUserDto, UserLoginPayload,
    UserRegisterPayload, UserResetPasswordPayload,
};
use identity_core::resources::{ErrorResource, AUTH_TOKEN_EXPIRATION_TIME_MILLIS};
use identity_core::service::{
    authenticate_user_at, force_reset_password, get_user_credentials_at, password_login_at,
    refresh_auth_token_at, register_user_at, reset_password,
};
use identity_core::store::Store;

fn email(value: &str) -> CredentialDto {
    CredentialDto { credential: value.to_string(), credential_type: CredentialType::Email }
}

fn payload(creds: Vec<CredentialDto>) -> UserRegisterPayload {
    UserRegisterPayload {
        credentials: creds,
        password: "a sound password".to_string(),
        name: "Registered Person".to_string(),
    }
}

fn login_payload(value: &str, password: &str) -> UserLoginPayload {
    UserLoginPayload {
        credential: value.to_string(),
        credential_type: CredentialType::Email,
        password: password.to_string(),
    }
}

#[test]
fn register_persists_user_credentials_and_token() {
    let mut store = Store::new();
    let token = register_user_at(
        &mut store,
        payload(vec![email("person@mail.com"), CredentialDto {
            credential: "personuser".to_string(),
            credential_type: CredentialType::Username,
        }]),
        500,
    )
    .unwrap();
    assert_eq!(store.users.len(), 1);
    assert_eq!(store.credentials.len(), 2);
    assert_eq!(store.tokens.len(), 1);
    assert_eq!(token.user_id, store.users[0].id);
    assert_eq!(token.time_created, 500);
    assert_eq!(token.last_updated, 500);
    assert_ne!(token.auth_token, token.refresh_token);
    assert_eq!(store.credentials[0].user_id, token.user_id);
    assert!(!store.credentials[0].validated);
    assert_eq!(store.users[0].name, "Registered Person");
    // the password is stored hashed, never plain
    assert_ne!(store.users[0].password, "a sound password");
}

#[test]
fn register_with_four_credentials_writes_nothing() {
    let mut store = Store::new();
    let result = register_user_at(
        &mut store,
        payload(vec![
            email("a@mail.com"),
            email("b@mail.com"),
            email("c@mail.com"),
            email("bad-mail"),
        ]),
        500,
    );
    let errors = result.unwrap_err();
    assert!(errors.contains(&ErrorResource::TooManyCredentials));
    // the malformed fourth credential is still reported alongside
    assert!(errors.contains(&ErrorResource::InvalidEmail));
    assert_eq!(store.users.len(), 0);
    assert_eq!(store.credentials.len(), 0);
    assert_eq!(store.tokens.len(), 0);
}

#[test]
fn register_same_credential_twice_conflicts() {
    let mut store = Store::new();
    register_user_at(&mut store, payload(vec![email("taken@mail.com")]), 500).unwrap();
    let mut second = payload(vec![email("taken@mail.com")]);
    second.name = "Another Person".to_string();
    let errors = register_user_at(&mut store, second, 600).unwrap_err();
    assert_eq!(errors, vec![ErrorResource::UserAlreadyExists]);
    assert_eq!(store.users.len(), 1);
    assert_eq!(store.credentials.len(), 1);
    assert_eq!(store.tokens.len(), 1);
}

#[test]
fn register_collects_validation_errors_without_writing() {
    let mut store = Store::new();
    let bad = UserRegisterPayload {
        credentials: vec![email("no-at-sign")],
        password: "short".to_string(),
        name: "ab".to_string(),
    };
    let errors = register_user_at(&mut store, bad, 500).unwrap_err();
    assert_eq!(
        errors,
        vec![
            ErrorResource::InvalidEmail,
            ErrorResource::InvalidName,
            ErrorResource::InvalidPassword,
        ]
    );
    assert_eq!(store.users.len(), 0);
}

#[test]
fn register_duplicate_values_within_payload_aborts() {
    let mut store = Store::new();
    let errors = register_user_at(
        &mut store,
        payload(vec![email("twin@mail.com"), email("twin@mail.com")]),
        500,
    )
    .unwrap_err();
    assert_eq!(errors, vec![ErrorResource::DatabaseError]);
    assert_eq!(store.credentials.len(), 0);
}

#[test]
fn login_issues_token_for_correct_password() {
    let mut store = Store::new();
    register_user_at(&mut store, payload(vec![email("login@mail.com")]), 500).unwrap();
    let token = password_login_at(
        &mut store,
        login_payload("login@mail.com", "a sound password"),
        700,
    )
    .unwrap();
    assert_eq!(token.user_id, store.users[0].id);
    assert_eq!(token.last_updated, 700);
    // multi-session: the registration token row is still there
    assert_eq!(store.tokens.len(), 2);
}

#[test]
fn login_with_wrong_password_is_a_bare_failure() {
    let mut store = Store::new();
    register_user_at(&mut store, payload(vec![email("login@mail.com")]), 500).unwrap();
    let errors = password_login_at(
        &mut store,
        login_payload("login@mail.com", "not the password"),
        700,
    )
    .unwrap_err();
    assert!(errors.is_empty());
    assert_eq!(store.tokens.len(), 1);
}

#[test]
fn login_with_unknown_credential_is_reported() {
    let mut store = Store::new();
    let errors = password_login_at(
        &mut store,
        login_payload("ghost@mail.com", "a sound password"),
        700,
    )
    .unwrap_err();
    assert_eq!(errors, vec![ErrorResource::CredentialDoesNotExist]);
}

#[test]
fn login_validates_payload_first() {
    let mut store = Store::new();
    let errors = password_login_at(&mut store, login_payload("bad", "short"), 700).unwrap_err();
    assert_eq!(errors, vec![ErrorResource::InvalidEmail, ErrorResource::InvalidPassword]);
}

#[test]
fn login_then_authenticate_succeeds_and_forged_token_fails() {
    let mut store = Store::new();
    register_user_at(&mut store, payload(vec![email("auth@mail.com")]), 500).unwrap();
    let token =
        password_login_at(&mut store, login_payload("auth@mail.com", "a sound password"), 700)
            .unwrap();
    let user = authenticate_user_at(
        &store,
        &AuthenticateUserDto { id: token.user_id, auth_token: token.auth_token.clone() },
        700,
    )
    .unwrap();
    assert_eq!(user.id, token.user_id);
    let forged = authenticate_user_at(
        &store,
        &AuthenticateUserDto { id: token.user_id, auth_token: "forged-token".to_string() },
        700,
    )
    .unwrap_err();
    assert_eq!(forged, vec![ErrorResource::IncorrectToken]);
}

#[test]
fn authenticate_unknown_user_is_reported() {
    let store = Store::new();
    let errors = authenticate_user_at(
        &store,
        &AuthenticateUserDto { id: 12, auth_token: "anything".to_string() },
        700,
    )
    .unwrap_err();
    assert_eq!(errors, vec![ErrorResource::UserDoesNotExist]);
}

#[test]
fn stale_token_is_rejected_as_expired() {
    let mut store = Store::new();
    register_user_at(&mut store, payload(vec![email("stale@mail.com")]), 500).unwrap();
    let token = &store.tokens[0];
    let dto = AuthenticateUserDto { id: token.user_id, auth_token: token.auth_token.clone() };
    // at the edge of the TTL the token still passes
    let at_edge = 500 + AUTH_TOKEN_EXPIRATION_TIME_MILLIS;
    assert!(authenticate_user_at(&store, &dto, at_edge).is_ok());
    // one millisecond later the very same token value is expired
    let errors = authenticate_user_at(&store, &dto, at_edge + 1).unwrap_err();
    assert_eq!(errors, vec![ErrorResource::ExpiredToken]);
}

#[test]
fn refresh_replaces_only_the_auth_token() {
    let mut store = Store::new();
    register_user_at(&mut store, payload(vec![email("refresh@mail.com")]), 500).unwrap();
    let before = store.tokens[0].clone();
    let refreshed = refresh_auth_token_at(
        &mut store,
        RefreshAuthTokenForUserDto { id: before.user_id, refresh_token: before.refresh_token.clone() },
        900,
    )
    .unwrap();
    assert_eq!(refreshed.id, before.id);
    assert_ne!(refreshed.auth_token, before.auth_token);
    assert_eq!(refreshed.refresh_token, before.refresh_token);
    assert_eq!(refreshed.time_created, before.time_created);
    assert_eq!(refreshed.last_updated, 900);
    assert_eq!(store.tokens.len(), 1);
}

#[test]
fn refresh_with_stale_refresh_token_changes_nothing() {
    let mut store = Store::new();
    register_user_at(&mut store, payload(vec![email("refresh@mail.com")]), 500).unwrap();
    let before = store.tokens[0].clone();
    let errors = refresh_auth_token_at(
        &mut store,
        RefreshAuthTokenForUserDto {
            id: before.user_id,
            refresh_token: "stale-or-mismatched".to_string(),
        },
        900,
    )
    .unwrap_err();
    assert_eq!(errors, vec![ErrorResource::DatabaseError]);
    assert_eq!(store.tokens[0].auth_token, before.auth_token);
    assert_eq!(store.tokens[0].last_updated, before.last_updated);
}

#[test]
fn refresh_for_unknown_user_is_reported() {
    let mut store = Store::new();
    let errors = refresh_auth_token_at(
        &mut store,
        RefreshAuthTokenForUserDto { id: 5, refresh_token: "whatever".to_string() },
        900,
    )
    .unwrap_err();
    assert_eq!(errors, vec![ErrorResource::UserDoesNotExist]);
}

#[test]
fn reset_password_verifies_the_old_password() {
    let mut store = Store::new();
    register_user_at(&mut store, payload(vec![email("reset@mail.com")]), 500).unwrap();
    let id = store.users[0].id;
    let errors = reset_password(
        &mut store,
        UserResetPasswordPayload {
            id,
            password: "wrong old password".to_string(),
            new_password: "the new password".to_string(),
        },
    )
    .unwrap_err();
    assert_eq!(errors, vec![ErrorResource::PasswordIncorrect]);
    // the old password still logs in
    assert!(password_login_at(&mut store, login_payload("reset@mail.com", "a sound password"), 700)
        .is_ok());
    let changed = reset_password(
        &mut store,
        UserResetPasswordPayload {
            id,
            password: "a sound password".to_string(),
            new_password: "the new password".to_string(),
        },
    )
    .unwrap();
    assert_eq!(changed.id, id);
    assert!(password_login_at(&mut store, login_payload("reset@mail.com", "the new password"), 800)
        .is_ok());
    assert!(password_login_at(&mut store, login_payload("reset@mail.com", "a sound password"), 800)
        .is_err());
}

#[test]
fn reset_password_for_missing_user_is_opaque() {
    let mut store = Store::new();
    let errors = reset_password(
        &mut store,
        UserResetPasswordPayload {
            id: 9,
            password: "whatever password".to_string(),
            new_password: "another password".to_string(),
        },
    )
    .unwrap_err();
    assert_eq!(errors, vec![ErrorResource::DatabaseError]);
}

#[test]
fn force_reset_overwrites_without_any_comparison() {
    let mut store = Store::new();
    register_user_at(&mut store, payload(vec![email("forced@mail.com")]), 500).unwrap();
    let id = store.users[0].id;
    let old_hash = store.users[0].password.clone();
    let old_salt = store.users[0].salt.clone();
    // no old password is supplied anywhere: the overwrite is unconditional
    let changed = force_reset_password(&mut store, id, "brand new password".to_string()).unwrap();
    assert_eq!(changed.id, id);
    assert_ne!(store.users[0].password, old_hash);
    assert_ne!(store.users[0].salt, old_salt);
    assert!(password_login_at(
        &mut store,
        login_payload("forced@mail.com", "brand new password"),
        700
    )
    .is_ok());
    assert_eq!(
        force_reset_password(&mut store, 99, "any password at all".to_string()).unwrap_err(),
        ErrorResource::DatabaseError
    );
}

#[test]
fn get_user_credentials_lists_after_authentication() {
    let mut store = Store::new();
    register_user_at(
        &mut store,
        payload(vec![email("list@mail.com"), CredentialDto {
            credential: "listeduser".to_string(),
            credential_type: CredentialType::Username,
        }]),
        500,
    )
    .unwrap();
    let token = &store.tokens[0];
    let dto = AuthenticateUserDto { id: token.user_id, auth_token: token.auth_token.clone() };
    let creds = get_user_credentials_at(&store, &dto, 600).unwrap();
    assert_eq!(creds.len(), 2);
    assert_eq!(creds[0].credential, "list@mail.com");
    assert_eq!(creds[1].credential, "listeduser");
    let bad = AuthenticateUserDto { id: token.user_id, auth_token: "wrong".to_string() };
    assert_eq!(
        get_user_credentials_at(&store, &bad, 600).unwrap_err(),
        vec![ErrorResource::IncorrectToken]
    );
}

#[test]
fn register_with_exhausted_id_space_is_a_store_error() {
    let mut store = Store::new();
    store.next_user_id = i32::MAX;
    let errors = register_user_at(&mut store, payload(vec![email("full@mail.com")]), 500)
        .unwrap_err();
    assert_eq!(errors, vec![ErrorResource::DatabaseError]);
    assert_eq!(store.users.len(), 0);
}

#[test]
fn racing_registrations_on_one_value_let_one_through() {
    // Two flows that both passed the unclaimed pre-check serialize at the
    // store: the first insert claims the value, the second observes it.
    let mut store = Store::new();
    let first = register_user_at(&mut store, payload(vec![email("race@mail.com")]), 500);
    let mut other = payload(vec![email("race@mail.com")]);
    other.name = "Second Racer".to_string();
    let second = register_user_at(&mut store, other, 500);
    assert!(first.is_ok());
    let errors = second.unwrap_err();
    assert_eq!(errors, vec![ErrorResource::UserAlreadyExists]);
    assert_eq!(store.users.len(), 1);
}
