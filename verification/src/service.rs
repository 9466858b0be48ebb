//! The identity flows: registration, credential login, token refresh,
//! password reset and token re-authentication, orchestrated over the store,
//! the validator and the hashing engine.
//!
//! Every flow runs against one store value, its transactional unit of work:
//! all fallible steps come before the first write, so a flow that fails
//! leaves the store exactly as it found it. Flows that read the clock do so
//! once, through a trusted wrapper, and hand the reading to a verified
//! `*_at` function that carries the exact contract.

use vstd::prelude::*;
use crate::domain::{Credential, Token, User};
use crate::dto::{
    AuthenticateUserDto, RefreshAuthTokenForUserDto, UserLoginPayload, UserRegisterPayload,
    UserResetPasswordPayload,
};
use crate::hasher::{
    generate_multiple_random_token_with_rng, hash_password, spec_hash_result_wf,
    spec_is_encoded_token, spec_password_matches, verify_password,
};
use crate::resources::{ErrorResource, AUTH_TOKEN_EXPIRATION_TIME_MILLIS};
use crate::store::{
    spec_contains_user, spec_find_token, spec_get_credential, spec_get_user, spec_refresh_index,
    spec_user_credentials, Store,
};
use crate::validation::{
    spec_login_errors, spec_registration_errors, validate_user_for_creation,
    validate_user_for_password_authentication,
};

verus! {

/// Relies on chrono::Utc::now for the current wall-clock time in
/// milliseconds since the Unix epoch. Nothing is promised of the reading.
#[verifier::external_body]
fn now_millis() -> i64 {
    chrono::Utc::now().timestamp_millis()
}

/// The outcome of authentication against a fixed clock reading: the user
/// must exist, a token row must carry the presented auth token, and that
/// row's last update must be within the TTL of `now`.
pub open spec fn spec_authenticate(s: Store, user_id: i32, auth_token: Seq<char>, now: i64) -> Result<
    User,
    ErrorResource,
> {
    match spec_get_user(s.users@, user_id) {
        None => Err(ErrorResource::UserDoesNotExist),
        Some(u) => match spec_find_token(s.tokens@, user_id, auth_token) {
            None => Err(ErrorResource::IncorrectToken),
            Some(t) => if now - t.last_updated > AUTH_TOKEN_EXPIRATION_TIME_MILLIS {
                Err(ErrorResource::ExpiredToken)
            } else {
                Ok(u)
            },
        },
    }
}

/// How a flow result relates to the one-error-or-user outcome of
/// `spec_authenticate`.
pub open spec fn spec_authenticate_matches(
    s: Store,
    user_id: i32,
    auth_token: Seq<char>,
    now: i64,
    r: Result<User, Vec<ErrorResource>>,
) -> bool {
    match spec_authenticate(s, user_id, auth_token, now) {
        Ok(u) => r matches Ok(ru) && ru == u,
        Err(e) => r matches Err(es) && es@ == seq![e],
    }
}

/// Re-authenticate a caller from an issued auth token, against the clock
/// reading `now`.
pub fn authenticate_user_at(store: &Store, user: &AuthenticateUserDto, now: i64) -> (r: Result<
    User,
    Vec<ErrorResource>,
>)
    ensures
        spec_authenticate_matches(*store, user.id, user.auth_token@, now, r),
{
    let mut error_resources: Vec<ErrorResource> = Vec::new();
    let persisted_user = match store.get_user_with_id(user.id) {
        None => {
            error_resources.push(ErrorResource::UserDoesNotExist);
            return Err(error_resources);
        },
        Some(persisted_user) => persisted_user,
    };
    match store.validate_user_token(user.id, &user.auth_token) {
        None => {
            error_resources.push(ErrorResource::IncorrectToken);
            Err(error_resources)
        },
        Some(persisted_token) => {
            if (now as i128) - (persisted_token.last_updated as i128) > (
            AUTH_TOKEN_EXPIRATION_TIME_MILLIS as i128) {
                error_resources.push(ErrorResource::ExpiredToken);
                Err(error_resources)
            } else {
                Ok(persisted_user)
            }
        },
    }
}

/// Re-authenticate a caller from an issued auth token, reading the clock
/// once for the expiry check.
pub fn authenticate_user(store: &Store, user: AuthenticateUserDto) -> (r: Result<
    User,
    Vec<ErrorResource>,
>)
    ensures
        exists|now: i64| spec_authenticate_matches(*store, user.id, user.auth_token@, now, r),
{
    let now = now_millis();
    let r = authenticate_user_at(store, &user, now);
    proof {
        assert(spec_authenticate_matches(*store, user.id, user.auth_token@, now, r));
    }
    r
}

/// Fetch the stored user and check the candidate password against the
/// stored digest. A missing user here means a credential points at a user
/// that does not exist — an internal inconsistency surfaced only as an
/// opaque store error.
fn validate_user_password(store: &Store, user_id: i32, password: &String) -> (r: Result<
    Option<User>,
    ErrorResource,
>)
    ensures
        match spec_get_user(store.users@, user_id) {
            None => r matches Err(e) && e == ErrorResource::DatabaseError,
            Some(u) => if spec_password_matches(u.password@, u.salt@, password@) {
                r matches Ok(ou) && ou matches Some(ru) && ru == u
            } else {
                r matches Ok(ou) && ou is None
            },
        },
{
    let persisted_user = match store.get_user_with_id(user_id) {
        None => {
            return Err(ErrorResource::DatabaseError);
        },
        Some(persisted_user) => persisted_user,
    };
    if verify_password(&persisted_user.password, &persisted_user.salt, password) {
        Ok(Some(persisted_user))
    } else {
        Ok(None)
    }
}

/// What one committed password overwrite looks like, from the copy `u` of
/// the user row that the caller fetched: the row at `j` — the one carrying
/// `u.id` — now holds a fresh salt and the digest of the new password under
/// it; its name and update time come from `u`, its creation time stays, and
/// nothing else of the store changed.
pub open spec fn spec_change_password_commit(
    pre: Store,
    u: User,
    new_password: Seq<char>,
    post: Store,
    ru: User,
) -> bool {
    exists|j: int, salt_bytes: Seq<u8>|
        #![trigger pre.users@[j], crate::hasher::b64_of(salt_bytes)]
        {
            &&& 0 <= j < pre.users@.len()
            &&& pre.users@[j].id == u.id
            &&& ru.id == u.id
            &&& ru.name == u.name
            &&& ru.time_created == pre.users@[j].time_created
            &&& ru.last_updated == u.last_updated
            &&& salt_bytes.len() == crate::hasher::CREDENTIAL_LEN
            &&& ru.salt@ == crate::hasher::b64_of(salt_bytes)
            &&& ru.password@ == crate::hasher::spec_hash_with_salt_bytes(new_password, salt_bytes)
            &&& spec_password_matches(ru.password@, ru.salt@, new_password)
            &&& post.users@ == pre.users@.update(j, ru)
            &&& post.credentials == pre.credentials
            &&& post.tokens == pre.tokens
            &&& post.next_user_id == pre.next_user_id
            &&& post.next_token_id == pre.next_token_id
        }
}

/// Hash the new password with a fresh salt and persist the new digest and
/// salt on this user's row, leaving the name and timestamps as the caller's
/// copy has them.
fn change_password(store: &mut Store, persisted_user: User, new_password: &String) -> (r: Result<
    User,
    ErrorResource,
>)
    requires
        old(store).wf(),
    ensures
        final(store).wf(),
        match r {
            Ok(ru) => spec_change_password_commit(
                *old(store),
                persisted_user,
                new_password@,
                *final(store),
                ru,
            ),
            Err(e) => {
                &&& *final(store) == *old(store)
                &&& (e == ErrorResource::CreatingToken || (e == ErrorResource::DatabaseError
                    && !spec_contains_user(old(store).users@, persisted_user.id)))
            },
        },
{
    let hash_result = match hash_password(new_password) {
        Ok(h) => h,
        Err(_) => {
            return Err(ErrorResource::CreatingToken);
        },
    };
    let ghost salt_bytes = choose|sb: Seq<u8>|
        spec_hash_result_wf(new_password@, sb, hash_result);
    let ghost hash_view = hash_result.hash@;
    let ghost salt_view = hash_result.salt@;
    let updated = User {
        id: persisted_user.id,
        name: persisted_user.name,
        password: hash_result.hash,
        salt: hash_result.salt,
        time_created: persisted_user.time_created,
        last_updated: persisted_user.last_updated,
    };
    match store.update_user(updated) {
        Ok(ru) => {
            proof {
                assert(spec_hash_result_wf(new_password@, salt_bytes, hash_result));
                let j = choose|j: int|
                    {
                        &&& 0 <= j < old(store).users@.len()
                        &&& (#[trigger] old(store).users@[j]).id == updated.id
                        &&& ru == (User {
                            id: updated.id,
                            name: updated.name,
                            password: updated.password,
                            salt: updated.salt,
                            time_created: old(store).users@[j].time_created,
                            last_updated: updated.last_updated,
                        })
                        &&& store.users@ == old(store).users@.update(j, ru)
                        &&& store.credentials == old(store).credentials
                        &&& store.tokens == old(store).tokens
                        &&& store.next_user_id == old(store).next_user_id
                        &&& store.next_token_id == old(store).next_token_id
                    };
                assert(ru.password@ == hash_view && ru.salt@ == salt_view);
                assert(spec_change_password_commit(
                    *old(store),
                    persisted_user,
                    new_password@,
                    *store,
                    ru,
                ));
            }
            Ok(ru)
        },
        Err(_) => Err(ErrorResource::DatabaseError),
    }
}

/// A user the lookup finds is present and carries the looked-up id.
proof fn lemma_get_user_some_contains(users: Seq<User>, user_id: i32)
    requires
        spec_get_user(users, user_id) is Some,
    ensures
        spec_contains_user(users, user_id),
        spec_get_user(users, user_id)->Some_0.id == user_id,
    decreases users.len(),
{
    if users.len() > 0 {
        if users[0].id == user_id {
            assert(0 <= 0 < users.len() && users[0].id == user_id);
        } else {
            let rest = users.drop_first();
            lemma_get_user_some_contains(rest, user_id);
            let k = choose|k: int| 0 <= k < rest.len() && (#[trigger] rest[k]).id == user_id;
            assert(users[k + 1] == rest[k]);
        }
    }
}

/// The exact outcome of a password reset: a missing user is an internal
/// inconsistency surfaced opaquely; a mismatched old password is reported
/// and writes nothing; on a match the row is overwritten with a fresh salt
/// and digest of the new password, failing only if the secure random source
/// fails.
pub open spec fn spec_reset_password_rel(
    pre: Store,
    user: UserResetPasswordPayload,
    post: Store,
    r: Result<User, Vec<ErrorResource>>,
) -> bool {
    match spec_get_user(pre.users@, user.id) {
        None => post == pre && (r matches Err(es) && es@ == seq![ErrorResource::DatabaseError]),
        Some(u) => if !spec_password_matches(u.password@, u.salt@, user.password@) {
            post == pre && (r matches Err(es) && es@ == seq![ErrorResource::PasswordIncorrect])
        } else {
            match r {
                Err(es) => post == pre && es@ == seq![ErrorResource::CreatingToken],
                Ok(ru) => spec_change_password_commit(pre, u, user.new_password@, post, ru),
            }
        },
    }
}

/// Reset a user's password after verifying the user's own old password.
pub fn reset_password(store: &mut Store, user: UserResetPasswordPayload) -> (r: Result<
    User,
    Vec<ErrorResource>,
>)
    requires
        old(store).wf(),
    ensures
        final(store).wf(),
        spec_reset_password_rel(*old(store), user, *final(store), r),
{
    let mut error_resources: Vec<ErrorResource> = Vec::new();
    let password_matches = match validate_user_password(store, user.id, &user.password) {
        Ok(matches_opt) => matches_opt,
        Err(e) => {
            error_resources.push(e);
            return Err(error_resources);
        },
    };
    if let Some(persisted_user) = password_matches {
        proof {
            lemma_get_user_some_contains(store.users@, user.id);
        }
        match change_password(store, persisted_user, &user.new_password) {
            Ok(user_changed) => Ok(user_changed),
            Err(e) => {
                error_resources.push(e);
                Err(error_resources)
            },
        }
    } else {
        error_resources.push(ErrorResource::PasswordIncorrect);
        Err(error_resources)
    }
}

/// The exact outcome of a forced reset: for an existing user the row is
/// overwritten with a fresh salt and the digest of the new password, with
/// no password verification of any kind; it fails only if the secure random
/// source fails. A missing user is surfaced as an opaque store error.
pub open spec fn spec_force_reset_rel(
    pre: Store,
    user_id: i32,
    new_password: Seq<char>,
    post: Store,
    r: Result<User, ErrorResource>,
) -> bool {
    match spec_get_user(pre.users@, user_id) {
        None => post == pre && r == Err::<User, ErrorResource>(ErrorResource::DatabaseError),
        Some(u) => match r {
            Err(e) => post == pre && e == ErrorResource::CreatingToken,
            Ok(ru) => spec_change_password_commit(pre, u, new_password, post, ru),
        },
    }
}

/// ## This resets a user's password without any validations!
/// Don't expose this to any public endpoint!!
pub fn force_reset_password(store: &mut Store, user_id: i32, new_password: String) -> (r: Result<
    User,
    ErrorResource,
>)
    requires
        old(store).wf(),
    ensures
        final(store).wf(),
        spec_force_reset_rel(*old(store), user_id, new_password@, *final(store), r),
{
    let persisted_user = match store.get_user_with_id(user_id) {
        None => {
            return Err(ErrorResource::DatabaseError);
        },
        Some(persisted_user) => persisted_user,
    };
    proof {
        lemma_get_user_some_contains(store.users@, user_id);
    }
    change_password(store, persisted_user, &new_password)
}

/// Law: a forced reset performs no password comparison. For any existing
/// user id and any candidate password — whatever hash and salt the row
/// holds — the flow either overwrites the row with a fresh digest of the
/// new password, or fails only because the secure random source failed;
/// no outcome of the flow depends on a stored or supplied password value.
pub proof fn lemma_force_reset_unconditional(
    pre: Store,
    user_id: i32,
    new_password: Seq<char>,
    post: Store,
    r: Result<User, ErrorResource>,
)
    requires
        spec_force_reset_rel(pre, user_id, new_password, post, r),
        spec_get_user(pre.users@, user_id) is Some,
    ensures
        r matches Ok(ru) ==> spec_change_password_commit(
            pre,
            spec_get_user(pre.users@, user_id)->Some_0,
            new_password,
            post,
            ru,
        ),
        r matches Err(e) ==> e == ErrorResource::CreatingToken && post == pre,
{
}

/// What issuing one fresh token pair for `user_id` at `now` does to the
/// store: exactly one new token row, carrying a fresh id, two secure-random
/// encoded tokens, and both timestamps at `now`.
pub open spec fn spec_token_issued(pre: Store, user_id: i32, now: i64, post: Store, t: Token) -> bool {
    &&& pre.next_token_id < i32::MAX
    &&& t.id == pre.next_token_id
    &&& t.user_id == user_id
    &&& spec_is_encoded_token(t.auth_token@)
    &&& spec_is_encoded_token(t.refresh_token@)
    &&& t.time_created == now
    &&& t.last_updated == now
    &&& post.tokens@ == pre.tokens@.push(t)
    &&& post.users == pre.users
    &&& post.credentials == pre.credentials
    &&& post.next_user_id == pre.next_user_id
    &&& post.next_token_id == pre.next_token_id + 1
}

/// Generate a token pair and persist a new token row for this user. On any
/// failure the store is untouched and one error is appended: an opaque
/// store error when the id space is exhausted, a generation error when a
/// secure-random draw fails.
fn create_token_for_user(
    store: &mut Store,
    user_id: i32,
    error_resources: &mut Vec<ErrorResource>,
    now: i64,
) -> (r: Option<Token>)
    requires
        old(store).wf(),
    ensures
        final(store).wf(),
        match r {
            Some(t) => {
                &&& spec_token_issued(*old(store), user_id, now, *final(store), t)
                &&& final(error_resources)@ == old(error_resources)@
            },
            None => {
                &&& *final(store) == *old(store)
                &&& if old(store).next_token_id == i32::MAX {
                    final(error_resources)@ == old(error_resources)@
                        + seq![ErrorResource::DatabaseError]
                } else {
                    final(error_resources)@ == old(error_resources)@
                        + seq![ErrorResource::CreatingToken]
                }
            },
        },
{
    if store.next_token_id == i32::MAX {
        error_resources.push(ErrorResource::DatabaseError);
        return None;
    }
    let mut tokens: Vec<String> = match generate_multiple_random_token_with_rng(2) {
        Ok(tokens) => tokens,
        Err(_) => {
            error_resources.push(ErrorResource::CreatingToken);
            return None;
        },
    };
    if tokens.len() < 2 {
        error_resources.push(ErrorResource::TokenNotCreated);
        return None;
    }
    let auth_token = tokens.remove(0);
    let refresh_token = tokens.remove(0);
    let token_to_insert = Token {
        id: 0,
        user_id,
        auth_token,
        refresh_token,
        time_created: now,
        last_updated: now,
    };
    match store.insert_token(token_to_insert) {
        Ok(persisted_token) => Some(persisted_token),
        Err(_) => {
            error_resources.push(ErrorResource::DatabaseError);
            None
        },
    }
}

/// The exact outcome of a credential-and-password login against the clock
/// reading `now`: every shape violation is collected first; then the
/// credential must exist and its owner must verify; a missing owner is an
/// internal inconsistency surfaced opaquely; a password mismatch is a
/// generic failure carrying no detail at all. On a match a fresh token pair
/// is issued exactly as at registration.
pub open spec fn spec_password_login_rel(
    pre: Store,
    user: UserLoginPayload,
    now: i64,
    post: Store,
    r: Result<Token, Vec<ErrorResource>>,
) -> bool {
    let verrs = spec_login_errors(user);
    if verrs.len() > 0 {
        post == pre && (r matches Err(es) && es@ == verrs)
    } else {
        match spec_get_credential(pre.credentials@, user.credential@) {
            None => post == pre && (r matches Err(es) && es@ == seq![
                ErrorResource::CredentialDoesNotExist,
            ]),
            Some(c) => match spec_get_user(pre.users@, c.user_id) {
                None => post == pre && (r matches Err(es) && es@ == seq![
                    ErrorResource::DatabaseError,
                ]),
                Some(u) => if !spec_password_matches(u.password@, u.salt@, user.password@) {
                    post == pre && (r matches Err(es) && es@ == Seq::<ErrorResource>::empty())
                } else if pre.next_token_id == i32::MAX {
                    post == pre && (r matches Err(es) && es@ == seq![ErrorResource::DatabaseError])
                } else {
                    match r {
                        Err(es) => post == pre && es@ == seq![ErrorResource::CreatingToken],
                        Ok(t) => spec_token_issued(pre, c.user_id, now, post, t),
                    }
                },
            },
        }
    }
}

/// Log a user in from one credential value and a password, against the
/// clock reading `now`.
pub fn password_login_at(store: &mut Store, user: UserLoginPayload, now: i64) -> (r: Result<
    Token,
    Vec<ErrorResource>,
>)
    requires
        old(store).wf(),
    ensures
        final(store).wf(),
        spec_password_login_rel(*old(store), user, now, *final(store), r),
{
    let mut error_resources: Vec<ErrorResource> = Vec::new();
    validate_user_for_password_authentication(&user, &mut error_resources);
    if error_resources.len() > 0 {
        return Err(error_resources);
    }
    let persisted_user_credential = match store.get_credential(&user.credential) {
        None => {
            error_resources.push(ErrorResource::CredentialDoesNotExist);
            return Err(error_resources);
        },
        Some(persisted_credential) => persisted_credential,
    };
    let persisted_user_opt = match validate_user_password(
        store,
        persisted_user_credential.user_id,
        &user.password,
    ) {
        Ok(matches_opt) => matches_opt,
        Err(e) => {
            error_resources.push(e);
            return Err(error_resources);
        },
    };
    if let Some(_) = persisted_user_opt {
        if let Some(persisted_token) = create_token_for_user(
            store,
            persisted_user_credential.user_id,
            &mut error_resources,
            now,
        ) {
            Ok(persisted_token)
        } else {
            Err(error_resources)
        }
    } else {
        Err(error_resources)
    }
}

/// Log a user in from one credential value and a password, reading the
/// clock once for the new row's timestamps.
pub fn password_login(store: &mut Store, user: UserLoginPayload) -> (r: Result<
    Token,
    Vec<ErrorResource>,
>)
    requires
        old(store).wf(),
    ensures
        final(store).wf(),
        exists|now: i64| spec_password_login_rel(*old(store), user, now, *final(store), r),
{
    let now = now_millis();
    let ghost u = user;
    let r = password_login_at(store, user, now);
    proof {
        assert(spec_password_login_rel(*old(store), u, now, *store, r));
    }
    r
}

/// The exact outcome of a token refresh against the clock reading `now`:
/// the user must exist; the row addressed by `(id, refresh_token)` gets a
/// fresh secure-random auth token and update time, its refresh token
/// staying for the row's lifetime. When no row matches, nothing is written
/// and an opaque store error comes back — a new auth token is never issued
/// silently. A failed secure-random draw aborts with a generation error.
pub open spec fn spec_refresh_rel(
    pre: Store,
    user: RefreshAuthTokenForUserDto,
    now: i64,
    post: Store,
    r: Result<Token, Vec<ErrorResource>>,
) -> bool {
    if spec_get_user(pre.users@, user.id) is None {
        post == pre && (r matches Err(es) && es@ == seq![ErrorResource::UserDoesNotExist])
    } else {
        match r {
            Err(es) => post == pre && (es@ == seq![ErrorResource::CreatingToken] || (es@ == seq![
                ErrorResource::DatabaseError,
            ] && spec_refresh_index(pre.tokens@, user.id, user.refresh_token@) is None)),
            Ok(t) => {
                &&& spec_refresh_index(pre.tokens@, user.id, user.refresh_token@) matches Some(j)
                    && t == (Token {
                    id: pre.tokens@[j].id,
                    user_id: pre.tokens@[j].user_id,
                    auth_token: t.auth_token,
                    refresh_token: pre.tokens@[j].refresh_token,
                    time_created: pre.tokens@[j].time_created,
                    last_updated: now,
                }) && post.tokens@ == pre.tokens@.update(j, t)
                &&& spec_is_encoded_token(t.auth_token@)
                &&& post.users == pre.users
                &&& post.credentials == pre.credentials
                &&& post.next_user_id == pre.next_user_id
                &&& post.next_token_id == pre.next_token_id
            },
        }
    }
}

/// Refresh a session's auth token, against the clock reading `now`.
pub fn refresh_auth_token_at(store: &mut Store, user: RefreshAuthTokenForUserDto, now: i64) -> (r:
    Result<Token, Vec<ErrorResource>>)
    requires
        old(store).wf(),
    ensures
        final(store).wf(),
        spec_refresh_rel(*old(store), user, now, *final(store), r),
{
    let mut error_resources: Vec<ErrorResource> = Vec::new();
    match store.get_user_with_id(user.id) {
        None => {
            error_resources.push(ErrorResource::UserDoesNotExist);
            return Err(error_resources);
        },
        Some(_persisted_user) => {},
    };
    let mut tokens: Vec<String> = match generate_multiple_random_token_with_rng(2) {
        Ok(tokens) => tokens,
        Err(_) => {
            error_resources.push(ErrorResource::CreatingToken);
            return Err(error_resources);
        },
    };
    if tokens.len() > 0 {
        let new_auth_token = tokens.remove(0);
        match store.update_token(user.id, &user.refresh_token, new_auth_token, now) {
            Ok(persisted_token) => Ok(persisted_token),
            Err(_) => {
                error_resources.push(ErrorResource::DatabaseError);
                Err(error_resources)
            },
        }
    } else {
        error_resources.push(ErrorResource::CreatingToken);
        Err(error_resources)
    }
}

/// Refresh a session's auth token, reading the clock once for the row's
/// new update time.
pub fn refresh_auth_token(store: &mut Store, user: RefreshAuthTokenForUserDto) -> (r: Result<
    Token,
    Vec<ErrorResource>,
>)
    requires
        old(store).wf(),
    ensures
        final(store).wf(),
        exists|now: i64| spec_refresh_rel(*old(store), user, now, *final(store), r),
{
    let now = now_millis();
    let ghost u = user;
    let r = refresh_auth_token_at(store, user, now);
    proof {
        assert(spec_refresh_rel(*old(store), u, now, *store, r));
    }
    r
}

/// How a credential-listing result relates to the authentication outcome
/// at one clock reading: the caller's own credentials on success, the one
/// authentication error otherwise.
pub open spec fn spec_credentials_listed(
    s: Store,
    user_id: i32,
    auth_token: Seq<char>,
    now: i64,
    r: Result<Vec<Credential>, Vec<ErrorResource>>,
) -> bool {
    match spec_authenticate(s, user_id, auth_token, now) {
        Ok(_) => r matches Ok(creds) && creds@ == spec_user_credentials(s.credentials@, user_id),
        Err(e) => r matches Err(es) && es@ == seq![e],
    }
}

/// List a user's credentials after re-authenticating the caller, against
/// the clock reading `now`.
pub fn get_user_credentials_at(store: &Store, user: &AuthenticateUserDto, now: i64) -> (r: Result<
    Vec<Credential>,
    Vec<ErrorResource>,
>)
    ensures
        spec_credentials_listed(*store, user.id, user.auth_token@, now, r),
{
    let _persisted_user = match authenticate_user_at(store, user, now) {
        Ok(u) => u,
        Err(es) => {
            return Err(es);
        },
    };
    Ok(store.fetch_user_credentials(user.id))
}

/// List a user's credentials after re-authenticating the caller, reading
/// the clock once for the expiry check.
pub fn get_user_credentials(store: &Store, user: AuthenticateUserDto) -> (r: Result<
    Vec<Credential>,
    Vec<ErrorResource>,
>)
    ensures
        exists|now: i64| spec_credentials_listed(*store, user.id, user.auth_token@, now, r),
{
    let now = now_millis();
    let r = get_user_credentials_at(store, &user, now);
    proof {
        assert(spec_credentials_listed(*store, user.id, user.auth_token@, now, r));
    }
    r
}

/// A credential value is taken exactly when the lookup finds a row for it.
proof fn lemma_value_taken_iff_get(creds: Seq<Credential>, value: Seq<char>)
    ensures
        crate::store::spec_value_taken(creds, value) <==> (spec_get_credential(creds, value)
            is Some),
    decreases creds.len(),
{
    if creds.len() == 0 {
    } else if creds[0].credential@ == value {
        assert(0 <= 0 < creds.len() && creds[0].credential@ == value);
    } else {
        let rest = creds.drop_first();
        lemma_value_taken_iff_get(rest, value);
        if crate::store::spec_value_taken(creds, value) {
            let i = choose|i: int|
                0 <= i < creds.len() && (#[trigger] creds[i]).credential@ == value;
            assert(rest[i - 1] == creds[i]);
        }
        if crate::store::spec_value_taken(rest, value) {
            let k = choose|k: int| 0 <= k < rest.len() && (#[trigger] rest[k]).credential@ == value;
            assert(creds[k + 1] == rest[k]);
        }
    }
}

/// One "user already exists" error for each supplied credential whose value
/// is already stored, in supply order.
pub open spec fn spec_conflict_errors(
    stored: Seq<Credential>,
    creds: Seq<crate::dto::CredentialDto>,
) -> Seq<ErrorResource>
    decreases creds.len(),
{
    if creds.len() == 0 {
        seq![]
    } else {
        spec_conflict_errors(stored, creds.drop_last()) + (if spec_get_credential(
            stored,
            creds.last().credential@,
        ) is Some {
            seq![ErrorResource::UserAlreadyExists]
        } else {
            seq![]
        })
    }
}

/// When no conflict error was collected, every supplied value is free.
proof fn lemma_conflict_errors_empty(stored: Seq<Credential>, creds: Seq<crate::dto::CredentialDto>)
    requires
        spec_conflict_errors(stored, creds).len() == 0,
    ensures
        forall|k: int|
            0 <= k < creds.len() ==> spec_get_credential(
                stored,
                (#[trigger] creds[k]).credential@,
            ) is None,
    decreases creds.len(),
{
    if creds.len() > 0 {
        lemma_conflict_errors_empty(stored, creds.drop_last());
        assert(forall|k: int|
            0 <= k < creds.len() - 1 ==> creds.drop_last()[k] == (#[trigger] creds[k]));
    }
}

/// The "too many credentials" error of a registration payload, if any.
pub open spec fn spec_too_many_errors(user: UserRegisterPayload) -> Seq<ErrorResource> {
    if user.credentials@.len() > 3 {
        seq![ErrorResource::TooManyCredentials]
    } else {
        seq![]
    }
}

/// Everything registration reports before it writes: shape violations,
/// a too-many-credentials error, and one conflict per value already taken,
/// in that order.
pub open spec fn spec_register_pre_errors(pre: Store, user: UserRegisterPayload) -> Seq<
    ErrorResource,
> {
    spec_registration_errors(user) + spec_too_many_errors(user) + spec_conflict_errors(
        pre.credentials@,
        user.credentials@,
    )
}

/// Whether the supplied credentials are pairwise distinct in both value and
/// type, as the store's uniqueness constraints will demand once they all
/// belong to one fresh user.
pub open spec fn spec_payload_distinct(creds: Seq<crate::dto::CredentialDto>) -> bool {
    forall|i: int, j: int|
        0 <= i < j < creds.len() ==> ((#[trigger] creds[i]).credential@
            != (#[trigger] creds[j]).credential@ && creds[i].credential_type
            != creds[j].credential_type)
}

/// Whether some stored credential row already binds the id the new user
/// would take to one of the supplied types — the inconsistency on which
/// the store's per-type constraint would reject a registration insert.
pub open spec fn spec_new_user_type_clash(pre: Store, creds: Seq<crate::dto::CredentialDto>) -> bool {
    exists|k: int|
        0 <= k < creds.len() && crate::store::spec_user_type_taken(
            pre.credentials@,
            pre.next_user_id,
            (#[trigger] creds[k]).credential_type,
        )
}

/// Whether a stored digest and salt are the encodings of a fresh 64-byte
/// salt and of the password's derivation under it.
pub open spec fn spec_fresh_password_row(
    password: Seq<char>,
    hash_text: Seq<char>,
    salt_text: Seq<char>,
) -> bool {
    exists|salt_bytes: Seq<u8>|
        #![trigger crate::hasher::b64_of(salt_bytes)]
        {
            &&& salt_bytes.len() == crate::hasher::CREDENTIAL_LEN
            &&& salt_text == crate::hasher::b64_of(salt_bytes)
            &&& hash_text == crate::hasher::spec_hash_with_salt_bytes(password, salt_bytes)
            &&& crate::hasher::b64_dec_of(salt_text) == Some(salt_bytes)
            &&& crate::hasher::b64_dec_of(hash_text) == Some(
                crate::hasher::pbkdf2_of(password, salt_bytes),
            )
        }
}

/// What a committed registration did to the store: one new user row under a
/// fresh id with the hashed password, one credential row per supplied
/// credential bound to it in supply order, not yet validated, and one token
/// row with a fresh secure-random pair — every timestamp at `now`.
pub open spec fn spec_register_commit(
    pre: Store,
    user: UserRegisterPayload,
    now: i64,
    post: Store,
    t: Token,
) -> bool {
    let uid = pre.next_user_id;
    let nu = post.users@.last();
    &&& post.users@.len() == pre.users@.len() + 1
    &&& forall|k: int| 0 <= k < pre.users@.len() ==> post.users@[k] == pre.users@[k]
    &&& nu.id == uid
    &&& nu.name == user.name
    &&& spec_fresh_password_row(user.password@, nu.password@, nu.salt@)
    &&& nu.time_created == now
    &&& nu.last_updated == now
    &&& post.credentials@.len() == pre.credentials@.len() + user.credentials@.len()
    &&& forall|k: int|
        0 <= k < pre.credentials@.len() ==> post.credentials@[k] == pre.credentials@[k]
    &&& forall|k: int|
        0 <= k < user.credentials@.len() ==> {
            let c = (#[trigger] post.credentials@[pre.credentials@.len() + k]);
            &&& c.user_id == uid
            &&& c.credential_type == user.credentials@[k].credential_type
            &&& c.credential == user.credentials@[k].credential
            &&& c.validated == false
            &&& c.time_created == now
            &&& c.last_updated == now
        }
    &&& post.tokens@ == pre.tokens@.push(t)
    &&& t.id == pre.next_token_id
    &&& t.user_id == uid
    &&& spec_is_encoded_token(t.auth_token@)
    &&& spec_is_encoded_token(t.refresh_token@)
    &&& t.time_created == now
    &&& t.last_updated == now
    &&& post.next_user_id == pre.next_user_id + 1
    &&& post.next_token_id == pre.next_token_id + 1
}

/// The exact outcome of registration against the clock reading `now`.
/// Every pre-check error is collected and reported together, with nothing
/// written. A payload the store's own constraints would reject mid-flow, or
/// an exhausted id space, aborts with one opaque store error and no writes.
/// Otherwise the flow commits in full, failing only — with no partial
/// writes — when a secure-random draw fails.
pub open spec fn spec_register_rel(
    pre: Store,
    user: UserRegisterPayload,
    now: i64,
    post: Store,
    r: Result<Token, Vec<ErrorResource>>,
) -> bool {
    let errs = spec_register_pre_errors(pre, user);
    if errs.len() > 0 {
        post == pre && (r matches Err(es) && es@ == errs)
    } else if !spec_payload_distinct(user.credentials@) || spec_new_user_type_clash(
        pre,
        user.credentials@,
    ) || pre.next_user_id == i32::MAX || pre.next_token_id == i32::MAX {
        post == pre && (r matches Err(es) && es@ == seq![ErrorResource::DatabaseError])
    } else {
        match r {
            Err(es) => post == pre && es@ == seq![ErrorResource::CreatingToken],
            Ok(t) => spec_register_commit(pre, user, now, post, t),
        }
    }
}

/// Whether this user already holds a stored credential of this type.
fn user_type_taken_exec(
    store: &Store,
    user_id: i32,
    credential_type: crate::domain::CredentialType,
) -> (r: bool)
    ensures
        r == crate::store::spec_user_type_taken(store.credentials@, user_id, credential_type),
{
    let n = store.credentials.len();
    let mut i: usize = 0;
    while i < n
        invariant
            i <= n,
            n == store.credentials@.len(),
            forall|j: int|
                0 <= j < i ==> !((#[trigger] store.credentials@[j]).user_id == user_id
                    && store.credentials@[j].credential_type == credential_type),
        decreases n - i,
    {
        let row = &store.credentials[i];
        if row.user_id == user_id && row.credential_type == credential_type {
            return true;
        }
        i = i + 1;
    }
    false
}

/// Register a new user from a payload of credentials, a display name and a
/// password, against the clock reading `now`. Returns the persisted token
/// row of the new session.
#[verifier::loop_isolation(false)]
#[verifier::rlimit(50)]
pub fn register_user_at(store: &mut Store, user: UserRegisterPayload, now: i64) -> (r: Result<
    Token,
    Vec<ErrorResource>,
>)
    requires
        old(store).wf(),
    ensures
        final(store).wf(),
        spec_register_rel(*old(store), user, now, *final(store), r),
{
    let ghost pre = *store;
    let mut error_resources: Vec<ErrorResource> = Vec::new();
    validate_user_for_creation(&user, &mut error_resources);
    if user.credentials.len() > 3 {
        error_resources.push(ErrorResource::TooManyCredentials);
    }
    let ghost head = spec_registration_errors(user) + spec_too_many_errors(user);
    assert(error_resources@ =~= head);
    let n = user.credentials.len();
    let mut i: usize = 0;
    proof {
        assert(user.credentials@.take(0int) =~= Seq::<crate::dto::CredentialDto>::empty());
    }
    while i < n
        invariant
            i <= n,
            n == user.credentials@.len(),
            *store == pre,
            error_resources@ == head + spec_conflict_errors(
                pre.credentials@,
                user.credentials@.take(i as int),
            ),
        decreases n - i,
    {
        match store.get_credential(&user.credentials[i].credential) {
            None => {},
            Some(_) => {
                error_resources.push(ErrorResource::UserAlreadyExists);
            },
        }
        proof {
            let taken = user.credentials@.take(i + 1);
            assert(taken.drop_last() =~= user.credentials@.take(i as int));
            assert(taken.last() == user.credentials@[i as int]);
        }
        i = i + 1;
    }
    proof {
        assert(user.credentials@.take(n as int) =~= user.credentials@);
    }
    if error_resources.len() > 0 {
        return Err(error_resources);
    }
    proof {
        lemma_conflict_errors_empty(pre.credentials@, user.credentials@);
    }
    // The store will enforce value and per-type uniqueness on every insert;
    // a payload that would trip them mid-flow is rejected here, before any
    // write, as the surrounding transaction would have discarded it anyway.
    let mut a: usize = 0;
    while a < n
        invariant
            a <= n,
            *store == pre,
            error_resources@.len() == 0,
            forall|x: int, y: int|
                0 <= x < y < n && x < a ==> ((#[trigger] user.credentials@[x]).credential@
                    != (#[trigger] user.credentials@[y]).credential@
                    && user.credentials@[x].credential_type
                    != user.credentials@[y].credential_type),
        decreases n - a,
    {
        let mut b: usize = a + 1;
        while b < n
            invariant
                a < b <= n || (a + 1 == b && b > n),
                a < n,
                *store == pre,
                error_resources@.len() == 0,
                forall|x: int, y: int|
                    0 <= x < y < n && x < a ==> ((#[trigger] user.credentials@[x]).credential@
                        != (#[trigger] user.credentials@[y]).credential@
                        && user.credentials@[x].credential_type
                        != user.credentials@[y].credential_type),
                forall|y: int|
                    a < y < b ==> ((#[trigger] user.credentials@[y]).credential@
                        != user.credentials@[a as int].credential@
                        && user.credentials@[y].credential_type
                        != user.credentials@[a as int].credential_type),
            decreases n - b,
        {
            let same_value = user.credentials[a].credential.eq(&user.credentials[b].credential);
            let same_type = user.credentials[a].credential_type
                == user.credentials[b].credential_type;
            if same_value || same_type {
                proof {
                    assert(!spec_payload_distinct(user.credentials@));
                    assert(error_resources@ =~= Seq::<ErrorResource>::empty());
                }
                error_resources.push(ErrorResource::DatabaseError);
                return Err(error_resources);
            }
            b = b + 1;
        }
        a = a + 1;
    }
    assert(spec_payload_distinct(user.credentials@));
    let mut c: usize = 0;
    while c < n
        invariant
            c <= n,
            *store == pre,
            error_resources@.len() == 0,
            forall|k: int|
                0 <= k < c ==> !crate::store::spec_user_type_taken(
                    pre.credentials@,
                    pre.next_user_id,
                    (#[trigger] user.credentials@[k]).credential_type,
                ),
        decreases n - c,
    {
        if user_type_taken_exec(store, store.next_user_id, user.credentials[c].credential_type) {
            proof {
                assert(spec_new_user_type_clash(pre, user.credentials@));
            }
            proof {
                assert(error_resources@ =~= Seq::<ErrorResource>::empty());
            }
            error_resources.push(ErrorResource::DatabaseError);
            return Err(error_resources);
        }
        c = c + 1;
    }
    assert(!spec_new_user_type_clash(pre, user.credentials@));
    if store.next_user_id == i32::MAX || store.next_token_id == i32::MAX {
        proof {
            assert(error_resources@ =~= Seq::<ErrorResource>::empty());
        }
        error_resources.push(ErrorResource::DatabaseError);
        return Err(error_resources);
    }
    //  Get salt and hashed password from the hashing engine, and draw the
    //  session's token pair, before the first write: a failed draw must
    //  leave the store untouched.
    let hash_result = match hash_password(&user.password) {
        Ok(h) => h,
        Err(_) => {
            proof {
                assert(error_resources@ =~= Seq::<ErrorResource>::empty());
            }
            error_resources.push(ErrorResource::CreatingToken);
            return Err(error_resources);
        },
    };
    let mut tokens: Vec<String> = match generate_multiple_random_token_with_rng(2) {
        Ok(tokens) => tokens,
        Err(_) => {
            proof {
                assert(error_resources@ =~= Seq::<ErrorResource>::empty());
            }
            error_resources.push(ErrorResource::CreatingToken);
            return Err(error_resources);
        },
    };
    let auth_token = tokens.remove(0);
    let refresh_token = tokens.remove(0);
    let ghost salt_bytes = choose|sb: Seq<u8>| spec_hash_result_wf(user.password@, sb, hash_result);
    let user_to_insert = User {
        id: 0,
        name: user.name.clone(),
        password: hash_result.hash,
        salt: hash_result.salt,
        time_created: now,
        last_updated: now,
    };
    let persisted_user = match store.insert_user(user_to_insert) {
        Ok(u) => u,
        Err(_) => {
            error_resources.push(ErrorResource::DatabaseError);
            return Err(error_resources);
        },
    };
    assert(spec_fresh_password_row(user.password@, persisted_user.password@, persisted_user.salt@));
    let mut k: usize = 0;
    while k < n
        invariant
            k <= n,
            n == user.credentials@.len(),
            store.wf(),
            store.users@ == pre.users@.push(persisted_user),
            persisted_user.id == pre.next_user_id,
            store.next_user_id == pre.next_user_id + 1,
            store.next_token_id == pre.next_token_id,
            store.tokens == pre.tokens,
            store.credentials@.len() == pre.credentials@.len() + k,
            forall|j: int|
                0 <= j < pre.credentials@.len() ==> (#[trigger] store.credentials@[j])
                    == pre.credentials@[j],
            forall|j: int|
                0 <= j < k ==> {
                    let cr = (#[trigger] store.credentials@[pre.credentials@.len() + j]);
                    &&& cr.user_id == persisted_user.id
                    &&& cr.credential_type == user.credentials@[j].credential_type
                    &&& cr.credential == user.credentials@[j].credential
                    &&& cr.validated == false
                    &&& cr.time_created == now
                    &&& cr.last_updated == now
                },
        decreases n - k,
    {
        let credential_dto = user.credentials[k].clone();
        let ghost creds_before = store.credentials@;
        match store.insert_credential(credential_dto, persisted_user.id, now) {
            Ok(_) => {},
            Err(_) => {
                proof {
                    let value_k = user.credentials@[k as int].credential@;
                    let type_k = user.credentials@[k as int].credential_type;
                    if crate::store::spec_value_taken(creds_before, value_k) {
                        let w = choose|w: int|
                            0 <= w < creds_before.len() && (#[trigger] creds_before[w]).credential@
                                == value_k;
                        if w < pre.credentials@.len() {
                            assert(creds_before[w] == pre.credentials@[w]);
                            assert(pre.credentials@[w].credential@ == value_k);
                            lemma_value_taken_iff_get(pre.credentials@, value_k);
                            assert(false);
                        } else {
                            let j = w - pre.credentials@.len();
                            assert(creds_before[pre.credentials@.len() + j] == creds_before[w]);
                            assert(user.credentials@[j].credential@ == value_k);
                            assert(false);
                        }
                    }
                    if crate::store::spec_user_type_taken(creds_before, persisted_user.id, type_k) {
                        let w = choose|w: int|
                            0 <= w < creds_before.len() && (#[trigger] creds_before[w]).user_id
                                == persisted_user.id && creds_before[w].credential_type == type_k;
                        if w < pre.credentials@.len() {
                            assert(creds_before[w] == pre.credentials@[w]);
                            assert(crate::store::spec_user_type_taken(
                                pre.credentials@,
                                pre.next_user_id,
                                type_k,
                            ));
                            assert(spec_new_user_type_clash(pre, user.credentials@));
                            assert(false);
                        } else {
                            let j = w - pre.credentials@.len();
                            assert(creds_before[pre.credentials@.len() + j] == creds_before[w]);
                            assert(user.credentials@[j].credential_type == type_k);
                            assert(false);
                        }
                    }
                    assert(false);
                }
                error_resources.push(ErrorResource::DatabaseError);
                return Err(error_resources);
            },
        }
        k = k + 1;
    }
    let token_to_insert = Token {
        id: 0,
        user_id: persisted_user.id,
        auth_token,
        refresh_token,
        time_created: now,
        last_updated: now,
    };
    let persisted_token = match store.insert_token(token_to_insert) {
        Ok(t) => t,
        Err(_) => {
            error_resources.push(ErrorResource::DatabaseError);
            return Err(error_resources);
        },
    };
    proof {
        assert(store.users@.last() == persisted_user);
        assert(spec_register_commit(pre, user, now, *store, persisted_token));
    }
    Ok(persisted_token)
}

/// Register a new user from a payload of credentials, a display name and a
/// password, reading the clock once for every new row's timestamps.
pub fn register_user(store: &mut Store, user: UserRegisterPayload) -> (r: Result<
    Token,
    Vec<ErrorResource>,
>)
    requires
        old(store).wf(),
    ensures
        final(store).wf(),
        exists|now: i64| spec_register_rel(*old(store), user, now, *final(store), r),
{
    let now = now_millis();
    let ghost u = user;
    let r = register_user_at(store, user, now);
    proof {
        assert(spec_register_rel(*old(store), u, now, *store, r));
    }
    r
}

/// An element of the right part of a concatenation is in the whole.
proof fn lemma_concat_contains_right(
    s1: Seq<ErrorResource>,
    s2: Seq<ErrorResource>,
    e: ErrorResource,
)
    requires
        s2.contains(e),
    ensures
        (s1 + s2).contains(e),
{
    let i = choose|i: int| 0 <= i < s2.len() && s2[i] == e;
    assert((s1 + s2)[s1.len() + i] == e);
}

/// When some supplied value is already stored, the conflict errors report
/// it.
proof fn lemma_conflict_errors_at(
    stored: Seq<Credential>,
    creds: Seq<crate::dto::CredentialDto>,
    k: int,
)
    requires
        0 <= k < creds.len(),
        spec_get_credential(stored, creds[k].credential@) is Some,
    ensures
        spec_conflict_errors(stored, creds).contains(ErrorResource::UserAlreadyExists),
    decreases creds.len(),
{
    let head = spec_conflict_errors(stored, creds.drop_last());
    if k == creds.len() - 1 {
        assert(creds.last() == creds[k]);
        assert(spec_conflict_errors(stored, creds)[head.len() as int]
            == ErrorResource::UserAlreadyExists);
    } else {
        assert(creds.drop_last()[k] == creds[k]);
        lemma_conflict_errors_at(stored, creds.drop_last(), k);
        let i = choose|i: int| 0 <= i < head.len() && head[i] == ErrorResource::UserAlreadyExists;
        assert(spec_conflict_errors(stored, creds)[i] == ErrorResource::UserAlreadyExists);
    }
}

/// Law: a registration payload with more than 3 credentials is always
/// rejected: a too-many-credentials error stands among the collected
/// errors — beside any other shape violations — the whole list is
/// returned, and nothing is written.
pub proof fn lemma_register_too_many(
    pre: Store,
    user: UserRegisterPayload,
    now: i64,
    post: Store,
    r: Result<Token, Vec<ErrorResource>>,
)
    requires
        user.credentials@.len() > 3,
        spec_register_rel(pre, user, now, post, r),
    ensures
        spec_register_pre_errors(pre, user).contains(ErrorResource::TooManyCredentials),
        post == pre,
        r matches Err(es) && es@ == spec_register_pre_errors(pre, user),
{
    let reg = spec_registration_errors(user);
    let tm = spec_too_many_errors(user);
    let con = spec_conflict_errors(pre.credentials@, user.credentials@);
    assert((reg + tm)[reg.len() as int] == ErrorResource::TooManyCredentials);
    assert(((reg + tm) + con)[reg.len() as int] == ErrorResource::TooManyCredentials);
    assert(spec_register_pre_errors(pre, user).contains(ErrorResource::TooManyCredentials));
}

/// Law: a credential value that one committed registration already claimed
/// makes any later registration supplying that value fail with a conflict
/// error among its collected errors, and that attempt writes nothing.
/// Two registrations racing on one unclaimed value serialize at the store,
/// so at most one commits and the other observes this conflict.
pub proof fn lemma_register_duplicate_value(
    pre: Store,
    first: UserRegisterPayload,
    now1: i64,
    mid: Store,
    t: Token,
    second: UserRegisterPayload,
    k1: int,
    k2: int,
    now2: i64,
    post: Store,
    r: Result<Token, Vec<ErrorResource>>,
)
    requires
        spec_register_commit(pre, first, now1, mid, t),
        0 <= k1 < first.credentials@.len(),
        0 <= k2 < second.credentials@.len(),
        second.credentials@[k2].credential@ == first.credentials@[k1].credential@,
        spec_register_rel(mid, second, now2, post, r),
    ensures
        spec_register_pre_errors(mid, second).contains(ErrorResource::UserAlreadyExists),
        post == mid,
        r is Err,
{
    let value = second.credentials@[k2].credential@;
    assert(mid.credentials@[pre.credentials@.len() + k1].credential@ == value);
    assert(crate::store::spec_value_taken(mid.credentials@, value));
    lemma_value_taken_iff_get(mid.credentials@, value);
    lemma_conflict_errors_at(mid.credentials@, second.credentials@, k2);
    let reg = spec_registration_errors(second);
    let tm = spec_too_many_errors(second);
    let con = spec_conflict_errors(mid.credentials@, second.credentials@);
    lemma_concat_contains_right(reg + tm, con, ErrorResource::UserAlreadyExists);
    assert(spec_register_pre_errors(mid, second).len() > 0) by {
        let i = choose|i: int|
            0 <= i < spec_register_pre_errors(mid, second).len() && spec_register_pre_errors(
                mid,
                second,
            )[i] == ErrorResource::UserAlreadyExists;
    }
}

/// A token row pushed onto rows none of which carry its pair is the one
/// the lookup finds.
proof fn lemma_find_token_push(tokens: Seq<Token>, t: Token, user_id: i32, auth: Seq<char>)
    requires
        spec_find_token(tokens, user_id, auth) is None,
        t.user_id == user_id,
        t.auth_token@ == auth,
    ensures
        spec_find_token(tokens.push(t), user_id, auth) == Some(t),
    decreases tokens.len(),
{
    if tokens.len() == 0 {
        assert(tokens.push(t)[0] == t);
    } else {
        assert(tokens.push(t)[0] == tokens[0]);
        assert(tokens.push(t).drop_first() =~= tokens.drop_first().push(t));
        lemma_find_token_push(tokens.drop_first(), t, user_id, auth);
    }
}

/// Law: immediately after a successful login issued token `t` at `now`,
/// authenticating that user with `t`'s auth token succeeds as long as the
/// clock has moved by no more than the TTL — while any token value that no
/// row of the user carries is rejected as incorrect.
pub proof fn lemma_login_then_authenticate(
    pre: Store,
    user_id: i32,
    now: i64,
    post: Store,
    t: Token,
    now2: i64,
    forged: Seq<char>,
)
    requires
        spec_token_issued(pre, user_id, now, post, t),
        spec_get_user(post.users@, user_id) is Some,
        spec_find_token(pre.tokens@, user_id, t.auth_token@) is None,
        now2 - t.last_updated <= AUTH_TOKEN_EXPIRATION_TIME_MILLIS,
        spec_find_token(post.tokens@, user_id, forged) is None,
    ensures
        spec_authenticate(post, user_id, t.auth_token@, now2) == Ok::<User, ErrorResource>(
            spec_get_user(post.users@, user_id)->Some_0,
        ),
        spec_authenticate(post, user_id, forged, now2) == Err::<User, ErrorResource>(
            ErrorResource::IncorrectToken,
        ),
{
    lemma_find_token_push(pre.tokens@, t, user_id, t.auth_token@);
}

/// Law: a token row whose last update lies further than the TTL in the
/// past is rejected as expired, even though its auth token value matches
/// exactly.
pub proof fn lemma_expired_token_rejected(s: Store, user_id: i32, auth: Seq<char>, now: i64)
    requires
        spec_get_user(s.users@, user_id) is Some,
        spec_find_token(s.tokens@, user_id, auth) matches Some(t) && now - t.last_updated
            > AUTH_TOKEN_EXPIRATION_TIME_MILLIS,
    ensures
        spec_authenticate(s, user_id, auth, now) == Err::<User, ErrorResource>(
            ErrorResource::ExpiredToken,
        ),
{
}

/// Law: a refresh presented with a refresh token that no row of the user
/// carries leaves every token row unchanged and reports an error — a new
/// auth token is never issued without a matching row update.
pub proof fn lemma_refresh_requires_matching_row(
    pre: Store,
    user: RefreshAuthTokenForUserDto,
    now: i64,
    post: Store,
    r: Result<Token, Vec<ErrorResource>>,
)
    requires
        spec_refresh_rel(pre, user, now, post, r),
        spec_refresh_index(pre.tokens@, user.id, user.refresh_token@) is None,
    ensures
        post == pre,
        r is Err,
{
}

} // verus!
