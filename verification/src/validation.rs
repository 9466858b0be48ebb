//! Pure, stateless shape checks on input payloads. Violations are collected,
//! never short-circuited, so a caller sees every defect in one response.

use vstd::prelude::*;
use vstd::string::StrSliceExecFns;
use crate::domain::CredentialType;
use crate::dto::{CredentialDto, UserLoginPayload, UserRegisterPayload};
use crate::resources::{
    ErrorResource, MAX_EMAIL_LENGTH, MAX_NAME_LENGTH, MAX_PASSWORD_LENGTH, MIN_EMAIL_LENGTH,
    MIN_NAME_LENGTH, MIN_PASSWORD_LENGTH,
};

verus! {

/// Whether `s` holds the character `c`.
fn contains_char(s: &str, c: char) -> (r: bool)
    ensures
        r == s@.contains(c),
{
    let n = s.unicode_len();
    let mut i: usize = 0;
    while i < n
        invariant
            i <= n,
            n == s@.len(),
            forall|j: int| 0 <= j < i ==> s@[j] != c,
        decreases n - i,
    {
        if s.get_char(i) == c {
            assert(s@[i as int] == c);
            return true;
        }
        i = i + 1;
    }
    false
}

pub open spec fn spec_valid_email(email: Seq<char>) -> bool {
    &&& MIN_EMAIL_LENGTH <= email.len() <= MAX_EMAIL_LENGTH
    &&& email.contains('@')
    &&& email.contains('.')
}

pub open spec fn spec_valid_phone_number(phone_number: Seq<char>) -> bool {
    CredentialType::PhoneNumber.spec_min_length() <= phone_number.len()
        <= CredentialType::PhoneNumber.spec_max_length()
}

pub open spec fn spec_valid_username(username: Seq<char>) -> bool {
    CredentialType::Username.spec_min_length() <= username.len()
        <= CredentialType::Username.spec_max_length()
}

pub open spec fn spec_valid_name(name: Seq<char>) -> bool {
    MIN_NAME_LENGTH <= name.len() <= MAX_NAME_LENGTH
}

pub open spec fn spec_valid_password(password: Seq<char>) -> bool {
    MIN_PASSWORD_LENGTH <= password.len() <= MAX_PASSWORD_LENGTH
}

pub fn validate_user_email(email: &String) -> (r: bool)
    ensures
        r == spec_valid_email(email@),
{
    let len = email.as_str().unicode_len();
    len >= MIN_EMAIL_LENGTH && len <= MAX_EMAIL_LENGTH && contains_char(email.as_str(), '@')
        && contains_char(email.as_str(), '.')
}

pub fn validate_user_phone_number(phone_number: &String) -> (r: bool)
    ensures
        r == spec_valid_phone_number(phone_number@),
{
    let len = phone_number.as_str().unicode_len();
    len <= CredentialType::PhoneNumber.get_max_length()
        && len >= CredentialType::PhoneNumber.get_min_length()
}

pub fn validate_user_username(username: &String) -> (r: bool)
    ensures
        r == spec_valid_username(username@),
{
    let len = username.as_str().unicode_len();
    len >= CredentialType::Username.get_min_length()
        && len <= CredentialType::Username.get_max_length()
}

pub fn validate_user_name(name: &String) -> (r: bool)
    ensures
        r == spec_valid_name(name@),
{
    let len = name.as_str().unicode_len();
    len >= MIN_NAME_LENGTH && len <= MAX_NAME_LENGTH
}

pub fn validate_user_password(password: &String) -> (r: bool)
    ensures
        r == spec_valid_password(password@),
{
    let len = password.as_str().unicode_len();
    len >= MIN_PASSWORD_LENGTH && len <= MAX_PASSWORD_LENGTH
}

/// The error, if any, that one supplied credential value earns under the rule
/// for its type.
pub open spec fn spec_credential_error(value: Seq<char>, credential_type: CredentialType) -> Option<
    ErrorResource,
> {
    match credential_type {
        CredentialType::Email => if !spec_valid_email(value) {
            Some(ErrorResource::InvalidEmail)
        } else {
            None
        },
        CredentialType::PhoneNumber => if !spec_valid_phone_number(value) {
            Some(ErrorResource::InvalidPhoneNumber)
        } else {
            None
        },
        CredentialType::Username => if !spec_valid_username(value) {
            Some(ErrorResource::InvalidUsername)
        } else {
            None
        },
    }
}

pub open spec fn opt_error_seq(o: Option<ErrorResource>) -> Seq<ErrorResource> {
    match o {
        Some(e) => seq![e],
        None => seq![],
    }
}

/// The errors that a list of supplied credentials earns, in supply order.
pub open spec fn spec_credentials_errors(creds: Seq<CredentialDto>) -> Seq<ErrorResource>
    decreases creds.len(),
{
    if creds.len() == 0 {
        seq![]
    } else {
        spec_credentials_errors(creds.drop_last()) + opt_error_seq(
            spec_credential_error(creds.last().credential@, creds.last().credential_type),
        )
    }
}

/// Every shape error of a registration payload, in reporting order: one per
/// supplied credential, then the display name, then the password.
pub open spec fn spec_registration_errors(user: UserRegisterPayload) -> Seq<ErrorResource> {
    spec_credentials_errors(user.credentials@) + opt_error_seq(
        if !spec_valid_name(user.name@) {
            Some(ErrorResource::InvalidName)
        } else {
            None
        },
    ) + opt_error_seq(
        if !spec_valid_password(user.password@) {
            Some(ErrorResource::InvalidPassword)
        } else {
            None
        },
    )
}

/// Every shape error of a login payload, in reporting order: the single
/// supplied credential, then the password.
pub open spec fn spec_login_errors(user: UserLoginPayload) -> Seq<ErrorResource> {
    opt_error_seq(spec_credential_error(user.credential@, user.credential_type)) + opt_error_seq(
        if !spec_valid_password(user.password@) {
            Some(ErrorResource::InvalidPassword)
        } else {
            None
        },
    )
}

pub fn validate_credential(
    error_resources: &mut Vec<ErrorResource>,
    credential: &String,
    credential_type: &CredentialType,
)
    ensures
        final(error_resources)@ == old(error_resources)@ + opt_error_seq(
            spec_credential_error(credential@, *credential_type),
        ),
{
    match credential_type {
        CredentialType::Email => {
            if !validate_user_email(credential) {
                error_resources.push(ErrorResource::InvalidEmail);
            }
        },
        CredentialType::PhoneNumber => {
            if !validate_user_phone_number(credential) {
                error_resources.push(ErrorResource::InvalidPhoneNumber);
            }
        },
        CredentialType::Username => {
            if !validate_user_username(credential) {
                error_resources.push(ErrorResource::InvalidUsername);
            }
        },
    }
    assert(final(error_resources)@ =~= old(error_resources)@ + opt_error_seq(
        spec_credential_error(credential@, *credential_type),
    ));
}

pub fn validate_user_for_creation(
    user: &UserRegisterPayload,
    error_resources: &mut Vec<ErrorResource>,
)
    ensures
        final(error_resources)@ == old(error_resources)@ + spec_registration_errors(*user),
{
    let ghost initial = error_resources@;
    let n = user.credentials.len();
    let mut i: usize = 0;
    while i < n
        invariant
            i <= n,
            n == user.credentials@.len(),
            error_resources@ == initial + spec_credentials_errors(user.credentials@.take(i as int)),
        decreases n - i,
    {
        let credential_dto = &user.credentials[i];
        validate_credential(
            error_resources,
            &credential_dto.credential,
            &credential_dto.credential_type,
        );
        proof {
            let taken = user.credentials@.take(i + 1);
            assert(taken.drop_last() =~= user.credentials@.take(i as int));
            assert(taken.last() == user.credentials@[i as int]);
        }
        i = i + 1;
    }
    assert(user.credentials@.take(n as int) =~= user.credentials@);
    if !validate_user_name(&user.name) {
        error_resources.push(ErrorResource::InvalidName);
    }
    if !validate_user_password(&user.password) {
        error_resources.push(ErrorResource::InvalidPassword);
    }
    assert(final(error_resources)@ =~= old(error_resources)@ + spec_registration_errors(*user));
}

pub fn validate_user_for_password_authentication(
    user: &UserLoginPayload,
    error_resources: &mut Vec<ErrorResource>,
)
    ensures
        final(error_resources)@ == old(error_resources)@ + spec_login_errors(*user),
{
    validate_credential(error_resources, &user.credential, &user.credential_type);
    if !validate_user_password(&user.password) {
        error_resources.push(ErrorResource::InvalidPassword);
    }
    assert(final(error_resources)@ =~= old(error_resources)@ + spec_login_errors(*user));
}

} // verus!
