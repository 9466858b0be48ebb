//! The persisted entities: users, credentials and token rows. Timestamps are
//! carried as milliseconds since the Unix epoch.

use vstd::prelude::*;
use vstd::string::StrSliceExecFns;
use crate::resources::{
    MAX_EMAIL_LENGTH, MAX_PHONE_NUMBER_LENGTH, MAX_USERNAME_LENGTH, MIN_EMAIL_LENGTH,
    MIN_PHONE_NUMBER_LENGTH, MIN_USERNAME_LENGTH,
};

verus! {

/// Error returned when a string does not name a credential type.
#[derive(Clone, Copy, PartialEq, Eq, Structural, Debug)]
pub struct FromStrError;

/// Signals what kind of identifier the credential column holds.
/// Defaults to email.
#[derive(Clone, Copy, PartialEq, Eq, Structural, Debug, Default)]
pub enum CredentialType {
    PhoneNumber,
    #[default]
    Email,
    Username,
}

impl CredentialType {
    pub fn get_max_length(&self) -> (r: usize)
        ensures
            r == self.spec_max_length(),
    {
        match self {
            CredentialType::PhoneNumber => MAX_PHONE_NUMBER_LENGTH,
            CredentialType::Email => MAX_EMAIL_LENGTH,
            CredentialType::Username => MAX_USERNAME_LENGTH,
        }
    }

    pub fn get_min_length(&self) -> (r: usize)
        ensures
            r == self.spec_min_length(),
    {
        match self {
            CredentialType::PhoneNumber => MIN_PHONE_NUMBER_LENGTH,
            CredentialType::Email => MIN_EMAIL_LENGTH,
            CredentialType::Username => MIN_USERNAME_LENGTH,
        }
    }

    pub open spec fn spec_max_length(self) -> usize {
        match self {
            CredentialType::PhoneNumber => MAX_PHONE_NUMBER_LENGTH,
            CredentialType::Email => MAX_EMAIL_LENGTH,
            CredentialType::Username => MAX_USERNAME_LENGTH,
        }
    }

    pub open spec fn spec_min_length(self) -> usize {
        match self {
            CredentialType::PhoneNumber => MIN_PHONE_NUMBER_LENGTH,
            CredentialType::Email => MIN_EMAIL_LENGTH,
            CredentialType::Username => MIN_USERNAME_LENGTH,
        }
    }
}

/// Whether two string slices hold the same characters.
fn str_eq(a: &str, b: &str) -> (r: bool)
    ensures
        r == (a@ == b@),
{
    let n = a.unicode_len();
    if n != b.unicode_len() {
        return false;
    }
    let mut i: usize = 0;
    while i < n
        invariant
            i <= n,
            n == a@.len() == b@.len(),
            forall|j: int| 0 <= j < i ==> a@[j] == b@[j],
        decreases n - i,
    {
        if a.get_char(i) != b.get_char(i) {
            assert(a@[i as int] != b@[i as int]);
            return false;
        }
        i = i + 1;
    }
    proof {
        assert(a@ =~= b@);
    }
    true
}

impl core::str::FromStr for CredentialType {
    type Err = FromStrError;

    fn from_str(s: &str) -> Result<Self, FromStrError> {
        if str_eq(s, "PhoneNumber") {
            Ok(CredentialType::PhoneNumber)
        } else if str_eq(s, "Email") {
            Ok(CredentialType::Email)
        } else if str_eq(s, "Username") {
            Ok(CredentialType::Username)
        } else {
            Err(FromStrError)
        }
    }
}

/// A registered identity. Mutated on password reset; never deleted by the
/// covered flows.
#[derive(Debug)]
pub struct User {
    pub id: i32,
    pub name: String,
    pub password: String,
    pub salt: String,
    pub time_created: i64,
    pub last_updated: i64,
}

impl Clone for User {
    fn clone(&self) -> (r: Self)
        ensures
            r == *self,
    {
        User {
            id: self.id,
            name: self.name.clone(),
            password: self.password.clone(),
            salt: self.salt.clone(),
            time_created: self.time_created,
            last_updated: self.last_updated,
        }
    }
}

/// A user-supplied identifier bound to its owning user. Its value is globally
/// unique across all users, and a user holds at most one credential per type.
#[derive(Debug)]
pub struct Credential {
    pub user_id: i32,
    pub credential_type: CredentialType,
    pub credential: String,
    pub validated: bool,
    pub time_created: i64,
    pub last_updated: i64,
}

impl Clone for Credential {
    fn clone(&self) -> (r: Self)
        ensures
            r == *self,
    {
        Credential {
            user_id: self.user_id,
            credential_type: self.credential_type,
            credential: self.credential.clone(),
            validated: self.validated,
            time_created: self.time_created,
            last_updated: self.last_updated,
        }
    }
}

/// One session's token pair. A user may hold many concurrently valid rows;
/// the auth token is treated as expired once `now - last_updated` exceeds
/// the TTL, checked only at authentication time.
#[derive(Debug)]
pub struct Token {
    pub id: i32,
    pub user_id: i32,
    pub auth_token: String,
    pub refresh_token: String,
    pub time_created: i64,
    pub last_updated: i64,
}

impl Clone for Token {
    fn clone(&self) -> (r: Self)
        ensures
            r == *self,
    {
        Token {
            id: self.id,
            user_id: self.user_id,
            auth_token: self.auth_token.clone(),
            refresh_token: self.refresh_token.clone(),
            time_created: self.time_created,
            last_updated: self.last_updated,
        }
    }
}

} // verus!
