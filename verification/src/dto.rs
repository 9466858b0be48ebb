//! The payloads that callers hand to the flows, and the result of a hash.

use vstd::prelude::*;
use crate::domain::CredentialType;

verus! {

/// One credential supplied at registration.
#[derive(Debug)]
pub struct CredentialDto {
    pub credential: String,
    pub credential_type: CredentialType,
}

impl Clone for CredentialDto {
    fn clone(&self) -> (r: Self)
        ensures
            r == *self,
    {
        CredentialDto { credential: self.credential.clone(), credential_type: self.credential_type }
    }
}

/// Used for logging in when you don't have a token.
#[derive(Debug)]
pub struct UserLoginPayload {
    pub credential: String,
    pub credential_type: CredentialType,
    pub password: String,
}

/// Everything needed to register a new user.
#[derive(Debug)]
pub struct UserRegisterPayload {
    pub credentials: Vec<CredentialDto>,
    pub password: String,
    pub name: String,
}

/// Asks a flow to re-verify the caller's identity from an issued auth token.
#[derive(Debug)]
pub struct AuthenticateUserDto {
    pub id: i32,
    pub auth_token: String,
}

/// Asks for a fresh auth token, authorized by the row's refresh token.
#[derive(Debug)]
pub struct RefreshAuthTokenForUserDto {
    pub id: i32,
    pub refresh_token: String,
}

/// Asks to replace a user's password after verifying the old one.
#[derive(Debug)]
pub struct UserResetPasswordPayload {
    pub id: i32,
    pub password: String,
    pub new_password: String,
}

/// A salt and the digest derived with it, both as printable text.
#[derive(Debug)]
pub struct HashResult {
    pub salt: String,
    pub hash: String,
}

impl HashResult {
    pub fn new(salt: String, hash: String) -> (r: HashResult)
        ensures
            r.salt == salt,
            r.hash == hash,
    {
        HashResult { salt, hash }
    }
}

impl Clone for HashResult {
    fn clone(&self) -> (r: Self)
        ensures
            r == *self,
    {
        HashResult { salt: self.salt.clone(), hash: self.hash.clone() }
    }
}

} // verus!
