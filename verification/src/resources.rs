//! Shared constants and the error resources that every flow reports.

use vstd::prelude::*;

verus! {

pub const MIN_EMAIL_LENGTH: usize = 4;

pub const MAX_EMAIL_LENGTH: usize = 254;

pub const MIN_PHONE_NUMBER_LENGTH: usize = 8;

pub const MAX_PHONE_NUMBER_LENGTH: usize = 14;

pub const MIN_USERNAME_LENGTH: usize = 3;

pub const MAX_USERNAME_LENGTH: usize = 64;

pub const MIN_NAME_LENGTH: usize = 4;

pub const MAX_NAME_LENGTH: usize = 254;

pub const MIN_PASSWORD_LENGTH: usize = 8;

pub const MAX_PASSWORD_LENGTH: usize = 128;

/// Fixed duration after which an issued auth token is treated as expired,
/// measured from the token row's last update time.
pub const AUTH_TOKEN_EXPIRATION_TIME_MILLIS: i64 = 86400000;

/// One reportable failure. Flows return ordered lists of these; validation
/// never short-circuits, so a caller sees every defect in one response.
#[derive(Clone, Copy, PartialEq, Eq, Structural, Debug)]
pub enum ErrorResource {
    InvalidEmail,
    InvalidPhoneNumber,
    InvalidUsername,
    InvalidName,
    InvalidPassword,
    TooManyCredentials,
    UserAlreadyExists,
    UserDoesNotExist,
    CredentialDoesNotExist,
    PasswordIncorrect,
    IncorrectToken,
    ExpiredToken,
    TokenNotCreated,
    CreatingToken,
    DatabaseError,
}

impl ErrorResource {
    /// The stable machine-readable code of this error.
    pub open spec fn spec_code(self) -> Seq<char> {
        match self {
            ErrorResource::InvalidEmail => "ERROR.INVALID_EMAIL"@,
            ErrorResource::InvalidPhoneNumber => "ERROR.INVALID_PHONE_NUMBER"@,
            ErrorResource::InvalidUsername => "ERROR.INVALID_USERNAME"@,
            ErrorResource::InvalidName => "ERROR.INVALID_NAME"@,
            ErrorResource::InvalidPassword => "ERROR.INVALID_PASSWORD"@,
            ErrorResource::TooManyCredentials => "ERROR.TOO_MANY_CREDENTIALS"@,
            ErrorResource::UserAlreadyExists => "ERROR.USER_ALREADY_EXISTS"@,
            ErrorResource::UserDoesNotExist => "ERROR.USER_DOES_NOT_EXIST"@,
            ErrorResource::CredentialDoesNotExist => "ERROR.CREDENTIAL_DOES_NOT_EXIST"@,
            ErrorResource::PasswordIncorrect => "ERROR.PASSWORD_INCORRECT"@,
            ErrorResource::IncorrectToken => "ERROR.INCORRECT_TOKEN"@,
            ErrorResource::ExpiredToken => "ERROR.EXPIRED_TOKEN"@,
            ErrorResource::TokenNotCreated => "ERROR.TOKEN_NOT_CREATED"@,
            ErrorResource::CreatingToken => "ERROR.CREATING_TOKEN"@,
            ErrorResource::DatabaseError => "ERROR.DATABASE_ERROR"@,
        }
    }

    pub fn code(&self) -> (r: &'static str)
        ensures
            r@ == self.spec_code(),
    {
        match self {
            ErrorResource::InvalidEmail => "ERROR.INVALID_EMAIL",
            ErrorResource::InvalidPhoneNumber => "ERROR.INVALID_PHONE_NUMBER",
            ErrorResource::InvalidUsername => "ERROR.INVALID_USERNAME",
            ErrorResource::InvalidName => "ERROR.INVALID_NAME",
            ErrorResource::InvalidPassword => "ERROR.INVALID_PASSWORD",
            ErrorResource::TooManyCredentials => "ERROR.TOO_MANY_CREDENTIALS",
            ErrorResource::UserAlreadyExists => "ERROR.USER_ALREADY_EXISTS",
            ErrorResource::UserDoesNotExist => "ERROR.USER_DOES_NOT_EXIST",
            ErrorResource::CredentialDoesNotExist => "ERROR.CREDENTIAL_DOES_NOT_EXIST",
            ErrorResource::PasswordIncorrect => "ERROR.PASSWORD_INCORRECT",
            ErrorResource::IncorrectToken => "ERROR.INCORRECT_TOKEN",
            ErrorResource::ExpiredToken => "ERROR.EXPIRED_TOKEN",
            ErrorResource::TokenNotCreated => "ERROR.TOKEN_NOT_CREATED",
            ErrorResource::CreatingToken => "ERROR.CREATING_TOKEN",
            ErrorResource::DatabaseError => "ERROR.DATABASE_ERROR",
        }
    }

    /// The human-readable description of this error.
    pub open spec fn spec_message(self) -> Seq<char> {
        match self {
            ErrorResource::InvalidEmail => "Invalid email. Needs to be at least 4 characters, at most 254 and correctly formatted."@,
            ErrorResource::InvalidPhoneNumber => "Invalid Phone number. Needs to be 10 characters."@,
            ErrorResource::InvalidUsername => "Invalid Username. "@,
            ErrorResource::InvalidName => "Invalid name. Names should have at least 4 characters in length and at most 254."@,
            ErrorResource::InvalidPassword => "Invalid password. Password should have at least 8 characters and at most 128."@,
            ErrorResource::TooManyCredentials => "A user can register at most 3 credentials."@,
            ErrorResource::UserAlreadyExists => "A user with that email already exists."@,
            ErrorResource::UserDoesNotExist => "User with this email does not exist."@,
            ErrorResource::CredentialDoesNotExist => "No user owns this credential."@,
            ErrorResource::PasswordIncorrect => "The password you have entered is incorrect."@,
            ErrorResource::IncorrectToken => "The token you have supplied does not belong to this user."@,
            ErrorResource::ExpiredToken => "The token you have supplied is expired."@,
            ErrorResource::TokenNotCreated => "The auth tokens were not created."@,
            ErrorResource::CreatingToken => "The server had an error creating the auth tokens."@,
            ErrorResource::DatabaseError => "The store failed to complete the operation."@,
        }
    }

    pub fn message(&self) -> (r: &'static str)
        ensures
            r@ == self.spec_message(),
    {
        match self {
            ErrorResource::InvalidEmail => "Invalid email. Needs to be at least 4 characters, at most 254 and correctly formatted.",
            ErrorResource::InvalidPhoneNumber => "Invalid Phone number. Needs to be 10 characters.",
            ErrorResource::InvalidUsername => "Invalid Username. ",
            ErrorResource::InvalidName => "Invalid name. Names should have at least 4 characters in length and at most 254.",
            ErrorResource::InvalidPassword => "Invalid password. Password should have at least 8 characters and at most 128.",
            ErrorResource::TooManyCredentials => "A user can register at most 3 credentials.",
            ErrorResource::UserAlreadyExists => "A user with that email already exists.",
            ErrorResource::UserDoesNotExist => "User with this email does not exist.",
            ErrorResource::CredentialDoesNotExist => "No user owns this credential.",
            ErrorResource::PasswordIncorrect => "The password you have entered is incorrect.",
            ErrorResource::IncorrectToken => "The token you have supplied does not belong to this user.",
            ErrorResource::ExpiredToken => "The token you have supplied is expired.",
            ErrorResource::TokenNotCreated => "The auth tokens were not created.",
            ErrorResource::CreatingToken => "The server had an error creating the auth tokens.",
            ErrorResource::DatabaseError => "The store failed to complete the operation.",
        }
    }
}

} // verus!
