use std::str::FromStr;

use identity_core::domain::CredentialType;
use identity_core::dto::{CredentialDto, UserLoginPayload, UserRegisterPayload};
use identity_core::resources::ErrorResource;
use identity_core::validation::{
    validate_credential, validate_user_email, validate_user_for_creation,
    validate_user_for_password_authentication, validate_user_name, validate_user_password,
    validate_user_phone_number, validate_user_username,
};

#[test]
fn email_requires_at_and_dot() {
    assert!(validate_user_email(&"a@b.c".to_string()));
    assert!(!validate_user_email(&"ab.c".to_string()));
    assert!(!validate_user_email(&"a@bc".to_string()));
}

#[test]
fn email_length_bounds() {
    assert!(validate_user_email(&"a@.c".to_string()));
    assert!(!validate_user_email(&"@.c".to_string()));
    let mut long = String::from("a@b.");
    long.push_str(&"x".repeat(250));
    assert_eq!(long.len(), 254);
    assert!(validate_user_email(&long));
    long.push('x');
    assert!(!validate_user_email(&long));
}

#[test]
fn phone_number_length_bounds() {
    assert!(!validate_user_phone_number(&"1234567".to_string()));
    assert!(validate_user_phone_number(&"12345678".to_string()));
    assert!(validate_user_phone_number(&"12345678901234".to_string()));
    assert!(!validate_user_phone_number(&"123456789012345".to_string()));
}

#[test]
fn username_length_bounds() {
    assert!(!validate_user_username(&"ab".to_string()));
    assert!(validate_user_username(&"abc".to_string()));
    assert!(validate_user_username(&"u".repeat(64)));
    assert!(!validate_user_username(&"u".repeat(65)));
}

#[test]
fn name_length_bounds() {
    assert!(!validate_user_name(&"abc".to_string()));
    assert!(validate_user_name(&"abcd".to_string()));
    assert!(validate_user_name(&"n".repeat(254)));
    assert!(!validate_user_name(&"n".repeat(255)));
}

#[test]
fn password_length_bounds() {
    assert!(!validate_user_password(&"1234567".to_string()));
    assert!(validate_user_password(&"12345678".to_string()));
    assert!(validate_user_password(&"p".repeat(128)));
    assert!(!validate_user_password(&"p".repeat(129)));
}

#[test]
fn credential_type_bounds_accessors() {
    assert_eq!(CredentialType::Email.get_min_length(), 4);
    assert_eq!(CredentialType::Email.get_max_length(), 254);
    assert_eq!(CredentialType::PhoneNumber.get_min_length(), 8);
    assert_eq!(CredentialType::PhoneNumber.get_max_length(), 14);
    assert_eq!(CredentialType::Username.get_min_length(), 3);
    assert_eq!(CredentialType::Username.get_max_length(), 64);
}

#[test]
fn validate_credential_pushes_typed_error() {
    let mut errors: Vec<ErrorResource> = Vec::new();
    validate_credential(&mut errors, &"bad".to_string(), &CredentialType::Email);
    validate_credential(&mut errors, &"short".to_string(), &CredentialType::PhoneNumber);
    validate_credential(&mut errors, &"ab".to_string(), &CredentialType::Username);
    validate_credential(&mut errors, &"fine@mail.com".to_string(), &CredentialType::Email);
    assert_eq!(
        errors,
        vec![
            ErrorResource::InvalidEmail,
            ErrorResource::InvalidPhoneNumber,
            ErrorResource::InvalidUsername,
        ]
    );
}

#[test]
fn registration_collects_every_defect_in_order() {
    let payload = UserRegisterPayload {
        credentials: vec![
            CredentialDto {
                credential: "no-at-sign".to_string(),
                credential_type: CredentialType::Email,
            },
            CredentialDto { credential: "123".to_string(), credential_type: CredentialType::PhoneNumber },
        ],
        password: "short".to_string(),
        name: "ab".to_string(),
    };
    let mut errors: Vec<ErrorResource> = Vec::new();
    validate_user_for_creation(&payload, &mut errors);
    assert_eq!(
        errors,
        vec![
            ErrorResource::InvalidEmail,
            ErrorResource::InvalidPhoneNumber,
            ErrorResource::InvalidName,
            ErrorResource::InvalidPassword,
        ]
    );
}

#[test]
fn login_validation_checks_credential_then_password() {
    let payload = UserLoginPayload {
        credential: "ab".to_string(),
        credential_type: CredentialType::Username,
        password: "1234".to_string(),
    };
    let mut errors: Vec<ErrorResource> = Vec::new();
    validate_user_for_password_authentication(&payload, &mut errors);
    assert_eq!(errors, vec![ErrorResource::InvalidUsername, ErrorResource::InvalidPassword]);
}

#[test]
fn error_resources_expose_codes_and_messages() {
    assert_eq!(ErrorResource::InvalidEmail.code(), "ERROR.INVALID_EMAIL");
    assert_eq!(ErrorResource::UserAlreadyExists.code(), "ERROR.USER_ALREADY_EXISTS");
    assert_eq!(ErrorResource::ExpiredToken.code(), "ERROR.EXPIRED_TOKEN");
    assert_eq!(ErrorResource::DatabaseError.code(), "ERROR.DATABASE_ERROR");
    assert_eq!(
        ErrorResource::PasswordIncorrect.message(),
        "The password you have entered is incorrect."
    );
}

#[test]
fn credential_type_parses_its_names() {
    assert_eq!(CredentialType::from_str("PhoneNumber"), Ok(CredentialType::PhoneNumber));
    assert_eq!(CredentialType::from_str("Email"), Ok(CredentialType::Email));
    assert_eq!(CredentialType::from_str("Username"), Ok(CredentialType::Username));
    assert!(CredentialType::from_str("email").is_err());
    assert_eq!(CredentialType::default(), CredentialType::Email);
}
