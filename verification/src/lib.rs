//! Transactional identity workflow engine: registration, credential-based
//! login, token issuance and refresh, password reset, and token-based
//! re-authentication, together with the salted password hashing and secure
//! random token generation they depend on.

pub mod domain;
pub mod dto;
pub mod hasher;
pub mod resources;
pub mod service;
pub mod store;
pub mod validation;
