//! Errors of the framework.

use vstd::prelude::*;
use crate::strings::concat;

verus! {

/// Errors that can occur in the auth framework.
#[derive(Debug)]
pub enum AuthError {
    InvalidCredentials,
    InvalidToken,
    InvalidSignature,
    TokenExpired,
    UnknownProvider(String),
    InvalidHashFormat,
    Serialization(String),
    Base64(String),
    Crypto(String),
    TimeError,
    MissingField(String),
    InvalidSecret,
}

impl AuthError {
    /// A human-readable description of the error.
    pub fn message(&self) -> (r: String)
        ensures
            match self {
                AuthError::InvalidCredentials => r@ == "invalid credentials"@,
                AuthError::InvalidToken => r@ == "invalid token"@,
                AuthError::InvalidSignature => r@ == "invalid token signature"@,
                AuthError::TokenExpired => r@ == "token expired"@,
                AuthError::UnknownProvider(name) => r@ == "unknown provider: "@ + name@,
                AuthError::InvalidHashFormat => r@ == "invalid password hash format"@,
                AuthError::Serialization(msg) => r@ == "serialization error: "@ + msg@,
                AuthError::Base64(msg) => r@ == "base64 error: "@ + msg@,
                AuthError::Crypto(msg) => r@ == "cryptographic error: "@ + msg@,
                AuthError::TimeError => r@ == "system time error"@,
                AuthError::MissingField(name) => r@ == "missing field: "@ + name@,
                AuthError::InvalidSecret => r@ == "invalid secret"@,
            },
    {
        match self {
            AuthError::InvalidCredentials => String::from_str("invalid credentials"),
            AuthError::InvalidToken => String::from_str("invalid token"),
            AuthError::InvalidSignature => String::from_str("invalid token signature"),
            AuthError::TokenExpired => String::from_str("token expired"),
            AuthError::UnknownProvider(name) => concat("unknown provider: ", name.as_str()),
            AuthError::InvalidHashFormat => String::from_str("invalid password hash format"),
            AuthError::Serialization(msg) => concat("serialization error: ", msg.as_str()),
            AuthError::Base64(msg) => concat("base64 error: ", msg.as_str()),
            AuthError::Crypto(msg) => concat("cryptographic error: ", msg.as_str()),
            AuthError::TimeError => String::from_str("system time error"),
            AuthError::MissingField(name) => concat("missing field: ", name.as_str()),
            AuthError::InvalidSecret => String::from_str("invalid secret"),
        }
    }
}

} // verus!
