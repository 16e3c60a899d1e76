//! Error kinds of the authentication core and their uniform JSON envelope.
//!
//! Every failure is reported to a client as a status code together with a
//! body `{"status": <label>, "message": <text>}`, where the label is
//! `"fail"` for client-caused conditions and `"error"` for server faults.

use vstd::prelude::*;

verus! {

/// The failure conditions of the authentication core.
#[derive(Clone, Copy, Debug, PartialEq, Eq, Structural)]
pub enum AuthError {
    /// The signing secret (or another piece of startup configuration) is missing or empty.
    ConfigError,
    /// Deriving a password hash failed inside the hashing backend.
    HashError,
    /// Wrong password or unknown user at login; the two are indistinguishable on purpose.
    InvalidCredentials,
    /// A bearer token was missing, malformed, expired or carried a bad signature.
    InvalidToken,
    /// A token was valid but the user it names no longer exists.
    IdentityNotFound,
    /// Registration conflicts with an existing user name or email.
    DuplicateUser,
    /// The persistence collaborator failed.
    PersistenceError,
}

impl AuthError {
    /// The HTTP status code that the uniform envelope pairs with this error.
    pub open spec fn spec_status_code(self) -> u16 {
        match self {
            AuthError::ConfigError => 500,
            AuthError::HashError => 500,
            AuthError::InvalidCredentials => 400,
            AuthError::InvalidToken => 401,
            AuthError::IdentityNotFound => 400,
            AuthError::DuplicateUser => 409,
            AuthError::PersistenceError => 500,
        }
    }

    /// True when the condition is caused by the client; such errors carry
    /// the label `"fail"`, server faults carry `"error"`.
    pub open spec fn spec_is_client_fault(self) -> bool {
        match self {
            AuthError::ConfigError => false,
            AuthError::HashError => false,
            AuthError::InvalidCredentials => true,
            AuthError::InvalidToken => true,
            AuthError::IdentityNotFound => true,
            AuthError::DuplicateUser => true,
            AuthError::PersistenceError => false,
        }
    }

    pub fn status_code(&self) -> (r: u16)
        ensures
            r == self.spec_status_code(),
    {
        match self {
            AuthError::ConfigError => 500,
            AuthError::HashError => 500,
            AuthError::InvalidCredentials => 400,
            AuthError::InvalidToken => 401,
            AuthError::IdentityNotFound => 400,
            AuthError::DuplicateUser => 409,
            AuthError::PersistenceError => 500,
        }
    }

    /// The `"status"` field of the JSON envelope.
    pub fn status_label(&self) -> (r: String)
        ensures
            self.spec_is_client_fault() ==> r@ == "fail"@,
            !self.spec_is_client_fault() ==> r@ == "error"@,
    {
        if self.is_client_fault() {
            String::from_str("fail")
        } else {
            String::from_str("error")
        }
    }

    pub fn is_client_fault(&self) -> (r: bool)
        ensures
            r == self.spec_is_client_fault(),
    {
        match self {
            AuthError::ConfigError => false,
            AuthError::HashError => false,
            AuthError::InvalidCredentials => true,
            AuthError::InvalidToken => true,
            AuthError::IdentityNotFound => true,
            AuthError::DuplicateUser => true,
            AuthError::PersistenceError => false,
        }
    }
}

} // verus!
