//! Credential hashing and verification.
//!
//! A password is stored only as a salted, memory-hard PHC hash string that
//! embeds algorithm id, parameters, salt and digest, so verification needs
//! nothing but the stored string and the attempt. `hash_matches` names the
//! outcome of verification: it is a pure function of the stored string and
//! the attempted password. A malformed stored string and a wrong password
//! are deliberately indistinguishable: both make verification return false.

use vstd::prelude::*;

verus! {

use crate::errors::AuthError;

/// Whether verifying `attempt` against the stored hash string `stored`
/// succeeds. Names the outcome of argon2 verification, which depends on
/// the two arguments alone.
pub uninterp spec fn hash_matches(stored: Seq<char>, attempt: Seq<char>) -> bool;

/// Whether a password is within the hashing backend's input limit: argon2
/// rejects only passwords longer than 2^32 - 1 bytes, so hashing any
/// shorter password succeeds.
pub open spec fn hashable(password: Seq<char>) -> bool {
    vstd::utf8::encode_utf8(password).len() <= 0xFFFF_FFFF
}

/// Relies on argon2's `Argon2::default().hash_password` with a fresh salt
/// from `SaltString::generate`: whichever salt is drawn, the produced PHC
/// string verifies against the password it was derived from. With the
/// generated 16-byte salt and the default parameters, the call fails only
/// for a password longer than 2^32 - 1 bytes.
#[verifier::external_body]
fn argon2_hash(password: &str) -> (r: Option<String>)
    ensures
        r matches Some(h) ==> hash_matches(h@, password@),
        hashable(password@) ==> r is Some,
{
    let salt = argon2::password_hash::SaltString::generate(
        &mut argon2::password_hash::rand_core::OsRng,
    );
    match argon2::PasswordHasher::hash_password(
        &argon2::Argon2::default(),
        password.as_bytes(),
        &salt,
    ) {
        Ok(h) => Some(h.to_string()),
        Err(_) => None,
    }
}

/// Relies on argon2's `PasswordHash::new` and
/// `Argon2::default().verify_password`: the result is true exactly when
/// `stored` parses as a PHC string and the attempt's derived output equals
/// the stored digest (compared in constant time); parse failure and
/// mismatch alike yield false. That outcome is `hash_matches`.
#[verifier::external_body]
fn argon2_verify(stored: &str, attempt: &str) -> (r: bool)
    ensures
        r == hash_matches(stored@, attempt@),
{
    match argon2::password_hash::PasswordHash::new(stored) {
        Ok(parsed) => argon2::PasswordVerifier::verify_password(
            &argon2::Argon2::default(),
            attempt.as_bytes(),
            &parsed,
        )
            .is_ok(),
        Err(_) => false,
    }
}

/// Derives a fresh salted hash of `password`. Succeeds for every
/// password within the backend's input limit — in particular for every
/// well-formed string a request can carry — and the returned string then
/// verifies against `password`; a backend failure is an internal
/// `HashError`, never a caller error.
pub fn hash_password(password: &str) -> (r: Result<String, AuthError>)
    ensures
        r matches Ok(h) ==> hash_matches(h@, password@),
        hashable(password@) ==> r is Ok,
        r matches Err(e) ==> e == AuthError::HashError,
{
    match argon2_hash(password) {
        Some(h) => Ok(h),
        None => Err(AuthError::HashError),
    }
}

/// Verifies an attempted password against a stored hash string. Returns
/// exactly `hash_matches`: false uniformly for a malformed stored hash
/// and for a wrong password.
pub fn verify_password_internal(saved_password: &str, entered_password: &str) -> (r: bool)
    ensures
        r == hash_matches(saved_password@, entered_password@),
{
    argon2_verify(saved_password, entered_password)
}

} // verus!
