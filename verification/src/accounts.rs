//! Registration and login decisions.
//!
//! Both handlers talk to the persistence collaborator only through plain
//! values: the caller performs the lookups and passes their results in,
//! and gets back either the record to store, the login response, or the
//! error to report. At login, an unknown user and a wrong password are
//! deliberately indistinguishable.

use vstd::prelude::*;

verus! {

use crate::errors::AuthError;
use crate::hashing::{hash_matches, hash_password, hashable, verify_password_internal};
use crate::token::{encode_jwt, token_of};

/// The body of a registration request.
#[derive(Clone, Debug)]
pub struct CreateUserRequest {
    pub name: String,
    pub email: String,
    pub password: String,
}

/// The body of a login request.
#[derive(Clone, Debug)]
pub struct LoginUserRequest {
    pub name: String,
    pub password: String,
}

/// The body of a successful login response.
#[derive(Clone, Debug)]
pub struct LoginUserResponseModel {
    pub status: String,
    pub token: String,
}

/// A stored user record: the password exists only as its hash.
#[derive(Clone, Debug)]
pub struct UserRecord {
    pub name: String,
    pub email: String,
    pub password: String,
}

/// Decides a registration. `duplicate_exists` is the collaborator's
/// answer to the pre-check query for an existing record with the same
/// name or email; a duplicate is a conflict. Otherwise registration
/// succeeds for every password within the hashing backend's input limit,
/// and the returned record carries the request's name and email and a
/// fresh hash that verifies against the request's password.
pub fn register_user(req: &CreateUserRequest, duplicate_exists: bool) -> (r: Result<
    UserRecord,
    AuthError,
>)
    ensures
        duplicate_exists ==> (r matches Err(e) && e == AuthError::DuplicateUser),
        !duplicate_exists && hashable(req.password@) ==> r is Ok,
        !duplicate_exists ==> (match r {
            Ok(u) => u.name@ == req.name@ && u.email@ == req.email@ && hash_matches(
                u.password@,
                req.password@,
            ),
            Err(e) => e == AuthError::HashError,
        }),
{
    if duplicate_exists {
        return Err(AuthError::DuplicateUser);
    }
    let hashed = hash_password(req.password.as_str())?;
    Ok(UserRecord { name: req.name.clone(), email: req.email.clone(), password: hashed })
}

/// Decides a login. `stored` is the collaborator's answer to the lookup
/// of the request's name. An unknown name and a non-matching password are
/// the same `InvalidCredentials`; a matching password yields a success
/// response whose token is the signed render of the request's name,
/// issued at `now` and expiring at `now + ttl` — unless the secret is
/// empty, which is a configuration error.
pub fn login_user(
    req: &LoginUserRequest,
    stored: Option<&UserRecord>,
    now: usize,
    ttl: usize,
    secret: &[u8],
) -> (r: Result<LoginUserResponseModel, AuthError>)
    requires
        ttl >= 1,
        now + ttl <= usize::MAX,
    ensures
        stored is None ==> (r matches Err(e) && e == AuthError::InvalidCredentials),
        stored matches Some(u) && !hash_matches(u.password@, req.password@) ==> (r matches Err(e)
            && e == AuthError::InvalidCredentials),
        stored matches Some(u) && hash_matches(u.password@, req.password@) ==> (match r {
            Ok(resp) => resp.status@ == "success"@ && resp.token@ == token_of(
                req.name@,
                now as nat,
                (now + ttl) as nat,
                secret@,
            ) && secret@.len() > 0,
            Err(e) => e == AuthError::ConfigError && secret@.len() == 0,
        }),
{
    let u = match stored {
        Some(u) => u,
        None => {
            return Err(AuthError::InvalidCredentials);
        },
    };
    if !verify_password_internal(u.password.as_str(), req.password.as_str()) {
        return Err(AuthError::InvalidCredentials);
    }
    let token = encode_jwt(req.name.as_str(), now, ttl, secret)?;
    Ok(LoginUserResponseModel { status: String::from_str("success"), token })
}

} // verus!
