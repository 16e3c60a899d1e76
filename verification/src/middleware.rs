//! Middleware decisions that turn a bearer token into a trusted identity,
//! and the request-scoped context that carries it.
//!
//! The state machine per request is: extract the bearer token from the
//! `Authorization` header (missing or malformed form rejects with 401 and
//! a "missing token" message), validate it (any invalid or expired token
//! rejects with 401 and one generic message), resolve the claimed subject
//! against the user-lookup collaborator (an unknown subject rejects with
//! 400), and attach the resulting identity to the request context, where
//! a downstream handler reads it back through `current_identity`.

use vstd::prelude::*;

verus! {

use crate::claims::Claims;
use crate::errors::AuthError;
use crate::token::{accepted, decode_jwt};

/// The trusted, request-scoped representation of the caller.
#[derive(Clone, Debug)]
pub struct UserInRequest {
    pub name: String,
    pub email: String,
}

/// A middleware rejection: the error kind plus the message that the JSON
/// envelope shows to the client.
#[derive(Clone, Debug)]
pub struct Rejection {
    pub error: AuthError,
    pub message: String,
}

/// The exact header prefix of a bearer credential, case-sensitive.
pub open spec fn bearer_prefix() -> Seq<char> {
    seq!['B', 'e', 'a', 'r', 'e', 'r', ' ']
}

/// The token carried by an `Authorization` header value, if the value has
/// the exact `Bearer <token>` form.
pub open spec fn bearer_token_of(h: Seq<char>) -> Option<Seq<char>> {
    if h.len() >= 7 && h.subrange(0, 7) == bearer_prefix() {
        Some(h.subrange(7, h.len() as int))
    } else {
        None
    }
}

pub open spec fn missing_token_message() -> Seq<char> {
    "You are not logged in, please provide token"@
}

pub open spec fn invalid_token_message() -> Seq<char> {
    "invalid or expired token"@
}

pub open spec fn invalid_username_message() -> Seq<char> {
    "Invalid username"@
}

/// Extracts the token from an `Authorization` header value: exactly the
/// text after the `Bearer ` prefix, when that prefix is present.
pub fn extract_bearer_token(header: &str) -> (r: Option<String>)
    ensures
        r matches Some(t) ==> bearer_token_of(header@) == Some(t@),
        r is None ==> bearer_token_of(header@) is None,
{
    let n = header.unicode_len();
    if n < 7 {
        return None;
    }
    if header.get_char(0) != 'B' || header.get_char(1) != 'e' || header.get_char(2) != 'a'
        || header.get_char(3) != 'r' || header.get_char(4) != 'e' || header.get_char(5) != 'r'
        || header.get_char(6) != ' ' {
        proof {
            assert(header@.subrange(0, 7) != bearer_prefix());
        }
        return None;
    }
    let rest = header.substring_char(7, n);
    proof {
        assert(header@.subrange(0, 7) =~= bearer_prefix());
    }
    Some(String::from_str(rest))
}

/// The bearer token of the request, if the header is present and has the
/// exact `Bearer <token>` form.
pub open spec fn header_bearer(header: Option<&str>) -> Option<Seq<char>> {
    match header {
        Some(h) => bearer_token_of(h@),
        None => None,
    }
}

/// The token-facing half of the middleware: decides, from the header
/// value, the current time and the signing secret, whether the request
/// carries a valid bearer token, and with which claims. A missing or
/// malformed header and an invalid or expired token are both 401, with
/// distinct messages; no parser detail leaks into either.
pub fn authorize_request(header: Option<&str>, now: usize, secret: &[u8]) -> (r: Result<
    Claims,
    Rejection,
>)
    ensures
        header_bearer(header) is None ==> (r matches Err(j) && j.error == AuthError::InvalidToken
            && j.message@ == missing_token_message()),
        header_bearer(header) matches Some(t) ==> ((r matches Ok(c) ==> accepted(
            t,
            now as nat,
            secret@,
            c.name@,
            c.iat as nat,
            c.exp as nat,
        )) && (r matches Err(j) ==> j.error == AuthError::InvalidToken && j.message@
            == invalid_token_message() && (forall|n2: Seq<char>, i2: usize, e2: usize|
            !accepted(t, now as nat, secret@, n2, i2 as nat, e2 as nat)))),
{
    let h = match header {
        Some(h) => h,
        None => {
            return Err(
                Rejection {
                    error: AuthError::InvalidToken,
                    message: String::from_str("You are not logged in, please provide token"),
                },
            );
        },
    };
    let token = match extract_bearer_token(h) {
        Some(t) => t,
        None => {
            return Err(
                Rejection {
                    error: AuthError::InvalidToken,
                    message: String::from_str("You are not logged in, please provide token"),
                },
            );
        },
    };
    match decode_jwt(token.as_str(), now, secret) {
        Ok(c) => Ok(c),
        Err(_) => Err(
            Rejection {
                error: AuthError::InvalidToken,
                message: String::from_str("invalid or expired token"),
            },
        ),
    }
}

/// The lookup-facing half of the middleware: a user record found for the
/// validated subject becomes the request identity; a vanished user is a
/// 400 rejection, distinct from the 401 of a bad token.
pub fn admit_user(found: Option<UserInRequest>) -> (r: Result<UserInRequest, Rejection>)
    ensures
        found matches Some(u) ==> (r matches Ok(x) && x == u),
        found is None ==> (r matches Err(j) && j.error == AuthError::IdentityNotFound
            && j.message@ == invalid_username_message()),
{
    match found {
        Some(u) => Ok(u),
        None => Err(
            Rejection {
                error: AuthError::IdentityNotFound,
                message: String::from_str("Invalid username"),
            },
        ),
    }
}

/// The processing context of one in-flight request. The identity slot is
/// empty until the middleware attaches the resolved caller; it never
/// carries state across requests.
#[derive(Clone, Debug)]
pub struct RequestContext {
    pub identity: Option<UserInRequest>,
}

impl RequestContext {
    /// A fresh context, with no identity attached.
    pub fn new() -> (r: RequestContext)
        ensures
            r.identity is None,
    {
        RequestContext { identity: None }
    }

    /// Attaches the identity the middleware resolved.
    pub fn attach_identity(&mut self, id: UserInRequest)
        ensures
            final(self).identity == Some(id),
    {
        self.identity = Some(id);
    }

    /// Reads the identity attached by the middleware. A route that was
    /// never wrapped has none; that is a wiring error, reported loudly as
    /// its own kind, never defaulted to an anonymous identity.
    pub fn current_identity(&self) -> (r: Result<&UserInRequest, AuthError>)
        ensures
            self.identity matches Some(u) ==> (r matches Ok(x) && *x == u),
            self.identity is None ==> (r matches Err(e) && e == AuthError::IdentityNotFound),
    {
        match &self.identity {
            Some(u) => Ok(u),
            None => Err(AuthError::IdentityNotFound),
        }
    }
}

} // verus!
