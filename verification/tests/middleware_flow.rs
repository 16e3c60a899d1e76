use chat_backend::accounts::{login_user, register_user, CreateUserRequest, LoginUserRequest};
use chat_backend::errors::AuthError;
use chat_backend::middleware::{
    admit_user, authorize_request, extract_bearer_token, RequestContext, UserInRequest,
};
use chat_backend::token::{decode_jwt, encode_jwt};

const SECRET: &[u8] = b"middleware-secret";

#[test]
fn bearer_extraction_is_exact_and_case_sensitive() {
    assert_eq!(extract_bearer_token("Bearer abc").as_deref(), Some("abc"));
    assert_eq!(extract_bearer_token("Bearer ").as_deref(), Some(""));
    assert_eq!(extract_bearer_token("Bearer a.b.c").as_deref(), Some("a.b.c"));
    assert!(extract_bearer_token("bearer abc").is_none());
    assert!(extract_bearer_token("BEARER abc").is_none());
    assert!(extract_bearer_token("Bearerabc").is_none());
    assert!(extract_bearer_token("Basic abc").is_none());
    assert!(extract_bearer_token("").is_none());
    assert!(extract_bearer_token("Beare").is_none());
}

#[test]
fn missing_header_rejects_with_missing_token_message() {
    let r = authorize_request(None, 1000, SECRET).unwrap_err();
    assert_eq!(r.error, AuthError::InvalidToken);
    assert_eq!(r.error.status_code(), 401);
    assert_eq!(r.message, "You are not logged in, please provide token");
    let r2 = authorize_request(Some("Token abc"), 1000, SECRET).unwrap_err();
    assert_eq!(r2.error, AuthError::InvalidToken);
    assert_eq!(r2.message, "You are not logged in, please provide token");
}

#[test]
fn garbage_bearer_rejects_with_generic_message() {
    let r = authorize_request(Some("Bearer garbage"), 1000, SECRET).unwrap_err();
    assert_eq!(r.error, AuthError::InvalidToken);
    assert_eq!(r.error.status_code(), 401);
    assert_eq!(r.message, "invalid or expired token");
}

#[test]
fn valid_bearer_passes_and_claims_resolve() {
    let now: usize = 5000;
    let token = encode_jwt("alice", now, 3600, SECRET).unwrap();
    let header = format!("Bearer {token}");
    let c = authorize_request(Some(&header), now + 10, SECRET).unwrap();
    assert_eq!(c.name, "alice");
    // The same token after expiry is rejected with the generic message.
    let r = authorize_request(Some(&header), now + 3600, SECRET).unwrap_err();
    assert_eq!(r.error, AuthError::InvalidToken);
    assert_eq!(r.message, "invalid or expired token");
}

#[test]
fn vanished_user_is_a_bad_request_not_unauthorized() {
    let r = admit_user(None).unwrap_err();
    assert_eq!(r.error, AuthError::IdentityNotFound);
    assert_eq!(r.error.status_code(), 400);
    assert_eq!(r.message, "Invalid username");
    let u = admit_user(Some(UserInRequest {
        name: "alice".to_string(),
        email: "a@x.com".to_string(),
    }))
    .unwrap();
    assert_eq!(u.name, "alice");
}

#[test]
fn context_extraction_fails_loudly_when_unpopulated() {
    let ctx = RequestContext::new();
    assert_eq!(ctx.current_identity().unwrap_err(), AuthError::IdentityNotFound);
    let mut ctx = RequestContext::new();
    ctx.attach_identity(UserInRequest { name: "alice".to_string(), email: "a@x.com".to_string() });
    let id = ctx.current_identity().unwrap();
    assert_eq!(id.name, "alice");
    assert_eq!(id.email, "a@x.com");
}

#[test]
fn registration_login_and_protected_route_scenario() {
    let now: usize = 1_700_000_000;
    let ttl: usize = 3600;
    // Register alice.
    let req = CreateUserRequest {
        name: "alice".to_string(),
        email: "a@x.com".to_string(),
        password: "secret1".to_string(),
    };
    let record = register_user(&req, false).unwrap();
    assert_eq!(record.name, "alice");
    assert_eq!(record.email, "a@x.com");
    assert_ne!(record.password, "secret1");
    // Registering the same name again conflicts.
    let dup = register_user(&req, true).unwrap_err();
    assert_eq!(dup, AuthError::DuplicateUser);
    assert_eq!(dup.status_code(), 409);
    // Login with the wrong password fails as invalid credentials.
    let bad = LoginUserRequest { name: "alice".to_string(), password: "wrong".to_string() };
    let e = login_user(&bad, Some(&record), now, ttl, SECRET).unwrap_err();
    assert_eq!(e, AuthError::InvalidCredentials);
    assert_eq!(e.status_code(), 400);
    // Login with an unknown user is the same failure.
    let e2 = login_user(&bad, None, now, ttl, SECRET).unwrap_err();
    assert_eq!(e2, AuthError::InvalidCredentials);
    // Login with the right password yields a non-empty token.
    let good = LoginUserRequest { name: "alice".to_string(), password: "secret1".to_string() };
    let resp = login_user(&good, Some(&record), now, ttl, SECRET).unwrap();
    assert_eq!(resp.status, "success");
    assert!(!resp.token.is_empty());
    // A protected route accepts that token and the identity resolves to alice.
    let header = format!("Bearer {}", resp.token);
    let claims = authorize_request(Some(&header), now + 5, SECRET).unwrap();
    assert_eq!(claims.name, "alice");
    let identity = admit_user(Some(UserInRequest {
        name: claims.name.clone(),
        email: record.email.clone(),
    }))
    .unwrap();
    let mut ctx = RequestContext::new();
    ctx.attach_identity(identity);
    assert_eq!(ctx.current_identity().unwrap().name, "alice");
    // The same token truncated by one character is rejected with 401.
    let truncated = &resp.token[..resp.token.len() - 1];
    let r = authorize_request(Some(&format!("Bearer {truncated}")), now + 5, SECRET).unwrap_err();
    assert_eq!(r.error, AuthError::InvalidToken);
    assert_eq!(r.error.status_code(), 401);
}

#[test]
fn login_with_empty_secret_is_a_config_error() {
    let req = CreateUserRequest {
        name: "bob".to_string(),
        email: "b@x.com".to_string(),
        password: "pw".to_string(),
    };
    let record = register_user(&req, false).unwrap();
    let login = LoginUserRequest { name: "bob".to_string(), password: "pw".to_string() };
    let e = login_user(&login, Some(&record), 1000, 3600, b"").unwrap_err();
    assert_eq!(e, AuthError::ConfigError);
    assert_eq!(e.status_code(), 500);
    assert_eq!(e.status_label(), "error");
}

#[test]
fn login_token_carries_the_login_name_and_ttl() {
    let now: usize = 42;
    let ttl: usize = 7200;
    let req = CreateUserRequest {
        name: "carol".to_string(),
        email: "c@x.com".to_string(),
        password: "pw3".to_string(),
    };
    let record = register_user(&req, false).unwrap();
    let login = LoginUserRequest { name: "carol".to_string(), password: "pw3".to_string() };
    let resp = login_user(&login, Some(&record), now, ttl, SECRET).unwrap();
    let c = decode_jwt(&resp.token, now, SECRET).unwrap();
    assert_eq!(c.name, "carol");
    assert_eq!(c.iat, now);
    assert_eq!(c.exp, now + ttl);
}
