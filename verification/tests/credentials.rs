use chat_backend::digits::{parse_dec, usize_to_dec};
use chat_backend::errors::AuthError;
use chat_backend::hashing::{hash_password, verify_password_internal};

#[test]
fn fresh_hash_verifies_against_its_password() {
    let h = hash_password("secret1").unwrap();
    assert!(verify_password_internal(&h, "secret1"));
}

#[test]
fn fresh_hash_rejects_other_passwords() {
    let h = hash_password("secret1").unwrap();
    assert!(!verify_password_internal(&h, "secret2"));
    assert!(!verify_password_internal(&h, ""));
    assert!(!verify_password_internal(&h, "secret1 "));
}

#[test]
fn hash_is_a_self_describing_phc_string() {
    let h = hash_password("pw").unwrap();
    assert!(h.starts_with("$argon2"));
    // A second hash of the same password uses a fresh salt, yet verifies.
    let h2 = hash_password("pw").unwrap();
    assert_ne!(h, h2);
    assert!(verify_password_internal(&h2, "pw"));
}

#[test]
fn malformed_stored_hash_is_a_uniform_negative() {
    assert!(!verify_password_internal("", "pw"));
    assert!(!verify_password_internal("not a phc string", "pw"));
    assert!(!verify_password_internal("$argon2id$broken", "pw"));
}

#[test]
fn empty_password_round_trips() {
    let h = hash_password("").unwrap();
    assert!(verify_password_internal(&h, ""));
    assert!(!verify_password_internal(&h, "x"));
}

#[test]
fn error_envelope_codes_and_labels() {
    assert_eq!(AuthError::ConfigError.status_code(), 500);
    assert_eq!(AuthError::HashError.status_code(), 500);
    assert_eq!(AuthError::InvalidCredentials.status_code(), 400);
    assert_eq!(AuthError::InvalidToken.status_code(), 401);
    assert_eq!(AuthError::IdentityNotFound.status_code(), 400);
    assert_eq!(AuthError::DuplicateUser.status_code(), 409);
    assert_eq!(AuthError::PersistenceError.status_code(), 500);
    assert_eq!(AuthError::ConfigError.status_label(), "error");
    assert_eq!(AuthError::HashError.status_label(), "error");
    assert_eq!(AuthError::PersistenceError.status_label(), "error");
    assert_eq!(AuthError::InvalidCredentials.status_label(), "fail");
    assert_eq!(AuthError::InvalidToken.status_label(), "fail");
    assert_eq!(AuthError::IdentityNotFound.status_label(), "fail");
    assert_eq!(AuthError::DuplicateUser.status_label(), "fail");
}

#[test]
fn decimal_rendering_is_canonical() {
    assert_eq!(usize_to_dec(0), "0");
    assert_eq!(usize_to_dec(7), "7");
    assert_eq!(usize_to_dec(1700000000), "1700000000");
    assert_eq!(usize_to_dec(usize::MAX), format!("{}", usize::MAX));
    assert_eq!(parse_dec("0"), Some(0));
    assert_eq!(parse_dec("1700000000"), Some(1700000000));
    assert_eq!(parse_dec(&format!("{}", usize::MAX)), Some(usize::MAX));
    assert_eq!(parse_dec(""), None);
    assert_eq!(parse_dec("007"), None);
    assert_eq!(parse_dec("12a"), None);
    assert_eq!(parse_dec("-1"), None);
    assert_eq!(parse_dec("18446744073709551616"), None);
}
