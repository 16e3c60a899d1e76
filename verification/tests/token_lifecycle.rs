use base64::Engine;
use chat_backend::errors::AuthError;
use chat_backend::token::{decode_jwt, encode_jwt};

const SECRET: &[u8] = b"test-signing-secret";

#[test]
fn issued_token_validates_before_expiry() {
    let now: usize = 1_700_000_000;
    let ttl: usize = 3600;
    let token = encode_jwt("alice", now, ttl, SECRET).unwrap();
    assert!(!token.is_empty());
    // At issuance time (epsilon = 0) and just before expiry (epsilon = ttl - 1).
    for at in [now, now + 1, now + ttl - 1] {
        let c = decode_jwt(&token, at, SECRET).unwrap();
        assert_eq!(c.name, "alice");
        assert_eq!(c.iat, now);
        assert_eq!(c.exp, now + ttl);
    }
}

#[test]
fn expiry_boundary_is_strict() {
    let now: usize = 1_700_000_000;
    let ttl: usize = 3600;
    let token = encode_jwt("alice", now, ttl, SECRET).unwrap();
    // The expiry instant itself is already expired, and so is everything after.
    assert_eq!(decode_jwt(&token, now + ttl, SECRET).unwrap_err(), AuthError::InvalidToken);
    assert_eq!(decode_jwt(&token, now + ttl + 1, SECRET).unwrap_err(), AuthError::InvalidToken);
}

#[test]
fn tampering_any_signature_byte_invalidates() {
    let now: usize = 1_700_000_000;
    let token = encode_jwt("alice", now, 3600, SECRET).unwrap();
    let sig_start = token.rfind('.').unwrap() + 1;
    let bytes = token.as_bytes();
    for pos in sig_start..token.len() {
        let mut tampered: Vec<u8> = bytes.to_vec();
        tampered[pos] = if tampered[pos] == b'A' { b'B' } else { b'A' };
        let tampered = String::from_utf8(tampered).unwrap();
        assert_ne!(tampered, token);
        assert_eq!(decode_jwt(&tampered, now, SECRET).unwrap_err(), AuthError::InvalidToken);
    }
    // A dot in place of a signature byte fails as well.
    let mut dotted: Vec<u8> = bytes.to_vec();
    dotted[sig_start] = b'.';
    let dotted = String::from_utf8(dotted).unwrap();
    assert_eq!(decode_jwt(&dotted, now, SECRET).unwrap_err(), AuthError::InvalidToken);
}

#[test]
fn tampering_any_claims_byte_invalidates() {
    let now: usize = 1_700_000_000;
    let token = encode_jwt("alice", now, 3600, SECRET).unwrap();
    let first_dot = token.find('.').unwrap();
    let second_dot = token[first_dot + 1..].find('.').unwrap() + first_dot + 1;
    let bytes = token.as_bytes();
    for pos in first_dot + 1..second_dot {
        let mut tampered: Vec<u8> = bytes.to_vec();
        tampered[pos] = if tampered[pos] == b'A' { b'B' } else { b'A' };
        let tampered = String::from_utf8(tampered).unwrap();
        assert_eq!(decode_jwt(&tampered, now, SECRET).unwrap_err(), AuthError::InvalidToken);
    }
}

#[test]
fn extra_trailing_segment_invalidates() {
    let now: usize = 1_700_000_000;
    let token = encode_jwt("alice", now, 3600, SECRET).unwrap();
    let longer = format!("{token}.x");
    assert_eq!(decode_jwt(&longer, now, SECRET).unwrap_err(), AuthError::InvalidToken);
}

#[test]
fn truncated_token_invalidates() {
    let now: usize = 1_700_000_000;
    let token = encode_jwt("alice", now, 3600, SECRET).unwrap();
    let shorter = &token[..token.len() - 1];
    assert_eq!(decode_jwt(shorter, now, SECRET).unwrap_err(), AuthError::InvalidToken);
}

#[test]
fn wrong_secret_invalidates() {
    let now: usize = 1_700_000_000;
    let token = encode_jwt("alice", now, 3600, SECRET).unwrap();
    assert_eq!(decode_jwt(&token, now, b"other-secret").unwrap_err(), AuthError::InvalidToken);
}

#[test]
fn malformed_tokens_are_invalid() {
    let now: usize = 1_700_000_000;
    for garbage in ["", "garbage", "a.b", "a.b.c", "..", "...", "HS256..x"] {
        assert_eq!(decode_jwt(garbage, now, SECRET).unwrap_err(), AuthError::InvalidToken);
    }
}

#[test]
fn empty_secret_is_a_config_error() {
    assert_eq!(encode_jwt("alice", 1000, 3600, b"").unwrap_err(), AuthError::ConfigError);
}

#[test]
fn token_segments_are_base64url_of_header_and_claims() {
    let engine = &base64::engine::general_purpose::URL_SAFE_NO_PAD;
    let now: usize = 2;
    let token = encode_jwt("alice", now, 1, SECRET).unwrap();
    let parts: Vec<&str> = token.split('.').collect();
    assert_eq!(parts.len(), 3);
    assert_eq!(parts[0], engine.encode("HS256"));
    // Claims text is "<exp>.<iat>.<name>".
    assert_eq!(parts[1], engine.encode("3.2.alice"));
    let message = format!("{}.{}", parts[0], parts[1]);
    let expected_sig = jsonwebtoken::crypto::sign(
        message.as_bytes(),
        &jsonwebtoken::EncodingKey::from_secret(SECRET),
        jsonwebtoken::Algorithm::HS256,
    )
    .unwrap();
    assert_eq!(parts[2], expected_sig);
}

#[test]
fn padded_claims_segment_is_rejected() {
    // Same claims text, but encoded with padding: the decoder is canonical
    // and must reject it even though the signature over the message is valid.
    let header = base64::engine::general_purpose::URL_SAFE_NO_PAD.encode("HS256");
    let claims = base64::engine::general_purpose::URL_SAFE.encode("30.2.alice");
    assert!(claims.contains('='));
    let message = format!("{header}.{claims}");
    let sig = jsonwebtoken::crypto::sign(
        message.as_bytes(),
        &jsonwebtoken::EncodingKey::from_secret(SECRET),
        jsonwebtoken::Algorithm::HS256,
    )
    .unwrap();
    let token = format!("{message}.{sig}");
    assert_eq!(decode_jwt(&token, 2, SECRET).unwrap_err(), AuthError::InvalidToken);
}

#[test]
fn subject_names_with_dots_and_unicode_round_trip() {
    let now: usize = 50;
    for name in ["al.ice", "a..b", "", "héllo wörld", "日本語", "x.y.z."] {
        let token = encode_jwt(name, now, 100, SECRET).unwrap();
        let c = decode_jwt(&token, now + 99, SECRET).unwrap();
        assert_eq!(c.name, name);
        assert_eq!(decode_jwt(&token, now + 100, SECRET).unwrap_err(), AuthError::InvalidToken);
    }
}

#[test]
fn forged_claims_text_without_signature_knowledge_fails() {
    let engine = &base64::engine::general_purpose::URL_SAFE_NO_PAD;
    let header = engine.encode("HS256");
    let claims = engine.encode("9999999999.1.alice");
    let token = format!("{header}.{claims}.{}", engine.encode("not-a-real-signature"));
    assert_eq!(decode_jwt(&token, 2, SECRET).unwrap_err(), AuthError::InvalidToken);
}

#[test]
fn claims_with_inverted_timestamps_are_rejected() {
    let engine = &base64::engine::general_purpose::URL_SAFE_NO_PAD;
    // exp == iat violates the claims invariant; even a well-signed render
    // of such claims is rejected.
    let header = engine.encode("HS256");
    let claims = engine.encode("5.5.alice");
    let message = format!("{header}.{claims}");
    let sig = jsonwebtoken::crypto::sign(
        message.as_bytes(),
        &jsonwebtoken::EncodingKey::from_secret(SECRET),
        jsonwebtoken::Algorithm::HS256,
    )
    .unwrap();
    let token = format!("{message}.{sig}");
    assert_eq!(decode_jwt(&token, 1, SECRET).unwrap_err(), AuthError::InvalidToken);
}
