//! Issuance and validation of signed, time-bounded identity tokens.
//!
//! A token is three dot-separated segments: a base64url algorithm header,
//! the base64url claims text, and the base64url HMAC-SHA256 signature of
//! the first two segments under a server-held secret. `token_of` is the
//! exact token a set of claims signs to; validation accepts a string at
//! time `now` exactly when it is `token_of` for claims with `iat < exp`
//! and `now < exp` — the expiry instant itself is already expired.

use vstd::prelude::*;

verus! {

use crate::b64::{b64url_decode, b64url_encode, b64url_of, lemma_b64url_no_dot,
    lemma_seg_injective, lemma_seg_no_dot, seg_of};
use crate::claims::{claims_text, claims_to_text, Claims, find_dot, lemma_claims_text_injective,
    parse_claims_text};
use crate::errors::AuthError;
use vstd::utf8::encode_utf8;

/// The algorithm header segment's text.
pub open spec fn header_text() -> Seq<char> {
    seq!['H', 'S', '2', '5', '6']
}

/// The HMAC-SHA256 digest of `message` under `key`. Names the output of
/// the signing backend, a pure function of message and key bytes.
pub uninterp spec fn sig_bytes_of(message: Seq<u8>, key: Seq<u8>) -> Seq<u8>;

/// The signature segment for a message.
pub open spec fn sig_seg_of(message: Seq<char>, key: Seq<u8>) -> Seq<char> {
    b64url_of(sig_bytes_of(encode_utf8(message), key))
}

/// The unsigned part of a token: header segment, dot, claims segment.
pub open spec fn message_of(name: Seq<char>, iat: nat, exp: nat) -> Seq<char> {
    seg_of(header_text()) + seq!['.'] + seg_of(claims_text(name, iat, exp))
}

/// The token that the given claims sign to under `key`.
pub open spec fn token_of(name: Seq<char>, iat: nat, exp: nat, key: Seq<u8>) -> Seq<char> {
    message_of(name, iat, exp) + seq!['.'] + sig_seg_of(message_of(name, iat, exp), key)
}

/// Whether `token` is accepted at time `now` under `key` as carrying the
/// given claims: it is exactly their signed render, well formed, and not
/// yet expired.
pub open spec fn accepted(
    token: Seq<char>,
    now: nat,
    key: Seq<u8>,
    name: Seq<char>,
    iat: nat,
    exp: nat,
) -> bool {
    &&& token == token_of(name, iat, exp, key)
    &&& iat < exp
    &&& now < exp
}

/// Relies on jsonwebtoken's `crypto::sign` with `Algorithm::HS256` and
/// `EncodingKey::from_secret`: for an HMAC algorithm it always returns
/// `Ok` of the unpadded base64url render of the HMAC-SHA256 digest of the
/// message bytes; `sig_bytes_of` names that digest.
#[verifier::external_body]
fn hs256_sign(message: &str, secret: &[u8]) -> (r: String)
    ensures
        r@ == b64url_of(sig_bytes_of(encode_utf8(message@), secret@)),
        r@ == sig_seg_of(message@, secret@),
{
    jsonwebtoken::crypto::sign(
        message.as_bytes(),
        &jsonwebtoken::EncodingKey::from_secret(secret),
        jsonwebtoken::Algorithm::HS256,
    )
        .unwrap()
}

/// Relies on jsonwebtoken's `crypto::verify` with `Algorithm::HS256` and
/// `DecodingKey::from_secret`: for an HMAC algorithm it re-signs the
/// message and compares the two signature strings byte for byte in
/// constant time, and cannot fail.
#[verifier::external_body]
fn hs256_verify(sig: &str, message: &str, secret: &[u8]) -> (r: bool)
    ensures
        r == (sig@ == b64url_of(sig_bytes_of(encode_utf8(message@), secret@))),
{
    jsonwebtoken::crypto::verify(
        sig,
        message.as_bytes(),
        &jsonwebtoken::DecodingKey::from_secret(secret),
        jsonwebtoken::Algorithm::HS256,
    )
        .unwrap_or(false)
}

/// Lengths and dot positions of a signed token.
pub proof fn lemma_token_of_shape(name: Seq<char>, iat: nat, exp: nat, key: Seq<u8>)
    ensures
        ({
            let a = seg_of(header_text());
            let b = seg_of(claims_text(name, iat, exp));
            let c = sig_seg_of(message_of(name, iat, exp), key);
            let t = token_of(name, iat, exp, key);
            &&& t.len() == a.len() + 1 + b.len() + 1 + c.len()
            &&& t[a.len() as int] == '.'
            &&& t[a.len() + 1 + b.len() as int] == '.'
            &&& (forall|k: int| 0 <= k < a.len() ==> t[k] != '.')
            &&& (forall|k: int| a.len() < k < a.len() + 1 + b.len() ==> t[k] != '.')
            &&& (forall|k: int| a.len() + 1 + b.len() < k < t.len() ==> t[k] != '.')
        }),
{
    let a = seg_of(header_text());
    let b = seg_of(claims_text(name, iat, exp));
    let c = sig_seg_of(message_of(name, iat, exp), key);
    let t = token_of(name, iat, exp, key);
    lemma_seg_no_dot(header_text());
    lemma_seg_no_dot(claims_text(name, iat, exp));
    lemma_b64url_no_dot(sig_bytes_of(encode_utf8(message_of(name, iat, exp)), key));
    assert(t =~= a + seq!['.'] + b + seq!['.'] + c);
    assert forall|k: int| 0 <= k < a.len() implies t[k] != '.' by {
        assert(t[k] == a[k]);
    }
    assert forall|k: int| a.len() < k < a.len() + 1 + b.len() implies t[k] != '.' by {
        assert(t[k] == b[k - a.len() - 1]);
    }
    assert forall|k: int| a.len() + 1 + b.len() < k < t.len() implies t[k] != '.' by {
        assert(t[k] == c[k - (a.len() + 1 + b.len() + 1)]);
    }
}

/// A token's two delimiting dots pin its three segments: whenever `token`
/// is the signed render of some claims, the text before the first dot,
/// between the dots, and after the second dot are exactly the header
/// segment, the claims segment, and the signature segment of those claims.
pub proof fn lemma_token_pin(
    token: Seq<char>,
    name: Seq<char>,
    iat: nat,
    exp: nat,
    key: Seq<u8>,
    d1: int,
    d2: int,
)
    requires
        token == token_of(name, iat, exp, key),
        0 <= d1 < token.len(),
        token[d1] == '.',
        forall|k: int| 0 <= k < d1 ==> token[k] != '.',
        d1 < d2 < token.len(),
        token[d2] == '.',
        forall|k: int| d1 < k < d2 ==> token[k] != '.',
    ensures
        ({
            let a = seg_of(header_text());
            let b = seg_of(claims_text(name, iat, exp));
            &&& d1 == a.len()
            &&& d2 == a.len() + 1 + b.len()
            &&& token.subrange(0, d1) == a
            &&& token.subrange(d1 + 1, d2) == b
            &&& token.subrange(d2 + 1, token.len() as int) == sig_seg_of(
                message_of(name, iat, exp),
                key,
            )
            &&& token.subrange(0, d2) == message_of(name, iat, exp)
        }),
{
    let a = seg_of(header_text());
    let b = seg_of(claims_text(name, iat, exp));
    lemma_token_of_shape(name, iat, exp, key);
    let p1 = a.len() as int;
    let p2 = a.len() + 1 + b.len() as int;
    assert(d1 == p1) by {
        if d1 < p1 {
            assert(token[d1] != '.');
        } else if p1 < d1 {
            assert(token[p1] == '.');
        }
    }
    assert(d2 == p2) by {
        if d2 < p2 {
            assert(token[d2] != '.');
        } else if p2 < d2 {
            assert(token[p2] == '.');
        }
    }
    assert(token =~= a + seq!['.'] + b + seq!['.'] + sig_seg_of(message_of(name, iat, exp), key));
    assert(token.subrange(0, d1) =~= a);
    assert(token.subrange(d1 + 1, d2) =~= b);
    assert(token.subrange(d2 + 1, token.len() as int) =~= sig_seg_of(
        message_of(name, iat, exp),
        key,
    ));
    assert(token.subrange(0, d2) =~= message_of(name, iat, exp));
}

/// Issues a signed token for `name` at time `now` that expires at
/// `now + ttl`. Succeeds exactly when the secret is non-empty; an empty
/// or unset secret is a configuration error.
pub fn encode_jwt(name: &str, now: usize, ttl: usize, secret: &[u8]) -> (r: Result<
    String,
    AuthError,
>)
    requires
        ttl >= 1,
        now + ttl <= usize::MAX,
    ensures
        r matches Ok(t) ==> t@ == token_of(name@, now as nat, (now + ttl) as nat, secret@),
        r matches Ok(t) ==> t@.len() > 0,
        r is Ok <==> secret@.len() > 0,
        r matches Err(e) ==> e == AuthError::ConfigError,
{
    if secret.len() == 0 {
        return Err(AuthError::ConfigError);
    }
    let c = Claims { exp: now + ttl, iat: now, name: String::from_str(name) };
    let text = claims_to_text(&c);
    let hseg = b64url_encode("HS256");
    let cseg = b64url_encode(text.as_str());
    let mut message = hseg;
    message.append(".");
    message.append(cseg.as_str());
    let sig = hs256_sign(message.as_str(), secret);
    let mut token = message;
    token.append(".");
    token.append(sig.as_str());
    proof {
        reveal_strlit("HS256");
        reveal_strlit(".");
        assert("."@ =~= seq!['.']);
        assert("HS256"@ =~= header_text());
        assert(message@ =~= message_of(name@, now as nat, (now + ttl) as nat));
        assert(token@ =~= token_of(name@, now as nat, (now + ttl) as nat, secret@));
        lemma_token_of_shape(name@, now as nat, (now + ttl) as nat, secret@);
    }
    Ok(token)
}

/// Validates a token at time `now` under `secret`. Returns the claims
/// exactly when the token is their signed render, well formed, and not
/// expired; any malformed structure, wrong signature or passed expiry is
/// the single `InvalidToken` error.
pub fn decode_jwt(token: &str, now: usize, secret: &[u8]) -> (r: Result<Claims, AuthError>)
    ensures
        r matches Ok(c) ==> accepted(
            token@,
            now as nat,
            secret@,
            c.name@,
            c.iat as nat,
            c.exp as nat,
        ),
        r matches Ok(c) ==> (forall|n: Seq<char>, i: nat, e: nat|
            token@ == token_of(n, i, e, secret@) ==> (n == c.name@ && i == c.iat as nat && e
                == c.exp as nat)),
        r is Err ==> (forall|n: Seq<char>, i: usize, e: usize|
            !accepted(token@, now as nat, secret@, n, i as nat, e as nat)),
        r matches Err(er) ==> er == AuthError::InvalidToken,
{
    let n = token.unicode_len();
    let d1 = match find_dot(token, 0) {
        Some(i) => i,
        None => {
            proof {
                assert forall|n2: Seq<char>, i2: usize, e2: usize|
                    !accepted(token@, now as nat, secret@, n2, i2 as nat, e2 as nat) by {
                    if token@ == token_of(n2, i2 as nat, e2 as nat, secret@) {
                        lemma_token_of_shape(n2, i2 as nat, e2 as nat, secret@);
                    }
                }
            }
            return Err(AuthError::InvalidToken);
        },
    };
    let d2 = match find_dot(token, d1 + 1) {
        Some(i) => i,
        None => {
            proof {
                assert forall|n2: Seq<char>, i2: usize, e2: usize|
                    !accepted(token@, now as nat, secret@, n2, i2 as nat, e2 as nat) by {
                    if token@ == token_of(n2, i2 as nat, e2 as nat, secret@) {
                        lemma_token_of_shape(n2, i2 as nat, e2 as nat, secret@);
                        let a = seg_of(header_text());
                        let b = seg_of(claims_text(n2, i2 as nat, e2 as nat));
                        let p1 = a.len() as int;
                        assert(d1 as int == p1) by {
                            if (d1 as int) < p1 {
                                assert(token@[d1 as int] != '.');
                            } else if p1 < d1 as int {
                                assert(token@[p1] == '.');
                            }
                        }
                        assert(token@[a.len() + 1 + b.len() as int] == '.');
                    }
                }
            }
            return Err(AuthError::InvalidToken);
        },
    };
    let message = token.substring_char(0, d2);
    let sig = token.substring_char(d2 + 1, n);
    if !hs256_verify(sig, message, secret) {
        proof {
            assert forall|n2: Seq<char>, i2: usize, e2: usize|
                !accepted(token@, now as nat, secret@, n2, i2 as nat, e2 as nat) by {
                if token@ == token_of(n2, i2 as nat, e2 as nat, secret@) {
                    lemma_token_pin(
                        token@,
                        n2,
                        i2 as nat,
                        e2 as nat,
                        secret@,
                        d1 as int,
                        d2 as int,
                    );
                }
            }
        }
        return Err(AuthError::InvalidToken);
    }
    let hseg_owned = String::from_str(token.substring_char(0, d1));
    let expected = b64url_encode("HS256");
    if !(hseg_owned == expected) {
        proof {
            reveal_strlit("HS256");
            assert("HS256"@ =~= header_text());
            assert forall|n2: Seq<char>, i2: usize, e2: usize|
                !accepted(token@, now as nat, secret@, n2, i2 as nat, e2 as nat) by {
                if token@ == token_of(n2, i2 as nat, e2 as nat, secret@) {
                    lemma_token_pin(
                        token@,
                        n2,
                        i2 as nat,
                        e2 as nat,
                        secret@,
                        d1 as int,
                        d2 as int,
                    );
                }
            }
        }
        return Err(AuthError::InvalidToken);
    }
    let cseg = token.substring_char(d1 + 1, d2);
    let text = match b64url_decode(cseg) {
        Some(t) => t,
        None => {
            proof {
                assert forall|n2: Seq<char>, i2: usize, e2: usize|
                    !accepted(token@, now as nat, secret@, n2, i2 as nat, e2 as nat) by {
                    if token@ == token_of(n2, i2 as nat, e2 as nat, secret@) {
                        lemma_token_pin(
                            token@,
                            n2,
                            i2 as nat,
                            e2 as nat,
                            secret@,
                            d1 as int,
                            d2 as int,
                        );
                    }
                }
            }
            return Err(AuthError::InvalidToken);
        },
    };
    let c = match parse_claims_text(text.as_str()) {
        Some(c) => c,
        None => {
            proof {
                assert forall|n2: Seq<char>, i2: usize, e2: usize|
                    !accepted(token@, now as nat, secret@, n2, i2 as nat, e2 as nat) by {
                    if token@ == token_of(n2, i2 as nat, e2 as nat, secret@) {
                        lemma_token_pin(
                            token@,
                            n2,
                            i2 as nat,
                            e2 as nat,
                            secret@,
                            d1 as int,
                            d2 as int,
                        );
                    }
                }
            }
            return Err(AuthError::InvalidToken);
        },
    };
    if c.iat >= c.exp || now >= c.exp {
        proof {
            assert forall|n2: Seq<char>, i2: usize, e2: usize|
                !accepted(token@, now as nat, secret@, n2, i2 as nat, e2 as nat) by {
                if token@ == token_of(n2, i2 as nat, e2 as nat, secret@) {
                    lemma_token_pin(
                        token@,
                        n2,
                        i2 as nat,
                        e2 as nat,
                        secret@,
                        d1 as int,
                        d2 as int,
                    );
                    lemma_claims_text_injective(
                        c.name@,
                        c.iat as nat,
                        c.exp as nat,
                        n2,
                        i2 as nat,
                        e2 as nat,
                    );
                }
            }
        }
        return Err(AuthError::InvalidToken);
    }
    proof {
        reveal_strlit("HS256");
        assert("HS256"@ =~= header_text());
        assert(token@ =~= token@.subrange(0, d2 as int) + seq!['.'] + token@.subrange(
            d2 as int + 1,
            n as int,
        ));
        assert(message@ =~= token@.subrange(0, d1 as int) + seq!['.'] + token@.subrange(
            d1 as int + 1,
            d2 as int,
        ));
        assert(message@ =~= message_of(c.name@, c.iat as nat, c.exp as nat));
        assert(token@ =~= token_of(c.name@, c.iat as nat, c.exp as nat, secret@));
        assert forall|n2: Seq<char>, i2: nat, e2: nat|
            token@ == token_of(n2, i2, e2, secret@) implies (n2 == c.name@ && i2 == c.iat as nat
            && e2 == c.exp as nat) by {
            lemma_token_pin(token@, n2, i2, e2, secret@, d1 as int, d2 as int);
            assert(cseg@ == seg_of(claims_text(n2, i2, e2)));
            assert(claims_text(n2, i2, e2) == text@);
            lemma_claims_text_injective(c.name@, c.iat as nat, c.exp as nat, n2, i2, e2);
        }
    }
    Ok(c)
}

/// Equal tokens under one key carry equal claims: the token pins the
/// subject and both timestamps.
pub proof fn lemma_token_of_injective(
    n1: Seq<char>,
    i1: nat,
    e1: nat,
    n2: Seq<char>,
    i2: nat,
    e2: nat,
    key: Seq<u8>,
)
    requires
        token_of(n1, i1, e1, key) == token_of(n2, i2, e2, key),
    ensures
        n1 == n2,
        i1 == i2,
        e1 == e2,
{
    let t = token_of(n1, i1, e1, key);
    let a = seg_of(header_text());
    let b = seg_of(claims_text(n1, i1, e1));
    lemma_token_of_shape(n1, i1, e1, key);
    let d1 = a.len() as int;
    let d2 = a.len() + 1 + b.len() as int;
    lemma_token_pin(t, n1, i1, e1, key, d1, d2);
    lemma_token_pin(t, n2, i2, e2, key, d1, d2);
    lemma_seg_injective(claims_text(n1, i1, e1), claims_text(n2, i2, e2));
    lemma_claims_text_injective(n1, i1, e1, n2, i2, e2);
}

/// A token freshly issued for `name` at `iat` with expiry `exp` is
/// accepted under its key, as exactly those claims, at every instant
/// strictly before `exp`; validation before expiry therefore recovers the
/// issued subject.
pub proof fn lemma_fresh_token_accepted(
    name: Seq<char>,
    iat: nat,
    exp: nat,
    key: Seq<u8>,
    now: nat,
)
    requires
        iat < exp,
        now < exp,
    ensures
        accepted(token_of(name, iat, exp, key), now, key, name, iat, exp),
        forall|n2: Seq<char>, i2: nat, e2: nat|
            accepted(token_of(name, iat, exp, key), now, key, n2, i2, e2) ==> (n2 == name && i2
                == iat && e2 == exp),
{
    assert forall|n2: Seq<char>, i2: nat, e2: nat|
        accepted(token_of(name, iat, exp, key), now, key, n2, i2, e2) implies (n2 == name && i2
        == iat && e2 == exp) by {
        lemma_token_of_injective(name, iat, exp, n2, i2, e2, key);
    }
}

/// Expiry is strict and final: at any instant at or past `exp`, the token
/// issued for the given claims is not accepted as any claims at all.
pub proof fn lemma_expired_token_rejected(
    name: Seq<char>,
    iat: nat,
    exp: nat,
    key: Seq<u8>,
    now: nat,
)
    requires
        now >= exp,
    ensures
        forall|n2: Seq<char>, i2: nat, e2: nat|
            !accepted(token_of(name, iat, exp, key), now, key, n2, i2, e2),
{
    assert forall|n2: Seq<char>, i2: nat, e2: nat|
        !accepted(token_of(name, iat, exp, key), now, key, n2, i2, e2) by {
        if accepted(token_of(name, iat, exp, key), now, key, n2, i2, e2) {
            lemma_token_of_injective(name, iat, exp, n2, i2, e2, key);
        }
    }
}

/// Tampering with the signature segment of a token — replacing it by any
/// other text at all — yields a string that is the signed render of no
/// claims, so validation rejects it at every instant.
pub proof fn lemma_tampered_signature_rejected(
    name: Seq<char>,
    iat: nat,
    exp: nat,
    key: Seq<u8>,
    sig2: Seq<char>,
)
    requires
        sig2 != sig_seg_of(message_of(name, iat, exp), key),
    ensures
        forall|now: nat, n2: Seq<char>, i2: nat, e2: nat|
            !accepted(message_of(name, iat, exp) + seq!['.'] + sig2, now, key, n2, i2, e2),
{
    let a = seg_of(header_text());
    let b = seg_of(claims_text(name, iat, exp));
    let m = message_of(name, iat, exp);
    let t = m + seq!['.'] + sig2;
    lemma_seg_no_dot(header_text());
    lemma_seg_no_dot(claims_text(name, iat, exp));
    let d1 = a.len() as int;
    let d2 = a.len() + 1 + b.len() as int;
    assert(t[d1] == '.' && t[d2] == '.');
    assert forall|k: int| 0 <= k < d1 implies t[k] != '.' by {
        assert(t[k] == a[k]);
    }
    assert forall|k: int| d1 < k < d2 implies t[k] != '.' by {
        assert(t[k] == b[k - d1 - 1]);
    }
    assert forall|now: nat, n2: Seq<char>, i2: nat, e2: nat|
        !accepted(t, now, key, n2, i2, e2) by {
        if t == token_of(n2, i2, e2, key) {
            lemma_token_of_shape(n2, i2, e2, key);
            if exists|j: int| 0 <= j < sig2.len() && sig2[j] == '.' {
                // The replacement text has a dot of its own, so the string
                // has three dots; a signed render has exactly two.
                let j = choose|j: int| 0 <= j < sig2.len() && sig2[j] == '.';
                let a2 = seg_of(header_text());
                let b2 = seg_of(claims_text(n2, i2, e2));
                let p1 = a2.len() as int;
                let p2 = a2.len() + 1 + b2.len() as int;
                let q3 = d2 + 1 + j;
                assert(t[q3] == '.');
                assert(d1 == p1 || d1 == p2);
                assert(d2 == p1 || d2 == p2);
                assert(q3 == p1 || q3 == p2);
                assert(d1 < d2 < q3);
                assert(false);
            } else {
                lemma_token_pin(t, n2, i2, e2, key, d1, d2);
                assert(t.subrange(0, d2) =~= m);
                assert(t.subrange(d2 + 1, t.len() as int) =~= sig2);
                assert(message_of(n2, i2, e2) == m);
                assert(sig2 == sig_seg_of(m, key));
            }
        }
    }
}

} // verus!
