//! Unpadded base64url, as used for the segments of a signed token.
//!
//! `b64url_of` is the mathematical encoding (RFC 4648 URL-safe alphabet,
//! no padding); the executable encoder and decoder are the `base64`
//! crate's `URL_SAFE_NO_PAD` engine behind trusted wrappers. The decoder
//! of that engine is canonical: it rejects padding characters and nonzero
//! trailing bits, so decoding succeeds exactly on encoder outputs.

use vstd::prelude::*;

verus! {

use vstd::arithmetic::div_mod::lemma_fundamental_div_mod_converse;
use vstd::utf8::encode_utf8;

/// The URL-safe base64 alphabet: `A-Z`, `a-z`, `0-9`, `-`, `_`.
pub open spec fn b64c(v: nat) -> char
    recommends
        v < 64,
{
    if v < 26 {
        ((65 + v) as u8) as char
    } else if v < 52 {
        ((97 + (v - 26)) as u8) as char
    } else if v < 62 {
        ((48 + (v - 52)) as u8) as char
    } else if v == 62 {
        '-'
    } else {
        '_'
    }
}

/// Unpadded base64url of a byte sequence: each 3-byte group becomes 4
/// alphabet characters; a trailing group of 1 or 2 bytes becomes 2 or 3
/// characters with zero-filled low bits.
pub open spec fn b64url_of(b: Seq<u8>) -> Seq<char>
    decreases b.len(),
{
    if b.len() == 0 {
        Seq::<char>::empty()
    } else if b.len() == 1 {
        seq![b64c((b[0] / 4) as nat), b64c(((b[0] % 4) * 16) as nat)]
    } else if b.len() == 2 {
        seq![
            b64c((b[0] / 4) as nat),
            b64c(((b[0] % 4) * 16 + b[1] / 16) as nat),
            b64c(((b[1] % 16) * 4) as nat),
        ]
    } else {
        seq![
            b64c((b[0] / 4) as nat),
            b64c(((b[0] % 4) * 16 + b[1] / 16) as nat),
            b64c(((b[1] % 16) * 4 + b[2] / 64) as nat),
            b64c((b[2] % 64) as nat),
        ] + b64url_of(b.skip(3))
    }
}

/// The base64url segment encoding a piece of text.
pub open spec fn seg_of(t: Seq<char>) -> Seq<char> {
    b64url_of(encode_utf8(t))
}

proof fn lemma_b64c_not_dot(v: nat)
    requires
        v < 64,
    ensures
        b64c(v) != '.',
{
    if v < 26 {
        assert(((65 + v) as u8) as char as nat == 65 + v);
    } else if v < 52 {
        assert(((97 + (v - 26)) as u8) as char as nat == 97 + (v - 26));
    } else if v < 62 {
        assert(((48 + (v - 52)) as u8) as char as nat == 48 + (v - 52));
    }
}

/// No base64url render contains a dot, so dots can delimit segments.
pub proof fn lemma_b64url_no_dot(b: Seq<u8>)
    ensures
        forall|i: int| 0 <= i < b64url_of(b).len() ==> #[trigger] b64url_of(b)[i] != '.',
    decreases b.len(),
{
    let s = b64url_of(b);
    if b.len() == 0 {
    } else if b.len() == 1 {
        lemma_b64c_not_dot((b[0] / 4) as nat);
        lemma_b64c_not_dot(((b[0] % 4) * 16) as nat);
    } else if b.len() == 2 {
        lemma_b64c_not_dot((b[0] / 4) as nat);
        lemma_b64c_not_dot(((b[0] % 4) * 16 + b[1] / 16) as nat);
        lemma_b64c_not_dot(((b[1] % 16) * 4) as nat);
    } else {
        lemma_b64c_not_dot((b[0] / 4) as nat);
        lemma_b64c_not_dot(((b[0] % 4) * 16 + b[1] / 16) as nat);
        lemma_b64c_not_dot(((b[1] % 16) * 4 + b[2] / 64) as nat);
        lemma_b64c_not_dot((b[2] % 64) as nat);
        lemma_b64url_no_dot(b.skip(3));
        let rest = b64url_of(b.skip(3));
        assert forall|i: int| 0 <= i < s.len() implies s[i] != '.' by {
            if i >= 4 {
                assert(s[i] == rest[i - 4]);
            }
        }
    }
}

/// No segment of a piece of text contains a dot.
pub proof fn lemma_seg_no_dot(t: Seq<char>)
    ensures
        forall|i: int| 0 <= i < seg_of(t).len() ==> #[trigger] seg_of(t)[i] != '.',
{
    lemma_b64url_no_dot(encode_utf8(t));
}

/// The length of a base64url render, as a function of the byte count.
pub open spec fn b64len(n: nat) -> nat
    decreases n,
{
    if n == 0 {
        0
    } else if n == 1 {
        2
    } else if n == 2 {
        3
    } else {
        (4 + b64len((n - 3) as nat)) as nat
    }
}

proof fn lemma_b64url_len(b: Seq<u8>)
    ensures
        b64url_of(b).len() == b64len(b.len()),
    decreases b.len(),
{
    if b.len() >= 3 {
        lemma_b64url_len(b.skip(3));
    }
}

proof fn lemma_b64len_injective(n1: nat, n2: nat)
    requires
        b64len(n1) == b64len(n2),
    ensures
        n1 == n2,
    decreases n1,
{
    if n1 >= 3 && n2 >= 3 {
        lemma_b64len_injective((n1 - 3) as nat, (n2 - 3) as nat);
    } else if n1 >= 3 {
        assert(b64len(n1) >= 4);
    } else if n2 >= 3 {
        assert(b64len(n2) >= 4);
    }
}

proof fn lemma_b64c_injective(v1: nat, v2: nat)
    requires
        v1 < 64,
        v2 < 64,
        b64c(v1) == b64c(v2),
    ensures
        v1 == v2,
{
    lemma_b64c_code(v1);
    lemma_b64c_code(v2);
}

/// The character code of each alphabet entry.
proof fn lemma_b64c_code(v: nat)
    requires
        v < 64,
    ensures
        v < 26 ==> b64c(v) as nat == 65 + v,
        26 <= v < 52 ==> b64c(v) as nat == 97 + (v - 26),
        52 <= v < 62 ==> b64c(v) as nat == 48 + (v - 52),
        v == 62 ==> b64c(v) as nat == 45,
        v == 63 ==> b64c(v) as nat == 95,
{
    if v < 26 {
        assert(((65 + v) as u8) as char as nat == 65 + v);
    } else if v < 52 {
        assert(((97 + (v - 26)) as u8) as char as nat == 97 + (v - 26));
    } else if v < 62 {
        assert(((48 + (v - 52)) as u8) as char as nat == 48 + (v - 52));
    }
}

/// Distinct byte sequences have distinct base64url renders.
pub proof fn lemma_b64url_injective(x: Seq<u8>, y: Seq<u8>)
    requires
        b64url_of(x) == b64url_of(y),
    ensures
        x == y,
    decreases x.len(),
{
    lemma_b64url_len(x);
    lemma_b64url_len(y);
    lemma_b64len_injective(x.len(), y.len());
    let s = b64url_of(x);
    if x.len() == 0 {
        assert(x =~= y);
    } else if x.len() == 1 {
        lemma_b64c_injective((x[0] / 4) as nat, (y[0] / 4) as nat);
        lemma_b64c_injective(((x[0] % 4) * 16) as nat, ((y[0] % 4) * 16) as nat);
        assert(x[0] == (x[0] / 4) * 4 + x[0] % 4);
        assert(y[0] == (y[0] / 4) * 4 + y[0] % 4);
        assert(x =~= y);
    } else if x.len() == 2 {
        lemma_b64c_injective((x[0] / 4) as nat, (y[0] / 4) as nat);
        lemma_b64c_injective(
            ((x[0] % 4) * 16 + x[1] / 16) as nat,
            ((y[0] % 4) * 16 + y[1] / 16) as nat,
        );
        lemma_b64c_injective(((x[1] % 16) * 4) as nat, ((y[1] % 16) * 4) as nat);
        lemma_fundamental_div_mod_converse(
            ((x[0] % 4) * 16 + x[1] / 16) as int,
            16,
            (x[0] % 4) as int,
            (x[1] / 16) as int,
        );
        lemma_fundamental_div_mod_converse(
            ((y[0] % 4) * 16 + y[1] / 16) as int,
            16,
            (y[0] % 4) as int,
            (y[1] / 16) as int,
        );
        assert(x[0] % 4 == y[0] % 4 && x[1] / 16 == y[1] / 16);
        assert(x[0] == (x[0] / 4) * 4 + x[0] % 4);
        assert(y[0] == (y[0] / 4) * 4 + y[0] % 4);
        assert(x[1] == (x[1] / 16) * 16 + x[1] % 16);
        assert(y[1] == (y[1] / 16) * 16 + y[1] % 16);
        assert(x =~= y);
    } else {
        let xr = b64url_of(x.skip(3));
        let yr = b64url_of(y.skip(3));
        assert(s[0] == b64c((x[0] / 4) as nat) && s[0] == b64c((y[0] / 4) as nat));
        assert(s[1] == b64c(((x[0] % 4) * 16 + x[1] / 16) as nat) && s[1] == b64c(
            ((y[0] % 4) * 16 + y[1] / 16) as nat,
        ));
        assert(s[2] == b64c(((x[1] % 16) * 4 + x[2] / 64) as nat) && s[2] == b64c(
            ((y[1] % 16) * 4 + y[2] / 64) as nat,
        ));
        assert(s[3] == b64c((x[2] % 64) as nat) && s[3] == b64c((y[2] % 64) as nat));
        lemma_b64c_injective((x[0] / 4) as nat, (y[0] / 4) as nat);
        lemma_b64c_injective(
            ((x[0] % 4) * 16 + x[1] / 16) as nat,
            ((y[0] % 4) * 16 + y[1] / 16) as nat,
        );
        lemma_b64c_injective(
            ((x[1] % 16) * 4 + x[2] / 64) as nat,
            ((y[1] % 16) * 4 + y[2] / 64) as nat,
        );
        lemma_b64c_injective((x[2] % 64) as nat, (y[2] % 64) as nat);
        lemma_fundamental_div_mod_converse(
            ((x[0] % 4) * 16 + x[1] / 16) as int,
            16,
            (x[0] % 4) as int,
            (x[1] / 16) as int,
        );
        lemma_fundamental_div_mod_converse(
            ((y[0] % 4) * 16 + y[1] / 16) as int,
            16,
            (y[0] % 4) as int,
            (y[1] / 16) as int,
        );
        lemma_fundamental_div_mod_converse(
            ((x[1] % 16) * 4 + x[2] / 64) as int,
            4,
            (x[1] % 16) as int,
            (x[2] / 64) as int,
        );
        lemma_fundamental_div_mod_converse(
            ((y[1] % 16) * 4 + y[2] / 64) as int,
            4,
            (y[1] % 16) as int,
            (y[2] / 64) as int,
        );
        assert(x[0] == (x[0] / 4) * 4 + x[0] % 4);
        assert(y[0] == (y[0] / 4) * 4 + y[0] % 4);
        assert(x[1] == (x[1] / 16) * 16 + x[1] % 16);
        assert(y[1] == (y[1] / 16) * 16 + y[1] % 16);
        assert(x[2] == (x[2] / 64) * 64 + x[2] % 64);
        assert(y[2] == (y[2] / 64) * 64 + y[2] % 64);
        assert(x[0] == y[0] && x[1] == y[1] && x[2] == y[2]);
        assert(xr =~= s.subrange(4, s.len() as int));
        assert(yr =~= s.subrange(4, s.len() as int));
        lemma_b64url_injective(x.skip(3), y.skip(3));
        assert forall|k: int| 0 <= k < x.len() implies x[k] == y[k] by {
            if k >= 3 {
                assert(x[k] == x.skip(3)[k - 3]);
                assert(y[k] == y.skip(3)[k - 3]);
            }
        }
        assert(x =~= y);
    }
}

/// Distinct texts have distinct segments.
pub proof fn lemma_seg_injective(t1: Seq<char>, t2: Seq<char>)
    requires
        seg_of(t1) == seg_of(t2),
    ensures
        t1 == t2,
{
    lemma_b64url_injective(encode_utf8(t1), encode_utf8(t2));
    vstd::utf8::encode_utf8_decode_utf8(t1);
    vstd::utf8::encode_utf8_decode_utf8(t2);
}

/// Relies on the `base64` crate's `URL_SAFE_NO_PAD` engine: the result is
/// the unpadded URL-safe base64 render of the UTF-8 bytes of `s`.
#[verifier::external_body]
pub fn b64url_encode(s: &str) -> (r: String)
    ensures
        r@ == seg_of(s@),
{
    base64::Engine::encode(&base64::engine::general_purpose::URL_SAFE_NO_PAD, s.as_bytes())
}

/// Relies on the `base64` crate's `URL_SAFE_NO_PAD` decode, which accepts
/// exactly canonical renders (no padding, zero trailing bits), and on
/// `String::from_utf8`, which succeeds exactly on valid UTF-8 and returns
/// the text those bytes encode.
#[verifier::external_body]
pub fn b64url_decode(s: &str) -> (r: Option<String>)
    ensures
        r matches Some(u) ==> s@ == seg_of(u@) && (forall|t: Seq<char>| s@ == seg_of(t) ==> t == u@),
        r is None ==> forall|t: Seq<char>| s@ != seg_of(t),
{
    match base64::Engine::decode(&base64::engine::general_purpose::URL_SAFE_NO_PAD, s.as_bytes())
    {
        Ok(bytes) => String::from_utf8(bytes).ok(),
        Err(_) => None,
    }
}

} // verus!
