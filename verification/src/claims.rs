//! The payload of a signed token and its wire text.
//!
//! Claims carry a subject name, an issued-at timestamp and an expiry
//! timestamp, with the invariant `iat < exp` fixed at issuance. On the
//! wire the claims become the text `<exp> "." <iat> "." <name>`, with both
//! timestamps in canonical decimal; the name extends to the end of the
//! text, so it may itself contain dots. `claims_text` is that rendering,
//! and the parser accepts exactly its outputs.

use vstd::prelude::*;

verus! {

use crate::digits::{
    dec_of, is_digit, lemma_dec_of_canonical, lemma_val_of_dec_of, parse_dec, usize_to_dec,
};

/// The payload of a signed token.
#[derive(Clone, Debug)]
pub struct Claims {
    /// Expiry timestamp, in seconds.
    pub exp: usize,
    /// Issued-at timestamp, in seconds.
    pub iat: usize,
    /// Subject identifier.
    pub name: String,
}

impl Claims {
    /// The invariant fixed at issuance: a token expires strictly after it
    /// was issued.
    pub open spec fn wf(self) -> bool {
        self.iat < self.exp
    }
}

/// The wire text of a set of claims.
pub open spec fn claims_text(name: Seq<char>, iat: nat, exp: nat) -> Seq<char> {
    dec_of(exp) + seq!['.'] + dec_of(iat) + seq!['.'] + name
}

/// Positions and contents of the two delimiting dots of a claims text.
pub proof fn lemma_claims_text_shape(name: Seq<char>, iat: nat, exp: nat)
    ensures
        ({
            let s = claims_text(name, iat, exp);
            let d1 = dec_of(exp).len() as int;
            let d2 = d1 + 1 + dec_of(iat).len() as int;
            &&& s.len() == d2 + 1 + name.len()
            &&& s[d1] == '.'
            &&& s[d2] == '.'
            &&& (forall|k: int| 0 <= k < d1 ==> s[k] != '.')
            &&& (forall|k: int| d1 < k < d2 ==> s[k] != '.')
            &&& s.subrange(0, d1) == dec_of(exp)
            &&& s.subrange(d1 + 1, d2) == dec_of(iat)
            &&& s.subrange(d2 + 1, s.len() as int) == name
        }),
{
    let s = claims_text(name, iat, exp);
    let de = dec_of(exp);
    let di = dec_of(iat);
    let d1 = de.len() as int;
    let d2 = d1 + 1 + di.len() as int;
    lemma_dec_of_canonical(exp);
    lemma_dec_of_canonical(iat);
    assert forall|k: int| 0 <= k < d1 implies s[k] != '.' by {
        assert(s[k] == de[k]);
        assert(is_digit(de[k]));
    }
    assert forall|k: int| d1 < k < d2 implies s[k] != '.' by {
        assert(s[k] == di[k - d1 - 1]);
        assert(is_digit(di[k - d1 - 1]));
    }
    assert(s.subrange(0, d1) =~= de);
    assert(s.subrange(d1 + 1, d2) =~= di);
    assert(s.subrange(d2 + 1, s.len() as int) =~= name);
}

/// Distinct claims have distinct wire texts.
pub proof fn lemma_claims_text_injective(
    n1: Seq<char>,
    i1: nat,
    e1: nat,
    n2: Seq<char>,
    i2: nat,
    e2: nat,
)
    requires
        claims_text(n1, i1, e1) == claims_text(n2, i2, e2),
    ensures
        n1 == n2,
        i1 == i2,
        e1 == e2,
{
    let s = claims_text(n1, i1, e1);
    lemma_claims_text_shape(n1, i1, e1);
    lemma_claims_text_shape(n2, i2, e2);
    let a1 = dec_of(e1).len() as int;
    let a2 = dec_of(e2).len() as int;
    assert(a1 == a2) by {
        if a1 < a2 {
            assert(s[a1] == '.');
        } else if a2 < a1 {
            assert(s[a2] == '.');
        }
    }
    assert(dec_of(e1) == dec_of(e2));
    lemma_val_of_dec_of(e1);
    lemma_val_of_dec_of(e2);
    let b1 = a1 + 1 + dec_of(i1).len() as int;
    let b2 = a2 + 1 + dec_of(i2).len() as int;
    assert(b1 == b2) by {
        if b1 < b2 {
            assert(s[b1] == '.');
        } else if b2 < b1 {
            assert(s[b2] == '.');
        }
    }
    assert(dec_of(i1) == dec_of(i2));
    lemma_val_of_dec_of(i1);
    lemma_val_of_dec_of(i2);
    assert(n1 == s.subrange(b1 + 1, s.len() as int));
    assert(n2 == s.subrange(b2 + 1, s.len() as int));
}

/// Renders claims as their wire text.
pub fn claims_to_text(c: &Claims) -> (r: String)
    ensures
        r@ == claims_text(c.name@, c.iat as nat, c.exp as nat),
{
    let mut s = usize_to_dec(c.exp);
    s.append(".");
    let di = usize_to_dec(c.iat);
    s.append(di.as_str());
    s.append(".");
    s.append(c.name.as_str());
    proof {
        reveal_strlit(".");
        assert("."@ =~= seq!['.']);
        assert(s@ =~= claims_text(c.name@, c.iat as nat, c.exp as nat));
    }
    s
}

/// The first dot of `s` at or after `from`, if any.
pub(crate) fn find_dot(s: &str, from: usize) -> (r: Option<usize>)
    requires
        from as int <= s@.len(),
    ensures
        r matches Some(i) ==> from <= i && (i as int) < s@.len() && s@[i as int] == '.' && (
        forall|k: int| from as int <= k < i as int ==> s@[k] != '.'),
        r is None ==> forall|k: int| from as int <= k < s@.len() ==> s@[k] != '.',
{
    let n = s.unicode_len();
    let mut i = from;
    while i < n
        invariant
            from <= i <= n,
            n as int == s@.len(),
            forall|k: int| from as int <= k < i as int ==> s@[k] != '.',
        decreases n - i,
    {
        if s.get_char(i) == '.' {
            return Some(i);
        }
        i += 1;
    }
    None
}

/// Parses a claims wire text; accepts exactly the texts `claims_text`
/// produces for timestamps that fit in `usize`.
pub fn parse_claims_text(s: &str) -> (r: Option<Claims>)
    ensures
        r matches Some(c) ==> s@ == claims_text(c.name@, c.iat as nat, c.exp as nat),
        forall|name: Seq<char>, iat: usize, exp: usize|
            s@ == claims_text(name, iat as nat, exp as nat) ==> (r matches Some(c) && c.name@
                == name && c.iat == iat && c.exp == exp),
{
    let n = s.unicode_len();
    let d1 = match find_dot(s, 0) {
        Some(i) => i,
        None => {
            proof {
                assert forall|name: Seq<char>, iat: usize, exp: usize|
                    s@ != claims_text(name, iat as nat, exp as nat) by {
                    lemma_claims_text_shape(name, iat as nat, exp as nat);
                }
            }
            return None;
        },
    };
    let exp = match parse_dec(s.substring_char(0, d1)) {
        Some(v) => v,
        None => {
            proof {
                assert forall|name: Seq<char>, iat: usize, exp: usize|
                    s@ != claims_text(name, iat as nat, exp as nat) by {
                    if s@ == claims_text(name, iat as nat, exp as nat) {
                        lemma_claims_text_shape(name, iat as nat, exp as nat);
                        let dd = dec_of(exp as nat).len() as int;
                        assert(d1 as int == dd) by {
                            if (d1 as int) < dd {
                                assert(s@[d1 as int] == '.');
                            } else if dd < d1 as int {
                                assert(s@[dd] == '.');
                            }
                        }
                        assert(s@.subrange(0, d1 as int) == dec_of(exp as nat));
                    }
                }
            }
            return None;
        },
    };
    let d2 = match find_dot(s, d1 + 1) {
        Some(i) => i,
        None => {
            proof {
                assert forall|name: Seq<char>, iat: usize, exp: usize|
                    s@ != claims_text(name, iat as nat, exp as nat) by {
                    if s@ == claims_text(name, iat as nat, exp as nat) {
                        lemma_claims_text_shape(name, iat as nat, exp as nat);
                        let dd = dec_of(exp as nat).len() as int;
                        assert(d1 as int == dd) by {
                            if (d1 as int) < dd {
                                assert(s@[d1 as int] == '.');
                            } else if dd < d1 as int {
                                assert(s@[dd] == '.');
                            }
                        }
                        assert(s@[dd + 1 + dec_of(iat as nat).len()] == '.');
                    }
                }
            }
            return None;
        },
    };
    let iat = match parse_dec(s.substring_char(d1 + 1, d2)) {
        Some(v) => v,
        None => {
            proof {
                assert forall|name: Seq<char>, iat: usize, exp: usize|
                    s@ != claims_text(name, iat as nat, exp as nat) by {
                    if s@ == claims_text(name, iat as nat, exp as nat) {
                        lemma_claims_text_shape(name, iat as nat, exp as nat);
                        let dd = dec_of(exp as nat).len() as int;
                        assert(d1 as int == dd) by {
                            if (d1 as int) < dd {
                                assert(s@[d1 as int] == '.');
                            } else if dd < d1 as int {
                                assert(s@[dd] == '.');
                            }
                        }
                        let ee = dd + 1 + dec_of(iat as nat).len() as int;
                        assert(d2 as int == ee) by {
                            if (d2 as int) < ee {
                                assert(s@[d2 as int] == '.');
                            } else if ee < d2 as int {
                                assert(s@[ee] == '.');
                            }
                        }
                        assert(s@.subrange(d1 as int + 1, d2 as int) == dec_of(iat as nat));
                    }
                }
            }
            return None;
        },
    };
    let name = String::from_str(s.substring_char(d2 + 1, n));
    let c = Claims { exp, iat, name };
    proof {
        assert(s@ =~= claims_text(c.name@, c.iat as nat, c.exp as nat)) by {
            assert(s@.subrange(0, d1 as int) == dec_of(exp as nat));
            assert(s@.subrange(d1 as int + 1, d2 as int) == dec_of(iat as nat));
            assert(s@.subrange(d2 as int + 1, n as int) == c.name@);
            assert(s@[d1 as int] == '.');
            assert(s@[d2 as int] == '.');
        }
        assert forall|name2: Seq<char>, iat2: usize, exp2: usize|
            s@ == claims_text(name2, iat2 as nat, exp2 as nat) implies c.name@ == name2 && c.iat
            == iat2 && c.exp == exp2 by {
            lemma_claims_text_injective(
                c.name@,
                c.iat as nat,
                c.exp as nat,
                name2,
                iat2 as nat,
                exp2 as nat,
            );
        }
    }
    Some(c)
}

} // verus!
