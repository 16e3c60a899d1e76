//! Canonical decimal rendering and parsing of unsigned integers.
//!
//! Token claims carry their timestamps as decimal text. `dec_of` is the
//! canonical rendering (no sign, no leading zeros); the executable
//! functions are proved to produce and to accept exactly that rendering.

use vstd::prelude::*;

verus! {

use vstd::arithmetic::div_mod::lemma_fundamental_div_mod_converse;

/// The character rendering a single decimal digit.
pub open spec fn digit_char(d: nat) -> char
    recommends
        d < 10,
{
    ((48 + d) as u8) as char
}

pub open spec fn is_digit(c: char) -> bool {
    '0' <= c && c <= '9'
}

/// The numeric value of a digit character.
pub open spec fn digit_val(c: char) -> nat
    recommends
        is_digit(c),
{
    (c as nat - 48) as nat
}

/// The canonical decimal rendering of `n`.
pub open spec fn dec_of(n: nat) -> Seq<char>
    decreases n,
{
    if n < 10 {
        seq![digit_char(n)]
    } else {
        dec_of(n / 10).push(digit_char(n % 10))
    }
}

/// The value of a digit string, most significant digit first.
pub open spec fn val_of(s: Seq<char>) -> nat
    decreases s.len(),
{
    if s.len() == 0 {
        0
    } else {
        val_of(s.drop_last()) * 10 + digit_val(s.last())
    }
}

pub open spec fn all_digits(s: Seq<char>) -> bool {
    forall|i: int| 0 <= i < s.len() ==> is_digit(#[trigger] s[i])
}

/// A digit string is canonical when it is nonempty and has no leading zero.
pub open spec fn canonical_dec(s: Seq<char>) -> bool {
    &&& s.len() > 0
    &&& all_digits(s)
    &&& (s[0] == '0' ==> s.len() == 1)
}

proof fn lemma_digit_char_val(d: nat)
    requires
        d < 10,
    ensures
        is_digit(digit_char(d)),
        digit_val(digit_char(d)) == d,
        digit_char(d) == '0' <==> d == 0,
{
    assert(((48 + d) as u8) as char as nat == 48 + d);
}

/// `dec_of` renders are canonical, and start with `'0'` only for zero itself.
pub proof fn lemma_dec_of_canonical(n: nat)
    ensures
        canonical_dec(dec_of(n)),
        dec_of(n)[0] == '0' <==> n == 0,
        n < 10 ==> dec_of(n).len() == 1,
        n >= 10 ==> dec_of(n).len() > 1,
    decreases n,
{
    if n < 10 {
        lemma_digit_char_val(n);
    } else {
        lemma_dec_of_canonical(n / 10);
        lemma_digit_char_val(n % 10);
        let s = dec_of(n);
        let p = dec_of(n / 10);
        assert(s == p.push(digit_char(n % 10)));
        assert(s[0] == p[0]);
        assert forall|i: int| 0 <= i < s.len() implies is_digit(s[i]) by {
            if i < p.len() {
                assert(s[i] == p[i]);
            }
        }
        assert(n / 10 >= 1) by {
            assert(n >= 10);
        }
        assert(p[0] != '0');
    }
}

/// Reading back a canonical render gives the value it was made from.
pub proof fn lemma_val_of_dec_of(n: nat)
    ensures
        val_of(dec_of(n)) == n,
    decreases n,
{
    if n < 10 {
        lemma_digit_char_val(n);
        let s = dec_of(n);
        assert(s == seq![digit_char(n)]);
        assert(s.len() == 1);
        assert(s.last() == digit_char(n));
        assert(s.drop_last() =~= Seq::<char>::empty());
        assert(val_of(s.drop_last()) == 0);
        assert(val_of(s) == 0 * 10 + digit_val(digit_char(n)));
    } else {
        lemma_val_of_dec_of(n / 10);
        lemma_digit_char_val(n % 10);
        let p = dec_of(n / 10);
        assert(dec_of(n).drop_last() =~= p);
        assert(val_of(dec_of(n)) == val_of(p) * 10 + (n % 10));
        assert(n == (n / 10) * 10 + n % 10) by {
            vstd::arithmetic::div_mod::lemma_fundamental_div_mod(n as int, 10);
        }
    }
}

/// A nonempty digit string without a leading zero has a positive value,
/// and at least 10 when it is longer than one digit.
proof fn lemma_val_lower(s: Seq<char>)
    requires
        all_digits(s),
        s.len() >= 1,
        s[0] != '0',
    ensures
        val_of(s) >= 1,
        s.len() > 1 ==> val_of(s) >= 10,
    decreases s.len(),
{
    if s.len() == 1 {
        assert(is_digit(s[0]));
        assert(digit_val(s[0]) >= 1);
    } else {
        let p = s.drop_last();
        assert(all_digits(p)) by {
            assert(forall|i: int| 0 <= i < p.len() ==> p[i] == s[i]);
        }
        lemma_val_lower(p);
    }
}

/// Every canonical digit string is the render of its own value.
pub proof fn lemma_canonical_is_dec_of(s: Seq<char>)
    requires
        canonical_dec(s),
    ensures
        s == dec_of(val_of(s)),
    decreases s.len(),
{
    if s.len() == 1 {
        assert(is_digit(s[0]));
        let d = digit_val(s[0]);
        assert(val_of(s) == val_of(s.drop_last()) * 10 + d);
        assert(s.drop_last() =~= Seq::<char>::empty());
        assert(val_of(s) == d);
        assert(d < 10);
        assert(((48 + d) as u8) as char as nat == 48 + d);
        assert(digit_char(d) == s[0]) by {
            assert(s[0] as nat == 48 + d);
            assert(digit_char(d) as nat == 48 + d);
            let u1 = s[0] as u32;
            let u2 = digit_char(d) as u32;
            assert(u1 == u2);
            vstd::utf8::char_u32_cast(s[0], u1);
            vstd::utf8::char_u32_cast(digit_char(d), u2);
        }
        assert(s =~= dec_of(val_of(s)));
    } else {
        let p = s.drop_last();
        let d = digit_val(s.last());
        assert(all_digits(p)) by {
            assert(forall|i: int| 0 <= i < p.len() ==> p[i] == s[i]);
        }
        assert(p[0] == s[0]);
        assert(p[0] != '0');
        assert(canonical_dec(p));
        lemma_canonical_is_dec_of(p);
        lemma_val_lower(s);
        let v = val_of(s);
        assert(v == val_of(p) * 10 + d);
        assert(v >= 10);
        assert(v / 10 == val_of(p) && v % 10 == d) by {
            lemma_fundamental_div_mod_converse(v as int, 10, val_of(p) as int, d as int);
        }
        assert(dec_of(v) == dec_of(val_of(p)).push(digit_char(d)));
        assert(is_digit(s.last()));
        assert(digit_char(d) == s.last()) by {
            assert(s.last() as nat == 48 + d);
            assert(((48 + d) as u8) as char as nat == 48 + d);
            let u1 = s.last() as u32;
            let u2 = digit_char(d) as u32;
            assert(u1 == u2);
            vstd::utf8::char_u32_cast(s.last(), u1);
            vstd::utf8::char_u32_cast(digit_char(d), u2);
        }
        assert(s =~= p.push(s.last()));
        assert(s =~= dec_of(v));
    }
}

/// The value of a digit string bounds the value of each of its prefixes.
proof fn lemma_prefix_le(s: Seq<char>, i: int)
    requires
        all_digits(s),
        0 <= i <= s.len(),
    ensures
        val_of(s.subrange(0, i)) <= val_of(s),
    decreases s.len() - i,
{
    if i == s.len() {
        assert(s.subrange(0, i) =~= s);
    } else {
        let p = s.subrange(0, s.len() as int - 1);
        assert(all_digits(p)) by {
            assert(forall|j: int| 0 <= j < p.len() ==> p[j] == s[j]);
        }
        assert(p =~= s.drop_last());
        assert(val_of(s) == val_of(p) * 10 + digit_val(s.last()));
        assert(val_of(p) * 10 >= val_of(p));
        lemma_prefix_le(p, i);
        assert(p.subrange(0, i) =~= s.subrange(0, i));
    }
}

/// One decimal digit as a string.
fn digit_str(d: usize) -> (r: String)
    requires
        d < 10,
    ensures
        r@ =~= seq![digit_char(d as nat)],
{
    let r = if d == 0 {
        String::from_str("0")
    } else if d == 1 {
        String::from_str("1")
    } else if d == 2 {
        String::from_str("2")
    } else if d == 3 {
        String::from_str("3")
    } else if d == 4 {
        String::from_str("4")
    } else if d == 5 {
        String::from_str("5")
    } else if d == 6 {
        String::from_str("6")
    } else if d == 7 {
        String::from_str("7")
    } else if d == 8 {
        String::from_str("8")
    } else {
        String::from_str("9")
    };
    proof {
        reveal_strlit("0");
        reveal_strlit("1");
        reveal_strlit("2");
        reveal_strlit("3");
        reveal_strlit("4");
        reveal_strlit("5");
        reveal_strlit("6");
        reveal_strlit("7");
        reveal_strlit("8");
        reveal_strlit("9");
        assert(((48 + d as nat) as u8) as char as nat == 48 + d as nat);
    }
    r
}

/// Renders `n` in canonical decimal.
pub fn usize_to_dec(n: usize) -> (r: String)
    ensures
        r@ == dec_of(n as nat),
    decreases n,
{
    if n < 10 {
        digit_str(n)
    } else {
        let mut s = usize_to_dec(n / 10);
        let d = digit_str(n % 10);
        s.append(d.as_str());
        proof {
            assert(s@ =~= dec_of((n / 10) as nat).push(digit_char((n % 10) as nat)));
        }
        s
    }
}

/// Parses canonical decimal text; accepts exactly the strings `dec_of` produces
/// for values that fit in `usize`.
pub fn parse_dec(s: &str) -> (r: Option<usize>)
    ensures
        r matches Some(m) ==> s@ == dec_of(m as nat),
        forall|m: usize| s@ == dec_of(m as nat) ==> r == Some(m),
{
    let n = s.unicode_len();
    if n == 0 {
        proof {
            assert forall|m: usize| s@ != dec_of(m as nat) by {
                lemma_dec_of_canonical(m as nat);
            }
        }
        return None;
    }
    let first = s.get_char(0);
    if first == '0' && n != 1 {
        proof {
            assert forall|m: usize| s@ != dec_of(m as nat) by {
                lemma_dec_of_canonical(m as nat);
            }
        }
        return None;
    }
    let mut acc: usize = 0;
    let mut i: usize = 0;
    while i < n
        invariant
            0 < n == s@.len(),
            0 <= i <= n,
            s@[0] == '0' ==> n == 1,
            all_digits(s@.subrange(0, i as int)),
            acc as nat == val_of(s@.subrange(0, i as int)),
        decreases n - i,
    {
        let c = s.get_char(i);
        if c < '0' || c > '9' {
            proof {
                assert(!is_digit(s@[i as int]));
                assert forall|m: usize| s@ != dec_of(m as nat) by {
                    lemma_dec_of_canonical(m as nat);
                }
            }
            return None;
        }
        let d: usize = (c as u32 as usize) - 48;
        proof {
            assert(is_digit(s@[i as int]));
            assert(d as nat == digit_val(s@[i as int]));
        }
        let step = match acc.checked_mul(10) {
            Some(t) => t.checked_add(d),
            None => None,
        };
        match step {
            Some(next) => {
                proof {
                    let p = s@.subrange(0, i as int + 1);
                    assert(p.drop_last() =~= s@.subrange(0, i as int));
                    assert(p.last() == s@[i as int]);
                    assert(next as nat == val_of(p));
                    assert(all_digits(p)) by {
                        assert(forall|j: int|
                            0 <= j < i as int ==> p[j] == s@.subrange(0, i as int)[j]);
                    }
                }
                acc = next;
            },
            None => {
                proof {
                    // Overflow: no usize value renders to this string, since the
                    // value of a prefix never exceeds the value of the whole.
                    assert forall|m: usize| s@ != dec_of(m as nat) by {
                        if s@ == dec_of(m as nat) {
                            lemma_dec_of_canonical(m as nat);
                            lemma_val_of_dec_of(m as nat);
                            lemma_prefix_le(s@, i as int + 1);
                            let p = s@.subrange(0, i as int + 1);
                            assert(p.drop_last() =~= s@.subrange(0, i as int));
                            assert(p.last() == s@[i as int]);
                            assert(val_of(p) == (acc as nat) * 10 + d as nat);
                            assert(val_of(p) <= m as nat);
                        }
                    }
                }
                return None;
            },
        }
        i += 1;
    }
    proof {
        assert(s@.subrange(0, n as int) =~= s@);
        assert(canonical_dec(s@));
        lemma_canonical_is_dec_of(s@);
        assert(s@ == dec_of(acc as nat));
        assert forall|m: usize| s@ == dec_of(m as nat) implies Some(acc) == Some(m) by {
            lemma_val_of_dec_of(m as nat);
            lemma_val_of_dec_of(acc as nat);
        }
    }
    Some(acc)
}

} // verus!
