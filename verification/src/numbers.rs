//! Integers to and from decimal text, as `i64::from_str` reads them and
//! `to_string` writes them.

use crate::text::{code, string_of};
use vstd::prelude::*;

verus! {

/// Whether `c` is an ASCII decimal digit.
pub open spec fn is_digit(c: char) -> bool {
    48 <= code(c) <= 57
}

/// The value of a decimal digit.
pub open spec fn digit_value(c: char) -> int {
    code(c) - 48
}

/// Whether every character of `s` is a decimal digit.
pub open spec fn all_digits(s: Seq<char>) -> bool {
    forall|i: int| 0 <= i < s.len() ==> is_digit(#[trigger] s[i])
}

/// The number a string of decimal digits spells.
pub open spec fn digits_value(s: Seq<char>) -> int
    decreases s.len(),
{
    if s.len() == 0 {
        0
    } else {
        digits_value(s.drop_last()) * 10 + digit_value(s.last())
    }
}

/// What `i64::from_str` reads from `s`: an optional `+` or `-`, then one or
/// more decimal digits, and a value within the range of `i64`.
pub open spec fn parse_int_spec(s: Seq<char>) -> Option<int> {
    let negative = s.len() > 0 && s[0] == '-';
    let signed = s.len() > 0 && (s[0] == '-' || s[0] == '+');
    let body = if signed { s.drop_first() } else { s };
    if body.len() == 0 || !all_digits(body) {
        None
    } else {
        let v = if negative { -digits_value(body) } else { digits_value(body) };
        if i64::MIN <= v <= i64::MAX {
            Some(v)
        } else {
            None
        }
    }
}

/// The decimal digit for `d`.
pub open spec fn digit_char(d: int) -> char {
    (d + 48) as char
}

/// The decimal form of a natural number, without leading zeros.
pub open spec fn nat_text(n: nat) -> Seq<char>
    decreases n,
{
    if n < 10 {
        seq![digit_char(n as int)]
    } else {
        nat_text(n / 10) + seq![digit_char((n % 10) as int)]
    }
}

/// The decimal form of an integer, with a leading `-` when negative.
pub open spec fn int_text(v: int) -> Seq<char> {
    if v < 0 {
        seq!['-'] + nat_text((-v) as nat)
    } else {
        nat_text(v as nat)
    }
}

proof fn lemma_digits_nonneg(s: Seq<char>)
    requires
        all_digits(s),
    ensures
        digits_value(s) >= 0,
    decreases s.len(),
{
    if s.len() > 0 {
        assert(is_digit(s[s.len() - 1]));
        lemma_digits_nonneg(s.drop_last());
    }
}

proof fn lemma_digits_monotone(s: Seq<char>, k: int)
    requires
        all_digits(s),
        0 <= k <= s.len(),
    ensures
        digits_value(s.take(k)) <= digits_value(s),
    decreases s.len() - k,
{
    if k < s.len() {
        assert(is_digit(s[s.len() - 1]));
        lemma_digits_nonneg(s.drop_last());
        lemma_digits_monotone(s.drop_last(), k);
        assert(s.drop_last().take(k) =~= s.take(k));
    } else {
        assert(s.take(k) =~= s);
    }
}

/// The decimal form of a natural number is one or more digits that spell
/// it.
proof fn lemma_nat_text(n: nat)
    ensures
        nat_text(n).len() > 0,
        all_digits(nat_text(n)),
        digits_value(nat_text(n)) == n,
    decreases n,
{
    if n < 10 {
        let t = nat_text(n);
        assert(code(digit_char(n as int)) == n + 48);
        assert(t.drop_last() =~= Seq::<char>::empty());
        assert(digits_value(Seq::<char>::empty()) == 0);
        assert(digits_value(t) == digits_value(t.drop_last()) * 10 + digit_value(t.last()));
    } else {
        lemma_nat_text(n / 10);
        let d = (n % 10) as int;
        let t = nat_text(n);
        assert(code(digit_char(d)) == d + 48);
        assert(t.drop_last() =~= nat_text(n / 10));
        assert(t.last() == digit_char(d));
        assert((n / 10) * 10 + n % 10 == n) by (nonlinear_arith);
        assert(digit_value(t.last()) == d);
        assert(digits_value(t) == digits_value(t.drop_last()) * 10 + digit_value(t.last()));
        assert forall|i: int| 0 <= i < t.len() implies is_digit(#[trigger] t[i]) by {
            if i < t.len() - 1 {
                assert(t[i] == nat_text(n / 10)[i]);
            }
        }
    }
}

/// Decimal text starts and ends with a character that is not white space:
/// a digit or a minus sign.
pub proof fn lemma_int_text_shape(v: int)
    ensures
        int_text(v).len() > 0,
        code(int_text(v)[0]) == 45 || is_digit(int_text(v)[0]),
        is_digit(int_text(v).last()),
{
    let n = if v < 0 {
        (-v) as nat
    } else {
        v as nat
    };
    lemma_nat_text(n);
    let t = nat_text(n);
    assert(is_digit(t[0]) && is_digit(t[t.len() - 1]));
    if v < 0 {
        let s = seq!['-'] + t;
        assert(s[0] == '-');
        assert(s.last() == t.last());
    }
}

/// Integers read back from their decimal text: `i64::from_str` of what
/// `to_string` writes is the number again.
pub proof fn lemma_int_text_parses(v: int)
    requires
        i64::MIN <= v <= i64::MAX,
    ensures
        parse_int_spec(int_text(v)) == Some(v),
{
    if v < 0 {
        let n = (-v) as nat;
        lemma_nat_text(n);
        let s = int_text(v);
        assert(s[0] == '-');
        assert(s.drop_first() =~= nat_text(n));
    } else {
        let n = v as nat;
        lemma_nat_text(n);
        let s = int_text(v);
        assert(is_digit(s[0]));
    }
}

/// Reads a decimal integer the way `i64::from_str` does.
pub fn parse_i64(s: &Vec<char>) -> (r: Option<i64>)
    ensures
        match parse_int_spec(s@) {
            Some(v) => r == Some(v as i64),
            None => r is None,
        },
{
    let n = s.len();
    if n == 0 {
        return None;
    }
    let negative = s[0] == '-';
    let signed = s[0] == '-' || s[0] == '+';
    let start: usize = if signed { 1 } else { 0 };
    let ghost body = if signed { s@.drop_first() } else { s@ };
    assert(body =~= s@.skip(start as int));
    if start == n {
        return None;
    }
    let limit: i128 = 9223372036854775808;
    let mut acc: i128 = 0;
    let mut i: usize = start;
    while i < n
        invariant
            start <= i <= n,
            n == s.len(),
            n > 0,
            signed == (s@[0] == '-' || s@[0] == '+'),
            negative == (s@[0] == '-'),
            body == (if signed { s@.drop_first() } else { s@ }),
            body =~= s@.skip(start as int),
            forall|k: int| 0 <= k < i - start ==> is_digit(#[trigger] body[k]),
            acc == digits_value(body.take(i - start)),
            0 <= acc <= limit,
            limit == 9223372036854775808,
        decreases n - i,
    {
        let c = s[i];
        if !(c >= '0' && c <= '9') {
            proof {
                assert(body[i - start] == s@[i as int]);
                assert(!is_digit(body[i - start]));
                assert(!all_digits(body));
            }
            return None;
        }
        let d = (c as u32 - 48) as i128;
        proof {
            assert(body.take(i - start + 1).drop_last() =~= body.take(i - start));
        }
        acc = acc * 10 + d;
        i = i + 1;
        proof {
            assert(body[i - 1 - start] == c);
            assert(body.take(i - start).last() == c);
            assert(acc == digits_value(body.take(i - start)));
        }
        if acc > limit {
            proof {
                if all_digits(body) {
                    lemma_digits_monotone(body, i - start);
                    assert(digits_value(body) > limit);
                }
            }
            return None;
        }
    }
    proof {
        assert(body.take(n - start) =~= body);
    }
    if negative {
        Some((0 - acc) as i64)
    } else if acc == limit {
        None
    } else {
        Some(acc as i64)
    }
}

/// The decimal digit for `d`.
fn digit_of(d: u128) -> (c: char)
    requires
        d < 10,
    ensures
        c == digit_char(d as int),
{
    let b: u8 = (d as u8) + 48;
    b as char
}

/// The decimal digits of `n`.
pub fn nat_chars(n: u128) -> (v: Vec<char>)
    ensures
        v@ == nat_text(n as nat),
    decreases n,
{
    if n < 10 {
        let mut v: Vec<char> = Vec::new();
        v.push(digit_of(n));
        assert(v@ =~= seq![digit_char(n as int)]);
        v
    } else {
        let mut v = nat_chars(n / 10);
        v.push(digit_of(n % 10));
        assert(v@ =~= nat_text((n / 10) as nat) + seq![digit_char((n % 10) as int)]);
        v
    }
}

/// The decimal form of an integer, as `i64::to_string` writes it.
pub fn int_chars(v: i64) -> (r: Vec<char>)
    ensures
        r@ == int_text(v as int),
{
    if v < 0 {
        let magnitude: u64 = if v == i64::MIN { 9223372036854775808 } else { (0 - v) as u64 };
        let digits = nat_chars(magnitude as u128);
        let mut r: Vec<char> = Vec::new();
        r.push('-');
        let mut i: usize = 0;
        while i < digits.len()
            invariant
                i <= digits.len(),
                r@ == seq!['-'] + digits@.take(i as int),
            decreases digits.len() - i,
        {
            r.push(digits[i]);
            i = i + 1;
            assert(r@ =~= seq!['-'] + digits@.take(i as int));
        }
        assert(digits@.take(digits.len() as int) =~= digits@);
        r
    } else {
        nat_chars(v as u128)
    }
}

/// The decimal form of an integer as a string.
pub fn int_string(v: i64) -> (s: String)
    ensures
        s@ == int_text(v as int),
{
    string_of(&int_chars(v))
}

} // verus!
