//! The literal decoder: a numeric token with an optional `0b`/`0x` prefix is
//! read as an unsigned 64-bit value.

use vstd::prelude::*;
use vstd::string::StrSliceExecFns;

use crate::digits::{all_digits, digit_val, digits_val, is_digit};
use crate::error::ParseError;

verus! {

/// Whether `s` begins with `0` followed by the marker character `c`.
pub open spec fn has_base_prefix(s: Seq<char>, c: char) -> bool {
    s.len() >= 2 && s[0] == '0' && s[1] == c
}

/// The base selected by the literal's prefix: `0b` is binary, `0x` is
/// hexadecimal, anything else is decimal.
pub open spec fn spec_radix(s: Seq<char>) -> nat {
    if has_base_prefix(s, 'b') {
        2
    } else if has_base_prefix(s, 'x') {
        16
    } else {
        10
    }
}

/// The digit characters of the literal: everything after the base prefix.
pub open spec fn spec_payload(s: Seq<char>) -> Seq<char> {
    if has_base_prefix(s, 'b') || has_base_prefix(s, 'x') {
        s.skip(2)
    } else {
        s
    }
}

/// The value a literal decodes to, or `None` when the payload is empty,
/// holds a character that is no digit of the selected base, or exceeds
/// `u64::MAX`. No sign and no whitespace are accepted.
pub open spec fn spec_decode(s: Seq<char>) -> Option<u64> {
    let p = spec_payload(s);
    let b = spec_radix(s);
    if p.len() > 0 && all_digits(p, b) && digits_val(p, b) <= u64::MAX {
        Some(digits_val(p, b) as u64)
    } else {
        None
    }
}

/// Appending one digit multiplies the value by the base and adds the digit.
proof fn lemma_digits_val_step(s: Seq<char>, base: nat, k: int)
    requires
        0 <= k < s.len(),
    ensures
        digits_val(s.take(k + 1), base) == digits_val(s.take(k), base) * base + digit_val(s[k]),
{
    let t = s.take(k + 1);
    assert(t.drop_last() =~= s.take(k));
    assert(t.last() == s[k]);
    assert(digits_val(t, base) == digits_val(t.drop_last(), base) * base + digit_val(t.last()));
}

/// A prefix of a digit string never exceeds the whole string's value.
proof fn lemma_digits_val_take_le(s: Seq<char>, base: nat, k: int)
    requires
        base >= 2,
        0 <= k <= s.len(),
    ensures
        digits_val(s.take(k), base) <= digits_val(s, base),
    decreases s.len(),
{
    if k == s.len() {
        assert(s.take(k) =~= s);
    } else {
        let t = s.drop_last();
        lemma_digits_val_take_le(t, base, k);
        assert(s.take(k) =~= t.take(k));
        assert(digits_val(t, base) * base >= digits_val(t, base)) by (nonlinear_arith)
            requires
                base >= 2,
                digits_val(t, base) >= 0,
        ;
        assert(digits_val(s, base) == digits_val(t, base) * base + digit_val(s.last()));
    }
}

/// The numeric value of one digit character under the given base, or `None`
/// where the character is no digit of that base.
fn digit_of(c: char, base: u64) -> (r: Option<u64>)
    ensures
        match r {
            Some(d) => is_digit(c, base as nat) && d == digit_val(c),
            None => !is_digit(c, base as nat),
        },
{
    let u = c as u32;
    if 48 <= u && u <= 57 {
        let d = (u - 48) as u64;
        if d < base {
            Some(d)
        } else {
            None
        }
    } else if 97 <= u && u <= 102 {
        let d = (u - 87) as u64;
        if d < base {
            Some(d)
        } else {
            None
        }
    } else if 65 <= u && u <= 70 {
        let d = (u - 55) as u64;
        if d < base {
            Some(d)
        } else {
            None
        }
    } else {
        None
    }
}

/// Decode a numeric literal: `0b` selects base 2, `0x` selects base 16,
/// anything else is read as decimal. Exactly the literals `spec_decode`
/// accepts are decoded; every other input yields `InvalidLiteral`.
pub fn decode_literal(s: &str) -> (r: Result<u64, ParseError>)
    ensures
        match r {
            Ok(v) => spec_decode(s@) == Some(v),
            Err(e) => spec_decode(s@) is None && e == ParseError::InvalidLiteral,
        },
{
    let n = s.unicode_len();
    let mut start: usize = 0;
    let mut base: u64 = 10;
    if n >= 2 && s.get_char(0) == '0' {
        let c1 = s.get_char(1);
        if c1 == 'b' {
            base = 2;
            start = 2;
        } else if c1 == 'x' {
            base = 16;
            start = 2;
        }
    }
    assert(base as nat == spec_radix(s@));
    assert(s@.skip(start as int) == spec_payload(s@));
    if start >= n {
        assert(spec_payload(s@).len() == 0);
        return Err(ParseError::InvalidLiteral);
    }
    let ghost p = spec_payload(s@);
    let mut acc: u64 = 0;
    let mut i: usize = start;
    while i < n
        invariant
            start <= i <= n,
            n == s@.len(),
            base == 2 || base == 10 || base == 16,
            base as nat == spec_radix(s@),
            p == spec_payload(s@),
            p == s@.skip(start as int),
            p.len() == n - start,
            all_digits(p.take(i - start), base as nat),
            acc == digits_val(p.take(i - start), base as nat),
        decreases n - i,
    {
        let c = s.get_char(i);
        assert(c == p[i - start]);
        let d = match digit_of(c, base) {
            Some(d) => d,
            None => {
                assert(!is_digit(p[i - start], base as nat));
                return Err(ParseError::InvalidLiteral);
            },
        };
        let ghost k = i - start;
        proof {
            lemma_digits_val_step(p, base as nat, k);
        }
        let m = match acc.checked_mul(base) {
            Some(m) => m,
            None => {
                proof {
                    assert(digits_val(p.take(k + 1), base as nat) > u64::MAX);
                    lemma_digits_val_take_le(p, base as nat, k + 1);
                }
                return Err(ParseError::InvalidLiteral);
            },
        };
        acc = match m.checked_add(d) {
            Some(a) => a,
            None => {
                proof {
                    assert(digits_val(p.take(k + 1), base as nat) > u64::MAX);
                    lemma_digits_val_take_le(p, base as nat, k + 1);
                }
                return Err(ParseError::InvalidLiteral);
            },
        };
        i = i + 1;
    }
    assert(p.take(n - start) =~= p);
    Ok(acc)
}

} // verus!
