//! Digit characters and digit strings: the mathematical model shared by the
//! literal decoder and the renderers.

use vstd::prelude::*;

verus! {

/// Numeric value of a digit character (`0-9`, `a-f`, `A-F`); 0 elsewhere.
pub open spec fn digit_val(c: char) -> nat {
    let u = c as u32;
    if 48 <= u <= 57 {
        (u - 48) as nat
    } else if 97 <= u <= 102 {
        (u - 87) as nat
    } else if 65 <= u <= 70 {
        (u - 55) as nat
    } else {
        0
    }
}

/// Whether `c` is a digit character admissible in the given base.
/// Hexadecimal digits are accepted in either case.
pub open spec fn is_digit(c: char, base: nat) -> bool {
    let u = c as u32;
    (48 <= u <= 57 || 97 <= u <= 102 || 65 <= u <= 70) && digit_val(c) < base
}

pub open spec fn all_digits(s: Seq<char>, base: nat) -> bool {
    forall|i: int| 0 <= i < s.len() ==> is_digit(s[i], base)
}

/// Value of a digit string read most-significant-first.
pub open spec fn digits_val(s: Seq<char>, base: nat) -> nat
    decreases s.len(),
{
    if s.len() == 0 {
        0
    } else {
        digits_val(s.drop_last(), base) * base + digit_val(s.last())
    }
}

/// The canonical (lowercase) digit character for a value below 16.
pub open spec fn digit_char(d: nat) -> char {
    if d == 0 {
        '0'
    } else if d == 1 {
        '1'
    } else if d == 2 {
        '2'
    } else if d == 3 {
        '3'
    } else if d == 4 {
        '4'
    } else if d == 5 {
        '5'
    } else if d == 6 {
        '6'
    } else if d == 7 {
        '7'
    } else if d == 8 {
        '8'
    } else if d == 9 {
        '9'
    } else if d == 10 {
        'a'
    } else if d == 11 {
        'b'
    } else if d == 12 {
        'c'
    } else if d == 13 {
        'd'
    } else if d == 14 {
        'e'
    } else {
        'f'
    }
}

/// The canonical decimal rendering of `v`: no sign, no leading zeros,
/// `0` rendered as a single `0`.
pub open spec fn dec_chars(v: nat) -> Seq<char>
    decreases v,
{
    if v < 10 {
        seq![digit_char(v)]
    } else {
        dec_chars(v / 10).push(digit_char(v % 10))
    }
}

/// The canonical lowercase hexadecimal rendering of `v`: no prefix,
/// no leading zeros, `0` rendered as a single `0`.
pub open spec fn hex_chars(v: nat) -> Seq<char>
    decreases v,
{
    if v < 16 {
        seq![digit_char(v)]
    } else {
        hex_chars(v / 16).push(digit_char(v % 16))
    }
}

proof fn lemma_digit_char_val(d: nat)
    requires
        d < 16,
    ensures
        digit_val(digit_char(d)) == d,
        is_digit(digit_char(d), 16),
        d < 10 ==> is_digit(digit_char(d), 10),
        d < 2 ==> is_digit(digit_char(d), 2),
        is_lower_digit(digit_char(d)),
{
}

/// A lowercase digit character: `0-9` or `a-f`.
pub open spec fn is_lower_digit(c: char) -> bool {
    let u = c as u32;
    48 <= u <= 57 || 97 <= u <= 102
}

proof fn lemma_dec_chars_len(v: nat)
    ensures
        dec_chars(v).len() >= 1,
        dec_chars(v).len() == 1 ==> v < 10,
    decreases v,
{
    if v >= 10 {
        lemma_dec_chars_len(v / 10);
    }
}

proof fn lemma_hex_chars_len(v: nat)
    ensures
        hex_chars(v).len() >= 1,
        hex_chars(v).len() == 1 ==> v < 16,
    decreases v,
{
    if v >= 16 {
        lemma_hex_chars_len(v / 16);
    }
}

/// The decimal rendering consists of decimal digits, has the rendered value,
/// and carries no leading zero.
pub proof fn lemma_dec_chars_val(v: nat)
    ensures
        dec_chars(v).len() >= 1,
        all_digits(dec_chars(v), 10),
        digits_val(dec_chars(v), 10) == v,
        dec_chars(v).len() > 1 ==> dec_chars(v)[0] != '0',
    decreases v,
{
    lemma_dec_chars_len(v);
    if v < 10 {
        lemma_digit_char_val(v);
        assert(dec_chars(v) == seq![digit_char(v)]);
        assert(dec_chars(v).last() == digit_char(v));
        assert(digits_val(dec_chars(v), 10) == digits_val(dec_chars(v).drop_last(), 10) * 10
            + digit_val(digit_char(v)));
        assert(dec_chars(v).drop_last().len() == 0);
        assert(digits_val(dec_chars(v).drop_last(), 10) == 0);
        assert(digits_val(dec_chars(v), 10) == v);
    } else {
        lemma_dec_chars_val(v / 10);
        lemma_digit_char_val(v % 10);
        let s = dec_chars(v);
        let t = dec_chars(v / 10);
        assert(s == t.push(digit_char(v % 10)));
        assert(s.drop_last() =~= t);
        assert(s.last() == digit_char(v % 10));
        assert(digits_val(s, 10) == digits_val(t, 10) * 10 + digit_val(digit_char(v % 10)));
        vstd::arithmetic::div_mod::lemma_fundamental_div_mod(v as int, 10);
        assert(s[0] == t[0]);
        assert(t[0] != '0') by {
            if t.len() == 1 {
                lemma_dec_chars_len(v / 10);
                assert(t == seq![digit_char(v / 10)]);
                lemma_digit_char_val(v / 10);
                assert(digit_val(t[0]) == v / 10 >= 1);
            }
        }
        assert forall|i: int| 0 <= i < s.len() implies is_digit(#[trigger] s[i], 10) by {
            if i < s.len() - 1 {
                assert(s[i] == t[i]);
            }
        }
    }
}

/// The hexadecimal rendering consists of lowercase hexadecimal digits,
/// has the rendered value, and carries no leading zero.
pub proof fn lemma_hex_chars_val(v: nat)
    ensures
        hex_chars(v).len() >= 1,
        all_digits(hex_chars(v), 16),
        digits_val(hex_chars(v), 16) == v,
        hex_chars(v).len() > 1 ==> hex_chars(v)[0] != '0',
        forall|i: int| 0 <= i < hex_chars(v).len() ==> is_lower_digit(#[trigger] hex_chars(v)[i]),
    decreases v,
{
    lemma_hex_chars_len(v);
    if v < 16 {
        lemma_digit_char_val(v);
        assert(hex_chars(v) == seq![digit_char(v)]);
        assert(hex_chars(v).last() == digit_char(v));
        assert(digits_val(hex_chars(v), 16) == digits_val(hex_chars(v).drop_last(), 16) * 16
            + digit_val(digit_char(v)));
        assert(hex_chars(v).drop_last().len() == 0);
        assert(digits_val(hex_chars(v).drop_last(), 16) == 0);
        assert(digits_val(hex_chars(v), 16) == v);
    } else {
        lemma_hex_chars_val(v / 16);
        lemma_digit_char_val(v % 16);
        let s = hex_chars(v);
        let t = hex_chars(v / 16);
        assert(s == t.push(digit_char(v % 16)));
        assert(s.drop_last() =~= t);
        assert(s.last() == digit_char(v % 16));
        assert(digits_val(s, 16) == digits_val(t, 16) * 16 + digit_val(digit_char(v % 16)));
        vstd::arithmetic::div_mod::lemma_fundamental_div_mod(v as int, 16);
        assert(s[0] == t[0]);
        assert(t[0] != '0') by {
            if t.len() == 1 {
                lemma_hex_chars_len(v / 16);
                assert(t == seq![digit_char(v / 16)]);
                lemma_digit_char_val(v / 16);
                assert(digit_val(t[0]) == v / 16 >= 1);
            }
        }
        assert forall|i: int| 0 <= i < s.len() implies is_digit(#[trigger] s[i], 16) by {
            if i < s.len() - 1 {
                assert(s[i] == t[i]);
            }
        }
        assert forall|i: int| 0 <= i < s.len() implies is_lower_digit(#[trigger] s[i]) by {
            if i < s.len() - 1 {
                assert(s[i] == t[i]);
            }
        }
    }
}

/// `s` with its leading zeros removed; a string of zeros alone keeps one.
pub open spec fn strip_zeros(s: Seq<char>) -> Seq<char>
    decreases s.len(),
{
    if s.len() <= 1 {
        s
    } else if s[0] == '0' {
        strip_zeros(s.skip(1))
    } else {
        s
    }
}

/// A decimal digit character is recovered from its value.
proof fn lemma_digit_char_of(c: char)
    requires
        is_digit(c, 10),
    ensures
        digit_val(c) < 10,
        digit_char(digit_val(c)) == c,
{
}

proof fn lemma_all_zero_gives_val_zero(s: Seq<char>)
    requires
        forall|i: int| 0 <= i < s.len() ==> s[i] == '0',
    ensures
        digits_val(s, 10) == 0,
    decreases s.len(),
{
    if s.len() > 0 {
        lemma_all_zero_gives_val_zero(s.drop_last());
        assert(s.last() == s[s.len() - 1]);
        assert(digit_val('0') == 0);
    }
}

proof fn lemma_val_zero_gives_all_zero(s: Seq<char>)
    requires
        all_digits(s, 10),
        digits_val(s, 10) == 0,
    ensures
        forall|i: int| 0 <= i < s.len() ==> s[i] == '0',
    decreases s.len(),
{
    if s.len() > 0 {
        let t = s.drop_last();
        assert(digits_val(t, 10) * 10 + digit_val(s.last()) == 0);
        assert(all_digits(t, 10)) by {
            assert(forall|i: int| 0 <= i < t.len() ==> t[i] == s[i] && is_digit(#[trigger] s[i], 10));
        }
        lemma_val_zero_gives_all_zero(t);
        assert(is_digit(s.last(), 10));
        assert(digit_val(s.last()) == 0);
        lemma_digit_char_of(s.last());
        assert(s.last() == digit_char(0));
        assert forall|i: int| 0 <= i < s.len() implies s[i] == '0' by {
            if i < s.len() - 1 {
                assert(s[i] == t[i]);
            } else {
                assert(s[i] == s.last());
            }
        }
    }
}

proof fn lemma_strip_prefix_zeros(s: Seq<char>)
    requires
        s.len() >= 1,
        forall|i: int| 0 <= i < s.len() - 1 ==> s[i] == '0',
    ensures
        strip_zeros(s) == seq![s.last()],
    decreases s.len(),
{
    if s.len() == 1 {
        assert(s =~= seq![s.last()]);
    } else {
        let t = s.skip(1);
        assert(s[0] == '0');
        assert(forall|i: int| 0 <= i < t.len() - 1 ==> t[i] == s[i + 1] && #[trigger] t[i] == '0');
        lemma_strip_prefix_zeros(t);
        assert(t.last() == s.last());
    }
}

proof fn lemma_strip_push(t: Seq<char>, c: char)
    requires
        t.len() >= 1,
        exists|i: int| 0 <= i < t.len() && t[i] != '0',
    ensures
        strip_zeros(t.push(c)) == strip_zeros(t).push(c),
    decreases t.len(),
{
    let s = t.push(c);
    if t[0] == '0' {
        let w = choose|i: int| 0 <= i < t.len() && t[i] != '0';
        assert(w >= 1);
        assert(t.len() >= 2);
        assert(s[0] == '0');
        assert(s.skip(1) =~= t.skip(1).push(c));
        assert(t.skip(1)[w - 1] == t[w]);
        lemma_strip_push(t.skip(1), c);
        assert(strip_zeros(t) == strip_zeros(t.skip(1)));
    } else {
        assert(s[0] != '0');
        assert(strip_zeros(s) == s);
        assert(strip_zeros(t) == t);
    }
}

/// Rendering the value of a decimal digit string reproduces the string with
/// its leading zeros stripped.
pub proof fn lemma_dec_chars_strip(s: Seq<char>)
    requires
        s.len() >= 1,
        all_digits(s, 10),
    ensures
        dec_chars(digits_val(s, 10)) == strip_zeros(s),
    decreases s.len(),
{
    if s.len() == 1 {
        assert(is_digit(s[0], 10));
        lemma_digit_char_of(s[0]);
        assert(s.drop_last().len() == 0);
        assert(digits_val(s, 10) == digits_val(s.drop_last(), 10) * 10 + digit_val(s.last()));
        assert(digits_val(s, 10) == digit_val(s[0]));
        assert(dec_chars(digits_val(s, 10)) == seq![digit_char(digit_val(s[0]))]);
        assert(dec_chars(digits_val(s, 10)) =~= s);
    } else {
        let t = s.drop_last();
        let c = s.last();
        let v = digits_val(s, 10);
        assert(is_digit(c, 10));
        lemma_digit_char_of(c);
        assert(all_digits(t, 10)) by {
            assert(forall|i: int| 0 <= i < t.len() ==> t[i] == s[i] && is_digit(#[trigger] s[i], 10));
        }
        assert(v == digits_val(t, 10) * 10 + digit_val(c));
        if digits_val(t, 10) == 0 {
            lemma_val_zero_gives_all_zero(t);
            assert forall|i: int| 0 <= i < s.len() - 1 implies s[i] == '0' by {
                assert(s[i] == t[i]);
            }
            lemma_strip_prefix_zeros(s);
            assert(v == digit_val(c));
            assert(dec_chars(v) == seq![digit_char(digit_val(c))]);
            assert(dec_chars(v) =~= seq![c]);
        } else {
            assert(digits_val(t, 10) * 10 >= 10) by (nonlinear_arith)
                requires
                    digits_val(t, 10) >= 1,
            ;
            assert(v >= 10);
            vstd::arithmetic::div_mod::lemma_fundamental_div_mod_converse_div(
                v as int,
                10,
                digits_val(t, 10) as int,
                digit_val(c) as int,
            );
            vstd::arithmetic::div_mod::lemma_fundamental_div_mod_converse_mod(
                v as int,
                10,
                digits_val(t, 10) as int,
                digit_val(c) as int,
            );
            assert(v / 10 == digits_val(t, 10));
            assert(v % 10 == digit_val(c));
            assert(dec_chars(v) == dec_chars(digits_val(t, 10)).push(digit_char(digit_val(c))));
            lemma_dec_chars_strip(t);
            assert(exists|i: int| 0 <= i < t.len() && t[i] != '0') by {
                if forall|i: int| 0 <= i < t.len() ==> #[trigger] t[i] == '0' {
                    lemma_all_zero_gives_val_zero(t);
                }
            }
            lemma_strip_push(t, c);
            assert(s =~= t.push(c));
            assert(dec_chars(v) == strip_zeros(t).push(c));
        }
    }
}

} // verus!
