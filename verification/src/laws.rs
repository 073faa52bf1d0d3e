//! The laws of the library: how decoding and rendering relate, stated over
//! the specification functions of the other modules and proved once for all
//! inputs.

use vstd::prelude::*;

use crate::config::{Format, Representation};
use crate::decode::{has_base_prefix, spec_decode, spec_payload, spec_radix};
use crate::digits::{
    all_digits, dec_chars, digit_val, digits_val, hex_chars, is_digit, is_lower_digit,
    lemma_dec_chars_strip, lemma_hex_chars_val, strip_zeros,
};
use crate::render::{
    bin_chars, bit_char, lemma_spaced_bits_shape, nl, ruler_high, ruler_low, spaced_bits,
    spec_detailed, spec_simplified,
};

verus! {

/// Decoding a valid decimal literal succeeds, and rendering the decoded
/// value in simplified decimal mode reproduces the literal with its leading
/// zeros stripped (a string of zeros decodes to 0, rendered as one `0`).
pub proof fn lemma_decimal_round_trip(s: Seq<char>, format: Format)
    requires
        s.len() >= 1,
        all_digits(s, 10),
        digits_val(s, 10) <= u64::MAX,
    ensures
        spec_decode(s) == Some((digits_val(s, 10) as u64)),
        spec_simplified((digits_val(s, 10) as u64), Representation::D, format) == strip_zeros(s)
            + nl(),
{
    assert(!has_base_prefix(s, 'b') && !has_base_prefix(s, 'x')) by {
        if s.len() >= 2 {
            assert(is_digit(s[1], 10));
            assert(digit_val('b') == 11);
            assert(s[1] != 'b');
            assert(s[1] != 'x');
        }
    }
    assert(spec_radix(s) == 10);
    assert(spec_payload(s) == s);
    assert(spec_decode(s) == Some((digits_val(s, 10) as u64)));
    lemma_dec_chars_strip(s);
    assert(dec_chars((digits_val(s, 10) as u64) as nat) == strip_zeros(s));
}

/// Decoding the simplified hexadecimal rendering, prefixed with `0x` again,
/// yields the value it was rendered from.
pub proof fn lemma_hex_round_trip(v: u64, format: Format)
    ensures
        spec_simplified(v, Representation::H, format) == hex_chars(v as nat) + nl(),
        spec_decode(seq!['0', 'x'] + hex_chars(v as nat)) == Some(v),
{
    lemma_hex_chars_val(v as nat);
    let h = hex_chars(v as nat);
    let s = seq!['0', 'x'] + h;
    assert(s.len() >= 3);
    assert(s[0] == '0' && s[1] == 'x');
    assert(has_base_prefix(s, 'x') && !has_base_prefix(s, 'b'));
    assert(spec_radix(s) == 16);
    assert(spec_payload(s) =~= h);
    assert(digits_val(h, 16) == v);
    assert(spec_decode(s) == Some(v));
}

/// The simplified hexadecimal rendering consists of lowercase digit
/// characters followed by one newline: in particular it is never empty,
/// carries no `0x` prefix and no uppercase digit.
pub proof fn lemma_simplified_hex_form(v: u64, format: Format)
    ensures
        ({
            let r = spec_simplified(v, Representation::H, format);
            &&& r.len() >= 2
            &&& r.last() == '\n'
            &&& forall|i: int| 0 <= i < r.len() - 1 ==> is_lower_digit(#[trigger] r[i])
            &&& forall|i: int| 0 <= i < r.len() - 1 ==> #[trigger] r[i] != 'x' && r[i] != 'X'
        }),
{
    lemma_hex_chars_val(v as nat);
    let h = hex_chars(v as nat);
    let r = spec_simplified(v, Representation::H, format);
    assert(r == h + nl());
    assert(r.last() == '\n');
    assert forall|i: int| 0 <= i < r.len() - 1 implies is_lower_digit(#[trigger] r[i]) by {
        assert(r[i] == h[i]);
    }
    assert forall|i: int| 0 <= i < r.len() - 1 implies #[trigger] r[i] != 'x' && r[i] != 'X' by {
        assert(r[i] == h[i]);
        assert(is_lower_digit(h[i]));
    }
}

/// The simplified binary rendering prints exactly the configured number of
/// bit characters, most significant first, and one newline: 32 characters
/// of `v`'s two's-complement pattern for the 32-bit width, 64 for the
/// 64-bit width.
pub proof fn lemma_simplified_binary_form(v: u64, format: Format)
    ensures
        ({
            let r = spec_simplified(v, Representation::B, format);
            let w = format.spec_width() as int;
            &&& r.len() == w + 1
            &&& r.last() == '\n'
            &&& forall|i: int| 0 <= i < w ==> #[trigger] r[i] == bit_char(v, (w - 1 - i) as u64)
            &&& forall|i: int| 0 <= i < w ==> #[trigger] r[i] == '0' || r[i] == '1'
        }),
{
    let r = spec_simplified(v, Representation::B, format);
    let w = format.spec_width() as int;
    let b = bin_chars(v, format.spec_width());
    assert(r == b + nl());
    assert(r.last() == '\n');
    assert forall|i: int| 0 <= i < w implies #[trigger] r[i] == bit_char(v, (w - 1 - i) as u64) by {
        assert(r[i] == b[i]);
    }
    assert forall|i: int| 0 <= i < w implies #[trigger] r[i] == '0' || r[i] == '1' by {
        assert(r[i] == b[i]);
    }
}

/// The detailed binary block at the 64-bit width always has the same shape,
/// whatever the value: two bit-group lines of 40 characters, each followed
/// by its ruler line of column labels, four lines in all.
pub proof fn lemma_detailed_binary_u64_shape(v: u64)
    ensures
        ({
            let r = spec_detailed(v, Representation::B, Format::U64);
            &&& r.len() == 182
            &&& r.subrange(5, 45) == spaced_bits(v, 63, 32)
            &&& r[45] == '\n'
            &&& r.subrange(46, 90) == ruler_high()
            &&& r[90] == '\n'
            &&& r.subrange(96, 136) == spaced_bits(v, 31, 0)
            &&& r[136] == '\n'
            &&& r.subrange(137, 181) == ruler_low()
            &&& r[181] == '\n'
            &&& forall|i: int|
                5 <= i < 45 || 96 <= i < 136 ==> (#[trigger] r[i] == '0' || r[i] == '1' || r[i]
                    == ' ')
        }),
{
    reveal_strlit("bin: ");
    reveal_strlit("     ");
    reveal_strlit("       60   56   52   48   44   40   36   32");
    reveal_strlit("       28   24   20   16   12    8    4    0");
    lemma_spaced_bits_shape(v, 63, 32);
    lemma_spaced_bits_shape(v, 31, 0);
    let r = spec_detailed(v, Representation::B, Format::U64);
    let high = spaced_bits(v, 63, 32);
    let low = spaced_bits(v, 31, 0);
    assert(high.len() == 40);
    assert(low.len() == 40);
    assert(ruler_high().len() == 44);
    assert(ruler_low().len() == 44);
    assert(r.len() == 182);
    assert(r.subrange(5, 45) =~= high);
    assert(r.subrange(46, 90) =~= ruler_high());
    assert(r.subrange(96, 136) =~= low);
    assert(r.subrange(137, 181) =~= ruler_low());
    assert(r[45] == '\n' && r[90] == '\n' && r[136] == '\n' && r[181] == '\n');
    assert forall|i: int|
        5 <= i < 45 || 96 <= i < 136 implies (#[trigger] r[i] == '0' || r[i] == '1' || r[i]
        == ' ') by {
        if 5 <= i < 45 {
            assert(r[i] == high[i - 5]);
        } else {
            assert(r[i] == low[i - 96]);
        }
    }
}

} // verus!

