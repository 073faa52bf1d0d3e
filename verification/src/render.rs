//! The renderers: the decoded value is turned into the requested textual
//! representations, either as bare digit strings (simplified mode) or as
//! labelled, column-aligned blocks (detailed mode).
//!
//! Display order is fixed: hexadecimal, then decimal, then binary.

use vstd::prelude::*;
use vstd::string::{StrSliceExecFns, StringExecFns};

use crate::config::{Config, Format, Representation};
use crate::digits::{dec_chars, digit_char, hex_chars};

verus! {

/// The character of bit `i` of `v`: `1` where the bit is set.
pub open spec fn bit_char(v: u64, i: u64) -> char
    recommends
        i < 64,
{
    if (v >> i) & 1 == 1 {
        '1'
    } else {
        '0'
    }
}

/// The bits of `v` from bit `width - 1` down to bit 0, one character each,
/// most significant first, no separators.
pub open spec fn bin_chars(v: u64, width: nat) -> Seq<char>
    recommends
        width <= 64,
{
    Seq::new(width, |k: int| bit_char(v, ((width - 1) - k) as u64))
}

/// One bit of the detailed binary block: its character, followed by a space
/// after every fourth bit position.
pub open spec fn bit_chunk(v: u64, i: u64) -> Seq<char>
    recommends
        i < 64,
{
    if i % 4 == 0 {
        seq![bit_char(v, i), ' ']
    } else {
        seq![bit_char(v, i)]
    }
}

/// The bits of `v` from bit `hi` down to bit `lo`, most significant first,
/// with a space after every fourth bit position.
pub open spec fn spaced_bits(v: u64, hi: u64, lo: u64) -> Seq<char>
    recommends
        lo <= hi < 64,
    decreases hi - lo,
{
    if hi <= lo {
        bit_chunk(v, lo)
    } else {
        spaced_bits(v, hi, (lo + 1) as u64) + bit_chunk(v, lo)
    }
}

pub open spec fn spaces(n: nat) -> Seq<char> {
    Seq::new(n, |i: int| ' ')
}

/// Right-alignment of the labelled lines to their 39-character content
/// width.
pub open spec fn pad39(s: Seq<char>) -> Seq<char> {
    if s.len() >= 39 {
        s
    } else {
        spaces((39 - s.len()) as nat) + s
    }
}

/// The column labels under the high 32 bits of the detailed binary block.
pub open spec fn ruler_high() -> Seq<char> {
    "       60   56   52   48   44   40   36   32"@
}

/// The column labels under the low 32 bits of the detailed binary block.
pub open spec fn ruler_low() -> Seq<char> {
    "       28   24   20   16   12    8    4    0"@
}

pub open spec fn nl() -> Seq<char> {
    seq!['\n']
}

/// Simplified mode: the bare digit string of one representation, followed
/// by a newline. Binary prints exactly the configured bit width; decimal
/// and hexadecimal print without padding, hexadecimal lowercase and
/// unprefixed.
pub open spec fn spec_simplified(v: u64, repr: Representation, format: Format) -> Seq<char> {
    match repr {
        Representation::B => bin_chars(v, format.spec_width()) + nl(),
        Representation::D => dec_chars(v as nat) + nl(),
        Representation::H => hex_chars(v as nat) + nl(),
    }
}

/// Detailed mode: one labelled block per representation. Decimal and
/// hexadecimal are one line, right-aligned to a 39-character content
/// width. Binary is a multi-line block: the bit groups of the high half
/// (64-bit width only) and of the low half, each followed by its ruler of
/// column labels.
pub open spec fn spec_detailed(v: u64, repr: Representation, format: Format) -> Seq<char> {
    match repr {
        Representation::B => "bin: "@ + (match format {
            Format::U64 => spaced_bits(v, 63, 32) + nl() + ruler_high() + nl() + "     "@
                + spaced_bits(v, 31, 0) + nl() + ruler_low() + nl(),
            Format::U32 => spaced_bits(v, 31, 0) + nl() + ruler_low() + nl(),
        }),
        Representation::D => "dec: "@ + pad39(dec_chars(v as nat)) + nl(),
        Representation::H => "hex: "@ + pad39(hex_chars(v as nat)) + nl(),
    }
}

/// One representation of the configured value, in the configured mode.
pub open spec fn spec_piece(cfg: Config, repr: Representation) -> Seq<char> {
    if cfg.simplified {
        spec_simplified(cfg.value, repr, cfg.format)
    } else {
        spec_detailed(cfg.value, repr, cfg.format)
    }
}

/// The whole output: the requested representations in the fixed display
/// order hexadecimal, decimal, binary.
pub open spec fn spec_render(cfg: Config) -> Seq<char> {
    (if cfg.representation.h {
        spec_piece(cfg, Representation::H)
    } else {
        Seq::<char>::empty()
    }) + (if cfg.representation.d {
        spec_piece(cfg, Representation::D)
    } else {
        Seq::<char>::empty()
    }) + (if cfg.representation.b {
        spec_piece(cfg, Representation::B)
    } else {
        Seq::<char>::empty()
    })
}

/// A bit row of the detailed block spans whole four-bit groups: its length
/// is the bit count plus one space per group, and it consists of bit
/// characters and spaces only.
pub(crate) proof fn lemma_spaced_bits_shape(v: u64, hi: u64, lo: u64)
    requires
        lo % 4 == 0,
        hi % 4 == 3,
        lo <= hi < 64,
    ensures
        spaced_bits(v, hi, lo).len() == (hi - lo + 1) + (hi - lo + 1) / 4,
        forall|i: int|
            0 <= i < spaced_bits(v, hi, lo).len() ==> (#[trigger] spaced_bits(v, hi, lo)[i] == '0'
                || spaced_bits(v, hi, lo)[i] == '1' || spaced_bits(v, hi, lo)[i] == ' '),
    decreases hi - lo,
{
    let s = spaced_bits(v, hi, lo);
    let tail = seq![
        bit_char(v, (lo + 3) as u64),
        bit_char(v, (lo + 2) as u64),
        bit_char(v, (lo + 1) as u64),
        bit_char(v, lo),
        ' ',
    ];
    assert(s == spaced_bits(v, hi, (lo + 1) as u64) + bit_chunk(v, lo));
    assert(spaced_bits(v, hi, (lo + 1) as u64) == spaced_bits(v, hi, (lo + 2) as u64) + bit_chunk(
        v,
        (lo + 1) as u64,
    ));
    assert(spaced_bits(v, hi, (lo + 2) as u64) == spaced_bits(v, hi, (lo + 3) as u64) + bit_chunk(
        v,
        (lo + 2) as u64,
    ));
    if hi == lo + 3 {
        assert(spaced_bits(v, hi, (lo + 3) as u64) == bit_chunk(v, hi));
        assert(s =~= tail);
    } else {
        assert(spaced_bits(v, hi, (lo + 3) as u64) == spaced_bits(v, hi, (lo + 4) as u64)
            + bit_chunk(v, (lo + 3) as u64));
        lemma_spaced_bits_shape(v, hi, (lo + 4) as u64);
        let inner = spaced_bits(v, hi, (lo + 4) as u64);
        assert(s =~= inner + tail);
        assert forall|i: int|
            0 <= i < s.len() implies (#[trigger] s[i] == '0' || s[i] == '1' || s[i] == ' ') by {
            if i < inner.len() {
                assert(s[i] == inner[i]);
            } else {
                assert(s[i] == tail[i - inner.len()]);
            }
        }
    }
}

/// Append the single digit character for `d`.
fn append_digit(out: &mut String, d: u64)
    requires
        d < 16,
    ensures
        final(out)@ == old(out)@.push(digit_char(d as nat)),
{
    if d == 0 {
        proof {
            reveal_strlit("0");
        }
        out.append("0");
        proof {
            assert(out@ =~= old(out)@.push(digit_char(d as nat)));
        }
    } else if d == 1 {
        proof {
            reveal_strlit("1");
        }
        out.append("1");
        proof {
            assert(out@ =~= old(out)@.push(digit_char(d as nat)));
        }
    } else if d == 2 {
        proof {
            reveal_strlit("2");
        }
        out.append("2");
        proof {
            assert(out@ =~= old(out)@.push(digit_char(d as nat)));
        }
    } else if d == 3 {
        proof {
            reveal_strlit("3");
        }
        out.append("3");
        proof {
            assert(out@ =~= old(out)@.push(digit_char(d as nat)));
        }
    } else if d == 4 {
        proof {
            reveal_strlit("4");
        }
        out.append("4");
        proof {
            assert(out@ =~= old(out)@.push(digit_char(d as nat)));
        }
    } else if d == 5 {
        proof {
            reveal_strlit("5");
        }
        out.append("5");
        proof {
            assert(out@ =~= old(out)@.push(digit_char(d as nat)));
        }
    } else if d == 6 {
        proof {
            reveal_strlit("6");
        }
        out.append("6");
        proof {
            assert(out@ =~= old(out)@.push(digit_char(d as nat)));
        }
    } else if d == 7 {
        proof {
            reveal_strlit("7");
        }
        out.append("7");
        proof {
            assert(out@ =~= old(out)@.push(digit_char(d as nat)));
        }
    } else if d == 8 {
        proof {
            reveal_strlit("8");
        }
        out.append("8");
        proof {
            assert(out@ =~= old(out)@.push(digit_char(d as nat)));
        }
    } else if d == 9 {
        proof {
            reveal_strlit("9");
        }
        out.append("9");
        proof {
            assert(out@ =~= old(out)@.push(digit_char(d as nat)));
        }
    } else if d == 10 {
        proof {
            reveal_strlit("a");
        }
        out.append("a");
        proof {
            assert(out@ =~= old(out)@.push(digit_char(d as nat)));
        }
    } else if d == 11 {
        proof {
            reveal_strlit("b");
        }
        out.append("b");
        proof {
            assert(out@ =~= old(out)@.push(digit_char(d as nat)));
        }
    } else if d == 12 {
        proof {
            reveal_strlit("c");
        }
        out.append("c");
        proof {
            assert(out@ =~= old(out)@.push(digit_char(d as nat)));
        }
    } else if d == 13 {
        proof {
            reveal_strlit("d");
        }
        out.append("d");
        proof {
            assert(out@ =~= old(out)@.push(digit_char(d as nat)));
        }
    } else if d == 14 {
        proof {
            reveal_strlit("e");
        }
        out.append("e");
        proof {
            assert(out@ =~= old(out)@.push(digit_char(d as nat)));
        }
    } else {
        proof {
            reveal_strlit("f");
        }
        out.append("f");
        proof {
            assert(out@ =~= old(out)@.push(digit_char(d as nat)));
        }
    }
}

/// Append a newline.
fn append_newline(out: &mut String)
    ensures
        final(out)@ == old(out)@ + nl(),
{
    proof {
        reveal_strlit("\n");
    }
    out.append("\n");
    proof {
        assert(out@ =~= old(out)@ + nl());
    }
}

/// Append `n` spaces.
fn append_spaces(out: &mut String, n: usize)
    ensures
        final(out)@ == old(out)@ + spaces(n as nat),
{
    proof {
        reveal_strlit(" ");
    }
    let mut i: usize = 0;
    while i < n
        invariant
            i <= n,
            " "@ == seq![' '],
            out@ == old(out)@ + spaces(i as nat),
        decreases n - i,
    {
        out.append(" ");
        i = i + 1;
        proof {
            assert(out@ =~= old(out)@ + spaces(i as nat));
        }
    }
    proof {
        assert(out@ =~= old(out)@ + spaces(n as nat));
    }
}

/// Append the decimal digits of `v`.
fn append_dec(out: &mut String, v: u64)
    ensures
        final(out)@ == old(out)@ + dec_chars(v as nat),
    decreases v,
{
    if v < 10 {
        append_digit(out, v);
        proof {
            assert(out@ =~= old(out)@ + dec_chars(v as nat));
        }
    } else {
        append_dec(out, v / 10);
        append_digit(out, v % 10);
        proof {
            assert(out@ =~= old(out)@ + dec_chars(v as nat));
        }
    }
}

/// Append the lowercase hexadecimal digits of `v`.
fn append_hex(out: &mut String, v: u64)
    ensures
        final(out)@ == old(out)@ + hex_chars(v as nat),
    decreases v,
{
    if v < 16 {
        append_digit(out, v);
        proof {
            assert(out@ =~= old(out)@ + hex_chars(v as nat));
        }
    } else {
        append_hex(out, v / 16);
        append_digit(out, v % 16);
        proof {
            assert(out@ =~= old(out)@ + hex_chars(v as nat));
        }
    }
}

/// Append the bare bit characters of `v`, `width` of them, most significant
/// first.
fn append_bits(out: &mut String, v: u64, width: u64)
    requires
        1 <= width <= 64,
    ensures
        final(out)@ == old(out)@ + bin_chars(v, width as nat),
{
    let mut k: u64 = 0;
    while k < width
        invariant
            k <= width,
            width <= 64,
            out@ == old(out)@ + bin_chars(v, width as nat).take(k as int),
        decreases width - k,
    {
        let i = width - 1 - k;
        let b = (v >> i) & 1;
        if b == 1 {
            append_digit(out, 1);
        } else {
            append_digit(out, 0);
        }
        proof {
            assert(bin_chars(v, width as nat)[k as int] == bit_char(v, i));
            assert(bin_chars(v, width as nat).take(k + 1) =~= bin_chars(v, width as nat).take(
                k as int,
            ).push(bit_char(v, i)));
        }
        k = k + 1;
    }
    proof {
        assert(bin_chars(v, width as nat).take(width as int) =~= bin_chars(v, width as nat));
    }
}

/// Append the bits of `v` from bit `hi` down to bit `lo`, with a space after
/// every fourth bit position.
fn append_spaced_bits(out: &mut String, v: u64, hi: u64, lo: u64)
    requires
        lo <= hi < 64,
    ensures
        final(out)@ == old(out)@ + spaced_bits(v, hi, lo),
    decreases hi - lo,
{
    if hi > lo {
        append_spaced_bits(out, v, hi, lo + 1);
    }
    let b = (v >> lo) & 1;
    if b == 1 {
        append_digit(out, 1);
    } else {
        append_digit(out, 0);
    }
    if lo % 4 == 0 {
        proof {
            reveal_strlit(" ");
        }
        out.append(" ");
    }
    proof {
        assert(out@ =~= old(out)@ + spaced_bits(v, hi, lo));
    }
}

/// Render one representation in simplified mode: the bare digit string and
/// a newline, nothing else.
pub fn render_simplified(value: u64, repr: Representation, format: Format) -> (r: String)
    ensures
        r@ == spec_simplified(value, repr, format),
{
    let mut out = String::new();
    match repr {
        Representation::B => {
            let w = format.width();
            append_bits(&mut out, value, w);
        },
        Representation::D => {
            append_dec(&mut out, value);
        },
        Representation::H => {
            append_hex(&mut out, value);
        },
    }
    append_newline(&mut out);
    proof {
        assert(out@ =~= spec_simplified(value, repr, format));
    }
    out
}

/// Append the digit string of `v` (decimal or hexadecimal), right-aligned
/// to the 39-character content width.
fn append_padded(out: &mut String, v: u64, hexadecimal: bool)
    ensures
        hexadecimal ==> final(out)@ == old(out)@ + pad39(hex_chars(v as nat)),
        !hexadecimal ==> final(out)@ == old(out)@ + pad39(dec_chars(v as nat)),
{
    let mut buf = String::new();
    if hexadecimal {
        append_hex(&mut buf, v);
    } else {
        append_dec(&mut buf, v);
    }
    let len = buf.as_str().unicode_len();
    if len < 39 {
        append_spaces(out, 39 - len);
    }
    out.append(buf.as_str());
    proof {
        if hexadecimal {
            assert(out@ =~= old(out)@ + pad39(hex_chars(v as nat)));
        } else {
            assert(out@ =~= old(out)@ + pad39(dec_chars(v as nat)));
        }
    }
}

/// Render one representation in detailed mode: a labelled, column-aligned
/// line, or the labelled binary block with its rulers.
pub fn render_detailed(value: u64, repr: Representation, format: Format) -> (r: String)
    ensures
        r@ == spec_detailed(value, repr, format),
{
    let mut out = String::new();
    match repr {
        Representation::B => {
            out.append("bin: ");
            if let Format::U64 = format {
                append_spaced_bits(&mut out, value, 63, 32);
                append_newline(&mut out);
                out.append("       60   56   52   48   44   40   36   32");
                append_newline(&mut out);
                out.append("     ");
            }
            append_spaced_bits(&mut out, value, 31, 0);
            append_newline(&mut out);
            out.append("       28   24   20   16   12    8    4    0");
            append_newline(&mut out);
        },
        Representation::D => {
            out.append("dec: ");
            append_padded(&mut out, value, false);
            append_newline(&mut out);
        },
        Representation::H => {
            out.append("hex: ");
            append_padded(&mut out, value, true);
            append_newline(&mut out);
        },
    }
    proof {
        assert(out@ =~= spec_detailed(value, repr, format));
    }
    out
}

/// Render every requested representation of the configured value, in the
/// fixed display order hexadecimal, decimal, binary, each in the configured
/// mode.
pub fn render(cfg: &Config) -> (r: String)
    ensures
        r@ == spec_render(*cfg),
{
    let mut out = String::new();
    if cfg.representation.h {
        let piece = if cfg.simplified {
            render_simplified(cfg.value, Representation::H, cfg.format)
        } else {
            render_detailed(cfg.value, Representation::H, cfg.format)
        };
        out.append(piece.as_str());
    }
    if cfg.representation.d {
        let piece = if cfg.simplified {
            render_simplified(cfg.value, Representation::D, cfg.format)
        } else {
            render_detailed(cfg.value, Representation::D, cfg.format)
        };
        out.append(piece.as_str());
    }
    if cfg.representation.b {
        let piece = if cfg.simplified {
            render_simplified(cfg.value, Representation::B, cfg.format)
        } else {
            render_detailed(cfg.value, Representation::B, cfg.format)
        };
        out.append(piece.as_str());
    }
    proof {
        assert(out@ =~= spec_render(*cfg));
    }
    out
}

} // verus!
