use numrepr::config::{Config, Format, Representation, ReprSet};
use numrepr::decode::decode_literal;
use numrepr::render::{render, render_detailed, render_simplified};

const RULER_HIGH: &str = "       60   56   52   48   44   40   36   32";
const RULER_LOW: &str = "       28   24   20   16   12    8    4    0";

#[test]
fn simplified_binary_u32_of_255() {
    // Input 0xFF with -s -r b -f u32.
    let out = render_simplified(255, Representation::B, Format::U32);
    assert_eq!(out, "00000000000000000000000011111111\n");
}

#[test]
fn simplified_binary_u32_pattern() {
    let out = render_simplified(5, Representation::B, Format::U32);
    assert_eq!(out, "00000000000000000000000000000101\n");
    let out = render_simplified(u64::MAX, Representation::B, Format::U32);
    assert_eq!(out, "11111111111111111111111111111111\n");
}

#[test]
fn simplified_binary_u32_is_32_chars() {
    for v in [0u64, 1, 2, 41, 1 << 31, u64::MAX] {
        let out = render_simplified(v, Representation::B, Format::U32);
        assert_eq!(out.len(), 33);
        assert!(out.ends_with('\n'));
        assert!(out[..32].chars().all(|c| c == '0' || c == '1'));
    }
}

#[test]
fn simplified_binary_u64_is_64_chars() {
    for v in [0u64, 1, 42, 1 << 63, u64::MAX] {
        let out = render_simplified(v, Representation::B, Format::U64);
        assert_eq!(out.len(), 65);
        assert!(out.ends_with('\n'));
        assert!(out[..64].chars().all(|c| c == '0' || c == '1'));
    }
    let out = render_simplified(1, Representation::B, Format::U64);
    assert_eq!(out, format!("{}1\n", "0".repeat(63)));
}

#[test]
fn simplified_decimal() {
    assert_eq!(render_simplified(42, Representation::D, Format::U32), "42\n");
    assert_eq!(render_simplified(0, Representation::D, Format::U32), "0\n");
    assert_eq!(
        render_simplified(u64::MAX, Representation::D, Format::U64),
        "18446744073709551615\n"
    );
}

#[test]
fn simplified_decimal_strips_leading_zeros() {
    let v = decode_literal("0042").unwrap();
    assert_eq!(render_simplified(v, Representation::D, Format::U32), "42\n");
    let v = decode_literal("000").unwrap();
    assert_eq!(render_simplified(v, Representation::D, Format::U32), "0\n");
}

#[test]
fn simplified_hex_is_lowercase_and_unprefixed() {
    assert_eq!(render_simplified(255, Representation::H, Format::U32), "ff\n");
    assert_eq!(
        render_simplified(0xdead_beef, Representation::H, Format::U32),
        "deadbeef\n"
    );
    assert_eq!(
        render_simplified(u64::MAX, Representation::H, Format::U64),
        "ffffffffffffffff\n"
    );
}

#[test]
fn hex_round_trip() {
    for v in [0u64, 1, 42, 255, 0xdead_beef, u64::MAX] {
        let out = render_simplified(v, Representation::H, Format::U32);
        let literal = format!("0x{}", out.trim_end());
        assert_eq!(decode_literal(&literal), Ok(v));
    }
}

#[test]
fn detailed_decimal_is_right_aligned() {
    let out = render_detailed(42, Representation::D, Format::U32);
    assert_eq!(out, format!("dec: {:39}\n", 42u64));
}

#[test]
fn detailed_hex_is_right_aligned() {
    let out = render_detailed(42, Representation::H, Format::U32);
    assert_eq!(out, format!("hex: {:39x}\n", 42u64));
    assert!(out.trim_end().ends_with("2a"));
}

#[test]
fn detailed_binary_u32_of_42() {
    let out = render_detailed(42, Representation::B, Format::U32);
    let expected = format!(
        "bin: 0000 0000 0000 0000 0000 0000 0010 1010 \n{}\n",
        RULER_LOW
    );
    assert_eq!(out, expected);
}

#[test]
fn detailed_binary_u64_has_two_rulers() {
    for v in [0u64, 42, u64::MAX] {
        let out = render_detailed(v, Representation::B, Format::U64);
        let lines: Vec<&str> = out.split('\n').collect();
        // Four lines, each terminated by a newline.
        assert_eq!(lines.len(), 5);
        assert_eq!(lines[4], "");
        assert!(lines[0].starts_with("bin: "));
        assert_eq!(lines[0].len(), 45);
        assert_eq!(lines[1], RULER_HIGH);
        assert_eq!(lines[2].len(), 45);
        assert!(lines[2].starts_with("     "));
        assert_eq!(lines[3], RULER_LOW);
    }
}

#[test]
fn detailed_binary_u64_of_one() {
    let out = render_detailed(1, Representation::B, Format::U64);
    let expected = format!(
        "bin: 0000 0000 0000 0000 0000 0000 0000 0000 \n{}\n     0000 0000 0000 0000 0000 0000 0000 0001 \n{}\n",
        RULER_HIGH, RULER_LOW
    );
    assert_eq!(out, expected);
}

#[test]
fn detailed_default_flags_for_42() {
    // Input 42 with default flags: detailed mode, all representations,
    // 32-bit binary width.
    let cfg = Config {
        format: Format::U32,
        representation: ReprSet { b: true, d: true, h: true },
        simplified: false,
        value: 42,
    };
    let out = render(&cfg);
    assert!(out.contains("hex: "));
    assert!(out.contains("dec: "));
    assert!(out.contains("bin: "));
    let lines: Vec<&str> = out.lines().collect();
    assert!(lines[0].starts_with("hex: ") && lines[0].ends_with("2a"));
    assert!(lines[1].starts_with("dec: ") && lines[1].ends_with("42"));
    assert!(lines[2].ends_with("0010 1010 "));
    assert_eq!(lines[3], RULER_LOW);
}

#[test]
fn render_uses_fixed_display_order() {
    let cfg = Config {
        format: Format::U32,
        representation: ReprSet { b: true, d: true, h: true },
        simplified: true,
        value: 255,
    };
    let out = render(&cfg);
    assert_eq!(out, "ff\n255\n00000000000000000000000011111111\n");
}

#[test]
fn render_only_requested_representations() {
    let cfg = Config {
        format: Format::U64,
        representation: ReprSet { b: false, d: true, h: false },
        simplified: true,
        value: 7,
    };
    assert_eq!(render(&cfg), "7\n");
    let none = Config {
        format: Format::U32,
        representation: ReprSet { b: false, d: false, h: false },
        simplified: false,
        value: 7,
    };
    assert_eq!(render(&none), "");
}
