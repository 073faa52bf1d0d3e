use numrepr::config::{parse_format, EnumSetParser, Format, Representation, ReprSet};
use numrepr::error::ParseError;

fn comma() -> EnumSetParser {
    EnumSetParser::new(',')
}

#[test]
fn new_stores_separator() {
    assert_eq!(EnumSetParser::new(',').sep_char, ',');
    assert_eq!(EnumSetParser::new(';').sep_char, ';');
}

#[test]
fn parse_full_list() {
    let set = comma().parse("h,d,b").unwrap();
    assert!(set.h && set.d && set.b);
}

#[test]
fn parse_is_case_insensitive() {
    let set = comma().parse("H,D,B").unwrap();
    assert!(set.h && set.d && set.b);
}

#[test]
fn parse_single_token() {
    let set = comma().parse("b").unwrap();
    assert!(set.b && !set.d && !set.h);
}

#[test]
fn parse_duplicates_collapse() {
    let set = comma().parse("b,b,b").unwrap();
    assert_eq!(set, ReprSet { b: true, d: false, h: false });
}

#[test]
fn parse_contains_matches_fields() {
    let set = comma().parse("h,b").unwrap();
    assert!(set.contains(Representation::H));
    assert!(!set.contains(Representation::D));
    assert!(set.contains(Representation::B));
}

#[test]
fn parse_unknown_token() {
    assert_eq!(comma().parse("x"), Err(ParseError::InvalidRepresentation));
}

#[test]
fn parse_multichar_token() {
    assert_eq!(comma().parse("hd"), Err(ParseError::InvalidRepresentation));
}

#[test]
fn parse_empty_token_between_separators() {
    assert_eq!(comma().parse("h,,b"), Err(ParseError::InvalidRepresentation));
}

#[test]
fn parse_empty_input() {
    assert_eq!(comma().parse(""), Err(ParseError::InvalidRepresentation));
}

#[test]
fn parse_trailing_separator() {
    assert_eq!(comma().parse("h,"), Err(ParseError::InvalidRepresentation));
}

#[test]
fn parse_other_separator() {
    let set = EnumSetParser::new(';').parse("h;d").unwrap();
    assert!(set.h && set.d && !set.b);
}

#[test]
fn invalid_representation_message() {
    assert_eq!(
        ParseError::InvalidRepresentation.message(),
        "invalid representation list"
    );
}

#[test]
fn format_u32() {
    assert_eq!(parse_format("u32"), Ok(Format::U32));
}

#[test]
fn format_u64() {
    assert_eq!(parse_format("u64"), Ok(Format::U64));
}

#[test]
fn format_rejects_other_tokens() {
    assert_eq!(parse_format("u16"), Err(ParseError::InvalidFormat));
    assert_eq!(parse_format("U32"), Err(ParseError::InvalidFormat));
    assert_eq!(parse_format(""), Err(ParseError::InvalidFormat));
    assert_eq!(parse_format("u321"), Err(ParseError::InvalidFormat));
}

#[test]
fn format_width() {
    assert_eq!(Format::U32.width(), 32);
    assert_eq!(Format::U64.width(), 64);
}

#[test]
fn invalid_format_message() {
    assert_eq!(
        ParseError::InvalidFormat.message(),
        "invalid format, expected u32 or u64"
    );
}
