use svd_parser::bitrange::BitRange;
use svd_parser::error::{check_name, is_valid_name, InvalidBitRange, NameError};
use svd_parser::num::{format_u32_dec, format_u32_hex8, parse_bool, parse_u32};
use svd_parser::svd::enums::{AccessType, Endian, ModifiedWriteValues, Usage};
use svd_parser::tree::Node;

fn t(tag: &str, text: &str) -> Node {
    Node {
        name: tag.to_string(),
        attributes: vec![],
        children: vec![],
        text: Some(text.to_string()),
    }
}

fn el(tag: &str, children: Vec<Node>) -> Node {
    Node { name: tag.to_string(), attributes: vec![], children, text: None }
}

#[test]
fn valid_names_are_accepted() {
    assert!(check_name("_foo").is_ok());
    assert!(check_name("TIM1").is_ok());
    assert!(check_name("a").is_ok());
    assert!(check_name("A_b_9").is_ok());
    assert!(is_valid_name("UART0_RX"));
}

#[test]
fn invalid_names_are_rejected() {
    assert!(check_name("").is_err());
    assert!(check_name("9abc").is_err());
    assert!(check_name("-tim").is_err());
    assert!(check_name("a b").is_err());
    assert!(!is_valid_name("a-b"));
    match check_name("9abc") {
        Err(NameError::Invalid(s)) => assert_eq!(s, "9abc"),
        _ => panic!("expected the offending string back"),
    }
}

#[test]
fn numeric_literal_grammar() {
    assert_eq!(parse_u32("123"), Some(123));
    assert_eq!(parse_u32("0"), Some(0));
    assert_eq!(parse_u32("0x1F"), Some(31));
    assert_eq!(parse_u32("0X1f"), Some(31));
    assert_eq!(parse_u32("#101"), Some(5));
    assert_eq!(parse_u32("0xFFFFFFFF"), Some(u32::MAX));
    assert_eq!(parse_u32("4294967295"), Some(u32::MAX));
    assert_eq!(parse_u32("4294967296"), None);
    assert_eq!(parse_u32("0x100000000"), None);
    assert_eq!(parse_u32(""), None);
    assert_eq!(parse_u32("0x"), None);
    assert_eq!(parse_u32("#"), None);
    assert_eq!(parse_u32("bogus"), None);
    assert_eq!(parse_u32("#102"), None);
}

#[test]
fn booleans() {
    assert_eq!(parse_bool("true"), Some(true));
    assert_eq!(parse_bool("false"), Some(false));
    assert_eq!(parse_bool("TRUE"), None);
    assert_eq!(parse_bool(""), None);
}

#[test]
fn canonical_number_rendering_round_trips() {
    assert_eq!(format_u32_dec(0), "0");
    assert_eq!(format_u32_dec(40010000), "40010000");
    assert_eq!(format_u32_hex8(0x40010000), "0x40010000");
    assert_eq!(format_u32_hex8(0), "0x00000000");
    assert_eq!(format_u32_hex8(0xDEADBEEF), "0xdeadbeef");
    assert_eq!(parse_u32(&format_u32_hex8(0x12345)), Some(0x12345));
    assert_eq!(parse_u32(&format_u32_dec(98765)), Some(98765));
}

#[test]
fn access_type_strings() {
    let n = el("access", vec![]);
    assert_eq!(AccessType::parse_str(&n, "read-only"), Ok(AccessType::ReadOnly));
    assert_eq!(AccessType::parse_str(&n, "read-write"), Ok(AccessType::ReadWrite));
    assert_eq!(AccessType::parse_str(&n, "read-writeOnce"), Ok(AccessType::ReadWriteOnce));
    assert_eq!(AccessType::parse_str(&n, "writeOnce"), Ok(AccessType::WriteOnce));
    assert_eq!(AccessType::parse_str(&n, "write-only"), Ok(AccessType::WriteOnly));
    assert_eq!(AccessType::ReadWriteOnce.encode_str(), "read-writeOnce");
}

#[test]
fn access_type_unknown_carries_the_string() {
    let n = el("access", vec![]);
    match AccessType::parse_str(&n, "bogus") {
        Err(svd_parser::error::AccessTypeError::Unknown(_, s)) => assert_eq!(s, "bogus"),
        _ => panic!("expected the unknown-variant error"),
    }
}

#[test]
fn endian_strings() {
    assert_eq!(Endian::parse_str("little"), Ok(Endian::Little));
    assert_eq!(Endian::parse_str("big"), Ok(Endian::Big));
    assert_eq!(Endian::parse_str("selectable"), Ok(Endian::Selectable));
    assert_eq!(Endian::parse_str("other"), Ok(Endian::Other));
    assert!(Endian::parse_str("middle").is_err());
    assert_eq!(Endian::Big.encode_str(), "big");
}

#[test]
fn modified_write_values_strings() {
    let n = el("modifiedWriteValues", vec![]);
    assert_eq!(
        ModifiedWriteValues::parse_str(&n, "oneToClear"),
        Ok(ModifiedWriteValues::OneToClear)
    );
    assert_eq!(ModifiedWriteValues::parse_str(&n, "set"), Ok(ModifiedWriteValues::SetAll));
    assert_eq!(ModifiedWriteValues::parse_str(&n, "modify"), Ok(ModifiedWriteValues::Modify));
    assert!(ModifiedWriteValues::parse_str(&n, "sometimes").is_err());
    assert_eq!(ModifiedWriteValues::ZeroToToggle.encode_str(), "zeroToToggle");
}

#[test]
fn usage_strings() {
    let n = el("usage", vec![]);
    assert_eq!(Usage::parse_str(&n, "read"), Ok(Usage::Read));
    assert_eq!(Usage::parse_str(&n, "write"), Ok(Usage::Write));
    assert_eq!(Usage::parse_str(&n, "read-write"), Ok(Usage::ReadWrite));
    assert!(Usage::parse_str(&n, "rw").is_err());
}

#[test]
fn bit_range_three_encodings_agree() {
    let by_offset = el("field", vec![t("bitOffset", "4"), t("bitWidth", "4")]);
    let by_msb_lsb = el("field", vec![t("msb", "7"), t("lsb", "4")]);
    let by_string = el("field", vec![t("bitRange", "[7:4]")]);
    let expected = BitRange { offset: 4, width: 4 };
    assert_eq!(BitRange::parse(&by_offset), Ok(expected));
    assert_eq!(BitRange::parse(&by_msb_lsb), Ok(expected));
    assert_eq!(BitRange::parse(&by_string), Ok(expected));
}

#[test]
fn bit_range_inverted_msb_lsb_fails() {
    let n = el("field", vec![t("msb", "3"), t("lsb", "7")]);
    match BitRange::parse(&n) {
        Err(svd_parser::error::BitRangeError::Invalid(_, k)) => {
            assert_eq!(k, InvalidBitRange::MsbLsb);
        },
        _ => panic!("expected the inverted-pair error"),
    }
    let s = el("field", vec![t("bitRange", "[3:7]")]);
    match BitRange::parse(&s) {
        Err(svd_parser::error::BitRangeError::Invalid(_, k)) => {
            assert_eq!(k, InvalidBitRange::MsbLsb);
        },
        _ => panic!("expected the inverted-pair error"),
    }
}

#[test]
fn bit_range_bad_shapes() {
    let no_brackets = el("field", vec![t("bitRange", "7:4")]);
    match BitRange::parse(&no_brackets) {
        Err(svd_parser::error::BitRangeError::Invalid(_, k)) => {
            assert_eq!(k, InvalidBitRange::Syntax);
        },
        _ => panic!("expected the syntax error"),
    }
    let no_colon = el("field", vec![t("bitRange", "[74]")]);
    match BitRange::parse(&no_colon) {
        Err(svd_parser::error::BitRangeError::Invalid(_, k)) => {
            assert_eq!(k, InvalidBitRange::Syntax);
        },
        _ => panic!("expected the syntax error"),
    }
    let not_numeric = el("field", vec![t("bitRange", "[7:x]")]);
    match BitRange::parse(&not_numeric) {
        Err(svd_parser::error::BitRangeError::Invalid(_, k)) => {
            assert_eq!(k, InvalidBitRange::ParseError);
        },
        _ => panic!("expected the numeric error"),
    }
    let nothing = el("field", vec![t("name", "F")]);
    assert!(BitRange::parse(&nothing).is_err());
}

#[test]
fn bit_range_encodes_canonically() {
    let br = BitRange { offset: 4, width: 4 };
    let cs = br.encode_children();
    assert_eq!(cs.len(), 2);
    assert_eq!(cs[0].name, "bitOffset");
    assert_eq!(cs[0].text.as_deref(), Some("4"));
    assert_eq!(cs[1].name, "bitWidth");
    assert_eq!(cs[1].text.as_deref(), Some("4"));
    let back = el("field", cs);
    assert_eq!(BitRange::parse(&back), Ok(br));
}
