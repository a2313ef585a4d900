use literalext::internal::backslash_u;
use literalext::internal::backslash_x;
use literalext::internal::byte;
use literalext::internal::byte_lit;
use literalext::internal::byte_str_lit;
use literalext::internal::char_lit;
use literalext::internal::float_lit;
use literalext::internal::int_lit;
use literalext::internal::next_chr;
use literalext::internal::raw_str;
use literalext::internal::str_lit;
use literalext::Decoded;
use literalext::DummyLiteral;
use literalext::FloatSuffix;
use literalext::IntSuffix;

#[test]
fn underscores_keep_the_value() {
    let plain = match int_lit("1921381902123123333") {
        Decoded::Value(lit) => lit,
        other => panic!("expected a value, got {:?}", other),
    };
    let spaced = match int_lit("1921381902_1231___23___333") {
        Decoded::Value(lit) => lit,
        other => panic!("expected a value, got {:?}", other),
    };
    assert_eq!(plain, spaced);
    assert_eq!(plain.as_u64(), Some(1921381902123123333));
    assert_eq!(int_lit("5"), int_lit("5_____"));
}

#[test]
fn base_prefixes() {
    assert_eq!(int_lit("0x7F").value().unwrap().as_u32(), Some(127));
    assert_eq!(int_lit("0X7F").value().unwrap().as_u32(), Some(127));
    assert_eq!(int_lit("0x7f").value().unwrap().as_u32(), Some(127));
    assert_eq!(int_lit("0b1001").value().unwrap().as_u32(), Some(9));
    assert_eq!(int_lit("0o73").value().unwrap().as_u32(), Some(59));
}

#[test]
fn suffix_binding() {
    let lit = int_lit("5u32").value().unwrap();
    assert_eq!(lit.suffix(), "u32");
    assert_eq!(lit.as_u8(), None);
    assert_eq!(lit.as_u32(), Some(5));
    assert_eq!(lit.as_u64(), None);

    let wide = int_lit("7usize").value().unwrap();
    assert_eq!(wide.suffix(), "usize");
    assert_eq!(wide.suffix, IntSuffix::Usize);
    assert_eq!(wide.as_u64(), None);
}

#[test]
fn overflow_yields_absent_value() {
    let lit = int_lit("99999999999999999999999999").value().unwrap();
    assert_eq!(lit.val, None);
    assert_eq!(lit.suffix(), "");
    assert_eq!(lit.as_u8(), None);
    assert_eq!(lit.as_i8(), None);
    assert_eq!(lit.as_u16(), None);
    assert_eq!(lit.as_i16(), None);
    assert_eq!(lit.as_u32(), None);
    assert_eq!(lit.as_i32(), None);
    assert_eq!(lit.as_u64(), None);
    assert_eq!(lit.as_i64(), None);

    // One past the 64-bit maximum, with the suffix preserved.
    let big = int_lit("18446744073709551616u32").value().unwrap();
    assert_eq!(big.val, None);
    assert_eq!(big.suffix(), "u32");
    assert_eq!(big.as_u32(), None);

    // The maximum itself still fits.
    let max = int_lit("18446744073709551615").value().unwrap();
    assert_eq!(max.as_u64(), Some(u64::MAX));
    assert_eq!(max.as_u32(), None);
}

#[test]
fn float_round_trip() {
    let a = float_lit("1.03e+23".to_string()).value().unwrap();
    assert_eq!(a.number.parse::<f64>().unwrap(), "1.03e23".parse::<f64>().unwrap());
    let b = float_lit("1.0_3e-23".to_string()).value().unwrap();
    assert_eq!(b.number.parse::<f64>().unwrap(), "1.03e-23".parse::<f64>().unwrap());

    let c = float_lit("2.5f32".to_string()).value().unwrap();
    assert_eq!(c.suffix(), "f32");
    assert_eq!(c.suffix, FloatSuffix::F32);
    assert_eq!(c.number, "2.5");

    let d = float_lit("5.".to_string()).value().unwrap();
    assert_eq!(d.number, "5.");
    assert_eq!(d.suffix, FloatSuffix::Empty);
}

#[test]
fn ints_and_floats_exclude_each_other() {
    assert!(matches!(float_lit("5".to_string()), Decoded::NotApplicable));
    assert!(matches!(int_lit("5.5"), Decoded::NotApplicable));
    assert!(matches!(float_lit("0x7f".to_string()), Decoded::NotApplicable));
    assert!(matches!(int_lit("1e9"), Decoded::NotApplicable));
    assert!(matches!(float_lit("5f64".to_string()), Decoded::Value(_)));
    assert!(matches!(int_lit("5f64"), Decoded::NotApplicable));
}

#[test]
fn byte_range_asymmetry() {
    assert_eq!(byte_str_lit("b\"\\xFF\""), Decoded::Value(vec![0xFF]));
    assert_eq!(byte_lit("b'\\xFF'"), Decoded::Value(0xFF));
    assert!(matches!(str_lit("\"\\xFF\""), Decoded::Malformed));
    assert!(matches!(char_lit("'\\xFF'"), Decoded::Malformed));
    assert_eq!(str_lit("\"\\x80\"").value().unwrap(), "\u{80}");
    assert_eq!(str_lit("\"\\x41\"").value().unwrap(), "A");
    assert!(matches!(str_lit("\"\\x81\""), Decoded::Malformed));
}

#[test]
fn quote_escapes() {
    assert_eq!(char_lit("'\\''"), Decoded::Value('\''));
    assert_eq!(char_lit("'\"'"), Decoded::Value('"'));
    assert_eq!(char_lit("'\\\"'"), Decoded::Value('"'));
    assert_eq!(byte_lit("b'\"'"), Decoded::Value(b'"'));
    assert_eq!(byte_lit("b'\\\"'"), Decoded::Value(b'"'));
    assert_eq!(byte_lit("b'\\''"), Decoded::Value(b'\''));
}

#[test]
fn doc_classification() {
    let outer = DummyLiteral("/// hello");
    assert_eq!(outer.parse_outer_doc(), Some("/// hello".to_string()));
    assert_eq!(outer.parse_inner_doc(), None);

    let inner = DummyLiteral("//! hello");
    assert_eq!(inner.parse_inner_doc(), Some("//! hello".to_string()));
    assert_eq!(inner.parse_outer_doc(), None);

    let plain = DummyLiteral("// hello");
    assert_eq!(plain.parse_inner_doc(), None);
    assert_eq!(plain.parse_outer_doc(), None);

    let block_outer = DummyLiteral("/** hello */");
    assert_eq!(block_outer.parse_outer_doc(), Some("/** hello */".to_string()));
    let block_inner = DummyLiteral("/*! hello */");
    assert_eq!(block_inner.parse_inner_doc(), Some("/*! hello */".to_string()));
}

#[test]
fn line_continuation() {
    assert_eq!(str_lit("\"a\\\n   b\"").value().unwrap(), "ab");
    assert_eq!(str_lit("\"a\\\r\n \t\n  b\"").value().unwrap(), "ab");
    assert_eq!(byte_str_lit("b\"a\\\n   b\"").value().unwrap(), b"ab".to_vec());
}

#[test]
fn malformed_inputs() {
    assert!(matches!(str_lit("\"abc"), Decoded::Malformed));
    assert!(matches!(str_lit("\"\\q\""), Decoded::Malformed));
    assert!(matches!(str_lit("\"\r\""), Decoded::Malformed));
    assert_eq!(str_lit("\"\r\\n\"").value(), None);
    assert!(matches!(char_lit("'ab'"), Decoded::Malformed));
    assert!(matches!(char_lit("'\\u{D800}'"), Decoded::Malformed));
    assert!(matches!(char_lit("'\\u{110000}'"), Decoded::Malformed));
    assert_eq!(char_lit("'\\u{}'"), Decoded::Value('\0'));
    assert!(matches!(int_lit("0b2"), Decoded::Malformed));
    assert!(matches!(int_lit("0o8"), Decoded::Malformed));
    assert!(matches!(float_lit("1e+-5".to_string()), Decoded::Malformed));
    assert!(matches!(float_lit("5.5.5".to_string()), Decoded::Malformed));
    assert!(matches!(float_lit("5.5e".to_string()), Decoded::Malformed));
    assert!(matches!(raw_str("rust"), None));
}

#[test]
fn raw_and_cursor_helpers() {
    assert_eq!(raw_str("r#\"abc\"#"), Some("abc"));
    assert_eq!(next_chr("abc"), 'a');
    assert_eq!(next_chr(""), '\0');
    // A raw string with a quote fence only.
    assert_eq!(str_lit("r\"x\"").value().unwrap(), "x");
}

#[test]
fn crlf_and_raw_edges() {
    assert_eq!(str_lit("\"a\r\nb\"").value().unwrap(), "a\nb");
    assert_eq!(byte_str_lit("b\"a\r\nb\"").value().unwrap(), b"a\nb".to_vec());
    assert!(matches!(str_lit("r#\"x"), Decoded::Malformed));
    assert!(matches!(byte_str_lit("br#\"x"), Decoded::Malformed));
    let iso = int_lit("3isize").value().unwrap();
    assert_eq!(iso.suffix(), "isize");
    assert_eq!(iso.as_i64(), None);
}

#[test]
fn cursor_and_escape_helpers() {
    assert_eq!(byte(b"abc", 1), b'b');
    assert_eq!(byte(b"abc", 5), 0);
    let (rest, v) = backslash_x(b"4fzz").unwrap();
    assert_eq!(v, 0x4f);
    assert_eq!(rest, b"zz");
    assert!(backslash_x(b"4").is_none());
    assert!(backslash_x(b"xy").is_none());
    let (rest, c) = backslash_u("{1F415}tail").unwrap();
    assert_eq!(c, '\u{1F415}');
    assert_eq!(rest, "tail");
    assert!(backslash_u("{D800}'").is_none());
    assert!(backslash_u("1F415}").is_none());
}
