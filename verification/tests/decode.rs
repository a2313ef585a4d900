use literalext::internal::string_filter;
use literalext::Decoded;
use literalext::DummyLiteral;
use literalext::IntLit;

fn assert_no_int(dl: &DummyLiteral) {
    assert!(matches!(dl.parse_int(), Decoded::NotApplicable));
}

fn assert_no_float(dl: &DummyLiteral) {
    assert!(matches!(dl.parse_float(), Decoded::NotApplicable));
}

fn assert_no_string(dl: &DummyLiteral) {
    assert!(matches!(dl.parse_string(), Decoded::NotApplicable));
}

fn assert_no_char(dl: &DummyLiteral) {
    assert!(matches!(dl.parse_char(), Decoded::NotApplicable));
}

fn assert_no_bytes(dl: &DummyLiteral) {
    assert!(matches!(dl.parse_bytes(), Decoded::NotApplicable));
}

fn assert_no_byte(dl: &DummyLiteral) {
    assert!(matches!(dl.parse_byte(), Decoded::NotApplicable));
}

fn assert_no_docs(dl: &DummyLiteral) {
    assert_eq!(dl.parse_inner_doc(), None);
    assert_eq!(dl.parse_outer_doc(), None);
}

fn parse_int_value(text: &str) -> IntLit {
    let dl = DummyLiteral(text);
    let lit = match dl.parse_int() {
        Decoded::Value(lit) => lit,
        _ => panic!("Unable to parse {} as an integer", text),
    };
    assert_no_float(&dl);
    assert_no_string(&dl);
    assert_no_char(&dl);
    assert_no_bytes(&dl);
    assert_no_byte(&dl);
    assert_no_docs(&dl);
    lit
}

fn check_int_all(text: &str, v: i64) {
    let lit = parse_int_value(text);
    assert_eq!(lit.as_u8(), Some(v as u8), "Unable to extract {} with as_u8", text);
    assert_eq!(lit.as_i8(), Some(v as i8), "Unable to extract {} with as_i8", text);
    assert_eq!(lit.as_u16(), Some(v as u16), "Unable to extract {} with as_u16", text);
    assert_eq!(lit.as_i16(), Some(v as i16), "Unable to extract {} with as_i16", text);
    assert_eq!(lit.as_u32(), Some(v as u32), "Unable to extract {} with as_u32", text);
    assert_eq!(lit.as_i32(), Some(v as i32), "Unable to extract {} with as_i32", text);
    assert_eq!(lit.as_u64(), Some(v as u64), "Unable to extract {} with as_u64", text);
    assert_eq!(lit.as_i64(), Some(v), "Unable to extract {} with as_i64", text);
}

fn check_int_u8(text: &str, v: u8) {
    let lit = parse_int_value(text);
    assert_eq!(lit.as_u8(), Some(v), "Unable to extract {} with as_u8", text);
}

fn check_int_i8(text: &str, v: i8) {
    let lit = parse_int_value(text);
    assert_eq!(lit.as_i8(), Some(v), "Unable to extract {} with as_i8", text);
}

fn check_int_u32(text: &str, v: u32) {
    let lit = parse_int_value(text);
    assert_eq!(lit.as_u32(), Some(v), "Unable to extract {} with as_u32", text);
}

#[test]
fn test_string_filter() {
    assert_eq!(
        string_filter("1921381902_1231___23___333".to_string(), b'_'),
        "1921381902123123333"
    );

    assert_eq!(string_filter("_________".to_string(), b'_'), "");
    assert_eq!(
        string_filter("12837912837192837129387129_".to_string(), b'_'),
        "12837912837192837129387129"
    );
    assert_eq!(
        string_filter("_12837912837192837129387129".to_string(), b'_'),
        "12837912837192837129387129"
    );
}

#[test]
fn ints() {
    check_int_all("5", 5);
    check_int_u32("5u32", 5);
    check_int_all("5_0", 50);
    check_int_all("5_____0_____", 50);
    check_int_all("0x7f", 0x7f);
    check_int_all("0x7F", 0x7F);
    check_int_all("0b1001", 0b1001);
    check_int_all("0o73", 0o73);
    check_int_u8("0x7Fu8", 0x7F);
    check_int_i8("0b1001i8", 0b1001);
    check_int_u32("0o73u32", 0o73);
    check_int_all("0x__7___f_", 0x7f);
    check_int_all("0x__7___F_", 0x7F);
    check_int_all("0b_1_0__01", 0b1001);
    check_int_all("0o_7__3", 0o73);
    check_int_u8("0x_7F__u8", 0x7F);
    check_int_i8("0b__10__0_1i8", 0b1001);
    check_int_u32("0o__7__________________3u32", 0o73);
}

fn check_float(text: &str, v: f64) {
    let dl = DummyLiteral(text);
    let parts = match dl.parse_float() {
        Decoded::Value(parts) => parts,
        _ => panic!("Unable to parse {} as a float", text),
    };
    let val: f64 = parts.number.parse().unwrap();
    assert_eq!(val as f32, v as f32, "Unable to extract {} with as_f32", text);
    assert_eq!(val, v, "Unable to extract {} with as_f64", text);
    assert_no_int(&dl);
    assert_no_string(&dl);
    assert_no_char(&dl);
    assert_no_bytes(&dl);
    assert_no_byte(&dl);
    assert_no_docs(&dl);
}

#[test]
fn floats() {
    check_float("5.5", 5.5);
    check_float("5.5E32", 5.5E32);
    check_float("5.5e32", 5.5e32);
    check_float("1.0__3e-23", 1.0__3e-23);
    check_float("1.03e+23", 1.03e+23);
}

fn check_char(text: &str, v: char) {
    let dl = DummyLiteral(text);
    assert_eq!(dl.parse_char(), Decoded::Value(v));
    assert_no_int(&dl);
    assert_no_float(&dl);
    assert_no_string(&dl);
    assert_no_bytes(&dl);
    assert_no_byte(&dl);
    assert_no_docs(&dl);
}

#[test]
fn chars() {
    check_char("'a'", 'a');
    check_char("'\\n'", '\n');
    check_char("'\\r'", '\r');
    check_char("'\\t'", '\t');
    check_char("'\u{1F415}'", '\u{1F415}');
    check_char("'\\''", '\'');
    check_char("'\"'", '"');
    check_char("'\\u{1F415}'", '\u{1F415}');
}

fn check_byte(text: &str, v: u8) {
    let dl = DummyLiteral(text);
    assert_eq!(dl.parse_byte(), Decoded::Value(v));
    assert_no_int(&dl);
    assert_no_float(&dl);
    assert_no_string(&dl);
    assert_no_char(&dl);
    assert_no_bytes(&dl);
    assert_no_docs(&dl);
}

#[test]
fn byte() {
    check_byte("b'a'", b'a');
    check_byte("b'\\n'", b'\n');
    check_byte("b'\\r'", b'\r');
    check_byte("b'\\t'", b'\t');
    check_byte("b'\\''", b'\'');
    check_byte("b'\"'", b'"');
}

fn check_string(text: &str, v: &str) {
    let dl = DummyLiteral(text);
    match dl.parse_string() {
        Decoded::Value(s) => assert_eq!(s, v),
        other => panic!("Unable to parse {:?} as a string: {:?}", text, other),
    }
    assert_no_int(&dl);
    assert_no_float(&dl);
    assert_no_char(&dl);
    assert_no_bytes(&dl);
    assert_no_byte(&dl);
    assert_no_docs(&dl);
}

#[test]
fn string() {
    check_string("\"a\"", "a");
    check_string("\"\\n\"", "\n");
    check_string("\"\\r\"", "\r");
    check_string("\"\\t\"", "\t");
    check_string("\"\u{1F415}\"", "\u{1F415}");
    check_string("\"\\\"\"", "\"");
    check_string("\"'\"", "'");
    check_string("\"\"", "");
    check_string("\"\\u{1F415}\"", "\u{1F415}");
    check_string(
        "\"This\n           String contains\\\n           newlines and other such\n\nthings which make it more \\\n\n\nInteresting\"",
        "This
           String contains\
           newlines and other such

things which make it more \


Interesting",
    );
    check_string(
        "r#\"This\nIs\nA\nRAW STRING\"#",
        r#"This
Is
A
RAW STRING"#,
    );
    check_string(
        "r######\"This\nIs\nA r####\"Raw string with another in it\"####\nRAW STRING\"######",
        r######"This
Is
A r####"Raw string with another in it"####
RAW STRING"######,
    );
}

fn check_bytes(text: &str, v: &[u8]) {
    let dl = DummyLiteral(text);
    match dl.parse_bytes() {
        Decoded::Value(b) => assert_eq!(b, v),
        other => panic!("Unable to parse {:?} as a byte string: {:?}", text, other),
    }
    assert_no_int(&dl);
    assert_no_float(&dl);
    assert_no_string(&dl);
    assert_no_char(&dl);
    assert_no_byte(&dl);
    assert_no_docs(&dl);
}

#[test]
fn bytes() {
    check_bytes("b\"a\"", b"a");
    check_bytes("b\"\\n\"", b"\n");
    check_bytes("b\"\\r\"", b"\r");
    check_bytes("b\"\\t\"", b"\t");
    check_bytes("b\"\\\"\"", b"\"");
    check_bytes("b\"'\"", b"'");
    check_bytes(
        "b\"This\n           String contains\\\n           newlines and other such\n\nthings which make it more \\\n\n\nInteresting\"",
        b"This
           String contains\
           newlines and other such

things which make it more \


Interesting",
    );
    check_bytes(
        "br#\"This\nIs\nA\nRAW STRING\"#",
        br#"This
Is
A
RAW STRING"#,
    );
    check_bytes(
        "br######\"This\nIs\nA r####\"Raw string with another in it\"####\nRAW STRING\"######",
        br######"This
Is
A r####"Raw string with another in it"####
RAW STRING"######,
    );
}
