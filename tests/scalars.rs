use base64::Engine;
use serde_vars::basic::{raw_bytes, value_char};
use serde_vars::bool::bool_from_word;
use serde_vars::{BasicParser, Expected, FromStrParser, Options, Parsed, PermissiveBoolParser};

#[test]
fn permissive_true_words() {
    for w in ["true", "1", "+", "y", "yea", "yes", "yeah", "yah", "aye"] {
        assert_eq!(PermissiveBoolParser.parse(w), Ok(true), "{}", w);
        assert_eq!(PermissiveBoolParser.parse(&w.to_uppercase()), Ok(true), "{}", w);
    }
}

#[test]
fn permissive_false_words() {
    for w in ["false", "0", "-", "n", "nay", "no", "nah"] {
        assert_eq!(PermissiveBoolParser.parse(w), Ok(false), "{}", w);
        assert_eq!(PermissiveBoolParser.parse(&w.to_uppercase()), Ok(false), "{}", w);
    }
}

#[test]
fn permissive_rejects_other_words() {
    let err = PermissiveBoolParser.parse("maybe").unwrap_err();
    assert_eq!(err.value, "maybe");
    assert_eq!(err.expected, Expected::BoolWord);
    assert_eq!(bool_from_word("TRUE"), None);
    assert_eq!(bool_from_word("yes"), Some(true));
}

#[test]
fn mixed_case_booleans() {
    assert_eq!(PermissiveBoolParser.parse("TrUe"), Ok(true));
    assert_eq!(PermissiveBoolParser.parse("No"), Ok(false));
}

#[test]
fn basic_booleans_are_trimmed_and_decoded() {
    assert_eq!(BasicParser.parse_bool("  Yes "), Ok(true));
    assert_eq!(BasicParser.parse_bool("\"n\\x6fpe\"").unwrap_err().expected, Expected::BoolWord);
    assert_eq!(BasicParser.parse_bool("\"n\\x6f\""), Ok(false));
    assert_eq!(BasicParser.parse_bool("\"\\q\"").unwrap_err().expected, Expected::Bool);
    assert_eq!(BasicParser.parse_bool("\"yes").unwrap_err().expected, Expected::Bool);
}

#[test]
fn strict_booleans() {
    assert_eq!(FromStrParser.parse_bool("true"), Ok(true));
    assert_eq!(FromStrParser.parse_bool("false"), Ok(false));
    assert!(FromStrParser.parse_bool("TRUE").is_err());
    assert!(FromStrParser.parse_bool("yes").is_err());
}

#[test]
fn numbers() {
    let o = Options::basic();
    assert_eq!(o.parse_i32(" 42 "), Ok(Parsed::Value(42)));
    assert_eq!(o.parse_i8("\"-7\""), Ok(Parsed::Value(-7)));
    assert_eq!(o.parse_u16("+5"), Ok(Parsed::Value(5)));
    assert_eq!(o.parse_i8("-128"), Ok(Parsed::Value(i8::MIN)));
    assert_eq!(o.parse_i128("-170141183460469231731687303715884105728"), Ok(Parsed::Value(i128::MIN)));
    assert_eq!(o.parse_u128("340282366920938463463374607431768211455"), Ok(Parsed::Value(u128::MAX)));
    assert_eq!(o.parse_u64("007"), Ok(Parsed::Value(7)));
}

#[test]
fn numbers_out_of_range_or_malformed() {
    let o = Options::basic();
    let err = o.parse_u8("300").unwrap_err();
    assert_eq!(err.value, "300");
    assert_eq!(err.expected, Expected::Number);
    assert!(o.parse_u8("-1").is_err());
    assert!(o.parse_i8("128").is_err());
    assert!(o.parse_i32("").is_err());
    assert!(o.parse_i32("-").is_err());
    assert!(o.parse_i32("1 2").is_err());
    assert!(o.parse_u128("340282366920938463463374607431768211456").is_err());
    assert!(o.parse_i64("\"5").is_err());
    assert!(o.parse_i64("\"5\"x").is_err());
}

#[test]
fn number_text_for_floats() {
    let o = Options::basic();
    assert_eq!(o.number_text(" \"1.5\" "), Ok(Parsed::Value("1.5".to_string())));
    let f: f64 = match o.number_text("2.25").unwrap() {
        Parsed::Value(t) => t.parse().unwrap(),
        _ => panic!("a value was expected"),
    };
    assert_eq!(f, 2.25);
}

#[test]
fn base64_bytes_round_trip() {
    let bytes: Vec<u8> = vec![0, 1, 2, 250, 255, 77, 10];
    let text = base64::engine::general_purpose::STANDARD_NO_PAD.encode(&bytes);
    assert_eq!(BasicParser.parse_bytes(&text).unwrap(), bytes);
    assert_eq!(Options::basic().parse_bytes(&format!(" \"{}\" ", text)).unwrap(), bytes);
    assert_eq!(BasicParser.parse_bytes("aGVsbG8").unwrap(), b"hello".to_vec());
}

#[test]
fn invalid_base64_fails() {
    let err = BasicParser.parse_bytes("a*b").unwrap_err();
    assert_eq!(err.value, "a*b");
    assert_eq!(err.expected, Expected::Bytes);
    assert!(BasicParser.parse_bytes("aGVsbG8=").is_err());
}

#[test]
fn raw_bytes_without_base64() {
    let mut o = Options::basic();
    o.bytes_base64 = false;
    assert_eq!(o.parse_bytes("aGk").unwrap(), b"aGk".to_vec());
    assert_eq!(raw_bytes("\u{e9}"), vec![0xc3, 0xa9]);
}

#[test]
fn characters() {
    assert_eq!(value_char("xyz"), Ok('x'));
    assert_eq!(value_char("\"\\u{41}bc\""), Ok('A'));
    assert_eq!(value_char("").unwrap_err().expected, Expected::Char);
    assert_eq!(value_char("\"\"").unwrap_err().expected, Expected::Char);
}

#[test]
fn any_value_is_trimmed_and_decoded() {
    assert_eq!(BasicParser.parse_any(" \"a\\tb\" ").unwrap(), "a\tb");
    assert_eq!(BasicParser.parse_any(" plain ").unwrap(), "plain");
    let err = BasicParser.parse_any("\"open").unwrap_err();
    assert_eq!(err.value, "\"open");
    assert_eq!(err.expected, Expected::Any);
    assert_eq!(
        err.message(),
        "invalid value: string \"\"open\", expected a potentially escaped string value"
    );
}

#[test]
fn error_message() {
    let err = PermissiveBoolParser.parse("maybe").unwrap_err();
    assert_eq!(
        err.message(),
        "invalid value: string \"maybe\", expected one of: true, false, 1, 0, +, -, y, n, yea, yes, yeah, yah, aye, nay, no, nah"
    );
}
