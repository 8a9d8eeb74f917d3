use serde_vars::basic::value_str;
use serde_vars::{unescape, unescaped, EscapeError};

#[test]
fn test_unescape() {
    assert_eq!(
        unescape(r#"\x20\u0020\U00000020\x{00020}\u{20}\U{020}"#).unwrap(),
        ("      ".to_string(), None)
    );
}

#[test]
fn every_space_escape_form_gives_a_space() {
    for form in [r"\x20", r"\u0020", r"\U00000020", r"\x{20}", r"\u{20}", r"\U{20}"] {
        assert_eq!(unescape(form).unwrap(), (" ".to_string(), None), "{}", form);
    }
}

#[test]
fn one_letter_escapes() {
    assert_eq!(
        unescape(r#"\n\r\t\0\\\"\'"#).unwrap(),
        ("\n\r\t\0\\\"'".to_string(), None)
    );
}

#[test]
fn escapes_beyond_the_basic_plane() {
    assert_eq!(unescape(r"\U0001F600").unwrap().0, "\u{1F600}");
    assert_eq!(unescape(r"\u{1f600}").unwrap().0, "\u{1F600}");
    assert_eq!(unescape(r"\x41\u00e9").unwrap().0, "A\u{e9}");
}

#[test]
fn closing_quote_gives_the_rest() {
    assert_eq!(
        unescape(r#"ab\x21" tail"#).unwrap(),
        ("ab!".to_string(), Some(" tail".to_string()))
    );
    assert_eq!(unescape(r#"""#).unwrap(), (String::new(), Some(String::new())));
    assert_eq!(unescape("").unwrap(), (String::new(), None));
}

#[test]
fn malformed_escapes_fail() {
    assert_eq!(unescape(r"\q"), Err(EscapeError));
    assert_eq!(unescape(r"\"), Err(EscapeError));
    assert_eq!(unescape(r"\x2"), Err(EscapeError));
    assert_eq!(unescape(r"\x2g"), Err(EscapeError));
    assert_eq!(unescape(r"\u{}"), Err(EscapeError));
    assert_eq!(unescape(r"\u{20"), Err(EscapeError));
    assert_eq!(unescape(r"\u{d800}"), Err(EscapeError));
    assert_eq!(unescape(r"\U00110000"), Err(EscapeError));
    assert_eq!(unescape(r"\u{+20}"), Err(EscapeError));
}

#[test]
fn unescaped_decodes_quoted_text() {
    assert_eq!(unescaped("\"q\\x20w\\u{20}e\"").unwrap(), "q w e");
    assert_eq!(unescaped("plain \\x20").unwrap(), "plain \\x20");
}

#[test]
fn unescaped_rejects_text_after_the_quote() {
    assert_eq!(unescaped("\"q\"x"), Err(EscapeError));
    assert_eq!(unescaped("\"q\" "), Err(EscapeError));
    assert_eq!(unescaped("\"\\z\""), Err(EscapeError));
}

#[test]
fn unescaped_rejects_an_unclosed_literal() {
    assert_eq!(unescaped("\"open"), Err(EscapeError));
    assert_eq!(unescaped("\""), Err(EscapeError));
}

#[test]
fn string_values() {
    assert_eq!(value_str("\"q\\x20w\\u{20}e\"").unwrap(), "q w e");
    assert_eq!(value_str("\"q\"  ").unwrap(), "q");
    assert_eq!(value_str("as is").unwrap(), "as is");
    let err = value_str("\"q\" x").unwrap_err();
    assert_eq!(err.value, "\"q\" x");
    assert_eq!(err.expected, serde_vars::Expected::Str);
    assert!(value_str("\"unclosed").is_err());
}
