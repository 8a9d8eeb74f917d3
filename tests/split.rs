use serde_vars::split::{split_map, split_seq, split_variant};
use serde_vars::{CommaColonSeparatedParser, CommaSeparatedParser, Expected};

fn strings(v: &[&str]) -> Vec<String> {
    v.iter().map(|s| s.to_string()).collect()
}

fn pairs(v: &[(&str, &str)]) -> Vec<(String, String)> {
    v.iter().map(|(k, x)| (k.to_string(), x.to_string())).collect()
}

#[test]
fn sequence_of_strings() {
    assert_eq!(
        CommaSeparatedParser.parse_seq("a,b,\"a\\x20w\\u{20}e\"").unwrap(),
        strings(&["a", "b", "a w e"])
    );
}

#[test]
fn empty_sequence() {
    assert_eq!(split_seq("").unwrap(), Vec::<String>::new());
    assert_eq!(split_seq("   ").unwrap(), Vec::<String>::new());
}

#[test]
fn trailing_comma_ends_the_sequence() {
    assert_eq!(split_seq("a,").unwrap(), strings(&["a"]));
    assert_eq!(split_seq("\"a\", ").unwrap(), strings(&["a"]));
}

#[test]
fn sequence_items_are_trimmed() {
    assert_eq!(split_seq(" a , b ,c").unwrap(), strings(&["a", "b", "c"]));
    assert_eq!(split_seq("a,,b").unwrap(), strings(&["a", "", "b"]));
    assert_eq!(split_seq("\"x,y\" , z").unwrap(), strings(&["x,y", "z"]));
}

#[test]
fn sequence_quote_followed_by_text_fails() {
    let err = split_seq("a,\"b\"c").unwrap_err();
    assert_eq!(err.value, "a,\"b\"c");
    assert_eq!(err.expected, Expected::Sequence);
    assert!(split_seq("\"unclosed").is_err());
}

#[test]
fn map_of_pairs() {
    assert_eq!(
        CommaColonSeparatedParser.parse_map("a:1,b:2").unwrap(),
        pairs(&[("a", "1"), ("b", "2")])
    );
    assert_eq!(
        split_map(" \"k:1\" : \"v,2\" , b : x ").unwrap(),
        pairs(&[("k:1", "v,2"), ("b", "x")])
    );
    assert_eq!(split_map("").unwrap(), Vec::<(String, String)>::new());
    assert_eq!(split_map("a:\"1\"").unwrap(), pairs(&[("a", "1")]));
}

#[test]
fn map_keeps_duplicate_keys_in_order() {
    assert_eq!(
        split_map("b:1,a:2,b:3").unwrap(),
        pairs(&[("b", "1"), ("a", "2"), ("b", "3")])
    );
}

#[test]
fn map_quoted_key_without_colon_fails() {
    let err = split_map("\"a\"1").unwrap_err();
    assert_eq!(err.expected, Expected::KeyValues);
    assert!(split_map("\"a\"").is_err());
    assert!(split_map("a:\"1\"x").is_err());
}

#[test]
fn map_unquoted_key_without_colon_fails() {
    let err = split_map("a").unwrap_err();
    assert_eq!(err.value, "a");
    assert_eq!(err.expected, Expected::KeyValues);
    assert!(split_map("a:1,b").is_err());
    assert!(split_map("a:1, ").is_ok());
}

#[test]
fn struct_in_one_value() {
    assert_eq!(
        CommaColonSeparatedParser.parse_struct("x:1, y:2").unwrap(),
        pairs(&[("x", "1"), ("y", "2")])
    );
}

#[test]
fn enum_variants() {
    assert_eq!(split_variant(" Unit ").unwrap(), ("Unit".to_string(), String::new()));
    assert_eq!(
        split_variant("Pair:1,2").unwrap(),
        ("Pair".to_string(), "1,2".to_string())
    );
    assert_eq!(
        CommaColonSeparatedParser.parse_enum("\"A:B\":x").unwrap(),
        ("A:B".to_string(), "x".to_string())
    );
    assert_eq!(split_variant("\"Q\"").unwrap(), ("Q".to_string(), String::new()));
    assert_eq!(split_variant("  ").unwrap_err().expected, Expected::Variant);
    assert!(split_variant("\"A\"x").is_err());
}
