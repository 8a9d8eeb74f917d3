use serde_vars::keytree::group_vars;
use serde_vars::{Deserializer, Options, VarAccess};

fn vars(v: &[(&str, &str)]) -> Vec<(String, String)> {
    v.iter().map(|(k, x)| (k.to_string(), x.to_string())).collect()
}

fn leaf(e: &(String, VarAccess)) -> Option<(&str, &str)> {
    match &e.1 {
        VarAccess::Value(v) => Some((e.0.as_str(), v.as_str())),
        VarAccess::Vars(_) => None,
    }
}

fn branch(e: &(String, VarAccess)) -> Option<(&str, Vec<(String, String)>)> {
    match &e.1 {
        VarAccess::Vars(m) => Some((e.0.as_str(), m.iter().map(|(a, b)| (a.clone(), b.clone())).collect())),
        VarAccess::Value(_) => None,
    }
}

#[test]
fn longest_field_name_wins() {
    let out = group_vars(vars(&[("FOOBAR_X", "value")]), &["foo", "foobar"], true);
    assert_eq!(out.len(), 1);
    assert_eq!(branch(&out[0]), Some(("foobar", vars(&[("X", "value")]))));
}

#[test]
fn last_leaf_wins() {
    let out = group_vars(
        vars(&[("FOO", "1"), ("BAR", "x"), ("FOO", "2"), ("FOO", "3")]),
        &["foo", "bar"],
        true,
    );
    assert_eq!(out.len(), 2);
    assert_eq!(leaf(&out[0]), Some(("foo", "3")));
    assert_eq!(leaf(&out[1]), Some(("bar", "x")));
}

#[test]
fn nested_entries_are_grouped_and_overwritten() {
    let out = group_vars(
        vars(&[("DB_HOST", "a"), ("DB_PORT", "1"), ("DB_HOST", "b")]),
        &["db"],
        true,
    );
    assert_eq!(out.len(), 1);
    assert_eq!(branch(&out[0]), Some(("db", vars(&[("HOST", "b"), ("PORT", "1")]))));
}

#[test]
fn leaf_blocks_later_nested_entries() {
    let out = group_vars(vars(&[("DB", "x"), ("DB_HOST", "a")]), &["db"], true);
    assert_eq!(out.len(), 1);
    assert_eq!(leaf(&out[0]), Some(("db", "x")));
}

#[test]
fn leaf_overwrites_nested_entries() {
    let out = group_vars(vars(&[("DB_HOST", "a"), ("DB", "x")]), &["db"], true);
    assert_eq!(out.len(), 1);
    assert_eq!(leaf(&out[0]), Some(("db", "x")));
}

#[test]
fn unmatched_keys_are_kept_and_bad_separators_dropped() {
    let out = group_vars(vars(&[("OTHER", "1"), ("FOOX", "2")]), &["foo"], true);
    assert_eq!(out.len(), 1);
    assert_eq!(leaf(&out[0]), Some(("OTHER", "1")));
}

#[test]
fn exact_case_matching() {
    let out = group_vars(vars(&[("FOO", "1"), ("foo", "2")]), &["foo"], false);
    assert_eq!(out.len(), 2);
    assert_eq!(leaf(&out[0]), Some(("FOO", "1")));
    assert_eq!(leaf(&out[1]), Some(("foo", "2")));
}

#[test]
fn struct_entries_follow_the_options() {
    let d = Deserializer::from_vars(vars(&[("foo", "1")]));
    let out = d.with_options(Options { ident_upper: false, ..Options::basic() }).into_struct_entries(&["foo"]);
    assert_eq!(leaf(&out[0]), Some(("foo", "1")));
    let d = Deserializer::from_vars(vars(&[("foo", "1")]));
    let out = d.into_struct_entries(&["foo"]);
    assert_eq!(leaf(&out[0]), Some(("foo", "1")));
}

#[test]
fn entries_keep_every_pair() {
    let d = Deserializer::from_vars(vars(&[("B", "2"), ("A", "1")]));
    let out = d.into_entries();
    assert_eq!(out.len(), 2);
    assert_eq!(leaf(&out[0]), Some(("B", "2")));
    assert_eq!(leaf(&out[1]), Some(("A", "1")));
}

#[test]
fn prefixed_vars() {
    let d = Deserializer::from_prefixed_vars(vars(&[("APP_A", "1"), ("B", "2"), ("APP_", "3")]), "APP_");
    assert_eq!(d.vars, vars(&[("A", "1"), ("", "3")]));
    assert_eq!(d.options, Options::basic());
}

#[test]
fn presets() {
    let j = Options::json();
    assert_eq!(j.seq_parser, serde_vars::SeqParser::Json);
    assert!(j.ident_upper && j.bytes_base64);
    let t = Options::toml();
    assert_eq!(t.enum_parser, serde_vars::EnumParser::Toml);
    assert_eq!(t.parse_seq("[1]"), Ok(serde_vars::Parsed::Toml("[1]".to_string())));
    assert_eq!(j.parse_map("{}"), Ok(serde_vars::Parsed::Json("{}".to_string())));
}

