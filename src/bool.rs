//! Booleans: the permissive word list and the strict `true`/`false` form.
use crate::error::{Error, Expected};
use crate::text::{chars_of, is_lit};
use vstd::prelude::*;

verus! {

/// What `str::to_lowercase` makes of a string.
pub uninterp spec fn lower_of(s: Seq<char>) -> Seq<char>;

/// Relies on `str::to_lowercase`: the lowercase form of the text, which
/// depends on the text alone.
#[verifier::external_body]
pub(crate) fn to_lower(s: &str) -> (r: String)
    ensures
        r@ == lower_of(s@),
{
    s.to_lowercase()
}

pub open spec fn true_word(s: Seq<char>) -> bool {
    s == "true"@ || s == "1"@ || s == "+"@ || s == "y"@ || s == "yea"@ || s == "yes"@ || s
        == "yeah"@ || s == "yah"@ || s == "aye"@
}

pub open spec fn false_word(s: Seq<char>) -> bool {
    s == "false"@ || s == "0"@ || s == "-"@ || s == "n"@ || s == "nay"@ || s == "no"@ || s
        == "nah"@
}

/// The boolean that a lowercase word stands for, if any.
pub open spec fn bool_word(s: Seq<char>) -> Option<bool> {
    if true_word(s) {
        Some(true)
    } else if false_word(s) {
        Some(false)
    } else {
        None
    }
}

/// The boolean that an already lowercased word stands for.
pub fn bool_from_word(folded: &str) -> (r: Option<bool>)
    ensures
        r == bool_word(folded@),
{
    let cs = chars_of(folded);
    if is_lit(&cs, "true") || is_lit(&cs, "1") || is_lit(&cs, "+") || is_lit(&cs, "y")
        || is_lit(&cs, "yea") || is_lit(&cs, "yes") || is_lit(&cs, "yeah") || is_lit(&cs, "yah")
        || is_lit(&cs, "aye") {
        Some(true)
    } else if is_lit(&cs, "false") || is_lit(&cs, "0") || is_lit(&cs, "-") || is_lit(&cs, "n")
        || is_lit(&cs, "nay") || is_lit(&cs, "no") || is_lit(&cs, "nah") {
        Some(false)
    } else {
        None
    }
}

/// Boolean parser that accepts many forms of `true` and `false`, in any case.
///
/// `true` values are `"true"`, `"1"`, `"+"`, `"y"`, `"yea"`, `"yes"`, `"yeah"`, `"yah"`, `"aye"`;
/// `false` values are `"false"`, `"0"`, `"-"`, `"n"`, `"nay"`, `"no"`, `"nah"`.
#[derive(Clone, Copy, Debug, Default)]
pub struct PermissiveBoolParser;

impl PermissiveBoolParser {
    pub fn parse(&self, value: &str) -> (r: Result<bool, Error>)
        ensures
            match r {
                Ok(b) => bool_word(lower_of(value@)) == Some(b),
                Err(e) => bool_word(lower_of(value@)) is None && e.value@ == value@ && e.expected
                    == Expected::BoolWord,
            },
    {
        let folded = to_lower(value);
        match bool_from_word(folded.as_str()) {
            Some(b) => Ok(b),
            None => Err(Error::invalid(value, Expected::BoolWord)),
        }
    }
}

/// Parser that reads values in the grammar of Rust's `FromStr`.
#[derive(Clone, Copy, Debug, Default)]
pub struct FromStrParser;

impl FromStrParser {
    /// Exactly `true` or `false`.
    pub fn parse_bool(&self, value: &str) -> (r: Result<bool, Error>)
        ensures
            match r {
                Ok(b) => (value@ == "true"@ && b) || (value@ == "false"@ && !b),
                Err(e) => value@ != "true"@ && value@ != "false"@ && e.value@ == value@
                    && e.expected == Expected::Bool,
            },
    {
        let cs = chars_of(value);
        if is_lit(&cs, "true") {
            Ok(true)
        } else if is_lit(&cs, "false") {
            Ok(false)
        } else {
            Err(Error::invalid(value, Expected::Bool))
        }
    }
}

} // verus!
