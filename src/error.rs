//! The one error of the library: a value that does not fit the requested shape.
use vstd::prelude::*;

verus! {

/// The grammar that a rejected value was expected to follow.
#[derive(Debug, Clone, Copy, PartialEq, Eq)]
pub enum Expected {
    Bool,
    BoolWord,
    Number,
    Char,
    Str,
    Any,
    Bytes,
    Sequence,
    KeyValues,
    Variant,
}

pub open spec fn expected_text(e: Expected) -> Seq<char> {
    match e {
        Expected::Bool => "a potentially escaped string with boolean"@,
        Expected::BoolWord => "one of: true, false, 1, 0, +, -, y, n, yea, yes, yeah, yah, aye, nay, no, nah"@,
        Expected::Number => "a potentially escaped string with number"@,
        Expected::Char => "a potentially escaped string with a character"@,
        Expected::Str => "a potentially escaped string"@,
        Expected::Any => "a potentially escaped string value"@,
        Expected::Bytes => "a potentially escaped string with base64 sequence"@,
        Expected::Sequence => "a potentially escaped strings delimited by comma"@,
        Expected::KeyValues => "a potentially escaped key:value pairs delimited by comma"@,
        Expected::Variant => "a potentially escaped key:value pair"@,
    }
}

impl Expected {
    /// A description of the grammar, for messages.
    pub fn description(&self) -> (r: &'static str)
        ensures
            r@ == expected_text(*self),
    {
        match self {
            Expected::Bool => "a potentially escaped string with boolean",
            Expected::BoolWord => "one of: true, false, 1, 0, +, -, y, n, yea, yes, yeah, yah, aye, nay, no, nah",
            Expected::Number => "a potentially escaped string with number",
            Expected::Char => "a potentially escaped string with a character",
            Expected::Str => "a potentially escaped string",
            Expected::Any => "a potentially escaped string value",
            Expected::Bytes => "a potentially escaped string with base64 sequence",
            Expected::Sequence => "a potentially escaped strings delimited by comma",
            Expected::KeyValues => "a potentially escaped key:value pairs delimited by comma",
            Expected::Variant => "a potentially escaped key:value pair",
        }
    }
}

/// An invalid value: the offending raw text and the grammar it should follow.
#[derive(Debug, PartialEq, Eq)]
pub struct Error {
    pub value: String,
    pub expected: Expected,
}

impl Error {
    pub fn invalid(value: &str, expected: Expected) -> (r: Error)
        ensures
            r.value@ == value@,
            r.expected == expected,
    {
        Error { value: String::from_str(value), expected }
    }

    /// The error as a sentence.
    pub fn message(&self) -> (r: String)
        ensures
            r@ == "invalid value: string \""@ + self.value@ + "\", expected "@ + expected_text(
                self.expected,
            ),
    {
        let mut r = String::from_str("invalid value: string \"");
        r.append(self.value.as_str());
        r.append("\", expected ");
        r.append(self.expected.description());
        r
    }
}

} // verus!
