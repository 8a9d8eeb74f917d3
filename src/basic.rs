//! The native grammar for scalar values: quoted literals, numbers, booleans
//! and base64 byte buffers.
use base64::Engine;
use crate::bool::{bool_from_word, bool_word, lower_of, to_lower};
use crate::error::{Error, Expected};
use crate::text::{chars_of, string_of, trim, trim_start, trim_str, skip_ws, lemma_lead_ws};
use crate::unescape::{unescape_chars, unescape_from, unescaped, unescaped_spec};
use vstd::prelude::*;
use vstd::string::StringSliceAdditionalSpecFns;

verus! {

#[verifier::external_type_specification]
#[verifier::external_body]
pub struct ExDecodeError(base64::DecodeError);

/// What the standard-alphabet, unpadded base64 decoder makes of a text:
/// the bytes, or `None` where the text is not such base64.
pub uninterp spec fn base64_decoded(s: Seq<char>) -> Option<Seq<u8>>;

/// Relies on base64's `STANDARD_NO_PAD` engine, `Engine::decode`: the bytes
/// that the text encodes, or an error; the outcome depends on the text alone.
#[verifier::external_body]
fn decode_base64(s: &str) -> (r: Result<Vec<u8>, base64::DecodeError>)
    ensures
        match r {
            Ok(b) => base64_decoded(s@) == Some(b@),
            Err(_) => base64_decoded(s@) is None,
        },
{
    base64::engine::general_purpose::STANDARD_NO_PAD.decode(s)
}

/// The text of a scalar value: trimmed, and decoded where it is quoted.
pub open spec fn scalar_text(s: Seq<char>) -> Result<Seq<char>, ()> {
    unescaped_spec(trim(s))
}

/// A string value: text that does not start with a quote as it is; a quoted
/// literal decoded, where only whitespace follows its closing quote.
pub open spec fn str_value(s: Seq<char>) -> Result<Seq<char>, ()> {
    if s.len() > 0 && s[0] == '"' {
        match unescape_from(s, 1) {
            Ok((d, Some(tail))) => if trim_start(tail).len() == 0 {
                Ok(d)
            } else {
                Err(())
            },
            _ => Err(()),
        }
    } else {
        Ok(s)
    }
}

/// A character value: the first character of the string value.
pub open spec fn char_value(s: Seq<char>) -> Result<char, ()> {
    match str_value(s) {
        Ok(d) => if d.len() > 0 {
            Ok(d[0])
        } else {
            Err(())
        },
        Err(()) => Err(()),
    }
}

/// The string that a value requested as a string stands for.
pub fn value_str(value: &str) -> (r: Result<String, Error>)
    ensures
        match r {
            Ok(d) => str_value(value@) == Ok::<Seq<char>, ()>(d@),
            Err(e) => str_value(value@) is Err && e.value@ == value@ && e.expected
                == Expected::Str,
        },
{
    let cs = chars_of(value);
    if cs.len() > 0 && cs[0] == '"' {
        match unescape_chars(&cs, 1) {
            Ok((d, Some(j))) => {
                let m = skip_ws(&cs, j);
                proof {
                    lemma_lead_ws(cs@.skip(j as int));
                    assert(cs@.skip(j as int).skip(m - j) =~= cs@.skip(m as int));
                }
                if m == cs.len() {
                    assert(d@.subrange(0, d@.len() as int) =~= d@);
                    Ok(string_of(&d, 0, d.len()))
                } else {
                    Err(Error::invalid(value, Expected::Str))
                }
            },
            _ => Err(Error::invalid(value, Expected::Str)),
        }
    } else {
        assert(cs@.subrange(0, cs@.len() as int) =~= cs@);
        Ok(string_of(&cs, 0, cs.len()))
    }
}

/// The character that a value requested as a character stands for.
pub fn value_char(value: &str) -> (r: Result<char, Error>)
    ensures
        match r {
            Ok(c) => char_value(value@) == Ok::<char, ()>(c),
            Err(e) => char_value(value@) is Err && e.value@ == value@ && e.expected
                == Expected::Char,
        },
{
    match value_str(value) {
        Ok(d) => {
            let cs = chars_of(d.as_str());
            if cs.len() > 0 {
                Ok(cs[0])
            } else {
                Err(Error::invalid(value, Expected::Char))
            }
        },
        Err(_) => Err(Error::invalid(value, Expected::Char)),
    }
}

/// The UTF-8 bytes of a value, for byte buffers that are not base64.
pub fn raw_bytes(value: &str) -> (r: Vec<u8>)
    ensures
        r@ == value.spec_bytes(),
{
    value.as_bytes_vec()
}

/// The parser for the native grammar.
#[derive(Clone, Copy, Debug, Default)]
pub struct BasicParser;

impl BasicParser {
    /// The text of a scalar value (`scalar_text`), for `expected` values.
    pub fn scalar_text(&self, value: &str, expected: Expected) -> (r: Result<String, Error>)
        ensures
            match r {
                Ok(t) => scalar_text(value@) == Ok::<Seq<char>, ()>(t@),
                Err(e) => scalar_text(value@) is Err && e.value@ == value@ && e.expected
                    == expected,
            },
    {
        let t = trim_str(value);
        match unescaped(t.as_str()) {
            Ok(u) => Ok(u),
            Err(_) => Err(Error::invalid(value, expected)),
        }
    }

    /// A boolean from the permissive word list, after trimming and decoding.
    pub fn parse_bool(&self, value: &str) -> (r: Result<bool, Error>)
        ensures
            match r {
                Ok(b) => scalar_text(value@) matches Ok(t) && bool_word(lower_of(t)) == Some(b),
                Err(e) => e.value@ == value@ && match scalar_text(value@) {
                    Ok(t) => bool_word(lower_of(t)) is None && e.expected == Expected::BoolWord,
                    Err(()) => e.expected == Expected::Bool,
                },
            },
    {
        let t = self.scalar_text(value, Expected::Bool)?;
        let folded = to_lower(t.as_str());
        match bool_from_word(folded.as_str()) {
            Some(b) => Ok(b),
            None => Err(Error::invalid(value, Expected::BoolWord)),
        }
    }

    /// A byte buffer written as standard-alphabet base64 without padding.
    pub fn parse_bytes(&self, value: &str) -> (r: Result<Vec<u8>, Error>)
        ensures
            match r {
                Ok(b) => scalar_text(value@) matches Ok(t) && base64_decoded(t) == Some(b@),
                Err(e) => e.value@ == value@ && e.expected == Expected::Bytes && match scalar_text(
                    value@,
                ) {
                    Ok(t) => base64_decoded(t) is None,
                    Err(()) => true,
                },
            },
    {
        let t = self.scalar_text(value, Expected::Bytes)?;
        match decode_base64(t.as_str()) {
            Ok(b) => Ok(b),
            Err(_) => Err(Error::invalid(value, Expected::Bytes)),
        }
    }

    /// A value of no requested shape: its text, trimmed and decoded.
    pub fn parse_any(&self, value: &str) -> (r: Result<String, Error>)
        ensures
            match r {
                Ok(t) => scalar_text(value@) == Ok::<Seq<char>, ()>(t@),
                Err(e) => scalar_text(value@) is Err && e.value@ == value@ && e.expected
                    == Expected::Any,
            },
    {
        self.scalar_text(value, Expected::Any)
    }
}

} // verus!
