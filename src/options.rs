//! The strategy bundle: one parser per shape and two flags, and the dispatch
//! of each requested shape to the selected parser.
use crate::basic::{raw_bytes, scalar_text, BasicParser};
use crate::bool::{bool_word, lower_of, FromStrParser, PermissiveBoolParser};
use crate::error::{Error, Expected};
use crate::num::{int_literal, parse_signed, parse_unsigned};
use crate::split::{
    map_entries, pairs_view, seq_items, split_map, split_seq, split_variant, strings_view,
    variant_split,
};
use vstd::prelude::*;
use vstd::string::StringSliceAdditionalSpecFns;

verus! {

/// How booleans are read.
#[derive(Clone, Copy, Debug, PartialEq, Eq)]
pub enum BoolParser {
    /// The text is handed on as a string.
    Passthrough,
    /// Exactly `true` or `false`.
    FromStr,
    /// The word list of `PermissiveBoolParser`.
    Permissive,
}

/// How numbers are read.
#[derive(Clone, Copy, Debug, PartialEq, Eq)]
pub enum NumParser {
    /// The text is handed on as a string.
    Passthrough,
    /// Trimmed, decoded where quoted, then read in the grammar of `FromStr`.
    FromStr,
}

/// How sequences are read.
#[derive(Clone, Copy, Debug, PartialEq, Eq)]
pub enum SeqParser {
    Passthrough,
    /// Comma-separated items (`CommaSeparatedParser`).
    CommaSeparated,
    /// A JSON document (`JsonParser`).
    Json,
    /// A TOML document (`TomlParser`).
    Toml,
}

/// How maps are read.
#[derive(Clone, Copy, Debug, PartialEq, Eq)]
pub enum MapParser {
    Passthrough,
    /// Comma-separated `key:value` pairs (`CommaColonSeparatedParser`).
    CommaColonSeparated,
    Json,
    Toml,
}

/// How structs given in a single value are read.
#[derive(Clone, Copy, Debug, PartialEq, Eq)]
pub enum StructParser {
    Passthrough,
    /// Comma-separated `field:value` pairs (`CommaColonSeparatedParser`).
    CommaColonSeparated,
    Json,
    Toml,
}

/// How enums are read.
#[derive(Clone, Copy, Debug, PartialEq, Eq)]
pub enum EnumParser {
    Passthrough,
    /// `variant:payload`, or a bare unit variant.
    ColonSeparated,
    Json,
    Toml,
}

/// Parser of comma-separated sequences.
#[derive(Clone, Copy, Debug, Default)]
pub struct CommaSeparatedParser;

/// Parser of comma-separated `key:value` pairs, for maps and structs.
#[derive(Clone, Copy, Debug, Default)]
pub struct CommaColonSeparatedParser;

/// Parser that reads composite values as JSON documents.
#[derive(Clone, Copy, Debug, Default)]
pub struct JsonParser;

/// Parser that reads composite values as TOML documents.
#[derive(Clone, Copy, Debug, Default)]
pub struct TomlParser;

impl CommaSeparatedParser {
    pub fn parse_seq(&self, value: &str) -> (r: Result<Vec<String>, Error>)
        ensures
            match r {
                Ok(v) => seq_items(value@) == Ok::<Seq<Seq<char>>, ()>(strings_view(v@)),
                Err(e) => seq_items(value@) is Err && e.value@ == value@ && e.expected
                    == Expected::Sequence,
            },
    {
        split_seq(value)
    }
}

impl CommaColonSeparatedParser {
    pub fn parse_map(&self, value: &str) -> (r: Result<Vec<(String, String)>, Error>)
        ensures
            match r {
                Ok(v) => map_entries(value@) == Ok::<Seq<(Seq<char>, Seq<char>)>, ()>(
                    pairs_view(v@),
                ),
                Err(e) => map_entries(value@) is Err && e.value@ == value@ && e.expected
                    == Expected::KeyValues,
            },
    {
        split_map(value)
    }

    /// A struct is read as the list of its `field:value` pairs.
    pub fn parse_struct(&self, value: &str) -> (r: Result<Vec<(String, String)>, Error>)
        ensures
            match r {
                Ok(v) => map_entries(value@) == Ok::<Seq<(Seq<char>, Seq<char>)>, ()>(
                    pairs_view(v@),
                ),
                Err(e) => map_entries(value@) is Err && e.value@ == value@ && e.expected
                    == Expected::KeyValues,
            },
    {
        split_map(value)
    }

    /// An enum value: its variant tag and the text of its payload.
    pub fn parse_enum(&self, value: &str) -> (r: Result<(String, String), Error>)
        ensures
            match r {
                Ok((tag, payload)) => variant_split(value@) == Ok::<(Seq<char>, Seq<char>), ()>(
                    (tag@, payload@),
                ),
                Err(e) => variant_split(value@) is Err && e.value@ == value@ && e.expected
                    == Expected::Variant,
            },
    {
        split_variant(value)
    }
}

/// What a strategy made of a value.
#[derive(Debug, PartialEq, Eq)]
pub enum Parsed<T> {
    /// The value read.
    Value(T),
    /// The text, handed on unread as a string.
    Text(String),
    /// The text, to be read as a JSON document.
    Json(String),
    /// The text, to be read as a TOML document.
    Toml(String),
}

/// The bundle of strategies, one per shape, and two flags.
#[derive(Clone, Copy, Debug, PartialEq, Eq)]
pub struct Options {
    pub bool_parser: BoolParser,
    pub num_parser: NumParser,
    pub seq_parser: SeqParser,
    pub map_parser: MapParser,
    pub struct_parser: StructParser,
    pub enum_parser: EnumParser,
    /// Field names are compared with keys in their uppercase form.
    pub ident_upper: bool,
    /// Byte buffers are written in base64.
    pub bytes_base64: bool,
}

/// The integer that a number request reads from `s`, where it lies in `[min, max]`.
pub open spec fn int_in(s: Seq<char>, signed: bool, min: int, max: int) -> Option<int> {
    match scalar_text(s) {
        Ok(t) => match int_literal(t, signed) {
            Some(v) => if min <= v && v <= max {
                Some(v)
            } else {
                None
            },
            None => None,
        },
        Err(()) => None,
    }
}

/// The outcome of a number request, given the integer it should read.
pub open spec fn number_outcome<T>(
    num: NumParser,
    value: Seq<char>,
    expect: Option<int>,
    r: Result<Parsed<T>, Error>,
    as_int: spec_fn(T) -> int,
) -> bool {
    match num {
        NumParser::Passthrough => r matches Ok(Parsed::Text(t)) && t@ == value,
        NumParser::FromStr => match r {
            Ok(Parsed::Value(n)) => expect == Some(as_int(n)),
            Err(e) => expect is None && e.value@ == value && e.expected == Expected::Number,
            _ => false,
        },
    }
}

/// The outcome of a request for a composite value, given what the native
/// parser makes of it.
pub open spec fn delegated<T>(r: Result<Parsed<T>, Error>, value: Seq<char>, json: bool) -> bool {
    if json {
        r matches Ok(Parsed::Json(t)) && t@ == value
    } else {
        r matches Ok(Parsed::Toml(t)) && t@ == value
    }
}

pub open spec fn passed_through<T>(r: Result<Parsed<T>, Error>, value: Seq<char>) -> bool {
    r matches Ok(Parsed::Text(t)) && t@ == value
}

pub open spec fn basic_options() -> Options {
    Options {
        bool_parser: BoolParser::Permissive,
        num_parser: NumParser::FromStr,
        seq_parser: SeqParser::CommaSeparated,
        map_parser: MapParser::CommaColonSeparated,
        struct_parser: StructParser::CommaColonSeparated,
        enum_parser: EnumParser::ColonSeparated,
        ident_upper: true,
        bytes_base64: true,
    }
}

fn int_result(r: Option<i128>, value: &str) -> (o: Result<Parsed<i128>, Error>)
    ensures
        match o {
            Ok(Parsed::Value(n)) => r == Some(n),
            Err(e) => r is None && e.value@ == value@ && e.expected == Expected::Number,
            _ => false,
        },
{
    match r {
        Some(n) => Ok(Parsed::Value(n)),
        None => Err(Error::invalid(value, Expected::Number)),
    }
}

impl Options {
    /// Permissive booleans, `FromStr` numbers, the native comma/colon
    /// grammar, base64 byte buffers and uppercase field names.
    pub fn basic() -> (r: Options)
        ensures
            r == basic_options(),
    {
        Options {
            bool_parser: BoolParser::Permissive,
            num_parser: NumParser::FromStr,
            seq_parser: SeqParser::CommaSeparated,
            map_parser: MapParser::CommaColonSeparated,
            struct_parser: StructParser::CommaColonSeparated,
            enum_parser: EnumParser::ColonSeparated,
            ident_upper: true,
            bytes_base64: true,
        }
    }

    /// As `basic`, with sequences, maps, structs and enums read as JSON.
    pub fn json() -> (r: Options)
        ensures
            r == (Options {
                seq_parser: SeqParser::Json,
                map_parser: MapParser::Json,
                struct_parser: StructParser::Json,
                enum_parser: EnumParser::Json,
                ..basic_options()
            }),
    {
        Options {
            bool_parser: BoolParser::Permissive,
            num_parser: NumParser::FromStr,
            seq_parser: SeqParser::Json,
            map_parser: MapParser::Json,
            struct_parser: StructParser::Json,
            enum_parser: EnumParser::Json,
            ident_upper: true,
            bytes_base64: true,
        }
    }

    /// As `basic`, with sequences, maps, structs and enums read as TOML.
    pub fn toml() -> (r: Options)
        ensures
            r == (Options {
                seq_parser: SeqParser::Toml,
                map_parser: MapParser::Toml,
                struct_parser: StructParser::Toml,
                enum_parser: EnumParser::Toml,
                ..basic_options()
            }),
    {
        Options {
            bool_parser: BoolParser::Permissive,
            num_parser: NumParser::FromStr,
            seq_parser: SeqParser::Toml,
            map_parser: MapParser::Toml,
            struct_parser: StructParser::Toml,
            enum_parser: EnumParser::Toml,
            ident_upper: true,
            bytes_base64: true,
        }
    }

    /// A boolean request.
    pub fn parse_bool(&self, value: &str) -> (r: Result<Parsed<bool>, Error>)
        ensures
            match self.bool_parser {
                BoolParser::Passthrough => passed_through(r, value@),
                BoolParser::FromStr => match r {
                    Ok(Parsed::Value(b)) => (value@ == "true"@ && b) || (value@ == "false"@ && !b),
                    Err(e) => value@ != "true"@ && value@ != "false"@ && e.value@ == value@
                        && e.expected == Expected::Bool,
                    _ => false,
                },
                BoolParser::Permissive => match r {
                    Ok(Parsed::Value(b)) => bool_word(lower_of(value@)) == Some(b),
                    Err(e) => bool_word(lower_of(value@)) is None && e.value@ == value@
                        && e.expected == Expected::BoolWord,
                    _ => false,
                },
            },
    {
        match self.bool_parser {
            BoolParser::Passthrough => Ok(Parsed::Text(String::from_str(value))),
            BoolParser::FromStr => match FromStrParser.parse_bool(value) {
                Ok(b) => Ok(Parsed::Value(b)),
                Err(e) => Err(e),
            },
            BoolParser::Permissive => match PermissiveBoolParser.parse(value) {
                Ok(b) => Ok(Parsed::Value(b)),
                Err(e) => Err(e),
            },
        }
    }

    fn parse_int(&self, value: &str, min: i128, max: i128) -> (r: Result<Parsed<i128>, Error>)
        ensures
            number_outcome(
                self.num_parser,
                value@,
                int_in(value@, true, min as int, max as int),
                r,
                |n: i128| n as int,
            ),
    {
        match self.num_parser {
            NumParser::Passthrough => Ok(Parsed::Text(String::from_str(value))),
            NumParser::FromStr => match BasicParser.scalar_text(value, Expected::Number) {
                Err(e) => Err(e),
                Ok(t) => int_result(parse_signed(t.as_str(), min, max), value),
            },
        }
    }

    fn parse_uint(&self, value: &str, max: u128) -> (r: Result<Parsed<u128>, Error>)
        ensures
            number_outcome(
                self.num_parser,
                value@,
                int_in(value@, false, 0, max as int),
                r,
                |n: u128| n as int,
            ),
    {
        match self.num_parser {
            NumParser::Passthrough => Ok(Parsed::Text(String::from_str(value))),
            NumParser::FromStr => match BasicParser.scalar_text(value, Expected::Number) {
                Err(e) => Err(e),
                Ok(t) => match parse_unsigned(t.as_str(), max) {
                    Some(n) => Ok(Parsed::Value(n)),
                    None => Err(Error::invalid(value, Expected::Number)),
                },
            },
        }
    }

    /// A request for an `i8`.
    pub fn parse_i8(&self, value: &str) -> (r: Result<Parsed<i8>, Error>)
        ensures
            number_outcome(self.num_parser, value@, int_in(value@, true, i8::MIN as int, i8::MAX as int), r, |n: i8| n as int),
    {
        match self.parse_int(value, i8::MIN as i128, i8::MAX as i128) {
            Ok(Parsed::Value(n)) => Ok(Parsed::Value(n as i8)),
            Ok(Parsed::Text(s)) => Ok(Parsed::Text(s)),
            Ok(Parsed::Json(s)) => Ok(Parsed::Json(s)),
            Ok(Parsed::Toml(s)) => Ok(Parsed::Toml(s)),
            Err(e) => Err(e),
        }
    }

    /// A request for an `i16`.
    pub fn parse_i16(&self, value: &str) -> (r: Result<Parsed<i16>, Error>)
        ensures
            number_outcome(self.num_parser, value@, int_in(value@, true, i16::MIN as int, i16::MAX as int), r, |n: i16| n as int),
    {
        match self.parse_int(value, i16::MIN as i128, i16::MAX as i128) {
            Ok(Parsed::Value(n)) => Ok(Parsed::Value(n as i16)),
            Ok(Parsed::Text(s)) => Ok(Parsed::Text(s)),
            Ok(Parsed::Json(s)) => Ok(Parsed::Json(s)),
            Ok(Parsed::Toml(s)) => Ok(Parsed::Toml(s)),
            Err(e) => Err(e),
        }
    }

    /// A request for an `i32`.
    pub fn parse_i32(&self, value: &str) -> (r: Result<Parsed<i32>, Error>)
        ensures
            number_outcome(self.num_parser, value@, int_in(value@, true, i32::MIN as int, i32::MAX as int), r, |n: i32| n as int),
    {
        match self.parse_int(value, i32::MIN as i128, i32::MAX as i128) {
            Ok(Parsed::Value(n)) => Ok(Parsed::Value(n as i32)),
            Ok(Parsed::Text(s)) => Ok(Parsed::Text(s)),
            Ok(Parsed::Json(s)) => Ok(Parsed::Json(s)),
            Ok(Parsed::Toml(s)) => Ok(Parsed::Toml(s)),
            Err(e) => Err(e),
        }
    }

    /// A request for an `i64`.
    pub fn parse_i64(&self, value: &str) -> (r: Result<Parsed<i64>, Error>)
        ensures
            number_outcome(self.num_parser, value@, int_in(value@, true, i64::MIN as int, i64::MAX as int), r, |n: i64| n as int),
    {
        match self.parse_int(value, i64::MIN as i128, i64::MAX as i128) {
            Ok(Parsed::Value(n)) => Ok(Parsed::Value(n as i64)),
            Ok(Parsed::Text(s)) => Ok(Parsed::Text(s)),
            Ok(Parsed::Json(s)) => Ok(Parsed::Json(s)),
            Ok(Parsed::Toml(s)) => Ok(Parsed::Toml(s)),
            Err(e) => Err(e),
        }
    }

    /// A request for an `i128`.
    pub fn parse_i128(&self, value: &str) -> (r: Result<Parsed<i128>, Error>)
        ensures
            number_outcome(self.num_parser, value@, int_in(value@, true, i128::MIN as int, i128::MAX as int), r, |n: i128| n as int),
    {
        match self.parse_int(value, i128::MIN as i128, i128::MAX as i128) {
            Ok(Parsed::Value(n)) => Ok(Parsed::Value(n as i128)),
            Ok(Parsed::Text(s)) => Ok(Parsed::Text(s)),
            Ok(Parsed::Json(s)) => Ok(Parsed::Json(s)),
            Ok(Parsed::Toml(s)) => Ok(Parsed::Toml(s)),
            Err(e) => Err(e),
        }
    }

    /// A request for an `u8`.
    pub fn parse_u8(&self, value: &str) -> (r: Result<Parsed<u8>, Error>)
        ensures
            number_outcome(self.num_parser, value@, int_in(value@, false, 0, u8::MAX as int), r, |n: u8| n as int),
    {
        match self.parse_uint(value, u8::MAX as u128) {
            Ok(Parsed::Value(n)) => Ok(Parsed::Value(n as u8)),
            Ok(Parsed::Text(s)) => Ok(Parsed::Text(s)),
            Ok(Parsed::Json(s)) => Ok(Parsed::Json(s)),
            Ok(Parsed::Toml(s)) => Ok(Parsed::Toml(s)),
            Err(e) => Err(e),
        }
    }

    /// A request for an `u16`.
    pub fn parse_u16(&self, value: &str) -> (r: Result<Parsed<u16>, Error>)
        ensures
            number_outcome(self.num_parser, value@, int_in(value@, false, 0, u16::MAX as int), r, |n: u16| n as int),
    {
        match self.parse_uint(value, u16::MAX as u128) {
            Ok(Parsed::Value(n)) => Ok(Parsed::Value(n as u16)),
            Ok(Parsed::Text(s)) => Ok(Parsed::Text(s)),
            Ok(Parsed::Json(s)) => Ok(Parsed::Json(s)),
            Ok(Parsed::Toml(s)) => Ok(Parsed::Toml(s)),
            Err(e) => Err(e),
        }
    }

    /// A request for an `u32`.
    pub fn parse_u32(&self, value: &str) -> (r: Result<Parsed<u32>, Error>)
        ensures
            number_outcome(self.num_parser, value@, int_in(value@, false, 0, u32::MAX as int), r, |n: u32| n as int),
    {
        match self.parse_uint(value, u32::MAX as u128) {
            Ok(Parsed::Value(n)) => Ok(Parsed::Value(n as u32)),
            Ok(Parsed::Text(s)) => Ok(Parsed::Text(s)),
            Ok(Parsed::Json(s)) => Ok(Parsed::Json(s)),
            Ok(Parsed::Toml(s)) => Ok(Parsed::Toml(s)),
            Err(e) => Err(e),
        }
    }

    /// A request for an `u64`.
    pub fn parse_u64(&self, value: &str) -> (r: Result<Parsed<u64>, Error>)
        ensures
            number_outcome(self.num_parser, value@, int_in(value@, false, 0, u64::MAX as int), r, |n: u64| n as int),
    {
        match self.parse_uint(value, u64::MAX as u128) {
            Ok(Parsed::Value(n)) => Ok(Parsed::Value(n as u64)),
            Ok(Parsed::Text(s)) => Ok(Parsed::Text(s)),
            Ok(Parsed::Json(s)) => Ok(Parsed::Json(s)),
            Ok(Parsed::Toml(s)) => Ok(Parsed::Toml(s)),
            Err(e) => Err(e),
        }
    }

    /// A request for an `u128`.
    pub fn parse_u128(&self, value: &str) -> (r: Result<Parsed<u128>, Error>)
        ensures
            number_outcome(self.num_parser, value@, int_in(value@, false, 0, u128::MAX as int), r, |n: u128| n as int),
    {
        match self.parse_uint(value, u128::MAX as u128) {
            Ok(Parsed::Value(n)) => Ok(Parsed::Value(n as u128)),
            Ok(Parsed::Text(s)) => Ok(Parsed::Text(s)),
            Ok(Parsed::Json(s)) => Ok(Parsed::Json(s)),
            Ok(Parsed::Toml(s)) => Ok(Parsed::Toml(s)),
            Err(e) => Err(e),
        }
    }

    /// A request for a floating-point number: the text to read it from.
    pub fn number_text(&self, value: &str) -> (r: Result<Parsed<String>, Error>)
        ensures
            match self.num_parser {
                NumParser::Passthrough => passed_through(r, value@),
                NumParser::FromStr => match r {
                    Ok(Parsed::Value(t)) => scalar_text(value@) == Ok::<Seq<char>, ()>(t@),
                    Err(e) => scalar_text(value@) is Err && e.value@ == value@ && e.expected
                        == Expected::Number,
                    _ => false,
                },
            },
    {
        match self.num_parser {
            NumParser::Passthrough => Ok(Parsed::Text(String::from_str(value))),
            NumParser::FromStr => match BasicParser.scalar_text(value, Expected::Number) {
                Ok(t) => Ok(Parsed::Value(t)),
                Err(e) => Err(e),
            },
        }
    }

    /// A byte-buffer request: base64 where `bytes_base64`, else the UTF-8
    /// bytes of the text.
    pub fn parse_bytes(&self, value: &str) -> (r: Result<Vec<u8>, Error>)
        ensures
            self.bytes_base64 ==> match r {
                Ok(b) => scalar_text(value@) matches Ok(t) && crate::basic::base64_decoded(t)
                    == Some(b@),
                Err(e) => e.value@ == value@ && e.expected == Expected::Bytes && match scalar_text(
                    value@,
                ) {
                    Ok(t) => crate::basic::base64_decoded(t) is None,
                    Err(()) => true,
                },
            },
            !self.bytes_base64 ==> (r matches Ok(b) && b@ == value.spec_bytes()),
    {
        if self.bytes_base64 {
            BasicParser.parse_bytes(value)
        } else {
            Ok(raw_bytes(value))
        }
    }

    /// A sequence request.
    pub fn parse_seq(&self, value: &str) -> (r: Result<Parsed<Vec<String>>, Error>)
        ensures
            match self.seq_parser {
                SeqParser::Passthrough => passed_through(r, value@),
                SeqParser::CommaSeparated => match r {
                    Ok(Parsed::Value(v)) => seq_items(value@) == Ok::<Seq<Seq<char>>, ()>(
                        strings_view(v@),
                    ),
                    Err(e) => seq_items(value@) is Err && e.value@ == value@ && e.expected
                        == Expected::Sequence,
                    _ => false,
                },
                SeqParser::Json => delegated(r, value@, true),
                SeqParser::Toml => delegated(r, value@, false),
            },
    {
        match self.seq_parser {
            SeqParser::Passthrough => Ok(Parsed::Text(String::from_str(value))),
            SeqParser::CommaSeparated => match CommaSeparatedParser.parse_seq(value) {
                Ok(v) => Ok(Parsed::Value(v)),
                Err(e) => Err(e),
            },
            SeqParser::Json => Ok(Parsed::Json(String::from_str(value))),
            SeqParser::Toml => Ok(Parsed::Toml(String::from_str(value))),
        }
    }

    /// A map request.
    pub fn parse_map(&self, value: &str) -> (r: Result<Parsed<Vec<(String, String)>>, Error>)
        ensures
            match self.map_parser {
                MapParser::Passthrough => passed_through(r, value@),
                MapParser::CommaColonSeparated => match r {
                    Ok(Parsed::Value(v)) => map_entries(value@) == Ok::<
                        Seq<(Seq<char>, Seq<char>)>,
                        (),
                    >(pairs_view(v@)),
                    Err(e) => map_entries(value@) is Err && e.value@ == value@ && e.expected
                        == Expected::KeyValues,
                    _ => false,
                },
                MapParser::Json => delegated(r, value@, true),
                MapParser::Toml => delegated(r, value@, false),
            },
    {
        match self.map_parser {
            MapParser::Passthrough => Ok(Parsed::Text(String::from_str(value))),
            MapParser::CommaColonSeparated => match CommaColonSeparatedParser.parse_map(value) {
                Ok(v) => Ok(Parsed::Value(v)),
                Err(e) => Err(e),
            },
            MapParser::Json => Ok(Parsed::Json(String::from_str(value))),
            MapParser::Toml => Ok(Parsed::Toml(String::from_str(value))),
        }
    }

    /// A request for a struct given in a single value.
    pub fn parse_struct(&self, value: &str) -> (r: Result<Parsed<Vec<(String, String)>>, Error>)
        ensures
            match self.struct_parser {
                StructParser::Passthrough => passed_through(r, value@),
                StructParser::CommaColonSeparated => match r {
                    Ok(Parsed::Value(v)) => map_entries(value@) == Ok::<
                        Seq<(Seq<char>, Seq<char>)>,
                        (),
                    >(pairs_view(v@)),
                    Err(e) => map_entries(value@) is Err && e.value@ == value@ && e.expected
                        == Expected::KeyValues,
                    _ => false,
                },
                StructParser::Json => delegated(r, value@, true),
                StructParser::Toml => delegated(r, value@, false),
            },
    {
        match self.struct_parser {
            StructParser::Passthrough => Ok(Parsed::Text(String::from_str(value))),
            StructParser::CommaColonSeparated => match CommaColonSeparatedParser.parse_struct(
                value,
            ) {
                Ok(v) => Ok(Parsed::Value(v)),
                Err(e) => Err(e),
            },
            StructParser::Json => Ok(Parsed::Json(String::from_str(value))),
            StructParser::Toml => Ok(Parsed::Toml(String::from_str(value))),
        }
    }

    /// An enum request: the variant tag and the text of its payload.
    pub fn parse_enum(&self, value: &str) -> (r: Result<Parsed<(String, String)>, Error>)
        ensures
            match self.enum_parser {
                EnumParser::Passthrough => passed_through(r, value@),
                EnumParser::ColonSeparated => match r {
                    Ok(Parsed::Value((tag, payload))) => variant_split(value@) == Ok::<
                        (Seq<char>, Seq<char>),
                        (),
                    >((tag@, payload@)),
                    Err(e) => variant_split(value@) is Err && e.value@ == value@ && e.expected
                        == Expected::Variant,
                    _ => false,
                },
                EnumParser::Json => delegated(r, value@, true),
                EnumParser::Toml => delegated(r, value@, false),
            },
    {
        match self.enum_parser {
            EnumParser::Passthrough => Ok(Parsed::Text(String::from_str(value))),
            EnumParser::ColonSeparated => match CommaColonSeparatedParser.parse_enum(value) {
                Ok(v) => Ok(Parsed::Value(v)),
                Err(e) => Err(e),
            },
            EnumParser::Json => Ok(Parsed::Json(String::from_str(value))),
            EnumParser::Toml => Ok(Parsed::Toml(String::from_str(value))),
        }
    }
}

} // verus!
