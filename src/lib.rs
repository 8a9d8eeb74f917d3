//! Decoding of flat string key/value pairs (environment-variable style) into
//! structured values.
//!
//! The library holds the decoding engine: the escape grammar of quoted
//! literals, the comma/colon splitter of composite values, the scalar parsers
//! for each requested shape, and the grouping of flat keys into nested struct
//! fields.
mod text;

pub mod basic;
pub mod bool;
pub mod de;
pub mod error;
pub mod keytree;
pub mod num;
pub mod options;
pub mod split;
pub mod unescape;

pub use basic::BasicParser;
pub use bool::{FromStrParser, PermissiveBoolParser};
pub use de::Deserializer;
pub use error::{Error, Expected};
pub use keytree::VarAccess;
pub use options::{
    BoolParser, CommaColonSeparatedParser, CommaSeparatedParser, EnumParser, JsonParser,
    MapParser, NumParser, Options, Parsed, SeqParser, StructParser, TomlParser,
};
pub use unescape::{unescape, unescaped, EscapeError};
