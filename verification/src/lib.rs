//! Packet schema library: parsing of `.pkt` schema text, schema validation,
//! and binary encoding/decoding of packets described by a schema.

pub mod error;
pub mod text;
pub mod ast;
pub mod wire;
pub mod decoded;
pub mod attrs;
pub mod messages;
pub mod decode;
pub mod receive;
pub mod render;
pub mod encode;
pub mod size;
pub mod codec;
pub mod validator;
pub mod lexer;
pub mod parser;
pub mod source;
pub mod merge;
pub mod properties;
pub mod bit_groups;
pub mod laws;

pub use error::{CodecErrorKind, CoreError, Location, ParseErrorKind, ValidationFailureKind};
pub use codec::Codec;
pub use decoded::{DecodedStruct, DecodedValue};
pub use source::parse_schema;
pub use validator::validate_schema;
