//! Error types shared by the parser, the validator and the codec.

use vstd::prelude::*;
use crate::text::{chars_to_string, decimal, push_decimal, push_str, push_string};

verus! {

/// Classification of a parse error.
#[derive(Debug, Clone, Copy, PartialEq, Eq, Structural)]
pub enum ParseErrorKind {
    /// Invalid character or unrecognised token.
    LexicalError,
    /// Missing bracket or malformed construct.
    SyntaxError,
    /// Undefined type or duplicate name.
    SemanticError,
}

impl ParseErrorKind {
    /// Human-readable name of the kind.
    pub open spec fn spec_text(self) -> Seq<char> {
        match self {
            ParseErrorKind::LexicalError => "lexical error"@,
            ParseErrorKind::SyntaxError => "syntax error"@,
            ParseErrorKind::SemanticError => "semantic error"@,
        }
    }

    /// Human-readable name of the kind (what `Display` prints).
    pub fn text(&self) -> (s: &'static str)
        ensures
            s@ == self.spec_text(),
    {
        match self {
            ParseErrorKind::LexicalError => "lexical error",
            ParseErrorKind::SyntaxError => "syntax error",
            ParseErrorKind::SemanticError => "semantic error",
        }
    }

    /// The displayed name as an owned `String`.
    pub fn to_string(&self) -> (s: String)
        ensures
            s@ == self.spec_text(),
    {
        String::from_str(self.text())
    }
}

/// Classification of a codec error.
#[derive(Debug, Clone, Copy, PartialEq, Eq, Structural)]
pub enum CodecErrorKind {
    /// Encoding failed: missing value, type mismatch.
    EncodeFailed,
    /// Decoding failed: not enough data, bad format.
    DecodeFailed,
    /// Checksum mismatch.
    ChecksumMismatch,
    /// Buffer too small.
    BufferTooSmall,
}

impl CodecErrorKind {
    /// Human-readable name of the kind.
    pub open spec fn spec_text(self) -> Seq<char> {
        match self {
            CodecErrorKind::EncodeFailed => "encode failed"@,
            CodecErrorKind::DecodeFailed => "decode failed"@,
            CodecErrorKind::ChecksumMismatch => "checksum mismatch"@,
            CodecErrorKind::BufferTooSmall => "buffer too small"@,
        }
    }

    /// Human-readable name of the kind (what `Display` prints).
    pub fn text(&self) -> (s: &'static str)
        ensures
            s@ == self.spec_text(),
    {
        match self {
            CodecErrorKind::EncodeFailed => "encode failed",
            CodecErrorKind::DecodeFailed => "decode failed",
            CodecErrorKind::ChecksumMismatch => "checksum mismatch",
            CodecErrorKind::BufferTooSmall => "buffer too small",
        }
    }

    /// The displayed name as an owned `String`.
    pub fn to_string(&self) -> (s: String)
        ensures
            s@ == self.spec_text(),
    {
        String::from_str(self.text())
    }
}

/// Classification of a validation failure.
#[derive(Debug, Clone, Copy, PartialEq, Eq, Structural)]
pub enum ValidationFailureKind {
    /// A send struct field lacks a value.
    MissingValue,
    /// A name occurs twice.
    DuplicateName,
    /// A type name is not defined.
    UnknownType,
    /// An array has size zero.
    ZeroSizeArray,
}

impl ValidationFailureKind {
    /// Human-readable name of the kind.
    pub open spec fn spec_text(self) -> Seq<char> {
        match self {
            ValidationFailureKind::MissingValue => "missing value"@,
            ValidationFailureKind::DuplicateName => "duplicate name"@,
            ValidationFailureKind::UnknownType => "unknown type"@,
            ValidationFailureKind::ZeroSizeArray => "zero size array"@,
        }
    }

    /// Human-readable name of the kind (what `Display` prints).
    pub fn text(&self) -> (s: &'static str)
        ensures
            s@ == self.spec_text(),
    {
        match self {
            ValidationFailureKind::MissingValue => "missing value",
            ValidationFailureKind::DuplicateName => "duplicate name",
            ValidationFailureKind::UnknownType => "unknown type",
            ValidationFailureKind::ZeroSizeArray => "zero size array",
        }
    }

    /// The displayed name as an owned `String`.
    pub fn to_string(&self) -> (s: String)
        ensures
            s@ == self.spec_text(),
    {
        String::from_str(self.text())
    }
}

/// A position in schema source text.
#[derive(Debug, Clone, Copy, PartialEq, Eq, Structural)]
pub struct Location {
    /// Line number.
    pub line: usize,
    /// Column number.
    pub column: usize,
}

/// The error type of every operation of the library.
#[allow(inconsistent_fields)]
#[derive(Debug, Clone)]
pub enum CoreError {
    /// A parse error.
    Parse {
        /// Classification.
        kind: ParseErrorKind,
        /// Where the error was found, if known.
        location: Option<Location>,
        /// Description.
        message: String,
        /// Suggested fix.
        hint: Option<String>,
    },
    /// A validation error.
    Validation {
        /// Error code such as `E001`.
        code: String,
        /// Classification.
        kind: Option<ValidationFailureKind>,
        /// Description.
        message: String,
    },
    /// An encode or decode error.
    Codec {
        /// Classification.
        kind: CodecErrorKind,
        /// Where the error happened (`encode` or `decode`).
        context: String,
        /// Description.
        message: String,
    },
    /// An input/output error.
    Io {
        /// The operation that failed.
        operation: String,
        /// Description.
        message: String,
    },
}

/// The mathematical content of a [`CoreError`].
#[allow(inconsistent_fields)]
pub enum ErrorView {
    /// See [`CoreError::Parse`].
    Parse { kind: ParseErrorKind, location: Option<Location>, message: Seq<char>, hint: Option<Seq<char>> },
    /// See [`CoreError::Validation`].
    Validation { code: Seq<char>, kind: Option<ValidationFailureKind>, message: Seq<char> },
    /// See [`CoreError::Codec`].
    Codec { kind: CodecErrorKind, context: Seq<char>, message: Seq<char> },
    /// See [`CoreError::Io`].
    Io { operation: Seq<char>, message: Seq<char> },
}

/// The view of an optional string.
pub open spec fn opt_str_view(o: Option<String>) -> Option<Seq<char>> {
    match o {
        Some(s) => Some(s@),
        None => None,
    }
}

impl View for CoreError {
    type V = ErrorView;

    open spec fn view(&self) -> ErrorView {
        match self {
            CoreError::Parse { kind, location, message, hint } => ErrorView::Parse {
                kind: *kind,
                location: *location,
                message: message@,
                hint: opt_str_view(*hint),
            },
            CoreError::Validation { code, kind, message } => ErrorView::Validation {
                code: code@,
                kind: *kind,
                message: message@,
            },
            CoreError::Codec { kind, context, message } => ErrorView::Codec {
                kind: *kind,
                context: context@,
                message: message@,
            },
            CoreError::Io { operation, message } => ErrorView::Io {
                operation: operation@,
                message: message@,
            },
        }
    }
}

/// A syntax error without location.
pub open spec fn parse_error(message: Seq<char>) -> ErrorView {
    ErrorView::Parse { kind: ParseErrorKind::SyntaxError, location: None, message, hint: None }
}

/// A syntax error at a location.
pub open spec fn parse_error_at(line: usize, column: usize, message: Seq<char>) -> ErrorView {
    ErrorView::Parse {
        kind: ParseErrorKind::SyntaxError,
        location: Some(Location { line, column }),
        message,
        hint: None,
    }
}

/// A validation error with a code and no classification.
pub open spec fn validation_error(code: Seq<char>, message: Seq<char>) -> ErrorView {
    ErrorView::Validation { code, kind: None, message }
}

/// An encode-failed codec error.
pub open spec fn codec_error(context: Seq<char>, message: Seq<char>) -> ErrorView {
    ErrorView::Codec { kind: CodecErrorKind::EncodeFailed, context, message }
}

impl ErrorView {
    /// The text that displaying the error prints.
    pub open spec fn display(self) -> Seq<char> {
        match self {
            ErrorView::Parse { kind, location, message, hint } => {
                let head = match location {
                    Some(loc) => kind.spec_text() + " at "@ + decimal(loc.line as nat) + ":"@
                        + decimal(loc.column as nat) + ": "@ + message,
                    None => kind.spec_text() + ": "@ + message,
                };
                match hint {
                    Some(h) => head + "\n  = help: "@ + h,
                    None => head,
                }
            },
            ErrorView::Validation { code, kind, message } => match kind {
                Some(k) => "validation error ["@ + code + "]: "@ + message + " ("@ + k.spec_text()
                    + ")"@,
                None => "validation error ["@ + code + "]: "@ + message,
            },
            ErrorView::Codec { kind, context, message } => "codec error ("@ + kind.spec_text()
                + ") in "@ + context + ": "@ + message,
            ErrorView::Io { operation, message } => "io error during "@ + operation + ": "@
                + message,
        }
    }
}

impl CoreError {
    /// Creates a syntax error without location.
    pub fn parse(message: &str) -> (e: CoreError)
        ensures
            e@ == parse_error(message@),
    {
        CoreError::Parse {
            kind: ParseErrorKind::SyntaxError,
            location: None,
            message: String::from_str(message),
            hint: None,
        }
    }

    /// Creates a parse error of the given kind at a location.
    pub fn parse_with_kind(kind: ParseErrorKind, line: usize, column: usize, message: &str) -> (e:
        CoreError)
        ensures
            e@ == (ErrorView::Parse {
                kind,
                location: Some(Location { line, column }),
                message: message@,
                hint: None,
            }),
    {
        CoreError::Parse {
            kind,
            location: Some(Location { line, column }),
            message: String::from_str(message),
            hint: None,
        }
    }

    /// Creates a syntax error at a location.
    pub fn parse_at(line: usize, column: usize, message: &str) -> (e: CoreError)
        ensures
            e@ == parse_error_at(line, column, message@),
    {
        CoreError::Parse {
            kind: ParseErrorKind::SyntaxError,
            location: Some(Location { line, column }),
            message: String::from_str(message),
            hint: None,
        }
    }

    /// Creates a syntax error at a location with a suggested fix.
    pub fn parse_with_hint(line: usize, column: usize, message: &str, hint: &str) -> (e: CoreError)
        ensures
            e@ == (ErrorView::Parse {
                kind: ParseErrorKind::SyntaxError,
                location: Some(Location { line, column }),
                message: message@,
                hint: Some(hint@),
            }),
    {
        CoreError::Parse {
            kind: ParseErrorKind::SyntaxError,
            location: Some(Location { line, column }),
            message: String::from_str(message),
            hint: Some(String::from_str(hint)),
        }
    }

    /// Creates a validation error with a code.
    pub fn validation(code: &str, message: &str) -> (e: CoreError)
        ensures
            e@ == validation_error(code@, message@),
    {
        CoreError::Validation {
            code: String::from_str(code),
            kind: None,
            message: String::from_str(message),
        }
    }

    /// Creates a classified validation error with a code.
    pub fn validation_with_kind(code: &str, kind: ValidationFailureKind, message: &str) -> (e:
        CoreError)
        ensures
            e@ == (ErrorView::Validation { code: code@, kind: Some(kind), message: message@ }),
    {
        CoreError::Validation {
            code: String::from_str(code),
            kind: Some(kind),
            message: String::from_str(message),
        }
    }

    /// Creates an encode-failed codec error.
    pub fn codec(context: &str, message: &str) -> (e: CoreError)
        ensures
            e@ == codec_error(context@, message@),
    {
        CoreError::Codec {
            kind: CodecErrorKind::EncodeFailed,
            context: String::from_str(context),
            message: String::from_str(message),
        }
    }

    /// Creates a codec error of the given kind.
    pub fn codec_with_kind(kind: CodecErrorKind, context: &str, message: &str) -> (e: CoreError)
        ensures
            e@ == (ErrorView::Codec { kind, context: context@, message: message@ }),
    {
        CoreError::Codec {
            kind,
            context: String::from_str(context),
            message: String::from_str(message),
        }
    }

    /// Creates an input/output error.
    pub fn io(operation: &str, message: &str) -> (e: CoreError)
        ensures
            e@ == (ErrorView::Io { operation: operation@, message: message@ }),
    {
        CoreError::Io { operation: String::from_str(operation), message: String::from_str(message) }
    }

    /// The classification of a parse error.
    pub fn parse_kind(&self) -> (k: Option<ParseErrorKind>)
        ensures
            k == (match self@ {
                ErrorView::Parse { kind, .. } => Some(kind),
                _ => None,
            }),
    {
        match self {
            CoreError::Parse { kind, .. } => Some(*kind),
            _ => None,
        }
    }

    /// The classification of a codec error.
    pub fn codec_kind(&self) -> (k: Option<CodecErrorKind>)
        ensures
            k == (match self@ {
                ErrorView::Codec { kind, .. } => Some(kind),
                _ => None,
            }),
    {
        match self {
            CoreError::Codec { kind, .. } => Some(*kind),
            _ => None,
        }
    }

    /// The classification of a validation error.
    pub fn validation_kind(&self) -> (k: Option<ValidationFailureKind>)
        ensures
            k == (match self@ {
                ErrorView::Validation { kind, .. } => kind,
                _ => None,
            }),
    {
        match self {
            CoreError::Validation { kind, .. } => *kind,
            _ => None,
        }
    }

    /// The location of a parse error.
    pub fn location(&self) -> (l: Option<Location>)
        ensures
            l == (match self@ {
                ErrorView::Parse { location, .. } => location,
                _ => None,
            }),
    {
        match self {
            CoreError::Parse { location, .. } => *location,
            _ => None,
        }
    }

    /// The suggested fix of a parse error.
    pub fn hint(&self) -> (h: Option<&str>)
        ensures
            match self@ {
                ErrorView::Parse { hint: Some(t), .. } => h matches Some(s) && s@ == t,
                _ => h is None,
            },
    {
        match self {
            CoreError::Parse { hint: Some(h), .. } => Some(h.as_str()),
            _ => None,
        }
    }

    /// The text that displaying the error prints.
    pub fn to_string(&self) -> (s: String)
        ensures
            s@ == self@.display(),
    {
        let mut buf: Vec<char> = Vec::new();
        match self {
            CoreError::Parse { kind, location, message, hint } => {
                push_str(&mut buf, kind.text());
                match location {
                    Some(loc) => {
                        push_str(&mut buf, " at ");
                        push_decimal(&mut buf, loc.line as u128);
                        push_str(&mut buf, ":");
                        push_decimal(&mut buf, loc.column as u128);
                        push_str(&mut buf, ": ");
                    },
                    None => {
                        push_str(&mut buf, ": ");
                    },
                }
                push_string(&mut buf, message);
                match hint {
                    Some(h) => {
                        push_str(&mut buf, "\n  = help: ");
                        push_string(&mut buf, h);
                    },
                    None => {},
                }
            },
            CoreError::Validation { code, kind, message } => {
                push_str(&mut buf, "validation error [");
                push_string(&mut buf, code);
                push_str(&mut buf, "]: ");
                push_string(&mut buf, message);
                match kind {
                    Some(k) => {
                        push_str(&mut buf, " (");
                        push_str(&mut buf, k.text());
                        push_str(&mut buf, ")");
                    },
                    None => {},
                }
            },
            CoreError::Codec { kind, context, message } => {
                push_str(&mut buf, "codec error (");
                push_str(&mut buf, kind.text());
                push_str(&mut buf, ") in ");
                push_string(&mut buf, context);
                push_str(&mut buf, ": ");
                push_string(&mut buf, message);
            },
            CoreError::Io { operation, message } => {
                push_str(&mut buf, "io error during ");
                push_string(&mut buf, operation);
                push_str(&mut buf, ": ");
                push_string(&mut buf, message);
            },
        }
        chars_to_string(&buf)
    }
}

/// The standard library's input/output error type, carried as an opaque value.
#[verifier::external_type_specification]
#[verifier::external_body]
pub struct ExIoError(std::io::Error);

/// The text that `std::io::Error` displays.
///
/// Calls `ToString::to_string` on the error. The text comes from the error
/// (its message, or the operating system's description of its code), so the
/// contract states nothing of it.
#[verifier::external_body]
fn io_error_text(err: &std::io::Error) -> (s: String) {
    err.to_string()
}

impl From<std::io::Error> for CoreError {
    /// An input/output error of the operation `io operation`, whose message
    /// is the text of `err`.
    fn from(err: std::io::Error) -> (r: CoreError)
        ensures
            r@ matches ErrorView::Io { operation, .. } && operation == "io operation"@,
    {
        CoreError::Io { operation: String::from_str("io operation"), message: io_error_text(&err) }
    }
}

impl vstd::std_specs::convert::FromSpecImpl<std::io::Error> for CoreError {
    open spec fn obeys_from_spec() -> bool {
        false
    }

    open spec fn from_spec(v: std::io::Error) -> CoreError {
        vstd::pervasive::arbitrary()
    }
}

} // verus!
