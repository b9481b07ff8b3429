use packet_core::{CodecErrorKind, CoreError, Location, ParseErrorKind, ValidationFailureKind};

#[test]
fn test_parse_error() {
    let err = CoreError::parse("unexpected token");
    assert!(matches!(err, CoreError::Parse { .. }));
    assert_eq!(err.parse_kind(), Some(ParseErrorKind::SyntaxError));
    assert!(err.to_string().contains("syntax error"));
    assert!(err.to_string().contains("unexpected token"));
}

#[test]
fn test_parse_error_with_location() {
    let err = CoreError::parse_at(10, 5, "unexpected token");
    assert!(matches!(err, CoreError::Parse { .. }));
    assert!(err.to_string().contains("10:5"));
}

#[test]
fn test_parse_error_with_kind() {
    let err = CoreError::parse_with_kind(
        ParseErrorKind::LexicalError,
        3,
        10,
        "invalid character '@'",
    );
    assert_eq!(err.parse_kind(), Some(ParseErrorKind::LexicalError));
    assert!(err.to_string().contains("lexical error"));
}

#[test]
fn test_parse_error_with_hint() {
    let err =
        CoreError::parse_with_hint(5, 12, "旧语法已移除", "请使用函数风格: #[len_ref(count)]");
    assert!(matches!(err, CoreError::Parse { .. }));
    assert_eq!(err.hint(), Some("请使用函数风格: #[len_ref(count)]"));
    let display = err.to_string();
    assert!(display.contains("旧语法已移除"));
    assert!(display.contains("help:"));
}

#[test]
fn test_validation_error() {
    let err = CoreError::validation("E001", "field missing");
    assert!(matches!(err, CoreError::Validation { .. }));
    assert!(err.to_string().contains("E001"));
}

#[test]
fn test_validation_error_with_kind() {
    let err = CoreError::validation_with_kind(
        "E002",
        ValidationFailureKind::MissingValue,
        "send struct field has no value",
    );
    assert_eq!(
        err.validation_kind(),
        Some(ValidationFailureKind::MissingValue)
    );
    assert!(err.to_string().contains("missing value"));
}

#[test]
fn test_codec_error() {
    let err = CoreError::codec("encode", "buffer overflow");
    assert!(matches!(err, CoreError::Codec { .. }));
    assert_eq!(err.codec_kind(), Some(CodecErrorKind::EncodeFailed));
    assert!(err.to_string().contains("encode"));
}

#[test]
fn test_codec_error_with_kind() {
    let err = CoreError::codec_with_kind(
        CodecErrorKind::ChecksumMismatch,
        "decode",
        "CRC32 mismatch",
    );
    assert_eq!(err.codec_kind(), Some(CodecErrorKind::ChecksumMismatch));
    assert!(err.to_string().contains("checksum mismatch"));
}

#[test]
fn test_io_error() {
    let err = CoreError::io("read file", "permission denied");
    assert!(matches!(err, CoreError::Io { .. }));
    assert!(err.to_string().contains("read file"));
}

#[test]
fn test_from_io_error() {
    let io_err = std::io::Error::new(std::io::ErrorKind::NotFound, "file not found");
    let core_err: CoreError = io_err.into();
    assert!(matches!(core_err, CoreError::Io { .. }));
    assert!(core_err.to_string().contains("file not found"));
}

#[test]
fn test_location_struct() {
    let loc = Location {
        line: 5,
        column: 10,
    };
    assert_eq!(loc.line, 5);
    assert_eq!(loc.column, 10);
}

#[test]
fn test_core_error_implements_error_trait() {
    let err = CoreError::parse("test");
    assert!(err.to_string().contains("test"));
}

#[test]
fn test_core_error_implements_clone() {
    let err = CoreError::validation("E001", "test error");
    let cloned = err.clone();
    assert_eq!(err.to_string(), cloned.to_string());
}

#[test]
fn test_error_kind_display() {
    assert_eq!(ParseErrorKind::LexicalError.to_string(), "lexical error");
    assert_eq!(CodecErrorKind::DecodeFailed.to_string(), "decode failed");
    assert_eq!(
        ValidationFailureKind::ZeroSizeArray.to_string(),
        "zero size array"
    );
}
