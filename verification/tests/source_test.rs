use packet_core::parse_schema;

#[test]
fn test_parse_empty() {
    let result = parse_schema("");
    assert!(result.is_ok());
    let schema = result.unwrap();
    assert!(schema.structs.is_empty());
}

#[test]
fn mod_test_parse_simple_struct() {
    let source = r#"
        struct Test {
            value: u32 = 42,
        }
    "#;
    let result = parse_schema(source);
    assert!(result.is_ok());
    let schema = result.unwrap();
    assert!(schema.get_struct("Test").is_some());
}

#[test]
fn test_parse_multiple_fields() {
    let source = r#"
        struct Data {
            id: u32 = 1,
            name: String = "test",
            active: bool = true,
        }
    "#;
    let result = parse_schema(source);
    assert!(result.is_ok());
    let schema = result.unwrap();
    let def = schema.get_struct("Data").unwrap();
    assert_eq!(def.fields.len(), 3);
}

#[test]
fn test_parse_with_comments() {
    let source = r#"
        // This is a comment
        struct Test {
            value: u32, // inline comment
        }
    "#;
    let result = parse_schema(source);
    assert!(result.is_ok());
}

#[test]
fn test_parse_complex_types() {
    let source = r#"
        struct Complex {
            arr: [u8; 4],
            vec: Vec<u32>,
        }
    "#;
    let result = parse_schema(source);
    assert!(result.is_ok());
    let schema = result.unwrap();
    let def = schema.get_struct("Complex").unwrap();
    assert_eq!(def.fields.len(), 2);
}

#[test]
fn test_parse_invalid_token() {
    let source = "struct @invalid";
    let result = parse_schema(source);
    assert!(result.is_err());
}

#[test]
fn test_error_message_contains_details() {
    let source = "strcut Header { magic: u8 }";
    let result = parse_schema(source);

    assert!(result.is_err());

    let err = result.unwrap_err();
    let err_display = err.to_string();

    println!("Error message: {}", err_display);
    assert!(
        err_display.contains("syntax error") || err_display.contains("parse error"),
        "Error message should contain details, got: {}",
        err_display
    );
}

#[test]
fn test_error_message_for_invalid_token() {
    let source = "struct @invalid";
    let result = parse_schema(source);

    assert!(result.is_err());

    let err = result.unwrap_err();
    let err_display = err.to_string();

    assert!(
        err_display.contains("syntax error")
            || err_display.contains("parse error")
            || err_display.contains("invalid"),
        "Error message should describe the invalid token, got: {}",
        err_display
    );
}
