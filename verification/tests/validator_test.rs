use packet_core::ast::{
    ChecksumAlgorithm, Direction, Field, FieldAttribute, FloatBits, FloatValue, Schema, StructDef,
    Type, Value,
};
use packet_core::validate_schema;
use packet_core::validator::{value_matches_type, ValidationError, ValidationResult};

fn float_value(literal: &str) -> Value {
    let x: f64 = literal.parse().expect("float literal");
    Value::Float(FloatValue {
        literal: literal.to_string(),
        bits: Some(FloatBits { f64_bits: x.to_bits(), f32_bits: (x as f32).to_bits() }),
    })
}

fn create_test_schema() -> Schema {
    let mut schema = Schema::new();
    schema.add_struct(StructDef {
        name: "Test".to_string(),
        direction: None,
        fields: vec![Field {
            name: "value".to_string(),
            ty: Type::U32,
            value: Some(Value::Integer(42)),
            attributes: vec![],
            doc: None,
        }],
        doc: None,
        endian: None,
    });
    schema
}

#[test]
fn test_validate_valid_schema() {
    let schema = create_test_schema();
    let result = validate_schema(&schema);
    assert!(result.is_ok());
}

#[test]
fn test_validate_duplicate_struct_name() {
    let mut schema = Schema::new();
    let struct_def = StructDef {
        name: "Test".to_string(),
        direction: None,
        fields: vec![],
        doc: None,
        endian: None,
    };
    schema.add_struct(struct_def.clone());
    schema.add_struct(struct_def);

    let result = validate_schema(&schema);
    assert!(result.is_err());
    assert!(result.unwrap_err().to_string().contains("duplicate"));
}

#[test]
fn test_validate_duplicate_field_name() {
    let mut schema = Schema::new();
    schema.add_struct(StructDef {
        name: "Test".to_string(),
        direction: None,
        fields: vec![
            Field {
                name: "value".to_string(),
                ty: Type::U32,
                value: Some(Value::Integer(1)),
                attributes: vec![],
                doc: None,
            },
            Field {
                name: "value".to_string(),
                ty: Type::U32,
                value: Some(Value::Integer(2)),
                attributes: vec![],
                doc: None,
            },
        ],
        doc: None,
        endian: None,
    });

    let result = validate_schema(&schema);
    assert!(result.is_err());
    assert!(result.unwrap_err().to_string().contains("duplicate field"));
}

#[test]
fn test_validate_unknown_type() {
    let mut schema = Schema::new();
    schema.add_struct(StructDef {
        name: "Test".to_string(),
        direction: None,
        fields: vec![Field {
            name: "value".to_string(),
            ty: Type::Custom("Unknown".to_string()),
            value: None,
            attributes: vec![],
            doc: None,
        }],
        doc: None,
        endian: None,
    });

    let result = validate_schema(&schema);
    assert!(result.is_err());
    assert!(result.unwrap_err().to_string().contains("unknown type"));
}

#[test]
fn test_validate_type_mismatch() {
    let mut schema = Schema::new();
    schema.add_struct(StructDef {
        name: "Test".to_string(),
        direction: None,
        fields: vec![Field {
            name: "value".to_string(),
            ty: Type::Bool,
            value: Some(Value::Integer(42)),
            attributes: vec![],
            doc: None,
        }],
        doc: None,
        endian: None,
    });

    let result = validate_schema(&schema);
    assert!(result.is_err());
    assert!(result.unwrap_err().to_string().contains("type"));
}

#[test]
fn test_validate_empty_struct_name() {
    let mut schema = Schema::new();
    schema.add_struct(StructDef {
        name: "".to_string(),
        direction: None,
        fields: vec![],
        doc: None,
        endian: None,
    });

    let result = validate_schema(&schema);
    assert!(result.is_err());
}

#[test]
fn test_validate_empty_field_name() {
    let mut schema = Schema::new();
    schema.add_struct(StructDef {
        name: "Test".to_string(),
        direction: None,
        fields: vec![Field {
            name: "".to_string(),
            ty: Type::U32,
            value: None,
            attributes: vec![],
            doc: None,
        }],
        doc: None,
        endian: None,
    });

    let result = validate_schema(&schema);
    assert!(result.is_err());
}

#[test]
fn test_validate_send_struct_missing_value() {
    let mut schema = Schema::new();
    schema.add_struct(StructDef {
        name: "Test".to_string(),
        direction: Some(Direction::Send),
        fields: vec![Field {
            name: "value".to_string(),
            ty: Type::U32,
            value: None,
            attributes: vec![],
            doc: None,
        }],
        doc: None,
        endian: None,
    });

    let result = validate_schema(&schema);
    assert!(result.is_err());
    assert!(result
        .unwrap_err()
        .to_string()
        .contains("must have a value"));
}

#[test]
fn test_validate_zero_size_array() {
    let mut schema = Schema::new();
    schema.add_struct(StructDef {
        name: "Test".to_string(),
        direction: None,
        fields: vec![Field {
            name: "arr".to_string(),
            ty: Type::Array(Box::new(Type::U8), 0),
            value: None,
            attributes: vec![],
            doc: None,
        }],
        doc: None,
        endian: None,
    });

    let result = validate_schema(&schema);
    assert!(result.is_err());
    assert!(result.unwrap_err().to_string().contains("cannot be zero"));
}

#[test]
fn test_validate_nested_vec() {
    let mut schema = Schema::new();
    schema.add_struct(StructDef {
        name: "Test".to_string(),
        direction: None,
        fields: vec![Field {
            name: "nested".to_string(),
            ty: Type::Vec(Box::new(Type::Vec(Box::new(Type::U32)))),
            value: None,
            attributes: vec![],
            doc: None,
        }],
        doc: None,
        endian: None,
    });

    let result = validate_schema(&schema);
    assert!(result.is_ok());
}

#[test]
fn test_validate_custom_type() {
    let mut schema = Schema::new();
    schema.add_struct(StructDef {
        name: "Inner".to_string(),
        direction: None,
        fields: vec![],
        doc: None,
        endian: None,
    });
    schema.add_struct(StructDef {
        name: "Outer".to_string(),
        direction: None,
        fields: vec![Field {
            name: "inner".to_string(),
            ty: Type::Custom("Inner".to_string()),
            value: None,
            attributes: vec![],
            doc: None,
        }],
        doc: None,
        endian: None,
    });

    let result = validate_schema(&schema);
    assert!(result.is_ok());
}

#[test]
fn test_value_matches_type() {
    assert!(value_matches_type(&Value::Integer(42), &Type::U32));
    assert!(value_matches_type(&Value::Bool(true), &Type::Bool));
    assert!(value_matches_type(&float_value("3.14"), &Type::F64));
    assert!(!value_matches_type(&Value::Integer(42), &Type::Bool));
}

#[test]
fn test_validation_result() {
    let mut result = ValidationResult::success();
    assert!(result.is_valid);

    result.add_error(ValidationError {
        code: "E001".to_string(),
        message: "test".to_string(),
        struct_name: None,
        field_name: None,
    });
    assert!(!result.is_valid);
}

// ========== 新增约束测试 ==========

#[test]
fn test_remaining_in_send_struct() {
    let mut schema = Schema::new();
    schema.add_struct(StructDef {
        name: "Test".to_string(),
        direction: Some(Direction::Send),
        fields: vec![Field {
            name: "data".to_string(),
            ty: Type::Bytes,
            value: Some(Value::Bytes(vec![1, 2, 3])),
            attributes: vec![FieldAttribute::Remaining],
            doc: None,
        }],
        doc: None,
        endian: None,
    });

    let result = validate_schema(&schema);
    assert!(result.is_err());
    assert!(result.unwrap_err().to_string().contains("E012"));
}

#[test]
fn test_remaining_not_last_field() {
    let mut schema = Schema::new();
    schema.add_struct(StructDef {
        name: "Test".to_string(),
        direction: Some(Direction::Receive),
        fields: vec![
            Field {
                name: "data".to_string(),
                ty: Type::Bytes,
                value: None,
                attributes: vec![FieldAttribute::Remaining],
                doc: None,
            },
            Field {
                name: "extra".to_string(),
                ty: Type::U32,
                value: None,
                attributes: vec![],
                doc: None,
            },
        ],
        doc: None,
        endian: None,
    });

    let result = validate_schema(&schema);
    assert!(result.is_err());
    assert!(result.unwrap_err().to_string().contains("E013"));
}

#[test]
fn test_multiple_remaining_fields() {
    let mut schema = Schema::new();
    schema.add_struct(StructDef {
        name: "Test".to_string(),
        direction: Some(Direction::Receive),
        fields: vec![
            Field {
                name: "data1".to_string(),
                ty: Type::Bytes,
                value: None,
                attributes: vec![FieldAttribute::Remaining],
                doc: None,
            },
            Field {
                name: "data2".to_string(),
                ty: Type::Bytes,
                value: None,
                attributes: vec![FieldAttribute::Remaining],
                doc: None,
            },
        ],
        doc: None,
        endian: None,
    });

    let result = validate_schema(&schema);
    assert!(result.is_err());
    assert!(result.unwrap_err().to_string().contains("E014"));
}

#[test]
fn test_remaining_invalid_type() {
    let mut schema = Schema::new();
    schema.add_struct(StructDef {
        name: "Test".to_string(),
        direction: Some(Direction::Receive),
        fields: vec![Field {
            name: "data".to_string(),
            ty: Type::U32,
            value: None,
            attributes: vec![FieldAttribute::Remaining],
            doc: None,
        }],
        doc: None,
        endian: None,
    });

    let result = validate_schema(&schema);
    assert!(result.is_err());
    assert!(result.unwrap_err().to_string().contains("E011"));
}

#[test]
fn test_if_condition_not_bool() {
    let mut schema = Schema::new();
    schema.add_struct(StructDef {
        name: "Test".to_string(),
        direction: Some(Direction::Send),
        fields: vec![
            Field {
                name: "flag".to_string(),
                ty: Type::U32,
                value: Some(Value::Integer(1)),
                attributes: vec![],
                doc: None,
            },
            Field {
                name: "data".to_string(),
                ty: Type::U32,
                value: Some(Value::Integer(42)),
                attributes: vec![FieldAttribute::If("flag".to_string())],
                doc: None,
            },
        ],
        doc: None,
        endian: None,
    });

    let result = validate_schema(&schema);
    assert!(result.is_err());
    assert!(result.unwrap_err().to_string().contains("E006"));
}

#[test]
fn test_if_condition_nonexistent() {
    let mut schema = Schema::new();
    schema.add_struct(StructDef {
        name: "Test".to_string(),
        direction: Some(Direction::Send),
        fields: vec![Field {
            name: "data".to_string(),
            ty: Type::U32,
            value: Some(Value::Integer(42)),
            attributes: vec![FieldAttribute::If("nonexistent".to_string())],
            doc: None,
        }],
        doc: None,
        endian: None,
    });

    let result = validate_schema(&schema);
    assert!(result.is_err());
    assert!(result.unwrap_err().to_string().contains("E006"));
}

#[test]
fn test_checksum_invalid_type() {
    let mut schema = Schema::new();
    schema.add_struct(StructDef {
        name: "Test".to_string(),
        direction: Some(Direction::Send),
        fields: vec![Field {
            name: "crc".to_string(),
            ty: Type::F32,
            value: Some(float_value("0.0")),
            attributes: vec![FieldAttribute::Checksum(
                ChecksumAlgorithm::Crc8,
            )],
            doc: None,
        }],
        doc: None,
        endian: None,
    });

    let result = validate_schema(&schema);
    assert!(result.is_err());
    assert!(result.unwrap_err().to_string().contains("E008"));
}

#[test]
fn test_auto_field_reference_nonexistent() {
    let mut schema = Schema::new();
    schema.add_struct(StructDef {
        name: "Test".to_string(),
        direction: Some(Direction::Send),
        fields: vec![Field {
            name: "count".to_string(),
            ty: Type::U8,
            value: None,
            attributes: vec![FieldAttribute::Auto(Some("nonexistent".to_string()))],
            doc: None,
        }],
        doc: None,
        endian: None,
    });

    let result = validate_schema(&schema);
    assert!(result.is_err());
    assert!(result.unwrap_err().to_string().contains("E015"));
}
