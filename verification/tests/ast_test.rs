use packet_core::ast::{
    ChecksumAlgorithm, Direction, Endianness, Field, FieldAttribute, FileAttribute, Schema, StructAttribute,
    StructDef, Type, Value,
};

#[test]
fn test_schema_new() {
    let schema = Schema::new();
    assert!(schema.structs.is_empty());
    assert!(schema.struct_map.is_empty());
}

#[test]
fn test_schema_default() {
    let schema: Schema = Default::default();
    assert!(schema.structs.is_empty());
}

#[test]
fn test_schema_add_struct() {
    let mut schema = Schema::new();
    let def = StructDef {
        name: "Test".to_string(),
        direction: None,
        fields: vec![],
        doc: None,
        endian: None,
    };
    schema.add_struct(def);

    assert_eq!(schema.structs.len(), 1);
    assert!(schema.struct_map.contains_key("Test"));
}

#[test]
fn test_schema_get_struct() {
    let mut schema = Schema::new();
    let def = StructDef {
        name: "Test".to_string(),
        direction: None,
        fields: vec![],
        doc: None,
        endian: None,
    };
    schema.add_struct(def);

    assert!(schema.get_struct("Test").is_some());
    assert!(schema.get_struct("NonExistent").is_none());
}

#[test]
fn test_schema_get_first_receive_struct() {
    let mut schema = Schema::new();
    schema.add_struct(StructDef {
        name: "Send".to_string(),
        direction: Some(Direction::Send),
        fields: vec![],
        doc: None,
        endian: None,
    });
    schema.add_struct(StructDef {
        name: "Receive".to_string(),
        direction: Some(Direction::Receive),
        fields: vec![],
        doc: None,
        endian: None,
    });

    let first_recv = schema.get_first_receive_struct();
    assert!(first_recv.is_some());
    assert_eq!(first_recv.unwrap().name, "Receive");
}

#[test]
fn test_schema_get_first_send_struct() {
    let mut schema = Schema::new();
    schema.add_struct(StructDef {
        name: "Receive".to_string(),
        direction: Some(Direction::Receive),
        fields: vec![],
        doc: None,
        endian: None,
    });
    schema.add_struct(StructDef {
        name: "Send".to_string(),
        direction: Some(Direction::Send),
        fields: vec![],
        doc: None,
        endian: None,
    });

    let first_send = schema.get_first_send_struct();
    assert!(first_send.is_some());
    assert_eq!(first_send.unwrap().name, "Send");
}

#[test]
fn test_direction_as_str() {
    assert_eq!(Direction::Send.as_str(), "send");
    assert_eq!(Direction::Receive.as_str(), "receive");
}

#[test]
fn test_struct_def_clone() {
    let def = StructDef {
        name: "Test".to_string(),
        direction: Some(Direction::Send),
        fields: vec![Field {
            name: "value".to_string(),
            ty: Type::U32,
            value: Some(Value::Integer(42)),
            attributes: vec![],
            doc: None,
        }],
        doc: None,
        endian: None,
    };
    let cloned = def.clone();
    assert_eq!(def.name, cloned.name);
    assert_eq!(def.fields.len(), cloned.fields.len());
}

#[test]
fn test_field_clone() {
    let field = Field {
        name: "value".to_string(),
        ty: Type::U32,
        value: Some(Value::Integer(42)),
        attributes: vec![FieldAttribute::Auto(None)],
        doc: None,
    };
    let cloned = field.clone();
    assert_eq!(field.name, cloned.name);
}

#[test]
fn test_field_attribute_variants() {
    let _auto = FieldAttribute::Auto(None);
    let _auto_field = FieldAttribute::Auto(Some("field".to_string()));
    let _len_ref = FieldAttribute::LenRef("field".to_string());
    let _remaining = FieldAttribute::Remaining;
    let _bits = FieldAttribute::Bits(0, 4);
    let _bit = FieldAttribute::Bit(7);
    let _if = FieldAttribute::If("condition".to_string());
    let _checksum = FieldAttribute::Checksum(ChecksumAlgorithm::Crc16);
    let _endian = FieldAttribute::Endian(Endianness::Big);
}

#[test]
fn test_checksum_algorithm_as_str() {
    assert_eq!(ChecksumAlgorithm::Crc8.as_str(), "crc8");
    assert_eq!(ChecksumAlgorithm::Crc16.as_str(), "crc16");
    assert_eq!(ChecksumAlgorithm::Crc32.as_str(), "crc32");
    assert_eq!(ChecksumAlgorithm::Xor.as_str(), "xor");
    assert_eq!(ChecksumAlgorithm::Sum.as_str(), "sum");
}

#[test]
fn test_endianness_as_str() {
    assert_eq!(Endianness::Big.as_str(), "big");
    assert_eq!(Endianness::Little.as_str(), "little");
}

#[test]
fn test_struct_attribute_variants() {
    let _send = StructAttribute::Send;
    let _receive = StructAttribute::Receive;
    let _endian = StructAttribute::Endian(Endianness::Little);
}

#[test]
fn test_direction_clone_and_eq() {
    let dir = Direction::Send;
    let cloned = dir.clone();
    assert_eq!(dir, cloned);
    assert_eq!(dir, Direction::Send);
    assert_ne!(dir, Direction::Receive);
}

#[test]
fn test_type_size_primitive() {
    assert_eq!(Type::U8.size(), Some(1));
    assert_eq!(Type::I8.size(), Some(1));
    assert_eq!(Type::Bool.size(), Some(1));
    assert_eq!(Type::U16.size(), Some(2));
    assert_eq!(Type::I16.size(), Some(2));
    assert_eq!(Type::U32.size(), Some(4));
    assert_eq!(Type::I32.size(), Some(4));
    assert_eq!(Type::F32.size(), Some(4));
    assert_eq!(Type::U64.size(), Some(8));
    assert_eq!(Type::I64.size(), Some(8));
    assert_eq!(Type::F64.size(), Some(8));
    assert_eq!(Type::U128.size(), Some(16));
    assert_eq!(Type::I128.size(), Some(16));
}

#[test]
fn test_type_size_array() {
    assert_eq!(Type::Array(Box::new(Type::U8), 4).size(), Some(4));
    assert_eq!(Type::Array(Box::new(Type::U32), 10).size(), Some(40));
}

#[test]
fn test_type_size_variable() {
    assert_eq!(Type::String.size(), None);
    assert_eq!(Type::Bytes.size(), None);
    assert_eq!(Type::Vec(Box::new(Type::U32)).size(), None);
    assert_eq!(Type::Custom("MyType".to_string()).size(), None);
}

#[test]
fn test_type_is_variable_length() {
    assert!(Type::String.is_variable_length());
    assert!(Type::Bytes.is_variable_length());
    assert!(Type::Vec(Box::new(Type::U32)).is_variable_length());
    assert!(Type::Custom("MyType".to_string()).is_variable_length());
    assert!(!Type::U32.is_variable_length());
    assert!(!Type::Array(Box::new(Type::U8), 4).is_variable_length());
}

#[test]
fn test_type_clone() {
    let ty = Type::U32;
    let cloned = ty.clone();
    assert_eq!(ty, cloned);
}

#[test]
fn test_value_clone() {
    let val = Value::Integer(42);
    let cloned = val.clone();
    assert!(matches!(cloned, Value::Integer(42)));
}

#[test]
fn test_type_equality() {
    assert_eq!(Type::U32, Type::U32);
    assert_ne!(Type::U32, Type::U64);
}

/// The schema's default byte order follows its file attributes.
#[test]
fn test_schema_default_endian() {
    let mut schema = Schema::new();
    assert_eq!(schema.default_endian(), Endianness::Big);

    schema
        .file_attributes
        .push(FileAttribute::Endian(Endianness::Little));
    assert_eq!(schema.default_endian(), Endianness::Little);
}
