use packet_core::ast::{
    ChecksumAlgorithm, Direction, Endianness, FieldAttribute, FileAttribute, Type, Value,
};
use packet_core::lexer::{tokenize, Token};
use packet_core::parser::{parse_schema_tokens, parse_type_exec, parse_value_exec};

fn lex(input: &str) -> Vec<Token> {
    let chars: Vec<char> = input.chars().collect();
    tokenize(&chars)
        .expect("lexing failed")
        .into_iter()
        .map(|(token, _, _)| token)
        .collect()
}

#[test]
fn test_parse_empty_schema() {
    let tokens = lex("");
    let result = parse_schema_tokens(&tokens);
    assert!(result.is_ok());
    let schema = result.unwrap();
    assert!(schema.structs.is_empty());
}

#[test]
fn parser_impl_test_parse_simple_struct() {
    let input = r#"
        struct Test {
            value: u32,
        }
    "#;
    let tokens = lex(input);
    let result = parse_schema_tokens(&tokens);
    assert!(result.is_ok());
    let schema = result.unwrap();
    assert_eq!(schema.structs.len(), 1);
    assert!(schema.get_struct("Test").is_some());
}

#[test]
fn test_parse_struct_with_value() {
    let input = r#"
        struct Test {
            value: u32 = 42,
        }
    "#;
    let tokens = lex(input);
    let result = parse_schema_tokens(&tokens);
    assert!(result.is_ok());
    let schema = result.unwrap();
    let def = schema.get_struct("Test").unwrap();
    assert_eq!(def.fields.len(), 1);
    assert!(def.fields[0].value.is_some());
}

#[test]
fn test_parse_multiple_structs() {
    let input = r#"
        struct Foo {
            a: u8,
        }
        struct Bar {
            b: u16,
        }
    "#;
    let tokens = lex(input);
    let result = parse_schema_tokens(&tokens);
    assert!(result.is_ok());
    let schema = result.unwrap();
    assert_eq!(schema.structs.len(), 2);
}

#[test]
fn test_type_parser() {
    let input = "u8";
    let tokens = lex(input);
    let result = parse_type_exec(&tokens, 0);
    assert!(result.is_ok());
    assert_eq!(result.unwrap().0, Type::U8);
}

#[test]
fn test_value_parser_integer() {
    let input = "42";
    let tokens = lex(input);
    let result = parse_value_exec(&tokens, 0);
    assert!(result.is_ok());
    assert!(matches!(result.unwrap().0, Value::Integer(42)));
}

#[test]
fn test_value_parser_bool() {
    let input = "true";
    let tokens = lex(input);
    let result = parse_value_exec(&tokens, 0);
    assert!(result.is_ok());
    assert!(matches!(result.unwrap().0, Value::Bool(true)));
}

#[test]
fn test_parse_struct_with_send_attribute() {
    let input = r#"
        #[send]
        struct Test {
            value: u32 = 42,
        }
    "#;
    let tokens = lex(input);
    let result = parse_schema_tokens(&tokens);
    assert!(result.is_ok());
    let schema = result.unwrap();
    let def = schema.get_struct("Test").unwrap();
    assert_eq!(def.direction, Some(Direction::Send));
}

#[test]
fn test_parse_struct_with_receive_attribute() {
    let input = r#"
        #[receive]
        struct Test {
            value: u32,
        }
    "#;
    let tokens = lex(input);
    let result = parse_schema_tokens(&tokens);
    assert!(result.is_ok());
    let schema = result.unwrap();
    let def = schema.get_struct("Test").unwrap();
    assert_eq!(def.direction, Some(Direction::Receive));
}

#[test]
fn test_parse_complex_nested_types() {
    let input = r#"
        struct Test {
            nested_vec: Vec<Vec<u32>>,
            nested_array: [[u8; 4]; 2],
        }
    "#;
    let tokens = lex(input);
    let result = parse_schema_tokens(&tokens);
    assert!(result.is_ok());
    let schema = result.unwrap();
    let def = schema.get_struct("Test").unwrap();
    assert_eq!(def.fields.len(), 2);
}

// ========== 字段属性测试 ==========

#[test]
fn test_parse_auto_attribute() {
    let input = r#"
        #[send]
        struct Packet {
            data: Vec<u8> = [1, 2, 3],
            #[auto]
            length: u16,
        }
    "#;
    let tokens = lex(input);
    let result = parse_schema_tokens(&tokens);
    assert!(result.is_ok());
    let schema = result.unwrap();
    let def = schema.get_struct("Packet").unwrap();
    assert_eq!(def.fields.len(), 2);
    assert!(def.fields[1]
        .attributes
        .contains(&FieldAttribute::Auto(None)));
}

#[test]
fn test_parse_auto_field_attribute() {
    let input = r#"
        #[send]
        struct VariableData {
            #[auto(items)]
            count: u8,
            items: Vec<u32> = [100, 200, 300],
        }
    "#;
    let tokens = lex(input);
    let result = parse_schema_tokens(&tokens);
    assert!(result.is_ok());
    let schema = result.unwrap();
    let def = schema.get_struct("VariableData").unwrap();
    assert!(def.fields[0]
        .attributes
        .contains(&FieldAttribute::Auto(Some("items".to_string()))));
}

#[test]
fn test_parse_len_ref_attribute() {
    let input = r#"
        #[receive]
        struct VariableData {
            count: u8,
            #[len_ref(count)]
            items: Vec<u32>,
        }
    "#;
    let tokens = lex(input);
    let result = parse_schema_tokens(&tokens);
    assert!(result.is_ok());
    let schema = result.unwrap();
    let def = schema.get_struct("VariableData").unwrap();
    assert!(def.fields[1]
        .attributes
        .contains(&FieldAttribute::LenRef("count".to_string())));
}

#[test]
fn test_parse_remaining_attribute() {
    let input = r#"
        #[receive]
        struct Message {
            header: u32,
            #[remaining]
            payload: Bytes,
        }
    "#;
    let tokens = lex(input);
    let result = parse_schema_tokens(&tokens);
    assert!(result.is_ok());
    let schema = result.unwrap();
    let def = schema.get_struct("Message").unwrap();
    assert!(def.fields[1]
        .attributes
        .contains(&FieldAttribute::Remaining));
}

#[test]
fn test_parse_endian_attribute() {
    let input = r#"
        #[send]
        struct Packet {
            #[endian(little)]
            value: u32 = 0x12345678,
        }
    "#;
    let tokens = lex(input);
    let result = parse_schema_tokens(&tokens);
    assert!(result.is_ok());
    let schema = result.unwrap();
    let def = schema.get_struct("Packet").unwrap();
    assert!(def.fields[0]
        .attributes
        .contains(&FieldAttribute::Endian(Endianness::Little)));
}

#[test]
fn test_parse_checksum_crc8_attribute() {
    let input = r#"
        #[send]
        struct ChecksumPacket {
            data: u16 = 0x1234,
            #[checksum(crc8)]
            crc: u8,
        }
    "#;
    let tokens = lex(input);
    let result = parse_schema_tokens(&tokens);
    assert!(result.is_ok());
    let schema = result.unwrap();
    let def = schema.get_struct("ChecksumPacket").unwrap();
    assert!(def.fields[1]
        .attributes
        .contains(&FieldAttribute::Checksum(ChecksumAlgorithm::Crc8)));
}

#[test]
fn test_parse_checksum_crc16_attribute() {
    let input = r#"
        #[send]
        struct ChecksumPacket {
            data: u16 = 0x1234,
            #[checksum(crc16)]
            crc: u16,
        }
    "#;
    let tokens = lex(input);
    let result = parse_schema_tokens(&tokens);
    assert!(result.is_ok());
    let schema = result.unwrap();
    let def = schema.get_struct("ChecksumPacket").unwrap();
    assert!(def.fields[1]
        .attributes
        .contains(&FieldAttribute::Checksum(ChecksumAlgorithm::Crc16)));
}

#[test]
fn test_parse_checksum_crc32_attribute() {
    let input = r#"
        #[send]
        struct ChecksumPacket {
            data: u32 = 0x12345678,
            #[checksum(crc32)]
            crc: u32,
        }
    "#;
    let tokens = lex(input);
    let result = parse_schema_tokens(&tokens);
    assert!(result.is_ok());
    let schema = result.unwrap();
    let def = schema.get_struct("ChecksumPacket").unwrap();
    assert!(def.fields[1]
        .attributes
        .contains(&FieldAttribute::Checksum(ChecksumAlgorithm::Crc32)));
}

#[test]
fn test_parse_checksum_xor_attribute() {
    let input = r#"
        #[send]
        struct ChecksumPacket {
            data: u16 = 0x1234,
            #[checksum(xor)]
            checksum: u8,
        }
    "#;
    let tokens = lex(input);
    let result = parse_schema_tokens(&tokens);
    assert!(result.is_ok());
    let schema = result.unwrap();
    let def = schema.get_struct("ChecksumPacket").unwrap();
    assert!(def.fields[1]
        .attributes
        .contains(&FieldAttribute::Checksum(ChecksumAlgorithm::Xor)));
}

#[test]
fn test_parse_checksum_sum_attribute() {
    let input = r#"
        #[send]
        struct ChecksumPacket {
            data: u16 = 0x1234,
            #[checksum(sum)]
            checksum: u8,
        }
    "#;
    let tokens = lex(input);
    let result = parse_schema_tokens(&tokens);
    assert!(result.is_ok());
    let schema = result.unwrap();
    let def = schema.get_struct("ChecksumPacket").unwrap();
    assert!(def.fields[1]
        .attributes
        .contains(&FieldAttribute::Checksum(ChecksumAlgorithm::Sum)));
}

#[test]
fn test_parse_bits_attribute() {
    let input = r#"
        #[send]
        struct StatusRegister {
            #[bits(0, 3)]
            code: u8 = 5,
            #[bit(4)]
            active: bool = true,
        }
    "#;
    let tokens = lex(input);
    let result = parse_schema_tokens(&tokens);
    assert!(result.is_ok());
    let schema = result.unwrap();
    let def = schema.get_struct("StatusRegister").unwrap();
    assert!(def.fields[0]
        .attributes
        .contains(&FieldAttribute::Bits(0, 3)));
    assert!(def.fields[1].attributes.contains(&FieldAttribute::Bit(4)));
}

#[test]
fn test_parse_if_attribute() {
    let input = r#"
        #[send]
        struct ConditionalData {
            has_data: bool = true,
            #[if(has_data)]
            data: u32 = 100,
        }
    "#;
    let tokens = lex(input);
    let result = parse_schema_tokens(&tokens);
    assert!(result.is_ok());
    let schema = result.unwrap();
    let def = schema.get_struct("ConditionalData").unwrap();
    assert!(def.fields[1]
        .attributes
        .contains(&FieldAttribute::If("has_data".to_string())));
}

#[test]
fn test_parse_multiple_field_attributes() {
    let input = r#"
        #[send]
        struct ComplexPacket {
            count: u8 = 3,
            #[if(has_data)]
            #[len_ref(count)]
            data: Vec<u8> = [1, 2, 3],
        }
    "#;
    let tokens = lex(input);
    let result = parse_schema_tokens(&tokens);
    assert!(result.is_ok());
    let schema = result.unwrap();
    let def = schema.get_struct("ComplexPacket").unwrap();
    assert_eq!(def.fields[1].attributes.len(), 2);
}

#[test]
fn test_parse_struct_endian_attribute() {
    let input = r#"
        #[endian(little)]
        struct LittleEndianStruct {
            value: u32 = 0x12345678,
        }
    "#;
    let tokens = lex(input);
    let result = parse_schema_tokens(&tokens);
    assert!(result.is_ok());
    let schema = result.unwrap();
    let def = schema.get_struct("LittleEndianStruct").unwrap();
    assert_eq!(def.endian, Some(Endianness::Little));
}

#[test]
fn test_parse_doc_comment() {
    let input = r#"
        /// This is a sensor data packet
        /// Used for temperature readings
        #[send]
        struct SensorData {
            /// Temperature in Celsius
            temp: f32 = 25.0,
        }
    "#;
    let tokens = lex(input);
    let result = parse_schema_tokens(&tokens);
    assert!(result.is_ok());
    let schema = result.unwrap();
    let def = schema.get_struct("SensorData").unwrap();
    assert!(def.doc.is_some());
    assert!(def.doc.as_ref().unwrap().contains("sensor data packet"));
    assert!(def.doc.as_ref().unwrap().contains("temperature readings"));

    // 检查字段文档
    assert_eq!(def.fields.len(), 1);
    assert!(def.fields[0].doc.is_some());
    assert!(def.fields[0]
        .doc
        .as_ref()
        .unwrap()
        .contains("Temperature in Celsius"));
}

#[test]
fn test_parse_import() {
    let input = r#"
        import("common/types.pkt")
        import("network/packet.pkt")

        #[send]
        struct MyPacket {
            data: u32 = 42,
        }
    "#;
    let tokens = lex(input);
    let result = parse_schema_tokens(&tokens);
    assert!(result.is_ok(), "parse failed: {:?}", result.err());
    let schema = result.unwrap();

    // 检查导入语句
    assert_eq!(schema.imports.len(), 2);
    assert_eq!(schema.imports[0].path, "common/types.pkt");
    assert_eq!(schema.imports[1].path, "network/packet.pkt");
}

#[test]
fn test_parse_import_with_doc() {
    let input = r#"
        /// Common types for sensors
        import("common/sensor.pkt")

        #[send]
        struct SensorData {
            data: u32 = 42,
        }
    "#;
    let tokens = lex(input);
    let result = parse_schema_tokens(&tokens);
    assert!(result.is_ok());
    let schema = result.unwrap();

    // 检查带文档的导入
    assert_eq!(schema.imports.len(), 1);
    assert_eq!(schema.imports[0].path, "common/sensor.pkt");
    assert!(schema.imports[0].doc.is_some());
    assert!(schema.imports[0]
        .doc
        .as_ref()
        .unwrap()
        .contains("Common types for sensors"));
}

#[test]
fn test_parse_import_only() {
    // 只包含import的schema
    let input = r#"
        import("a.pkt")
        import("b.pkt")
    "#;
    let tokens = lex(input);
    let result = parse_schema_tokens(&tokens);
    assert!(result.is_ok());
    let schema = result.unwrap();

    assert_eq!(schema.imports.len(), 2);
    assert!(schema.structs.is_empty());
}

#[test]
fn test_parse_file_attribute_version() {
    let input = r#"
        #![version("1.0.0")]

        #[send]
        struct TestPacket {
            data: u32 = 42,
        }
    "#;
    let tokens = lex(input);
    let result = parse_schema_tokens(&tokens);
    assert!(result.is_ok(), "parse failed: {:?}", result.err());
    let schema = result.unwrap();

    assert_eq!(schema.file_attributes.len(), 1);
    match &schema.file_attributes[0] {
        FileAttribute::Version(v) => assert_eq!(v, "1.0.0"),
        _ => panic!("Expected Version attribute"),
    }
}

#[test]
fn test_parse_file_attribute_endian_big() {
    let input = r#"
        #![endian(big)]

        #[send]
        struct TestPacket {
            data: u32 = 42,
        }
    "#;
    let tokens = lex(input);
    let result = parse_schema_tokens(&tokens);
    assert!(result.is_ok());
    let schema = result.unwrap();

    assert_eq!(schema.file_attributes.len(), 1);
    match &schema.file_attributes[0] {
        FileAttribute::Endian(e) => assert_eq!(*e, Endianness::Big),
        _ => panic!("Expected Endian attribute"),
    }
}

#[test]
fn test_parse_file_attribute_endian_little() {
    let input = r#"
        #![endian(little)]

        #[send]
        struct TestPacket {
            data: u32 = 42,
        }
    "#;
    let tokens = lex(input);
    let result = parse_schema_tokens(&tokens);
    assert!(result.is_ok());
    let schema = result.unwrap();

    assert_eq!(schema.file_attributes.len(), 1);
    match &schema.file_attributes[0] {
        FileAttribute::Endian(e) => assert_eq!(*e, Endianness::Little),
        _ => panic!("Expected Endian attribute"),
    }
}

#[test]
fn test_parse_file_attribute_import_path() {
    let input = r#"
        #![import_path("protocols/")]

        #[send]
        struct TestPacket {
            data: u32 = 42,
        }
    "#;
    let tokens = lex(input);
    let result = parse_schema_tokens(&tokens);
    assert!(result.is_ok());
    let schema = result.unwrap();

    assert_eq!(schema.file_attributes.len(), 1);
    match &schema.file_attributes[0] {
        FileAttribute::ImportPath(p) => assert_eq!(p, "protocols/"),
        _ => panic!("Expected ImportPath attribute"),
    }
}

#[test]
fn test_parse_file_attribute_doc() {
    let input = r#"
        #![doc("Sensor protocol definitions")]

        #[send]
        struct TestPacket {
            data: u32 = 42,
        }
    "#;
    let tokens = lex(input);
    let result = parse_schema_tokens(&tokens);
    assert!(result.is_ok());
    let schema = result.unwrap();

    assert_eq!(schema.file_attributes.len(), 1);
    match &schema.file_attributes[0] {
        FileAttribute::Doc(d) => assert_eq!(d, "Sensor protocol definitions"),
        _ => panic!("Expected Doc attribute"),
    }
}

#[test]
fn test_parse_multiple_file_attributes() {
    let input = r#"
        #![version("2.1.0")]
        #![endian(little)]

        #[send]
        struct TestPacket {
            data: u32 = 42,
        }
    "#;
    let tokens = lex(input);
    let result = parse_schema_tokens(&tokens);
    assert!(result.is_ok());
    let schema = result.unwrap();

    assert_eq!(schema.file_attributes.len(), 2);
    match &schema.file_attributes[0] {
        FileAttribute::Version(v) => assert_eq!(v, "2.1.0"),
        _ => panic!("Expected Version attribute"),
    }
    match &schema.file_attributes[1] {
        FileAttribute::Endian(e) => assert_eq!(*e, Endianness::Little),
        _ => panic!("Expected Endian attribute"),
    }
}

#[test]
fn test_parse_full_schema_with_all_features() {
    let input = r#"
        #![version("1.0.0")]
        #![endian(big)]

        /// Common types
        import("common/types.pkt")

        /// Sensor data packet
        /// Used for temperature readings
        #[send]
        struct SensorData {
            /// Temperature in Celsius
            temp: f32 = 25.0,
        }
    "#;
    let tokens = lex(input);
    let result = parse_schema_tokens(&tokens);
    assert!(result.is_ok());
    let schema = result.unwrap();

    // 检查文件级属性
    assert_eq!(schema.file_attributes.len(), 2);

    // 检查导入
    assert_eq!(schema.imports.len(), 1);
    assert_eq!(schema.imports[0].path, "common/types.pkt");

    // 检查结构体
    assert_eq!(schema.structs.len(), 1);
    let def = schema.get_struct("SensorData").unwrap();
    assert!(def.doc.as_ref().unwrap().contains("Sensor data packet"));
    assert_eq!(def.fields[0].name, "temp");
}

#[test]
fn test_parse_prefix_disable_attribute() {
    let input = r#"
        #![prefix(disable)]

        #[send]
        struct ManualLenPacket {
            #[auto(data)]
            count: u8,
            data: Vec<u8> = [10, 20, 30],
        }
    "#;
    let tokens = lex(input);
    let result = parse_schema_tokens(&tokens);
    assert!(result.is_ok());
    let schema = result.unwrap();

    assert_eq!(schema.file_attributes.len(), 1);
    match &schema.file_attributes[0] {
        FileAttribute::PrefixDisabled => {}
        _ => panic!("Expected PrefixDisabled attribute"),
    }
    assert!(!schema.is_prefix_enabled());
}
