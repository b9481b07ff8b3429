use packet_core::ast::{
    ChecksumAlgorithm, Direction, Endianness, Field, FileAttribute, FloatBits, Schema, StructDef,
    Type, Value,
};
use packet_core::merge::{merge_imported, merge_loaded};
use packet_core::source::{line_col, try_parse_schema};
use packet_core::wire::{calculate_checksum, extract_bits, read_int, set_bits, write_int};
use packet_core::{parse_schema, validate_schema, Codec, CoreError, DecodedValue, Location};

fn resolve_value(value: &mut Value) {
    match value {
        Value::Float(f) => {
            let x: f64 = f.literal.parse().expect("float literal");
            f.bits = Some(FloatBits { f64_bits: x.to_bits(), f32_bits: (x as f32).to_bits() });
        }
        Value::Array(items) => {
            for item in items.iter_mut() {
                resolve_value(item);
            }
        }
        Value::Struct(_, fields) => {
            for (_, v) in fields.iter_mut() {
                resolve_value(v);
            }
        }
        _ => {}
    }
}

fn resolve_floats(schema: &mut Schema) {
    for def in schema.structs.iter_mut() {
        for field in def.fields.iter_mut() {
            if let Some(v) = field.value.as_mut() {
                resolve_value(v);
            }
        }
    }
}

fn plain_struct(name: &str, direction: Option<Direction>) -> StructDef {
    StructDef { name: name.to_string(), direction, fields: vec![], doc: None, endian: None }
}

fn encode_error(src: &str, name: &str) -> String {
    let schema = parse_schema(src).expect("parse failed");
    let codec = Codec::compile(&schema, name).expect("compile failed");
    codec.encode().unwrap_err().to_string()
}

fn decode_error(src: &str, name: &str, data: &[u8]) -> String {
    let schema = parse_schema(src).expect("parse failed");
    let codec = Codec::compile(&schema, name).expect("compile failed");
    codec.decode(data).unwrap_err().to_string()
}

// ---------- parsing: locations and messages ----------

#[test]
fn parse_invalid_token_location() {
    let err = parse_schema("struct @invalid").unwrap_err();
    assert_eq!(err.location(), Some(Location { line: 1, column: 8 }));
    assert_eq!(err.to_string(), "syntax error at 1:8: invalid token");
}

#[test]
fn line_col_counts_line_feed_before_offset() {
    let text: Vec<char> = "ab\ncd".chars().collect();
    assert_eq!(line_col(&text, 0), (1, 1));
    assert_eq!(line_col(&text, 2), (1, 3));
    assert_eq!(line_col(&text, 3), (2, 1));
    assert_eq!(line_col(&text, 4), (2, 2));
}

#[test]
fn parse_error_at_line_start() {
    let err = parse_schema("struct A {}\n$").unwrap_err();
    assert_eq!(err.location(), Some(Location { line: 2, column: 1 }));
}

#[test]
fn parse_error_on_second_line_counts_bytes() {
    let err = parse_schema("// é\nstruct $").unwrap_err();
    assert_eq!(err.location(), Some(Location { line: 2, column: 8 }));
}

#[test]
fn parse_syntax_error_names_expected_and_found() {
    let err = parse_schema("strcut Header { magic: u8 }").unwrap_err();
    assert_eq!(err.location(), Some(Location { line: 1, column: 1 }));
    assert_eq!(
        err.to_string(),
        "syntax error at 1:1: expected end of input, but found `Ident(\"strcut\")`"
    );
}

#[test]
fn parse_send_and_receive_together_rejected() {
    let err = parse_schema("#[send]\n#[receive]\nstruct A { x: u8 = 1, }").unwrap_err();
    assert!(err.to_string().contains("struct cannot have both #[send] and #[receive] attributes"));
}

#[test]
fn parse_unknown_checksum_is_reported_as_none() {
    let src = "#[send] struct A { #[checksum(md5)] c: u8, }";
    assert!(try_parse_schema(src).is_none());
}

#[test]
fn parse_float_literal_kept_as_written() {
    let schema = parse_schema("#[send] struct A { t: f32 = -2.5, }").unwrap();
    match &schema.structs[0].fields[0].value {
        Some(Value::Float(f)) => {
            assert_eq!(f.literal, "-2.5");
            assert!(f.bits.is_none());
        }
        _ => panic!("expected a float value"),
    }
}

// ---------- laws on concrete values ----------

#[test]
fn law_int_roundtrip_both_orders() {
    for endian in [Endianness::Big, Endianness::Little] {
        let mut buf = vec![0xAA];
        write_int(&mut buf, 0x0102_0304, 4, endian);
        assert_eq!(read_int(&buf, 1, 4, endian), 0x0102_0304);
    }
    let mut big = Vec::new();
    write_int(&mut big, 0x0102, 2, Endianness::Big);
    assert_eq!(big, vec![0x01, 0x02]);
    let mut little = Vec::new();
    write_int(&mut little, 0x0102, 2, Endianness::Little);
    assert_eq!(little, vec![0x02, 0x01]);
}

#[test]
fn law_set_then_extract_bits() {
    let word = set_bits(0xFF00, 0b101, 1, 3);
    assert_eq!(extract_bits(word, 1, 3), 0b101);
    assert_eq!(word & !0b1110, 0xFF00);
    assert_eq!(set_bits(0, 0xFF, 0, 3), 0x0F);
}

#[test]
fn law_xor_checksum_closes() {
    let data = [0x12u8, 0x34, 0x56, 0x78];
    let x = calculate_checksum(&data, ChecksumAlgorithm::Xor);
    assert_eq!(x, 0x08);
    let mut closed = data.to_vec();
    closed.push(x as u8);
    assert_eq!(calculate_checksum(&closed, ChecksumAlgorithm::Xor), 0);
}

#[test]
fn checksum_known_values() {
    assert_eq!(calculate_checksum(b"123456789", ChecksumAlgorithm::Crc32), 0xCBF4_3926);
    assert_eq!(calculate_checksum(b"123456789", ChecksumAlgorithm::Crc8), 0xF4);
    assert_eq!(calculate_checksum(&[1, 2, 3, 250], ChecksumAlgorithm::Sum), 256);
}

#[test]
fn law_scalar_symmetry_signed_and_floats() {
    let src = r#"
        #[send]
        struct S {
            a: i16 = -2,
            b: u64 = 18446744073709551615,
            c: f64 = -0.125,
            d: bool = false,
            e: i128 = -170141183460469231731687303715884105728,
        }
        #[receive]
        struct R {
            a: i16,
            b: u64,
            c: f64,
            d: bool,
            e: i128,
        }
    "#;
    let mut schema = parse_schema(src).unwrap();
    resolve_floats(&mut schema);
    let bytes = Codec::compile(&schema, "S").unwrap().encode().unwrap();
    assert_eq!(bytes.len(), 2 + 8 + 8 + 1 + 16);
    let decoded = Codec::compile(&schema, "R").unwrap().decode(&bytes).unwrap();
    assert_eq!(decoded.fields[0].1, DecodedValue::I16(-2));
    assert_eq!(decoded.fields[1].1, DecodedValue::U64(u64::MAX));
    assert_eq!(decoded.fields[2].1, DecodedValue::F64((-0.125f64).to_bits()));
    assert_eq!(decoded.fields[3].1, DecodedValue::Bool(false));
    assert_eq!(decoded.fields[4].1, DecodedValue::I128(i128::MIN));
}

#[test]
fn law_add_struct_then_get() {
    let mut schema = Schema::new();
    schema.add_struct(plain_struct("A", Some(Direction::Send)));
    schema.add_struct(plain_struct("B", None));
    assert_eq!(schema.get_struct("A").unwrap().direction, Some(Direction::Send));
    assert_eq!(schema.get_struct("B").unwrap().name, "B");
    assert!(schema.get_struct("C").is_none());
}

// ---------- merging schemas ----------

#[test]
fn merge_imported_adds_structs_and_new_attributes() {
    let mut schema = parse_schema("#![endian(little)]\nstruct A { x: u8, }").unwrap();
    let imported =
        parse_schema("#![endian(little)]\n#![version(\"1.0\")]\nstruct B { y: u8, }").unwrap();
    merge_imported(&mut schema, imported, "b.pkt").unwrap();
    assert!(schema.get_struct("A").is_some());
    assert!(schema.get_struct("B").is_some());
    assert_eq!(schema.structs.len(), 2);
    assert_eq!(schema.file_attributes.len(), 2);
    assert_eq!(schema.file_attributes[1], FileAttribute::Version("1.0".to_string()));
}

#[test]
fn merge_imported_rejects_duplicate_struct() {
    let mut schema = parse_schema("struct A { x: u8, }").unwrap();
    let imported = parse_schema("struct A { y: u16, }").unwrap();
    let err = merge_imported(&mut schema, imported, "common.pkt").unwrap_err();
    assert_eq!(
        err.to_string(),
        "validation error [E101]: duplicate struct 'A' from import 'common.pkt'"
    );
}

#[test]
fn merge_loaded_rejects_duplicate_across_files() {
    let mut merged = Schema::new();
    merge_loaded(&mut merged, parse_schema("struct A { x: u8, }").unwrap()).unwrap();
    merge_loaded(&mut merged, parse_schema("struct B { x: u8, }").unwrap()).unwrap();
    assert_eq!(merged.structs.len(), 2);
    let err = merge_loaded(&mut merged, parse_schema("struct B { z: u8, }").unwrap()).unwrap_err();
    assert_eq!(err.to_string(), "validation error [E101]: duplicate struct 'B' across schema files");
}

// ---------- compile errors ----------

#[test]
fn compile_unknown_struct_message() {
    let schema = parse_schema("struct A { x: u8, }").unwrap();
    let err = match Codec::compile(&schema, "Nope") {
        Ok(_) => panic!("compile should fail"),
        Err(e) => e,
    };
    assert_eq!(err.to_string(), "validation error [E001]: struct 'Nope' not found");
}

#[test]
fn compile_with_endian_overrides_file_order() {
    let schema = parse_schema("#[send] struct A { x: u16 = 0x0102, }").unwrap();
    let codec = Codec::compile_with_endian(&schema, "A", Endianness::Little).unwrap();
    assert_eq!(codec.encode().unwrap(), vec![0x02, 0x01]);
    assert_eq!(codec.struct_def().name, "A");
}

// ---------- encode errors ----------

#[test]
fn encode_missing_value() {
    let msg = encode_error("#[send] struct A { x: u32, }", "A");
    assert_eq!(msg, "codec error (encode failed) in encode: field 'x' has no value");
}

#[test]
fn encode_unresolved_float() {
    let msg = encode_error("#[send] struct A { x: f32 = 1.5, }", "A");
    assert!(msg.contains("float literal '1.5' has no resolved binary value"));
}

#[test]
fn encode_array_size_mismatch() {
    let msg = encode_error("#[send] struct A { x: [u8; 3] = [1, 2], }", "A");
    assert!(msg.contains("array size mismatch: expected 3, got 2"));
}

#[test]
fn encode_value_type_mismatch() {
    let msg = encode_error("#[send] struct A { x: bool = 7, }", "A");
    assert!(msg.contains("does not match type"));
}

#[test]
fn encode_if_condition_not_bool() {
    let msg = encode_error("#[send] struct A { c: u8 = 1, #[if(c)] x: u8 = 2, }", "A");
    assert!(msg.contains("if condition field 'c' must be bool"));
}

#[test]
fn encode_nested_struct_not_found() {
    let msg = encode_error("#[send] struct A { x: B = B { y: 1 }, }", "A");
    assert!(msg.contains("struct 'B' not found in schema"));
}

#[test]
fn encode_nested_struct_name_mismatch() {
    let src = "struct B { y: u8, } struct C { y: u8, } #[send] struct A { x: B = C { y: 1 }, }";
    let msg = encode_error(src, "A");
    assert!(msg.contains("struct name mismatch: expected B, got C"));
}

#[test]
fn encode_hex_bytes_and_crc16() {
    let src = "#[send] struct A { d: Bytes = 0x1234, #[checksum(crc16)] c: u16, }";
    let schema = parse_schema(src).unwrap();
    let bytes = Codec::compile(&schema, "A").unwrap().encode().unwrap();
    assert_eq!(&bytes[0..6], &[0, 0, 0, 2, 0x12, 0x34]);
    let crc = calculate_checksum(&bytes[0..6], ChecksumAlgorithm::Crc16) as u16;
    assert_eq!(&bytes[6..8], &crc.to_be_bytes());
}

// ---------- decode errors ----------

#[test]
fn decode_buffer_too_small_message() {
    let msg = decode_error("#[receive] struct A { x: u32, }", "A", &[0, 1]);
    assert_eq!(
        msg,
        "codec error (encode failed) in decode: buffer too small: need 4 bytes at offset 0, have 2"
    );
}

#[test]
fn decode_unexpected_end_message() {
    let msg = decode_error("#[receive] struct A { x: u8, y: u8, }", "A", &[7]);
    assert!(msg.contains("unexpected end of data at offset 1"));
}

#[test]
fn decode_trailing_data_message() {
    let msg = decode_error("#[receive] struct A { x: u8, }", "A", &[7, 8, 9]);
    assert!(msg.contains("2 bytes of trailing data after decoding"));
}

#[test]
fn decode_invalid_utf8() {
    let msg = decode_error("#[receive] struct A { s: String, }", "A", &[0, 0, 0, 2, 0xFF, 0xFE]);
    assert!(msg.contains("invalid UTF-8"));
}

#[test]
fn decode_valid_utf8_string() {
    let schema = parse_schema("#[receive] struct A { s: String, }").unwrap();
    let codec = Codec::compile(&schema, "A").unwrap();
    let bytes = [0, 0, 0, 3, 0x61, 0xC3, 0xA9];
    let decoded = codec.decode(&bytes).unwrap();
    assert_eq!(decoded.name, "A");
    assert_eq!(decoded.fields[0].1, DecodedValue::String("aé".to_string()));
}

#[test]
fn decode_not_receive_message() {
    let msg = decode_error("#[send] struct A { x: u8 = 1, }", "A", &[1]);
    assert!(msg.contains("struct 'A' is not a receive type"));
}

#[test]
fn decode_prefix_disabled_vec_without_length() {
    let msg = decode_error("#![prefix(disable)]\n#[receive] struct A { v: Vec<u8>, }", "A", &[1]);
    assert!(msg.contains("prefix disabled: Vec must use #[len_ref] or #[remaining]"));
}

#[test]
fn decode_big_and_little_fields() {
    let src = "#![endian(little)]\n#[receive] struct A { x: u16, #[endian(big)] y: u16, }";
    let schema = parse_schema(src).unwrap();
    let decoded = Codec::compile(&schema, "A").unwrap().decode(&[1, 2, 1, 2]).unwrap();
    assert_eq!(decoded.fields[0].1, DecodedValue::U16(0x0201));
    assert_eq!(decoded.fields[1].1, DecodedValue::U16(0x0102));
}

// ---------- validation ----------

#[test]
fn validation_error_codes() {
    let cases = [
        ("struct A { x: u8, } struct A { y: u8, }", "E002"),
        ("struct A { x: u8, x: u8, }", "E003"),
        ("#[send] struct A { x: u8, }", "E004"),
        ("struct A { x: [u8; 0], }", "E010"),
        ("struct A { x: Nope, }", "E009"),
    ];
    for (src, code) in cases {
        let schema = parse_schema(src).unwrap();
        let err = validate_schema(&schema).unwrap_err();
        assert!(err.to_string().contains(code), "{} for {}", err.to_string(), src);
    }
}

#[test]
fn validation_accepts_nested_structs() {
    let src = "struct B { y: u8, } #[receive] struct A { b: B, v: Vec<B>, }";
    let schema = parse_schema(src).unwrap();
    assert!(validate_schema(&schema).is_ok());
}

// ---------- errors ----------

#[test]
fn error_accessors_on_other_variants() {
    let err = CoreError::codec("decode", "boom");
    assert_eq!(err.parse_kind(), None);
    assert_eq!(err.validation_kind(), None);
    assert_eq!(err.location(), None);
    assert_eq!(err.hint(), None);
    assert_eq!(err.to_string(), "codec error (encode failed) in decode: boom");
}

#[test]
fn struct_field_default_values_are_kept() {
    let schema = parse_schema("struct A { x: u8 = 3, y: String = \"hi\", }").unwrap();
    let def = schema.get_struct("A").unwrap();
    assert!(matches!(def.fields[0].value, Some(Value::Integer(3))));
    assert!(matches!(&def.fields[1].value, Some(Value::String(s)) if s == "hi"));
    assert_eq!(def.fields[1].ty, Type::String);
    let f: &Field = &def.fields[0];
    assert!(f.attributes.is_empty());
}

#[test]
fn law_layout_prefix_is_big_endian_in_little_file() {
    let src = "#![endian(little)]\n#[send] struct A { s: String = \"hé\", v: Vec<u16> = [1, 2], a: [u8; 2] = [7, 8], }";
    let schema = parse_schema(src).unwrap();
    let bytes = Codec::compile(&schema, "A").unwrap().encode().unwrap();
    assert_eq!(
        bytes,
        vec![0, 0, 0, 3, b'h', 0xC3, 0xA9, 0, 0, 0, 2, 1, 0, 2, 0, 7, 8]
    );
}

#[test]
fn law_struct_symmetry_with_lists_and_text() {
    let src = r#"
        #![endian(little)]
        #[send]
        struct S {
            name: String = "sensor",
            raw: Bytes = 0xABCD,
            grid: [[u8; 2]; 2] = [[1, 2], [3, 4]],
            words: Vec<String> = ["a", "bc"],
        }
        #[receive]
        struct R {
            name: String,
            raw: Bytes,
            grid: [[u8; 2]; 2],
            words: Vec<String>,
        }
    "#;
    let schema = parse_schema(src).unwrap();
    let bytes = Codec::compile(&schema, "S").unwrap().encode().unwrap();
    let decoded = Codec::compile(&schema, "R").unwrap().decode(&bytes).unwrap();
    assert_eq!(decoded.fields[0].1, DecodedValue::String("sensor".to_string()));
    assert_eq!(decoded.fields[1].1, DecodedValue::Bytes(vec![0xCD, 0xAB]));
    assert_eq!(
        decoded.fields[2].1,
        DecodedValue::Vec(vec![
            DecodedValue::Vec(vec![DecodedValue::U8(1), DecodedValue::U8(2)]),
            DecodedValue::Vec(vec![DecodedValue::U8(3), DecodedValue::U8(4)]),
        ])
    );
    assert_eq!(
        decoded.fields[3].1,
        DecodedValue::Vec(vec![
            DecodedValue::String("a".to_string()),
            DecodedValue::String("bc".to_string()),
        ])
    );
}

#[test]
fn law_struct_symmetry_with_length_fields() {
    let src = r#"
        #[send]
        struct S {
            #[auto]
            #[endian(little)]
            total: u16,
            #[auto(text)]
            n: u8,
            text: String = "hey",
            flag: bool = false,
            #[if(flag)]
            extra: u32 = 9,
        }
        #[receive]
        struct R {
            #[endian(little)]
            total: u16,
            #[auto(text)]
            n: u8,
            text: String,
            flag: bool,
            #[if(flag)]
            extra: u32,
        }
    "#;
    let schema = parse_schema(src).unwrap();
    let bytes = Codec::compile(&schema, "S").unwrap().encode().unwrap();
    assert_eq!(bytes, vec![11, 0, 3, 0, 0, 0, 3, b'h', b'e', b'y', 0]);
    let decoded = Codec::compile(&schema, "R").unwrap().decode(&bytes).unwrap();
    assert_eq!(decoded.fields.len(), 4);
    assert_eq!(decoded.fields[0].1, DecodedValue::U16(11));
    assert_eq!(decoded.fields[1].1, DecodedValue::U8(3));
    assert_eq!(decoded.fields[2].1, DecodedValue::String("hey".to_string()));
    assert_eq!(decoded.fields[3].1, DecodedValue::Bool(false));
}

#[test]
fn law_length_field_reduced_to_width() {
    let items = vec!["1"; 299].join(", ");
    let src = format!(
        "#[send] struct S {{ #[auto] len: u8, data: [u8; 299] = [{}], }}\n#[receive] struct R {{ len: u8, data: [u8; 299], }}",
        items
    );
    let schema = parse_schema(&src).unwrap();
    let bytes = Codec::compile(&schema, "S").unwrap().encode().unwrap();
    assert_eq!(bytes.len(), 300);
    assert_eq!(bytes[0], 44);
    let decoded = Codec::compile(&schema, "R").unwrap().decode(&bytes).unwrap();
    assert_eq!(decoded.fields[0].1, DecodedValue::U8(44));
}

#[test]
fn law_struct_symmetry_with_checksum_over_filled_length() {
    let src = r#"
        #[send]
        struct S {
            #[auto]
            len: u8,
            data: u16 = 0x1234,
            #[checksum(xor)]
            check: u8 = 0,
        }
        #[receive]
        struct R {
            len: u8,
            data: u16,
            check: u8,
        }
    "#;
    let schema = parse_schema(src).unwrap();
    let bytes = Codec::compile(&schema, "S").unwrap().encode().unwrap();
    assert_eq!(bytes, vec![4, 0x12, 0x34, 0x22]);
    assert_eq!(calculate_checksum(&bytes[..3], ChecksumAlgorithm::Xor), 0x22);
    let decoded = Codec::compile(&schema, "R").unwrap().decode(&bytes).unwrap();
    assert_eq!(decoded.fields[0].1, DecodedValue::U8(4));
    assert_eq!(decoded.fields[1].1, DecodedValue::U16(0x1234));
    assert_eq!(decoded.fields[2].1, DecodedValue::U8(0x22));
}

#[test]
fn law_only_last_checksum_is_written() {
    let src = r#"
        #[send]
        struct S {
            data: u8 = 5,
            #[checksum(sum)]
            first: u8 = 0,
            #[checksum(sum)]
            second: u16 = 0,
            #[checksum(sum)]
            wide: u64 = 0,
        }
    "#;
    let schema = parse_schema(src).unwrap();
    let bytes = Codec::compile(&schema, "S").unwrap().encode().unwrap();
    assert_eq!(bytes, vec![5, 0, 0, 0, 0, 0, 0, 0, 0, 0, 0, 5]);
}

#[test]
fn checksum_follows_filled_length() {
    let src = r#"
        #[send]
        struct P {
            #[auto]
            len: u8,
            data: u8 = 1,
            #[checksum(xor)]
            ck: u8 = 0,
        }
    "#;
    let schema = parse_schema(src).unwrap();
    let bytes = Codec::compile(&schema, "P").unwrap().encode().unwrap();
    assert_eq!(bytes, vec![0x03, 0x01, 0x02]);
}

#[test]
fn checksum_into_u64_field() {
    let src = r#"
        #[send]
        struct C {
            data: u8 = 1,
            #[checksum(sum)]
            ck: u64 = 0,
        }
    "#;
    let schema = parse_schema(src).unwrap();
    let bytes = Codec::compile(&schema, "C").unwrap().encode().unwrap();
    assert_eq!(bytes, vec![0x01, 0, 0, 0, 0, 0, 0, 0, 0x01]);
}

#[test]
fn nested_struct_checksum_covers_preceding_bytes() {
    let src = r#"
        struct P {
            data: u16 = 0x1234,
            #[checksum(sum)]
            ck: u8 = 0,
            tail: u8 = 1,
        }
        #[send]
        struct O {
            items: [P; 1] = [P {}],
        }
    "#;
    let schema = parse_schema(src).unwrap();
    let bytes = Codec::compile(&schema, "O").unwrap().encode().unwrap();
    assert_eq!(bytes, vec![0x12, 0x34, 0x46, 0x01]);
}

#[test]
fn nested_struct_length_field_is_filled() {
    let src = r#"
        struct N {
            #[auto(items)]
            n: u8,
            items: Vec<u8> = [1, 2],
        }
        #[send]
        struct O {
            list: [N; 1] = [N {}],
        }
    "#;
    let schema = parse_schema(src).unwrap();
    let bytes = Codec::compile(&schema, "O").unwrap().encode().unwrap();
    assert_eq!(bytes, vec![0x02, 0x00, 0x00, 0x00, 0x02, 0x01, 0x02]);
}

#[test]
fn decode_uses_struct_byte_order() {
    let src = r#"
        #[receive]
        #[endian(little)]
        struct R {
            v: u16,
        }
    "#;
    let schema = parse_schema(src).unwrap();
    let decoded = Codec::compile(&schema, "R").unwrap().decode(&[0x34, 0x12]).unwrap();
    assert_eq!(decoded.name, "R");
    assert_eq!(decoded.fields, vec![("v".to_string(), DecodedValue::U16(0x1234))]);
}

#[test]
fn law_bit_groups_of_two_widths_round_trip() {
    let src = r#"
        #[send]
        struct S {
            #[bits(0, 3)]
            a: u8 = 5,
            b: u8 = 7,
            #[bits(8, 11)]
            c: u16 = 3,
        }
        #[receive]
        struct R {
            #[bits(0, 3)]
            a: u8,
            b: u8,
            #[bits(8, 11)]
            c: u16,
        }
    "#;
    let schema = parse_schema(src).unwrap();
    let bytes = Codec::compile(&schema, "S").unwrap().encode().unwrap();
    assert_eq!(bytes, vec![0x05, 0x07, 0x03, 0x00]);
    let decoded = Codec::compile(&schema, "R").unwrap().decode(&bytes).unwrap();
    assert_eq!(
        decoded.fields,
        vec![
            ("a".to_string(), DecodedValue::U64(5)),
            ("b".to_string(), DecodedValue::U8(7)),
            ("c".to_string(), DecodedValue::U64(3)),
        ]
    );
}

#[test]
fn law_struct_byte_order_round_trip() {
    let src = r#"
        #[send]
        #[endian(little)]
        struct S {
            #[auto]
            len: u16,
            v: u32 = 0x01020304,
            #[endian(big)]
            w: u16 = 0x0506,
        }
        #[receive]
        #[endian(little)]
        struct R {
            len: u16,
            v: u32,
            #[endian(big)]
            w: u16,
        }
    "#;
    let schema = parse_schema(src).unwrap();
    let bytes = Codec::compile(&schema, "S").unwrap().encode().unwrap();
    assert_eq!(bytes, vec![8, 0, 4, 3, 2, 1, 5, 6]);
    let decoded = Codec::compile(&schema, "R").unwrap().decode(&bytes).unwrap();
    assert_eq!(decoded.fields[0].1, DecodedValue::U16(8));
    assert_eq!(decoded.fields[1].1, DecodedValue::U32(0x01020304));
    assert_eq!(decoded.fields[2].1, DecodedValue::U16(0x0506));
}

#[test]
fn law_struct_symmetry_without_prefixes() {
    let src = r#"
        #![prefix(disable)]
        #[send]
        struct S {
            #[auto(name)]
            #[endian(little)]
            name_len: u16,
            #[auto(raw)]
            raw_len: u8,
            name: String = "héllo",
            raw: Bytes = 0x0102,
            #[auto(words)]
            count: u32,
            words: Vec<u16> = [7, 8],
        }
        #[receive]
        struct R {
            #[endian(little)]
            name_len: u16,
            raw_len: u8,
            #[len_ref(name_len)]
            name: String,
            #[len_ref(raw_len)]
            raw: Bytes,
            count: u32,
            #[len_ref(count)]
            words: Vec<u16>,
        }
    "#;
    let schema = parse_schema(src).unwrap();
    let bytes = Codec::compile(&schema, "S").unwrap().encode().unwrap();
    assert_eq!(
        bytes,
        vec![6, 0, 2, b'h', 0xC3, 0xA9, b'l', b'l', b'o', 0x01, 0x02, 0, 0, 0, 2, 0, 7, 0, 8]
    );
    let decoded = Codec::compile(&schema, "R").unwrap().decode(&bytes).unwrap();
    assert_eq!(decoded.fields.len(), 6);
    assert_eq!(decoded.fields[0].1, DecodedValue::U16(6));
    assert_eq!(decoded.fields[1].1, DecodedValue::U8(2));
    assert_eq!(decoded.fields[2].1, DecodedValue::String("héllo".to_string()));
    assert_eq!(decoded.fields[3].1, DecodedValue::Bytes(vec![0x01, 0x02]));
    assert_eq!(decoded.fields[4].1, DecodedValue::U32(2));
    assert_eq!(
        decoded.fields[5].1,
        DecodedValue::Vec(vec![DecodedValue::U16(7), DecodedValue::U16(8)])
    );
}

#[test]
fn law_remaining_field_takes_the_tail() {
    let src = r#"
        #[send]
        struct S {
            id: u16 = 7,
            tag: String = "ok",
        }
        #[receive]
        struct R {
            id: u16,
            tag: String,
            #[remaining]
            note: String,
        }
    "#;
    let schema = parse_schema(src).unwrap();
    let mut bytes = Codec::compile(&schema, "S").unwrap().encode().unwrap();
    assert_eq!(bytes, vec![0, 7, 0, 0, 0, 2, b'o', b'k']);
    bytes.extend_from_slice("né".as_bytes());
    let decoded = Codec::compile(&schema, "R").unwrap().decode(&bytes).unwrap();
    assert_eq!(decoded.fields.len(), 3);
    assert_eq!(decoded.fields[0].1, DecodedValue::U16(7));
    assert_eq!(decoded.fields[1].1, DecodedValue::String("ok".to_string()));
    assert_eq!(decoded.fields[2].1, DecodedValue::String("né".to_string()));
    let empty = Codec::compile(&schema, "R")
        .unwrap()
        .decode(&[0, 7, 0, 0, 0, 2, b'o', b'k'])
        .unwrap();
    assert_eq!(empty.fields[2].1, DecodedValue::String(String::new()));
}

#[test]
fn law_bit_fields_give_back_their_values() {
    let src = r#"
        #![endian(little)]
        #[send]
        struct S {
            #[bits(0, 8)]
            low: u16 = 21,
            #[bit(9)]
            flag: bool = true,
            #[bits(10, 15)]
            high: u16 = 40,
        }
        #[receive]
        struct R {
            #[bits(0, 8)]
            low: u16,
            #[bit(9)]
            flag: bool,
            #[bits(10, 15)]
            high: u16,
        }
    "#;
    let schema = parse_schema(src).unwrap();
    let bytes = Codec::compile(&schema, "S").unwrap().encode().unwrap();
    let word: u16 = 21 | (1 << 9) | (40 << 10);
    assert_eq!(bytes, word.to_le_bytes().to_vec());
    let decoded = Codec::compile(&schema, "R").unwrap().decode(&bytes).unwrap();
    assert_eq!(decoded.fields.len(), 3);
    assert_eq!(decoded.fields[0].1, DecodedValue::U64(21));
    assert_eq!(decoded.fields[1].1, DecodedValue::Bool(true));
    assert_eq!(decoded.fields[2].1, DecodedValue::U64(40));
}

#[test]
fn law_bit_fields_among_other_fields() {
    let src = r#"
        #[send]
        struct S {
            kind: u8 = 9,
            #[bits(0, 2)]
            level: u8 = 5,
            has_extra: bool = true,
            #[bit(7)]
            urgent: bool = true,
            #[if(has_extra)]
            extra: u16 = 0x0102,
        }
        #[receive]
        struct R {
            kind: u8,
            #[bits(0, 2)]
            level: u8,
            has_extra: bool,
            #[bit(7)]
            urgent: bool,
            #[if(has_extra)]
            extra: u16,
        }
    "#;
    let schema = parse_schema(src).unwrap();
    let bytes = Codec::compile(&schema, "S").unwrap().encode().unwrap();
    assert_eq!(bytes, vec![9, 0x85, 1, 0x01, 0x02]);
    let decoded = Codec::compile(&schema, "R").unwrap().decode(&bytes).unwrap();
    let names: Vec<&str> = decoded.fields.iter().map(|(n, _)| n.as_str()).collect();
    assert_eq!(names, vec!["kind", "level", "urgent", "has_extra", "extra"]);
    assert_eq!(decoded.fields[0].1, DecodedValue::U8(9));
    assert_eq!(decoded.fields[1].1, DecodedValue::U64(5));
    assert_eq!(decoded.fields[2].1, DecodedValue::Bool(true));
    assert_eq!(decoded.fields[3].1, DecodedValue::Bool(true));
    assert_eq!(decoded.fields[4].1, DecodedValue::U16(0x0102));
}

#[test]
fn law_merge_attributes_without_repeats() {
    let mut schema = parse_schema("#![version(\"1\")]\n#![endian(big)]\nstruct A { x: u8, }").unwrap();
    let imported =
        parse_schema("#![endian(big)]\n#![doc(\"d\")]\n#![version(\"1\")]\nstruct B { y: u8, }").unwrap();
    merge_imported(&mut schema, imported, "b.pkt").unwrap();
    assert_eq!(
        schema.file_attributes,
        vec![
            FileAttribute::Version("1".to_string()),
            FileAttribute::Endian(Endianness::Big),
            FileAttribute::Doc("d".to_string()),
        ]
    );
}
