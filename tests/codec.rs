use clickhouse_native::{
    decode_value, encode_var_u64, parse_column_type, parse_enum_values, read_string,
    read_var_u64, ColumnType, DecodeError, EnumType, EnumValue, Value,
};

fn round_trip(v: u64) {
    let bytes = encode_var_u64(v);
    assert!(bytes.len() <= 10);
    assert_eq!(read_var_u64(&bytes, 0), Ok((v, bytes.len())));
}

#[test]
fn varuint_round_trip_boundaries() {
    for v in [0u64, 1, 127, 128, 255, 300, 16383, 16384, 1 << 35, (1 << 63) - 1, 1 << 63, u64::MAX] {
        round_trip(v);
    }
}

#[test]
fn varuint_encoding_of_extremes() {
    assert_eq!(encode_var_u64(0), vec![0u8]);
    assert_eq!(encode_var_u64(300), vec![0xAC, 0x02]);
    let max = encode_var_u64(u64::MAX);
    assert_eq!(max.len(), 10);
    assert_eq!(max[9], 0x01);
    assert!(max[..9].iter().all(|b| *b == 0xFF));
}

#[test]
fn varuint_ten_continuation_bytes_are_malformed() {
    let bytes = [0x80u8; 10];
    assert_eq!(read_var_u64(&bytes, 0), Err(DecodeError::MalformedVarInt));
    let mut longer = vec![0xFFu8; 12];
    longer[11] = 0;
    assert_eq!(read_var_u64(&longer, 0), Err(DecodeError::MalformedVarInt));
}

#[test]
fn varuint_truncated() {
    assert_eq!(read_var_u64(&[], 0), Err(DecodeError::TruncatedStream));
    assert_eq!(read_var_u64(&[0x80, 0x80], 0), Err(DecodeError::TruncatedStream));
}

#[test]
fn varuint_at_offset() {
    let bytes = [9u8, 0xAC, 0x02, 7];
    assert_eq!(read_var_u64(&bytes, 1), Ok((300, 3)));
}

#[test]
fn string_strips_nul_and_invalid_utf8() {
    let bytes = [6u8, b'a', 0, 0xFF, b'b', 0xC3, b'c'];
    let (s, next) = read_string(&bytes, 0).unwrap();
    assert_eq!(s, "abc");
    assert_eq!(next, 7);
}

#[test]
fn string_keeps_valid_multibyte_text() {
    let text = "h\u{e9}llo";
    let mut bytes = vec![text.len() as u8];
    bytes.extend_from_slice(text.as_bytes());
    let (s, _) = read_string(&bytes, 0).unwrap();
    assert_eq!(s, text);
}

#[test]
fn string_truncated() {
    assert_eq!(read_string(&[3u8, b'a', b'b'], 0), Err(DecodeError::TruncatedStream));
    assert_eq!(read_string(&[], 0), Err(DecodeError::TruncatedStream));
}

#[test]
fn enum_parameters_parse_to_two_entries() {
    let e = parse_enum_values("('a'=0,'b'=1)").unwrap();
    assert_eq!(e.values.len(), 2);
    assert_eq!(e.values[0], EnumValue { name: "a".to_string(), value: 0 });
    assert_eq!(e.values[1], EnumValue { name: "b".to_string(), value: 1 });
}

#[test]
fn enum_parameters_with_spaces_and_bad_pairs() {
    let e = parse_enum_values("( 'x' = -3 , 'y'=200, bad, 'z' = +7 )").unwrap();
    assert_eq!(
        e.values,
        vec![
            EnumValue { name: "x".to_string(), value: -3 },
            EnumValue { name: "z".to_string(), value: 7 },
        ]
    );
    assert_eq!(parse_enum_values("()"), None);
    assert_eq!(parse_enum_values("('a'=x)"), None);
}

#[test]
fn enum_decoding_known_and_unknown_codes() {
    let (ty, _) = parse_column_type("Enum8('a'=0,'b'=1)");
    assert!(matches!(ty, ColumnType::Enum8(_)));
    assert_eq!(decode_value(&[1u8], 0, &ty), Ok((Value::Text("b".to_string()), 1)));
    assert_eq!(decode_value(&[5u8], 0, &ty), Ok((Value::Text("Unknown(5)".to_string()), 1)));
    assert_eq!(decode_value(&[0xFFu8], 0, &ty), Ok((Value::Text("Unknown(-1)".to_string()), 1)));
}

#[test]
fn enum_first_declaration_wins() {
    let ty = ColumnType::Enum8(EnumType {
        values: vec![
            EnumValue { name: "first".to_string(), value: 2 },
            EnumValue { name: "second".to_string(), value: 2 },
        ],
    });
    assert_eq!(decode_value(&[2u8], 0, &ty), Ok((Value::Text("first".to_string()), 1)));
}

#[test]
fn type_names_parse() {
    assert_eq!(parse_column_type("UInt64"), (ColumnType::UInt64, None));
    assert_eq!(parse_column_type("DateTime"), (ColumnType::DateTime, None));
    assert_eq!(parse_column_type("Float32"), (ColumnType::Float32, None));
    assert_eq!(
        parse_column_type("Array(UInt8)"),
        (ColumnType::Unsupported("Array".to_string()), Some("(UInt8)".to_string()))
    );
    assert_eq!(parse_column_type("uint8"), (ColumnType::Unsupported("uint8".to_string()), None));
}

#[test]
fn enum_without_valid_parameters_is_unsupported() {
    let invalid = ColumnType::Unsupported("Invalid Enum8".to_string());
    assert_eq!(parse_column_type("Enum8"), (invalid.clone(), None));
    assert_eq!(parse_column_type("Enum8('a'=1"), (invalid.clone(), Some(String::new())));
    assert_eq!(parse_column_type("Enum8()"), (invalid, Some("()".to_string())));
}

#[test]
fn fixed_width_values_are_little_endian() {
    assert_eq!(decode_value(&[0x34, 0x12], 0, &ColumnType::UInt16), Ok((Value::UInt16(0x1234), 2)));
    assert_eq!(decode_value(&[0xFE, 0xFF], 0, &ColumnType::Int16), Ok((Value::Int16(-2), 2)));
    assert_eq!(
        decode_value(&[1, 2, 3, 4], 0, &ColumnType::UInt32),
        Ok((Value::UInt32(0x0403_0201), 4))
    );
    assert_eq!(
        decode_value(&[0xFF, 0xFF, 0xFF, 0xFF], 0, &ColumnType::Int32),
        Ok((Value::Int32(-1), 4))
    );
    assert_eq!(
        decode_value(&[1, 0, 0, 0, 0, 0, 0, 0x80], 0, &ColumnType::UInt64),
        Ok((Value::UInt64(0x8000_0000_0000_0001), 8))
    );
    assert_eq!(
        decode_value(&[0xFF; 8], 0, &ColumnType::Int64),
        Ok((Value::Int64(-1), 8))
    );
    assert_eq!(decode_value(&[0x80], 0, &ColumnType::Int8), Ok((Value::Int8(-128), 1)));
    assert_eq!(decode_value(&[2], 0, &ColumnType::Bool), Ok((Value::Bool(true), 1)));
    assert_eq!(decode_value(&[0x10, 0x27], 0, &ColumnType::Date), Ok((Value::Date(10000), 2)));
    let bits = 1.5f32.to_bits().to_le_bytes();
    assert_eq!(
        decode_value(&bits, 0, &ColumnType::Float32),
        Ok((Value::Float32Bits(1.5f32.to_bits()), 4))
    );
    let bits = (-2.25f64).to_bits().to_le_bytes();
    assert_eq!(
        decode_value(&bits, 0, &ColumnType::Float64),
        Ok((Value::Float64Bits((-2.25f64).to_bits()), 8))
    );
}

#[test]
fn fixed_width_value_truncated() {
    assert_eq!(decode_value(&[1, 2, 3], 0, &ColumnType::UInt32), Err(DecodeError::TruncatedStream));
    assert_eq!(decode_value(&[], 0, &ColumnType::UInt8), Err(DecodeError::TruncatedStream));
}

#[test]
fn unsupported_value_reads_no_bytes() {
    let ty = ColumnType::Unsupported("Array".to_string());
    assert_eq!(
        decode_value(&[9, 9], 1, &ty),
        Ok((Value::Text("<unsupported:Array>".to_string()), 1))
    );
}
