use clickhouse_native::{
    map_clickhouse_type, parse_cell, parse_columns_file, parse_count_file, remote_result,
    ClickHouseFolderInitData, ClickHouseFolderVTab, ColumnDefinition, ColumnType, ColumnView,
    DecodeError, LogicalKind, RemoteCell, RemoteType, Value,
};

#[test]
fn columns_file_parses() {
    let text = "columns format version: 1\n2 columns:\n`id` UInt64\n\n`when DateTime`\n";
    let defs = parse_columns_file(text).unwrap();
    assert_eq!(
        defs,
        vec![
            ColumnDefinition { name: "id`".to_string(), type_str: "UInt64".to_string() },
            ColumnDefinition { name: "when".to_string(), type_str: "DateTime".to_string() },
        ]
    );
}

#[test]
fn columns_file_with_crlf_and_spaces_in_type() {
    let text = "v\r\n1 columns:\r\nname Enum8('a' = 1)\r\n";
    let defs = parse_columns_file(text).unwrap();
    assert_eq!(defs.len(), 1);
    assert_eq!(defs[0].name, "name");
    assert_eq!(defs[0].type_str, "Enum8('a' = 1)");
}

#[test]
fn columns_file_errors() {
    assert_eq!(parse_columns_file("only one line").unwrap_err(), DecodeError::MissingColumnCount);
    assert_eq!(parse_columns_file("").unwrap_err(), DecodeError::MissingColumnCount);
    assert_eq!(
        parse_columns_file("v\n1 columns:\nnospace\n").unwrap_err(),
        DecodeError::InvalidColumnLine
    );
}

#[test]
fn count_file_parses() {
    assert_eq!(parse_count_file(" 2500\n"), Ok(2500));
    assert_eq!(parse_count_file("18446744073709551615"), Ok(u64::MAX));
    assert_eq!(parse_count_file("18446744073709551616"), Err(DecodeError::InvalidRowCount));
    assert_eq!(parse_count_file("-1"), Err(DecodeError::InvalidRowCount));
    assert_eq!(parse_count_file("12a"), Err(DecodeError::InvalidRowCount));
    assert_eq!(parse_count_file(""), Err(DecodeError::InvalidRowCount));
}

#[test]
fn folder_init_decodes_raw_columns() {
    let columns = "columns format version: 1\n2 columns:\n`id` UInt64\n`day` Date\n";
    let mut data = Vec::new();
    data.extend(7u64.to_le_bytes());
    data.extend(8u64.to_le_bytes());
    data.extend(100u16.to_le_bytes());
    data.extend(200u16.to_le_bytes());
    let bound = ClickHouseFolderVTab::bind(columns).unwrap();
    assert_eq!(bound[0].column_type, ColumnType::UInt64);
    assert_eq!(bound[1].column_type, ColumnType::Date);
    let mut cur = ClickHouseFolderVTab::init(columns, "2\n", &data).unwrap();
    let b = cur.pull(1024);
    assert_eq!(b.row_count, 2);
    assert_eq!(b.columns[0], ColumnView::Int64(vec![7, 8]));
    assert_eq!(b.columns[1], ColumnView::Int32(vec![100, 200]));
    assert_eq!(cur.pull(1024).row_count, 0);
}

#[test]
fn folder_init_with_short_data_fails() {
    let columns = "v\n1 columns:\n`id` UInt64\n";
    let data = 7u64.to_le_bytes();
    assert_eq!(
        ClickHouseFolderVTab::init(columns, "2", &data).unwrap_err(),
        DecodeError::TruncatedStream
    );
}

#[test]
fn text_cells_parse_by_column_type() {
    let text = |s: &str| RemoteCell::Text(s.to_string());
    assert_eq!(parse_cell(RemoteType::Int32, &text("42")), Value::Int32(42));
    assert_eq!(parse_cell(RemoteType::Int32, &text(" -7 ")), Value::Int32(-7));
    assert_eq!(parse_cell(RemoteType::Int32, &text("abc")), Value::Int32(0));
    assert_eq!(parse_cell(RemoteType::Int32, &text("99999999999")), Value::Int32(0));
    assert_eq!(parse_cell(RemoteType::Int8, &text("-128")), Value::Int8(-128));
    assert_eq!(parse_cell(RemoteType::UInt32, &text("4294967295")), Value::UInt32(u32::MAX));
    assert_eq!(parse_cell(RemoteType::UInt64, &text("18446744073709551615")), Value::UInt64(u64::MAX));
    assert_eq!(parse_cell(RemoteType::UInt8, &text("-1")), Value::UInt8(0));
    assert_eq!(parse_cell(RemoteType::Date, &text("19000")), Value::Date(19000));
    assert_eq!(parse_cell(RemoteType::DateTime, &text("1700000000")), Value::DateTime(1_700_000_000));
    assert_eq!(parse_cell(RemoteType::Other, &text("5")), Value::Int32(5));
    assert_eq!(parse_cell(RemoteType::FixedString, &text("ab")), Value::Text("ab".to_string()));
}

#[test]
fn bool_and_float_cells() {
    let text = |s: &str| RemoteCell::Text(s.to_string());
    assert_eq!(parse_cell(RemoteType::Bool, &text("true")), Value::Bool(true));
    assert_eq!(parse_cell(RemoteType::Bool, &text("1")), Value::Bool(true));
    assert_eq!(parse_cell(RemoteType::Bool, &text("false")), Value::Bool(false));
    assert_eq!(parse_cell(RemoteType::Bool, &text("yes")), Value::Bool(false));
    let bits = 2.5f64.to_bits();
    assert_eq!(parse_cell(RemoteType::Float64, &RemoteCell::Float64Bits(bits)), Value::Float64Bits(bits));
    assert_eq!(parse_cell(RemoteType::Float64, &text("2.5")), Value::Float64Bits(0));
    let bits32 = 1.25f32.to_bits();
    assert_eq!(parse_cell(RemoteType::Float32, &RemoteCell::Float32Bits(bits32)), Value::Float32Bits(bits32));
}

#[test]
fn remote_types_map() {
    assert_eq!(map_clickhouse_type(RemoteType::UInt8), ColumnType::UInt8);
    assert_eq!(map_clickhouse_type(RemoteType::UInt32), ColumnType::UInt32);
    assert_eq!(map_clickhouse_type(RemoteType::UInt64), ColumnType::UInt64);
    assert_eq!(map_clickhouse_type(RemoteType::Float64), ColumnType::Float64);
    assert_eq!(map_clickhouse_type(RemoteType::Date), ColumnType::Date);
    assert_eq!(map_clickhouse_type(RemoteType::DateTime), ColumnType::DateTime);
    assert_eq!(map_clickhouse_type(RemoteType::Bool), ColumnType::Bool);
    assert_eq!(map_clickhouse_type(RemoteType::FixedString), ColumnType::String);
    assert_eq!(map_clickhouse_type(RemoteType::Other), ColumnType::Int32);
    assert_eq!(map_clickhouse_type(RemoteType::Date).logical_kind(), LogicalKind::Date);
    assert_eq!(map_clickhouse_type(RemoteType::DateTime).logical_kind(), LogicalKind::Timestamp);
    assert_eq!(map_clickhouse_type(RemoteType::UInt32).logical_kind(), LogicalKind::Bigint);
    assert_eq!(map_clickhouse_type(RemoteType::Float32).logical_kind(), LogicalKind::Double);
}

#[test]
fn remote_result_becomes_one_block() {
    let text = |s: &str| RemoteCell::Text(s.to_string());
    let result = remote_result(
        vec!["n".to_string(), "day".to_string(), "s".to_string()],
        vec![RemoteType::UInt32, RemoteType::Date, RemoteType::String],
        vec![
            vec![text("3000000000"), text("oops")],
            vec![text("19000"), text("1")],
            vec![text("a"), text("b")],
        ],
    )
    .unwrap();
    assert_eq!(result.data[0], vec![Value::UInt32(3_000_000_000), Value::UInt32(0)]);
    let mut cur = ClickHouseFolderInitData::new(result).unwrap();
    let b = cur.pull(1024);
    assert_eq!(b.columns[0], ColumnView::Int64(vec![3_000_000_000, 0]));
    assert_eq!(b.columns[1], ColumnView::Int32(vec![19000, 1]));
    assert_eq!(b.columns[2], ColumnView::Text(vec!["a".to_string(), "b".to_string()]));
    assert!(remote_result(vec!["n".to_string()], vec![], vec![]).is_err());
}

#[test]
fn unicode_white_space_is_trimmed() {
    assert_eq!(parse_count_file("\u{a0}7\u{3000}\n"), Ok(7));
    assert_eq!(parse_count_file("\u{200b}7"), Err(DecodeError::InvalidRowCount));
}

#[test]
fn folder_without_columns_has_no_rows() {
    let mut cur = ClickHouseFolderVTab::init("v\n0 columns:\n", "5", &[]).unwrap();
    assert_eq!(cur.total_rows(), 0);
    assert_eq!(cur.pull(1024).row_count, 0);
}
