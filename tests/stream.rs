use clickhouse_native::{
    encode_var_u64, read_native_format, ClickHouseFolderInitData, ColumnType, ColumnView,
    CountWidth, DecodeError, StreamOptions, StreamResult, Termination, Value,
};

fn lp(s: &str) -> Vec<u8> {
    let mut v = vec![s.len() as u8];
    v.extend_from_slice(s.as_bytes());
    v
}

/// One block of UInt64 column `n`, with values `start..start + rows`.
fn u64_block(rows: u64, start: u64) -> Vec<u8> {
    let mut b = encode_var_u64(1);
    b.extend(encode_var_u64(rows));
    b.extend(lp("n"));
    b.extend(lp("UInt64"));
    for i in 0..rows {
        b.extend_from_slice(&(start + i).to_le_bytes());
    }
    b
}

fn cursor_of(bytes: &[u8], opts: StreamOptions) -> ClickHouseFolderInitData {
    ClickHouseFolderInitData::new(read_native_format(bytes, opts).unwrap()).unwrap()
}

#[test]
fn pull_batches_of_a_2500_row_stream() {
    let bytes = u64_block(2500, 0);
    let mut cur = cursor_of(&bytes, StreamOptions::standard());
    assert_eq!(cur.total_rows(), 2500);
    let mut sizes = Vec::new();
    let mut last_row = cur.current_row();
    loop {
        let batch = cur.pull(1024);
        sizes.push(batch.row_count);
        assert!(cur.current_row() <= cur.total_rows());
        if batch.row_count == 0 {
            assert!(batch.is_last);
            break;
        }
        assert!(cur.current_row() > last_row);
        last_row = cur.current_row();
    }
    assert_eq!(sizes, vec![1024, 1024, 452, 0]);
}

#[test]
fn pull_hands_out_values_in_order() {
    let bytes = u64_block(5, 10);
    let mut cur = cursor_of(&bytes, StreamOptions::standard());
    let first = cur.pull(3);
    assert_eq!(first.row_count, 3);
    assert!(!first.is_last);
    assert_eq!(first.columns, vec![ColumnView::Int64(vec![10, 11, 12])]);
    let second = cur.pull(3);
    assert_eq!(second.row_count, 2);
    assert!(second.is_last);
    assert_eq!(second.columns, vec![ColumnView::Int64(vec![13, 14])]);
}

#[test]
fn pull_after_end_keeps_returning_end() {
    let bytes = u64_block(3, 0);
    let mut cur = cursor_of(&bytes, StreamOptions::standard());
    assert_eq!(cur.pull(1024).row_count, 3);
    for _ in 0..5 {
        let b = cur.pull(1024);
        assert_eq!(b.row_count, 0);
        assert!(b.is_last);
        assert_eq!(b.columns, vec![ColumnView::Int64(vec![])]);
        assert!(cur.is_done());
        assert_eq!(cur.current_row(), 3);
    }
}

#[test]
fn empty_stream_ends_at_once() {
    let result = read_native_format(&[0, 0], StreamOptions::standard()).unwrap();
    assert!(result.columns.is_empty());
    assert!(result.data.is_empty());
    let mut cur = ClickHouseFolderInitData::new(result).unwrap();
    let b = cur.pull(1024);
    assert_eq!(b.row_count, 0);
    assert!(b.is_last);
    assert!(b.columns.is_empty());
}

#[test]
fn blocks_add_up_to_total_rows() {
    let mut bytes = u64_block(2, 0);
    bytes.extend(u64_block(3, 2));
    bytes.extend(u64_block(4, 5));
    let result = read_native_format(&bytes, StreamOptions::standard()).unwrap();
    assert_eq!(result.data.len(), 1);
    assert_eq!(result.data[0].len(), 2 + 3 + 4);
    let expected: Vec<Value> = (0..9u64).map(Value::UInt64).collect();
    assert_eq!(result.data[0], expected);
    let cur = ClickHouseFolderInitData::new(result).unwrap();
    assert_eq!(cur.total_rows(), 9);
}

#[test]
fn single_block_policy_ignores_the_rest() {
    let mut bytes = u64_block(2, 0);
    bytes.extend(u64_block(3, 2));
    let opts = StreamOptions { counts: CountWidth::VarUInt, termination: Termination::SingleBlock };
    let result = read_native_format(&bytes, opts).unwrap();
    assert_eq!(result.data[0].len(), 2);
}

#[test]
fn zero_row_block_ends_the_stream() {
    let mut bytes = u64_block(2, 0);
    bytes.extend(u64_block(0, 0));
    bytes.extend(u64_block(3, 2));
    let opts = StreamOptions { counts: CountWidth::VarUInt, termination: Termination::ZeroRowBlock };
    let result = read_native_format(&bytes, opts).unwrap();
    assert_eq!(result.data[0].len(), 2);
    let standard = read_native_format(&bytes, StreamOptions::standard()).unwrap();
    assert_eq!(standard.data[0].len(), 5);
}

#[test]
fn short_block_ends_the_stream() {
    let mut bytes = u64_block(4, 0);
    bytes.extend(u64_block(3, 4));
    bytes.extend(u64_block(4, 7));
    let opts = StreamOptions { counts: CountWidth::VarUInt, termination: Termination::ShortBlock(4) };
    let result = read_native_format(&bytes, opts).unwrap();
    assert_eq!(result.data[0].len(), 7);
}

#[test]
fn missing_next_block_is_an_error_when_a_sentinel_is_expected() {
    let bytes = u64_block(2, 0);
    let opts = StreamOptions { counts: CountWidth::VarUInt, termination: Termination::ZeroRowBlock };
    assert_eq!(read_native_format(&bytes, opts).unwrap_err(), DecodeError::TruncatedStream);
}

#[test]
fn byte_counts() {
    let mut bytes = vec![2u8, 3];
    bytes.extend(lp("a"));
    bytes.extend(lp("UInt8"));
    bytes.extend(lp("b"));
    bytes.extend(lp("String"));
    bytes.extend([7u8, 8, 9]);
    bytes.extend(lp("x"));
    bytes.extend(lp("yy"));
    bytes.extend(lp(""));
    let opts = StreamOptions { counts: CountWidth::Byte, termination: Termination::SingleBlock };
    let result = read_native_format(&bytes, opts).unwrap();
    assert_eq!(result.columns.len(), 2);
    assert_eq!(result.columns[0].name, "a");
    assert_eq!(result.columns[0].column_type, ColumnType::UInt8);
    assert_eq!(result.columns[1].column_type, ColumnType::String);
    assert_eq!(result.data[0], vec![Value::UInt8(7), Value::UInt8(8), Value::UInt8(9)]);
    assert_eq!(
        result.data[1],
        vec![Value::Text("x".to_string()), Value::Text("yy".to_string()), Value::Text(String::new())]
    );
}

#[test]
fn truncated_column_data_fails() {
    let mut bytes = u64_block(2, 0);
    bytes.truncate(bytes.len() - 1);
    assert_eq!(
        read_native_format(&bytes, StreamOptions::standard()).unwrap_err(),
        DecodeError::TruncatedStream
    );
}

#[test]
fn malformed_column_count_fails() {
    let bytes = [0x80u8; 10];
    assert_eq!(
        read_native_format(&bytes, StreamOptions::standard()).unwrap_err(),
        DecodeError::MalformedVarInt
    );
}

#[test]
fn output_representation_of_each_type() {
    let mut bytes = vec![6u8, 2];
    for (n, t) in [("d", "DateTime"), ("u", "UInt64"), ("b", "Bool"), ("day", "Date"), ("f", "Float64"), ("e", "Enum8('x' = 1)")] {
        bytes.extend(lp(n));
        bytes.extend(lp(t));
    }
    bytes.extend(1u32.to_le_bytes());
    bytes.extend(2u32.to_le_bytes());
    bytes.extend(u64::MAX.to_le_bytes());
    bytes.extend(5u64.to_le_bytes());
    bytes.extend([1u8, 0]);
    bytes.extend(19000u16.to_le_bytes());
    bytes.extend(0u16.to_le_bytes());
    bytes.extend(0.5f64.to_bits().to_le_bytes());
    bytes.extend(2.0f64.to_bits().to_le_bytes());
    bytes.extend([1u8, 2]);
    let result = read_native_format(&bytes, StreamOptions::standard()).unwrap();
    assert_eq!(result.columns[0].column_type.logical_kind(), clickhouse_native::LogicalKind::Timestamp);
    assert_eq!(result.columns[3].column_type.logical_kind(), clickhouse_native::LogicalKind::Date);
    let mut cur = ClickHouseFolderInitData::new(result).unwrap();
    let b = cur.pull(10);
    assert_eq!(b.row_count, 2);
    assert_eq!(b.columns[0], ColumnView::Int64(vec![1_000_000, 2_000_000]));
    assert_eq!(b.columns[1], ColumnView::Int64(vec![-1, 5]));
    assert_eq!(b.columns[2], ColumnView::Int32(vec![1, 0]));
    assert_eq!(b.columns[3], ColumnView::Int32(vec![19000, 0]));
    assert_eq!(b.columns[4], ColumnView::Float64Bits(vec![0.5f64.to_bits(), 2.0f64.to_bits()]));
    assert_eq!(
        b.columns[5],
        ColumnView::Text(vec!["x".to_string(), "Unknown(2)".to_string()])
    );
}

#[test]
fn cursor_rejects_buffers_of_unequal_length() {
    let mut bytes = vec![2u8, 1];
    bytes.extend(lp("a"));
    bytes.extend(lp("UInt8"));
    bytes.extend(lp("b"));
    bytes.extend(lp("UInt8"));
    bytes.extend([1u8, 2]);
    let mut result: StreamResult = read_native_format(&bytes, StreamOptions::standard()).unwrap();
    result.data[1].push(Value::UInt8(3));
    assert_eq!(
        ClickHouseFolderInitData::new(result).unwrap_err(),
        DecodeError::ColumnLengthMismatch
    );
}

#[test]
fn zero_capacity_pull_moves_nothing() {
    let bytes = u64_block(2, 0);
    let mut cur = cursor_of(&bytes, StreamOptions::standard());
    let b = cur.pull(0);
    assert_eq!(b.row_count, 0);
    assert!(!b.is_last);
    assert_eq!(cur.current_row(), 0);
    assert_eq!(cur.pull(5).row_count, 2);
}
