use vstd::prelude::*;

use crate::block::{data_views, descriptor_views, ColumnDescriptor};
use crate::column_type::{ColumnType, TypeModel};
use crate::decimal::{parse_bounded, parse_integer_in};
use crate::error::DecodeError;
use crate::field::{value_views, Value, ValueModel};
use crate::stream::StreamResult;
use crate::text::{chars_are, chars_of, string_of, trim_class, trimmed, CharClass};

verus! {

/// The column types that a remote query result reports.
#[derive(Debug, Clone, Copy, PartialEq, Eq, Structural)]
pub enum RemoteType {
    Int8,
    Int16,
    Int32,
    Int64,
    UInt8,
    UInt16,
    UInt32,
    UInt64,
    Float32,
    Float64,
    String,
    FixedString,
    Date,
    DateTime,
    Bool,
    Other,
}

/// The column type under which a remote column is handed on: the type of
/// the same name, `String` for a fixed-length string, `Int32` for any other type.
pub open spec fn remote_column_type(t: RemoteType) -> TypeModel {
    match t {
        RemoteType::Int8 => TypeModel::Int8,
        RemoteType::Int16 => TypeModel::Int16,
        RemoteType::Int32 => TypeModel::Int32,
        RemoteType::Int64 => TypeModel::Int64,
        RemoteType::UInt8 => TypeModel::UInt8,
        RemoteType::UInt16 => TypeModel::UInt16,
        RemoteType::UInt32 => TypeModel::UInt32,
        RemoteType::UInt64 => TypeModel::UInt64,
        RemoteType::Float32 => TypeModel::Float32,
        RemoteType::Float64 => TypeModel::Float64,
        RemoteType::String | RemoteType::FixedString => TypeModel::String,
        RemoteType::Date => TypeModel::Date,
        RemoteType::DateTime => TypeModel::DateTime,
        RemoteType::Bool => TypeModel::Bool,
        RemoteType::Other => TypeModel::Int32,
    }
}

/// The column type under which a remote column of type `t` is handed on.
pub fn map_clickhouse_type(t: RemoteType) -> (r: ColumnType)
    ensures
        r@ == remote_column_type(t),
{
    match t {
        RemoteType::Int8 => ColumnType::Int8,
        RemoteType::Int16 => ColumnType::Int16,
        RemoteType::Int32 => ColumnType::Int32,
        RemoteType::Int64 => ColumnType::Int64,
        RemoteType::UInt8 => ColumnType::UInt8,
        RemoteType::UInt16 => ColumnType::UInt16,
        RemoteType::UInt32 => ColumnType::UInt32,
        RemoteType::UInt64 => ColumnType::UInt64,
        RemoteType::Float32 => ColumnType::Float32,
        RemoteType::Float64 => ColumnType::Float64,
        RemoteType::String | RemoteType::FixedString => ColumnType::String,
        RemoteType::Date => ColumnType::Date,
        RemoteType::DateTime => ColumnType::DateTime,
        RemoteType::Bool => ColumnType::Bool,
        RemoteType::Other => ColumnType::Int32,
    }
}

/// One cell of a remote query result: its text, or the bit pattern of a
/// floating-point value. A `Date` cell's text is its day number since
/// 1970-01-01, a `DateTime` cell's its seconds since the epoch.
#[derive(Debug, Clone, PartialEq)]
pub enum RemoteCell {
    Text(String),
    Float32Bits(u32),
    Float64Bits(u64),
}

/// The text of a cell; empty for a floating-point cell.
pub open spec fn cell_text(c: RemoteCell) -> Seq<char> {
    match c {
        RemoteCell::Text(s) => s@,
        _ => Seq::<char>::empty(),
    }
}

/// A text cell read as an integer of bounds `lo..=hi` once white space is
/// trimmed, or `0` where it does not read as one.
pub open spec fn cell_integer(s: Seq<char>, signed: bool, lo: int, hi: int) -> int {
    match parse_bounded(trimmed(s, CharClass::WhiteSpace), signed, lo, hi) {
        Some(v) => v,
        None => 0,
    }
}

/// Whether a text cell reads as true.
pub open spec fn cell_bool(s: Seq<char>) -> bool {
    let t = trimmed(s, CharClass::WhiteSpace);
    t == "true"@ || t == "1"@
}

/// The value that a cell of a column of remote type `t` stands for. A cell
/// that does not read as a value of the column's type gives zero or false.
pub open spec fn cell_value(t: RemoteType, c: RemoteCell) -> ValueModel {
    let s = cell_text(c);
    match remote_column_type(t) {
        TypeModel::Int8 => ValueModel::Int8(cell_integer(s, true, -0x80, 0x7f) as i8),
        TypeModel::Int16 => ValueModel::Int16(cell_integer(s, true, -0x8000, 0x7fff) as i16),
        TypeModel::Int32 => ValueModel::Int32(
            cell_integer(s, true, -0x8000_0000, 0x7fff_ffff) as i32,
        ),
        TypeModel::Int64 => ValueModel::Int64(
            cell_integer(s, true, -0x8000_0000_0000_0000, 0x7fff_ffff_ffff_ffff) as i64,
        ),
        TypeModel::UInt8 => ValueModel::UInt8(cell_integer(s, false, 0, 0xff) as u8),
        TypeModel::UInt16 => ValueModel::UInt16(cell_integer(s, false, 0, 0xffff) as u16),
        TypeModel::UInt32 => ValueModel::UInt32(cell_integer(s, false, 0, 0xffff_ffff) as u32),
        TypeModel::UInt64 => ValueModel::UInt64(
            cell_integer(s, false, 0, 0xffff_ffff_ffff_ffff) as u64,
        ),
        TypeModel::Date => ValueModel::Date(cell_integer(s, false, 0, 0xffff) as u16),
        TypeModel::DateTime => ValueModel::DateTime(
            cell_integer(s, false, 0, 0xffff_ffff) as u32,
        ),
        TypeModel::Bool => ValueModel::Bool(cell_bool(s)),
        TypeModel::Float32 => ValueModel::Float32Bits(
            match c {
                RemoteCell::Float32Bits(b) => b,
                _ => 0,
            },
        ),
        TypeModel::Float64 => ValueModel::Float64Bits(
            match c {
                RemoteCell::Float64Bits(b) => b,
                _ => 0,
            },
        ),
        _ => ValueModel::Text(s),
    }
}

/// Reads a trimmed text cell as an integer of bounds `lo..=hi`, or `0`.
fn read_cell_integer(cs: &[char], signed: bool, lo: i128, hi: i128) -> (r: i128)
    requires
        -0x1_0000_0000_0000_0000 <= lo <= 0 <= hi <= 0x1_0000_0000_0000_0000,
    ensures
        r == cell_integer(cs@, signed, lo as int, hi as int),
        lo <= r <= hi,
{
    let t = trim_class(cs, CharClass::WhiteSpace);
    match parse_integer_in(t.as_slice(), signed, lo, hi) {
        Some(v) => v,
        None => 0,
    }
}

/// The value that `cell` stands for in a column of remote type `t`.
pub fn parse_cell(t: RemoteType, cell: &RemoteCell) -> (r: Value)
    ensures
        r@ == cell_value(t, *cell),
{
    let text: Vec<char> = match cell {
        RemoteCell::Text(s) => chars_of(s.as_str()),
        _ => Vec::new(),
    };
    let cs = text.as_slice();
    match t {
        RemoteType::Int8 => Value::Int8(read_cell_integer(cs, true, -0x80, 0x7f) as i8),
        RemoteType::Int16 => Value::Int16(read_cell_integer(cs, true, -0x8000, 0x7fff) as i16),
        RemoteType::Int32 | RemoteType::Other => Value::Int32(
            read_cell_integer(cs, true, -0x8000_0000, 0x7fff_ffff) as i32,
        ),
        RemoteType::Int64 => Value::Int64(
            read_cell_integer(cs, true, -0x8000_0000_0000_0000, 0x7fff_ffff_ffff_ffff) as i64,
        ),
        RemoteType::UInt8 => Value::UInt8(read_cell_integer(cs, false, 0, 0xff) as u8),
        RemoteType::UInt16 => Value::UInt16(read_cell_integer(cs, false, 0, 0xffff) as u16),
        RemoteType::UInt32 => Value::UInt32(read_cell_integer(cs, false, 0, 0xffff_ffff) as u32),
        RemoteType::UInt64 => Value::UInt64(
            read_cell_integer(cs, false, 0, 0xffff_ffff_ffff_ffff) as u64,
        ),
        RemoteType::Date => Value::Date(read_cell_integer(cs, false, 0, 0xffff) as u16),
        RemoteType::DateTime => Value::DateTime(
            read_cell_integer(cs, false, 0, 0xffff_ffff) as u32,
        ),
        RemoteType::Bool => {
            let trimmed_text = trim_class(cs, CharClass::WhiteSpace);
            Value::Bool(
                chars_are(trimmed_text.as_slice(), "true") || chars_are(
                    trimmed_text.as_slice(),
                    "1",
                ),
            )
        },
        RemoteType::Float32 => Value::Float32Bits(
            match cell {
                RemoteCell::Float32Bits(b) => *b,
                _ => 0,
            },
        ),
        RemoteType::Float64 => Value::Float64Bits(
            match cell {
                RemoteCell::Float64Bits(b) => *b,
                _ => 0,
            },
        ),
        RemoteType::String | RemoteType::FixedString => Value::Text(
            match cell {
                RemoteCell::Text(s) => s.clone(),
                _ => string_of(cs),
            },
        ),
    }
}

/// Turns the result of a remote query, column by column, into
/// a decoded stream of one block. Fails unless there is one name, one type
/// and one list of cells per column, all lists of one length.
pub fn remote_result(names: Vec<String>, types: Vec<RemoteType>, cells: Vec<Vec<RemoteCell>>) -> (r:
    Result<StreamResult, DecodeError>)
    ensures
        r is Ok <==> (names@.len() == types@.len() && types@.len() == cells@.len() && forall|c: int|
            0 <= c < cells@.len() ==> (#[trigger] cells@[c])@.len() == cells@[0]@.len()),
        r matches Err(e) ==> e == DecodeError::ColumnLengthMismatch,
        r matches Ok(s) ==> s.schema() == Seq::new(
            names@.len(),
            |c: int| (names@[c]@, remote_column_type(types@[c])),
        ) && s.values() == Seq::new(
            cells@.len(),
            |c: int| cells@[c]@.map_values(|x: RemoteCell| cell_value(types@[c], x)),
        ),
{
    if names.len() != types.len() || types.len() != cells.len() {
        return Err(DecodeError::ColumnLengthMismatch);
    }
    let n = cells.len();
    let rows: usize = if n == 0 {
        0
    } else {
        cells[0].len()
    };
    let mut columns: Vec<ColumnDescriptor> = Vec::new();
    let mut data: Vec<Vec<Value>> = Vec::new();
    let mut c: usize = 0;
    while c < n
        invariant
            c <= n,
            n == cells@.len(),
            names@.len() == n,
            types@.len() == n,
            n > 0 ==> rows == cells@[0]@.len(),
            forall|k: int| 0 <= k < c ==> (#[trigger] cells@[k])@.len() == rows,
            descriptor_views(columns@) == Seq::new(
                c as nat,
                |k: int| (names@[k]@, remote_column_type(types@[k])),
            ),
            data_views(data@) == Seq::new(
                c as nat,
                |k: int| cells@[k]@.map_values(|x: RemoteCell| cell_value(types@[k], x)),
            ),
        decreases n - c,
    {
        if cells[c].len() != rows {
            return Err(DecodeError::ColumnLengthMismatch);
        }
        let t = types[c];
        let column = &cells[c];
        let mut vals: Vec<Value> = Vec::new();
        let mut i: usize = 0;
        while i < column.len()
            invariant
                i <= column@.len(),
                value_views(vals@) == column@.take(i as int).map_values(
                    |x: RemoteCell| cell_value(t, x),
                ),
            decreases column@.len() - i,
        {
            let v = parse_cell(t, &column[i]);
            let ghost prev = vals@;
            let ghost vv = v@;
            vals.push(v);
            assert(value_views(vals@) =~= value_views(prev).push(vv));
            i = i + 1;
            assert(value_views(vals@) =~= column@.take(i as int).map_values(
                |x: RemoteCell| cell_value(t, x),
            ));
        }
        assert(column@.take(column@.len() as int) =~= column@);
        let ghost prev_cols = columns@;
        let ghost prev_data = data@;
        let ghost h = (names@[c as int]@, remote_column_type(t));
        columns.push(ColumnDescriptor { name: names[c].clone(), column_type: map_clickhouse_type(t) });
        let ghost vv = value_views(vals@);
        data.push(vals);
        c = c + 1;
        assert(descriptor_views(columns@) =~= descriptor_views(prev_cols).push(h));
        assert(descriptor_views(columns@) =~= Seq::new(
            c as nat,
            |k: int| (names@[k]@, remote_column_type(types@[k])),
        ));
        assert(data_views(data@) =~= data_views(prev_data).push(vv));
        assert(data_views(data@) =~= Seq::new(
            c as nat,
            |k: int| cells@[k]@.map_values(|x: RemoteCell| cell_value(types@[k], x)),
        ));
    }
    Ok(StreamResult { columns, data })
}

} // verus!
