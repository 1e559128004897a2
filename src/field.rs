use vstd::prelude::*;

use byteorder::{ByteOrder, LittleEndian};

use crate::column_type::{ColumnType, EnumType, TypeModel};
use crate::decimal::{decimal_text, push_decimal};
use crate::error::DecodeError;
use crate::text::{chars_of, decode_utf8_lossy, string_of, utf8_lossy};

verus! {

/// One decoded value. Enumeration codes are resolved to their names, and
/// floating-point values are kept as their IEEE 754 bit patterns.
#[derive(Debug, Clone, PartialEq)]
pub enum Value {
    Text(String),
    UInt8(u8),
    UInt16(u16),
    UInt32(u32),
    UInt64(u64),
    Int8(i8),
    Int16(i16),
    Int32(i32),
    Int64(i64),
    Float32Bits(u32),
    Float64Bits(u64),
    Bool(bool),
    /// Days since 1970-01-01.
    Date(u16),
    /// Seconds since 1970-01-01 00:00:00 UTC.
    DateTime(u32),
}

/// A decoded value as a mathematical value.
pub enum ValueModel {
    Text(Seq<char>),
    UInt8(u8),
    UInt16(u16),
    UInt32(u32),
    UInt64(u64),
    Int8(i8),
    Int16(i16),
    Int32(i32),
    Int64(i64),
    Float32Bits(u32),
    Float64Bits(u64),
    Bool(bool),
    Date(u16),
    DateTime(u32),
}

impl View for Value {
    type V = ValueModel;

    open spec fn view(&self) -> ValueModel {
        match self {
            Value::Text(s) => ValueModel::Text(s@),
            Value::UInt8(v) => ValueModel::UInt8(*v),
            Value::UInt16(v) => ValueModel::UInt16(*v),
            Value::UInt32(v) => ValueModel::UInt32(*v),
            Value::UInt64(v) => ValueModel::UInt64(*v),
            Value::Int8(v) => ValueModel::Int8(*v),
            Value::Int16(v) => ValueModel::Int16(*v),
            Value::Int32(v) => ValueModel::Int32(*v),
            Value::Int64(v) => ValueModel::Int64(*v),
            Value::Float32Bits(v) => ValueModel::Float32Bits(*v),
            Value::Float64Bits(v) => ValueModel::Float64Bits(*v),
            Value::Bool(v) => ValueModel::Bool(*v),
            Value::Date(v) => ValueModel::Date(*v),
            Value::DateTime(v) => ValueModel::DateTime(*v),
        }
    }
}

/// The views of the values `v`.
pub open spec fn value_views(v: Seq<Value>) -> Seq<ValueModel> {
    v.map_values(|x: Value| x@)
}

/// The unsigned number whose bytes, least significant first, are `s`.
pub open spec fn le_value(s: Seq<u8>) -> nat
    decreases s.len(),
{
    if s.len() == 0 {
        0
    } else {
        s[0] as nat + 256 * le_value(s.skip(1))
    }
}

/// The two's complement reading of the unsigned `u`, where `half` is half the range.
pub open spec fn to_signed(u: nat, half: nat) -> int {
    if u < half {
        u as int
    } else {
        u - 2 * half
    }
}

/// Relies on byteorder's `LittleEndian::read_u16`: two bytes, least significant first.
#[verifier::external_body]
fn le_u16(b: &[u8], pos: usize) -> (r: u16)
    requires
        pos + 2 <= b@.len(),
    ensures
        r as nat == le_value(b@.subrange(pos as int, pos + 2)),
{
    LittleEndian::read_u16(&b[pos..])
}

/// Relies on byteorder's `LittleEndian::read_u32`: four bytes, least significant first.
#[verifier::external_body]
fn le_u32(b: &[u8], pos: usize) -> (r: u32)
    requires
        pos + 4 <= b@.len(),
    ensures
        r as nat == le_value(b@.subrange(pos as int, pos + 4)),
{
    LittleEndian::read_u32(&b[pos..])
}

/// Relies on byteorder's `LittleEndian::read_u64`: eight bytes, least significant first.
#[verifier::external_body]
fn le_u64(b: &[u8], pos: usize) -> (r: u64)
    requires
        pos + 8 <= b@.len(),
    ensures
        r as nat == le_value(b@.subrange(pos as int, pos + 8)),
{
    LittleEndian::read_u64(&b[pos..])
}

/// Relies on byteorder's `LittleEndian::read_i16`: two bytes in two's complement.
#[verifier::external_body]
fn le_i16(b: &[u8], pos: usize) -> (r: i16)
    requires
        pos + 2 <= b@.len(),
    ensures
        r as int == to_signed(le_value(b@.subrange(pos as int, pos + 2)), 0x8000),
{
    LittleEndian::read_i16(&b[pos..])
}

/// Relies on byteorder's `LittleEndian::read_i32`: four bytes in two's complement.
#[verifier::external_body]
fn le_i32(b: &[u8], pos: usize) -> (r: i32)
    requires
        pos + 4 <= b@.len(),
    ensures
        r as int == to_signed(le_value(b@.subrange(pos as int, pos + 4)), 0x8000_0000),
{
    LittleEndian::read_i32(&b[pos..])
}

/// Relies on byteorder's `LittleEndian::read_i64`: eight bytes in two's complement.
#[verifier::external_body]
fn le_i64(b: &[u8], pos: usize) -> (r: i64)
    requires
        pos + 8 <= b@.len(),
    ensures
        r as int == to_signed(
            le_value(b@.subrange(pos as int, pos + 8)),
            0x8000_0000_0000_0000,
        ),
{
    LittleEndian::read_i64(&b[pos..])
}

/// `s` without NUL characters and without U+FFFD replacement characters.
pub open spec fn strip_text(s: Seq<char>) -> Seq<char>
    decreases s.len(),
{
    if s.len() == 0 {
        s
    } else if s.last() == '\0' || s.last() == '\u{FFFD}' {
        strip_text(s.drop_last())
    } else {
        strip_text(s.drop_last()).push(s.last())
    }
}

/// The text of the raw bytes `b`: decoded as UTF-8 with invalid sequences
/// replaced, then stripped of NUL and replacement characters.
pub open spec fn text_of_bytes(b: Seq<u8>) -> Seq<char> {
    strip_text(utf8_lossy(b))
}

/// The length-prefixed string at `pos`: one length byte, then that many bytes.
pub open spec fn lp_string_at(bytes: Seq<u8>, pos: int) -> Result<(Seq<char>, int), DecodeError> {
    if pos >= bytes.len() {
        Err(DecodeError::TruncatedStream)
    } else if pos + 1 + bytes[pos] > bytes.len() {
        Err(DecodeError::TruncatedStream)
    } else {
        Ok((text_of_bytes(bytes.subrange(pos + 1, pos + 1 + bytes[pos])), pos + 1 + bytes[pos]))
    }
}

proof fn lemma_strip_text_clean(s: Seq<char>)
    ensures
        forall|i: int|
            0 <= i < strip_text(s).len() ==> #[trigger] strip_text(s)[i] != '\0' && strip_text(
                s,
            )[i] != '\u{FFFD}',
    decreases s.len(),
{
    if s.len() > 0 {
        lemma_strip_text_clean(s.drop_last());
        let prev = strip_text(s.drop_last());
        if !(s.last() == '\0' || s.last() == '\u{FFFD}') {
            assert forall|i: int| 0 <= i < strip_text(s).len() implies #[trigger] strip_text(s)[i]
                != '\0' && strip_text(s)[i] != '\u{FFFD}' by {
                if i < prev.len() {
                    assert(strip_text(s)[i] == prev[i]);
                }
            }
        }
    }
}

/// The text decoded from any bytes holds neither NUL nor U+FFFD.
pub proof fn lemma_text_has_no_nul_or_replacement(b: Seq<u8>)
    ensures
        forall|i: int|
            0 <= i < text_of_bytes(b).len() ==> #[trigger] text_of_bytes(b)[i] != '\0'
                && text_of_bytes(b)[i] != '\u{FFFD}',
{
    lemma_strip_text_clean(utf8_lossy(b));
}

/// A length-prefixed string whose bytes are all present always decodes,
/// whatever the bytes are, and its text holds neither NUL nor U+FFFD.
pub proof fn lemma_string_field_decodes_clean(bytes: Seq<u8>, pos: int)
    requires
        0 <= pos < bytes.len(),
        pos + 1 + bytes[pos] <= bytes.len(),
    ensures
        lp_string_at(bytes, pos) matches Ok((s, p)) && p == pos + 1 + bytes[pos] && (forall|i: int|
            0 <= i < s.len() ==> #[trigger] s[i] != '\0' && s[i] != '\u{FFFD}'),
{
    lemma_text_has_no_nul_or_replacement(bytes.subrange(pos + 1, pos + 1 + bytes[pos]));
}

fn strip_chars(cs: &[char]) -> (r: Vec<char>)
    ensures
        r@ == strip_text(cs@),
{
    let mut out: Vec<char> = Vec::new();
    let mut i: usize = 0;
    assert(cs@.take(0) =~= Seq::<char>::empty());
    while i < cs.len()
        invariant
            i <= cs@.len(),
            out@ == strip_text(cs@.take(i as int)),
        decreases cs@.len() - i,
    {
        let c = cs[i];
        assert(cs@.take(i + 1).drop_last() =~= cs@.take(i as int));
        if c != '\0' && c != '\u{FFFD}' {
            out.push(c);
        }
        i = i + 1;
    }
    assert(cs@.take(cs@.len() as int) =~= cs@);
    out
}

/// Reads the length-prefixed string at `pos`: a length byte, then that many
/// bytes decoded as UTF-8 with invalid sequences replaced, from which NUL and
/// replacement characters are removed. Returns the text and the position after it.
pub fn read_string(bytes: &[u8], pos: usize) -> (r: Result<(String, usize), DecodeError>)
    requires
        pos <= bytes@.len(),
    ensures
        match lp_string_at(bytes@, pos as int) {
            Ok((s, p)) => r matches Ok((t, q)) && t@ == s && q == p,
            Err(e) => r == Err::<(String, usize), DecodeError>(e),
        },
        r matches Ok((_, q)) ==> pos < q <= bytes@.len(),
{
    if pos >= bytes.len() {
        return Err(DecodeError::TruncatedStream);
    }
    let n = bytes[pos] as usize;
    if n > bytes.len() - pos - 1 {
        return Err(DecodeError::TruncatedStream);
    }
    let end = pos + 1 + n;
    let raw = slice_bytes(bytes, pos + 1, end);
    let decoded = decode_utf8_lossy(raw.as_slice());
    let clean = strip_chars(decoded.as_slice());
    Ok((string_of(clean.as_slice()), end))
}

fn slice_bytes(b: &[u8], a: usize, e: usize) -> (r: Vec<u8>)
    requires
        a <= e <= b@.len(),
    ensures
        r@ == b@.subrange(a as int, e as int),
{
    let mut out: Vec<u8> = Vec::new();
    let mut i = a;
    while i < e
        invariant
            a <= i <= e <= b@.len(),
            out@ == b@.subrange(a as int, i as int),
        decreases e - i,
    {
        out.push(b[i]);
        i = i + 1;
        assert(out@ =~= b@.subrange(a as int, i as int));
    }
    out
}

/// The name that the entries `es` give to `code`, looking from index `i` on.
pub open spec fn enum_lookup(es: Seq<(Seq<char>, i8)>, code: i8, i: nat) -> Option<Seq<char>>
    decreases es.len() - i,
{
    if i >= es.len() {
        None
    } else if es[i as int].1 == code {
        Some(es[i as int].0)
    } else {
        enum_lookup(es, code, i + 1)
    }
}

/// The text for an `Enum8` code: the first name declared for it, else
/// `Unknown(<code>)`.
pub open spec fn enum_text(es: Seq<(Seq<char>, i8)>, code: i8) -> Seq<char> {
    match enum_lookup(es, code, 0) {
        Some(name) => name,
        None => "Unknown("@ + decimal_text(code as int) + ")"@,
    }
}

/// The text that stands for each value of an unsupported type.
pub open spec fn unsupported_text(name: Seq<char>) -> Seq<char> {
    "<unsupported:"@ + name + ">"@
}

fn resolve_enum(e: &EnumType, code: i8) -> (r: String)
    ensures
        r@ == enum_text(e.entries(), code),
{
    let mut i: usize = 0;
    while i < e.values.len()
        invariant
            i <= e.values@.len(),
            enum_lookup(e.entries(), code, 0) == enum_lookup(e.entries(), code, i as nat),
        decreases e.values@.len() - i,
    {
        if e.values[i].value == code {
            return e.values[i].name.clone();
        }
        i = i + 1;
    }
    let mut out = chars_of("Unknown(");
    push_decimal(&mut out, code as i64);
    let close = chars_of(")");
    let mut j: usize = 0;
    let ghost before = out@;
    while j < close.len()
        invariant
            j <= close@.len(),
            out@ == before + close@.take(j as int),
        decreases close@.len() - j,
    {
        out.push(close[j]);
        j = j + 1;
        assert(out@ =~= before + close@.take(j as int));
    }
    assert(close@.take(close@.len() as int) =~= close@);
    string_of(out.as_slice())
}

fn unsupported_placeholder(name: &String) -> (r: String)
    ensures
        r@ == unsupported_text(name@),
{
    let mut out = chars_of("<unsupported:");
    let tail = chars_of(name.as_str());
    let close = chars_of(">");
    let ghost start = out@;
    let mut j: usize = 0;
    while j < tail.len()
        invariant
            j <= tail@.len(),
            out@ == start + tail@.take(j as int),
        decreases tail@.len() - j,
    {
        out.push(tail[j]);
        j = j + 1;
        assert(out@ =~= start + tail@.take(j as int));
    }
    assert(tail@.take(tail@.len() as int) =~= tail@);
    proof {
        reveal_strlit(">");
    }
    assert(close@ =~= seq!['>']);
    out.push(close[0]);
    assert(out@ =~= unsupported_text(name@));
    string_of(out.as_slice())
}

/// One value of type `ty` at `pos`, and the position after it. Integers are
/// little-endian; a string is length-prefixed; an unsupported type reads no bytes.
pub open spec fn value_at(bytes: Seq<u8>, pos: int, ty: TypeModel) -> Result<
    (ValueModel, int),
    DecodeError,
> {
    let fits = |w: int| pos + w <= bytes.len();
    let le = |w: int| le_value(bytes.subrange(pos, pos + w));
    match ty {
        TypeModel::String => match lp_string_at(bytes, pos) {
            Ok((s, p)) => Ok((ValueModel::Text(s), p)),
            Err(e) => Err(e),
        },
        TypeModel::Unsupported(name) => Ok((ValueModel::Text(unsupported_text(name)), pos)),
        _ => {
            let w: int = match ty {
                TypeModel::UInt16 | TypeModel::Int16 | TypeModel::Date => 2,
                TypeModel::UInt32 | TypeModel::Int32 | TypeModel::Float32 | TypeModel::DateTime => 4,
                TypeModel::UInt64 | TypeModel::Int64 | TypeModel::Float64 => 8,
                _ => 1,
            };
            if !fits(w) {
                Err(DecodeError::TruncatedStream)
            } else {
                let v = match ty {
                    TypeModel::UInt8 => ValueModel::UInt8(bytes[pos]),
                    TypeModel::UInt16 => ValueModel::UInt16(le(2) as u16),
                    TypeModel::UInt32 => ValueModel::UInt32(le(4) as u32),
                    TypeModel::UInt64 => ValueModel::UInt64(le(8) as u64),
                    TypeModel::Int8 => ValueModel::Int8(to_signed(bytes[pos] as nat, 0x80) as i8),
                    TypeModel::Int16 => ValueModel::Int16(to_signed(le(2) as nat, 0x8000) as i16),
                    TypeModel::Int32 => ValueModel::Int32(
                        to_signed(le(4) as nat, 0x8000_0000) as i32,
                    ),
                    TypeModel::Int64 => ValueModel::Int64(
                        to_signed(le(8) as nat, 0x8000_0000_0000_0000) as i64,
                    ),
                    TypeModel::Float32 => ValueModel::Float32Bits(le(4) as u32),
                    TypeModel::Float64 => ValueModel::Float64Bits(le(8) as u64),
                    TypeModel::Bool => ValueModel::Bool(bytes[pos] != 0),
                    TypeModel::Date => ValueModel::Date(le(2) as u16),
                    TypeModel::DateTime => ValueModel::DateTime(le(4) as u32),
                    TypeModel::Enum8(es) => ValueModel::Text(
                        enum_text(es, to_signed(bytes[pos] as nat, 0x80) as i8),
                    ),
                    _ => ValueModel::Bool(false),
                };
                Ok((v, pos + w))
            }
        },
    }
}

fn byte_as_i8(b: u8) -> (r: i8)
    ensures
        r as int == to_signed(b as nat, 0x80),
{
    if b < 128 {
        b as i8
    } else {
        ((b as i16) - 256) as i8
    }
}

/// Reads one value of type `ty` at `pos`.
pub fn decode_value(bytes: &[u8], pos: usize, ty: &ColumnType) -> (r: Result<(Value, usize), DecodeError>)
    requires
        pos <= bytes@.len(),
    ensures
        match value_at(bytes@, pos as int, ty@) {
            Ok((v, p)) => r matches Ok((x, q)) && x@ == v && q == p,
            Err(e) => r == Err::<(Value, usize), DecodeError>(e),
        },
        r matches Ok((_, q)) ==> pos <= q <= bytes@.len(),
{
    let avail = bytes.len() - pos;
    match ty {
        ColumnType::String => match read_string(bytes, pos) {
            Ok((s, p)) => Ok((Value::Text(s), p)),
            Err(e) => Err(e),
        },
        ColumnType::Unsupported(name) => Ok((Value::Text(unsupported_placeholder(name)), pos)),
        ColumnType::UInt16 | ColumnType::Int16 | ColumnType::Date => {
            if avail < 2 {
                return Err(DecodeError::TruncatedStream);
            }
            let v = match ty {
                ColumnType::UInt16 => Value::UInt16(le_u16(bytes, pos)),
                ColumnType::Int16 => Value::Int16(le_i16(bytes, pos)),
                _ => Value::Date(le_u16(bytes, pos)),
            };
            Ok((v, pos + 2))
        },
        ColumnType::UInt32 | ColumnType::Int32 | ColumnType::Float32 | ColumnType::DateTime => {
            if avail < 4 {
                return Err(DecodeError::TruncatedStream);
            }
            let v = match ty {
                ColumnType::UInt32 => Value::UInt32(le_u32(bytes, pos)),
                ColumnType::Int32 => Value::Int32(le_i32(bytes, pos)),
                ColumnType::Float32 => Value::Float32Bits(le_u32(bytes, pos)),
                _ => Value::DateTime(le_u32(bytes, pos)),
            };
            Ok((v, pos + 4))
        },
        ColumnType::UInt64 | ColumnType::Int64 | ColumnType::Float64 => {
            if avail < 8 {
                return Err(DecodeError::TruncatedStream);
            }
            let v = match ty {
                ColumnType::UInt64 => Value::UInt64(le_u64(bytes, pos)),
                ColumnType::Int64 => Value::Int64(le_i64(bytes, pos)),
                _ => Value::Float64Bits(le_u64(bytes, pos)),
            };
            Ok((v, pos + 8))
        },
        _ => {
            if avail < 1 {
                return Err(DecodeError::TruncatedStream);
            }
            let b = bytes[pos];
            let v = match ty {
                ColumnType::UInt8 => Value::UInt8(b),
                ColumnType::Int8 => Value::Int8(byte_as_i8(b)),
                ColumnType::Bool => Value::Bool(b != 0),
                ColumnType::Enum8(e) => Value::Text(resolve_enum(e, byte_as_i8(b))),
                _ => Value::Bool(false),
            };
            Ok((v, pos + 1))
        },
    }
}

} // verus!
