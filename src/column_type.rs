use vstd::prelude::*;

use crate::decimal::{parse_bounded, parse_integer_in};
use crate::text::{
    chars_are, chars_of, find_char, index_of, split_chars, split_on, string_of, sub_chars,
    trim_class, trimmed, CharClass,
};

verus! {

/// One name of an `Enum8` and the code that stands for it.
#[derive(Debug, Clone, PartialEq)]
pub struct EnumValue {
    pub name: String,
    pub value: i8,
}

/// The names of an `Enum8`, in the order in which its type declares them.
#[derive(Debug, Clone, PartialEq)]
pub struct EnumType {
    pub values: Vec<EnumValue>,
}

impl EnumType {
    /// The `(name, code)` pairs, in order.
    pub open spec fn entries(&self) -> Seq<(Seq<char>, i8)> {
        self.values@.map_values(|e: EnumValue| (e.name@, e.value))
    }
}

/// The column types that the decoder recognises.
#[derive(Debug, Clone, PartialEq)]
pub enum ColumnType {
    String,
    UInt8,
    UInt16,
    UInt32,
    UInt64,
    Int8,
    Int16,
    Int32,
    Int64,
    Float32,
    Float64,
    Bool,
    Date,
    DateTime,
    Enum8(EnumType),
    /// A type outside the recognised set, by name.
    Unsupported(String),
}

/// A column type as a mathematical value.
pub enum TypeModel {
    String,
    UInt8,
    UInt16,
    UInt32,
    UInt64,
    Int8,
    Int16,
    Int32,
    Int64,
    Float32,
    Float64,
    Bool,
    Date,
    DateTime,
    Enum8(Seq<(Seq<char>, i8)>),
    Unsupported(Seq<char>),
}

impl View for ColumnType {
    type V = TypeModel;

    open spec fn view(&self) -> TypeModel {
        match self {
            ColumnType::String => TypeModel::String,
            ColumnType::UInt8 => TypeModel::UInt8,
            ColumnType::UInt16 => TypeModel::UInt16,
            ColumnType::UInt32 => TypeModel::UInt32,
            ColumnType::UInt64 => TypeModel::UInt64,
            ColumnType::Int8 => TypeModel::Int8,
            ColumnType::Int16 => TypeModel::Int16,
            ColumnType::Int32 => TypeModel::Int32,
            ColumnType::Int64 => TypeModel::Int64,
            ColumnType::Float32 => TypeModel::Float32,
            ColumnType::Float64 => TypeModel::Float64,
            ColumnType::Bool => TypeModel::Bool,
            ColumnType::Date => TypeModel::Date,
            ColumnType::DateTime => TypeModel::DateTime,
            ColumnType::Enum8(e) => TypeModel::Enum8(e.entries()),
            ColumnType::Unsupported(name) => TypeModel::Unsupported(name@),
        }
    }
}

/// The entry that one comma-separated piece `'name' = code` declares, if it
/// holds exactly one `=` and its code reads as an `i8`.
pub open spec fn enum_entry(pair: Seq<char>) -> Option<(Seq<char>, i8)> {
    let parts = split_on(pair, '=');
    if parts.len() != 2 {
        None
    } else {
        match parse_bounded(trimmed(parts[1], CharClass::WhiteSpace), true, -128, 127) {
            Some(v) => Some(
                (trimmed(trimmed(parts[0], CharClass::WhiteSpace), CharClass::Quote), v as i8),
            ),
            None => None,
        }
    }
}

/// The entries of the pieces `pairs`, dropping those that declare none.
pub open spec fn enum_entries(pairs: Seq<Seq<char>>) -> Seq<(Seq<char>, i8)>
    decreases pairs.len(),
{
    if pairs.len() == 0 {
        seq![]
    } else {
        let prev = enum_entries(pairs.drop_last());
        match enum_entry(pairs.last()) {
            Some(e) => prev.push(e),
            None => prev,
        }
    }
}

/// The entries of an `Enum8` parameter list such as `('a' = 1, 'b' = 2)`:
/// none when the list is empty or no piece declares an entry.
pub open spec fn enum_params(params: Seq<char>) -> Option<Seq<(Seq<char>, i8)>> {
    let inner = trimmed(trimmed(params, CharClass::Paren), CharClass::WhiteSpace);
    if inner.len() == 0 {
        None
    } else {
        let es = enum_entries(split_on(inner, ','));
        if es.len() == 0 {
            None
        } else {
            Some(es)
        }
    }
}

fn parse_enum_entry(pair: &[char]) -> (r: Option<EnumValue>)
    ensures
        match enum_entry(pair@) {
            Some(e) => r matches Some(v) && v.name@ == e.0 && v.value == e.1,
            None => r is None,
        },
{
    let parts = split_chars(pair, '=');
    if parts.len() != 2 {
        return None;
    }
    assert(parts@[0]@ == split_on(pair@, '=')[0]);
    assert(parts@[1]@ == split_on(pair@, '=')[1]);
    let code_text = trim_class(parts[1].as_slice(), CharClass::WhiteSpace);
    match parse_integer_in(code_text.as_slice(), true, -128, 127) {
        Some(v) => {
            let unspaced = trim_class(parts[0].as_slice(), CharClass::WhiteSpace);
            let name = trim_class(unspaced.as_slice(), CharClass::Quote);
            Some(EnumValue { name: string_of(name.as_slice()), value: v as i8 })
        },
        None => None,
    }
}

/// Parses the parameter list of an `Enum8` type, such as `('a' = 1, 'b' = 2)`.
/// Pieces that declare no entry are dropped; `None` when no entry is left.
pub fn parse_enum_values(params: &str) -> (r: Option<EnumType>)
    ensures
        match enum_params(params@) {
            Some(es) => r matches Some(t) && t.entries() == es,
            None => r is None,
        },
{
    let cs = chars_of(params);
    let unparened = trim_class(cs.as_slice(), CharClass::Paren);
    let inner = trim_class(unparened.as_slice(), CharClass::WhiteSpace);
    if inner.len() == 0 {
        return None;
    }
    let pairs = split_chars(inner.as_slice(), ',');
    let ghost ps = split_on(inner@, ',');
    let mut values: Vec<EnumValue> = Vec::new();
    let mut i: usize = 0;
    while i < pairs.len()
        invariant
            i <= pairs@.len(),
            pairs@.len() == ps.len(),
            forall|k: int| 0 <= k < ps.len() ==> (#[trigger] pairs@[k])@ == ps[k],
            values@.map_values(|e: EnumValue| (e.name@, e.value)) == enum_entries(ps.take(i as int)),
        decreases pairs@.len() - i,
    {
        assert(ps.take(i + 1).drop_last() =~= ps.take(i as int));
        assert(ps.take(i + 1).last() == ps[i as int]);
        let ghost before = values@;
        match parse_enum_entry(pairs[i].as_slice()) {
            Some(v) => {
                let ghost e = (v.name@, v.value);
                values.push(v);
                assert(values@.map_values(|e: EnumValue| (e.name@, e.value)) =~= before.map_values(
                    |e: EnumValue| (e.name@, e.value),
                ).push(e));
            },
            None => {},
        }
        i = i + 1;
    }
    assert(ps.take(ps.len() as int) =~= ps);
    if values.len() == 0 {
        None
    } else {
        Some(EnumType { values })
    }
}

/// Everything from the first `(` on, when there is one: the parameter list,
/// or empty when the text does not end with `)`.
pub open spec fn type_params(s: Seq<char>) -> Option<Seq<char>> {
    match index_of(s, '(') {
        Some(i) => Some(
            if s.len() > 0 && s.last() == ')' {
                s.skip(i as int)
            } else {
                Seq::<char>::empty()
            },
        ),
        None => None,
    }
}

/// The text before the first `(`, or all of it.
pub open spec fn type_base(s: Seq<char>) -> Seq<char> {
    match index_of(s, '(') {
        Some(i) => s.take(i as int),
        None => s,
    }
}

/// The type that a base name and its parameters denote.
pub open spec fn base_type_model(base: Seq<char>, params: Option<Seq<char>>) -> TypeModel {
    if base == "String"@ {
        TypeModel::String
    } else if base == "UInt8"@ {
        TypeModel::UInt8
    } else if base == "UInt16"@ {
        TypeModel::UInt16
    } else if base == "UInt32"@ {
        TypeModel::UInt32
    } else if base == "UInt64"@ {
        TypeModel::UInt64
    } else if base == "Int8"@ {
        TypeModel::Int8
    } else if base == "Int16"@ {
        TypeModel::Int16
    } else if base == "Int32"@ {
        TypeModel::Int32
    } else if base == "Int64"@ {
        TypeModel::Int64
    } else if base == "Float32"@ {
        TypeModel::Float32
    } else if base == "Float64"@ {
        TypeModel::Float64
    } else if base == "Bool"@ {
        TypeModel::Bool
    } else if base == "Date"@ {
        TypeModel::Date
    } else if base == "DateTime"@ {
        TypeModel::DateTime
    } else if base == "Enum8"@ {
        match params {
            Some(p) => match enum_params(p) {
                Some(es) => TypeModel::Enum8(es),
                None => TypeModel::Unsupported("Invalid Enum8"@),
            },
            None => TypeModel::Unsupported("Invalid Enum8"@),
        }
    } else {
        TypeModel::Unsupported(base)
    }
}

/// The type that the type name `s` denotes.
pub open spec fn parse_type(s: Seq<char>) -> TypeModel {
    base_type_model(type_base(s), type_params(s))
}

fn invalid_enum() -> (r: ColumnType)
    ensures
        r@ == TypeModel::Unsupported("Invalid Enum8"@),
{
    ColumnType::Unsupported(string_of(chars_of("Invalid Enum8").as_slice()))
}

fn base_type(base: &[char], params: &Option<String>) -> (r: ColumnType)
    ensures
        r@ == base_type_model(
            base@,
            match params {
                Some(p) => Some(p@),
                None => None,
            },
        ),
{
    if chars_are(base, "String") {
        ColumnType::String
    } else if chars_are(base, "UInt8") {
        ColumnType::UInt8
    } else if chars_are(base, "UInt16") {
        ColumnType::UInt16
    } else if chars_are(base, "UInt32") {
        ColumnType::UInt32
    } else if chars_are(base, "UInt64") {
        ColumnType::UInt64
    } else if chars_are(base, "Int8") {
        ColumnType::Int8
    } else if chars_are(base, "Int16") {
        ColumnType::Int16
    } else if chars_are(base, "Int32") {
        ColumnType::Int32
    } else if chars_are(base, "Int64") {
        ColumnType::Int64
    } else if chars_are(base, "Float32") {
        ColumnType::Float32
    } else if chars_are(base, "Float64") {
        ColumnType::Float64
    } else if chars_are(base, "Bool") {
        ColumnType::Bool
    } else if chars_are(base, "Date") {
        ColumnType::Date
    } else if chars_are(base, "DateTime") {
        ColumnType::DateTime
    } else if chars_are(base, "Enum8") {
        match params {
            Some(p) => match parse_enum_values(p.as_str()) {
                Some(e) => ColumnType::Enum8(e),
                None => invalid_enum(),
            },
            None => invalid_enum(),
        }
    } else {
        ColumnType::Unsupported(string_of(base))
    }
}

/// Parses a type name such as `UInt64` or `Enum8('a' = 1)`: the type, and the
/// parameter list from the first `(` on, if there is one (empty when the name
/// does not end with `)`). Unknown base names give `Unsupported`.
pub fn parse_column_type(type_str: &str) -> (r: (ColumnType, Option<String>))
    ensures
        r.0@ == parse_type(type_str@),
        match r.1 {
            Some(p) => type_params(type_str@) == Some(p@),
            None => type_params(type_str@) is None,
        },
{
    let cs = chars_of(type_str);
    let open = find_char(cs.as_slice(), '(');
    let (base, params) = match open {
        Some(idx) => {
            let base = sub_chars(cs.as_slice(), 0, idx);
            let params = if cs.len() > 0 && cs[cs.len() - 1] == ')' {
                string_of(sub_chars(cs.as_slice(), idx, cs.len()).as_slice())
            } else {
                string_of(Vec::<char>::new().as_slice())
            };
            assert(cs@.subrange(0, idx as int) =~= cs@.take(idx as int));
            assert(cs@.subrange(idx as int, cs@.len() as int) =~= cs@.skip(idx as int));
            (base, Some(params))
        },
        None => (cs, None),
    };
    let t = base_type(base.as_slice(), &params);
    (t, params)
}

} // verus!
