use vstd::prelude::*;

use crate::column_type::{parse_column_type, parse_type, ColumnType, TypeModel};
use crate::error::DecodeError;
use crate::field::{decode_value, lp_string_at, read_string, value_at, value_views, Value, ValueModel};
use crate::varuint::{read_var_u64, varuint_at};

verus! {

/// How the column and row counts of a block are written.
#[derive(Debug, Clone, Copy, PartialEq, Eq, Structural)]
pub enum CountWidth {
    /// As VarUInts.
    VarUInt,
    /// As single bytes.
    Byte,
}

/// When the stream reader stops reading blocks.
#[derive(Debug, Clone, Copy, PartialEq, Eq, Structural)]
pub enum Termination {
    /// After the first block.
    SingleBlock,
    /// When the column count of a further block cannot be read.
    UntilExhausted,
    /// At a block with no rows.
    ZeroRowBlock,
    /// After a block with fewer rows than the given maximum block size.
    ShortBlock(u64),
}

/// The layout variant of a stream.
#[derive(Debug, Clone, Copy, PartialEq, Eq, Structural)]
pub struct StreamOptions {
    pub counts: CountWidth,
    pub termination: Termination,
}

impl StreamOptions {
    /// VarUInt counts, reading blocks until the input is used up.
    pub fn standard() -> (r: StreamOptions)
        ensures
            r.counts == CountWidth::VarUInt,
            r.termination == Termination::UntilExhausted,
    {
        StreamOptions { counts: CountWidth::VarUInt, termination: Termination::UntilExhausted }
    }
}

/// The name and type of one column, as the first block declares them.
#[derive(Debug, Clone, PartialEq)]
pub struct ColumnDescriptor {
    pub name: String,
    pub column_type: ColumnType,
}

/// The views of the descriptors `s`: a name and a type each.
pub open spec fn descriptor_views(s: Seq<ColumnDescriptor>) -> Seq<(Seq<char>, TypeModel)> {
    s.map_values(|d: ColumnDescriptor| (d.name@, d.column_type@))
}

/// The types of the descriptors `s`.
pub open spec fn descriptor_types(s: Seq<ColumnDescriptor>) -> Seq<TypeModel> {
    s.map_values(|d: ColumnDescriptor| d.column_type@)
}

/// The values held by the column buffers `d`.
pub open spec fn data_views(d: Seq<Vec<Value>>) -> Seq<Seq<ValueModel>> {
    d.map_values(|v: Vec<Value>| value_views(v@))
}

/// A column or row count at `pos`.
pub open spec fn count_at(bytes: Seq<u8>, pos: int, w: CountWidth) -> Result<(u64, int), DecodeError> {
    match w {
        CountWidth::VarUInt => varuint_at(bytes, pos),
        CountWidth::Byte => if pos < bytes.len() {
            Ok((bytes[pos] as u64, pos + 1))
        } else {
            Err(DecodeError::TruncatedStream)
        },
    }
}

pub(crate) fn read_count(bytes: &[u8], pos: usize, w: CountWidth) -> (r: Result<(u64, usize), DecodeError>)
    requires
        pos <= bytes@.len(),
    ensures
        match count_at(bytes@, pos as int, w) {
            Ok((v, p)) => r matches Ok((x, q)) && x == v && q == p,
            Err(e) => r == Err::<(u64, usize), DecodeError>(e),
        },
        r matches Ok((_, q)) ==> pos < q <= bytes@.len(),
{
    match w {
        CountWidth::VarUInt => read_var_u64(bytes, pos),
        CountWidth::Byte => if pos < bytes.len() {
            Ok((bytes[pos] as u64, pos + 1))
        } else {
            Err(DecodeError::TruncatedStream)
        },
    }
}

/// `k` pairs of length-prefixed name and type strings at `pos`.
pub open spec fn headers_at(bytes: Seq<u8>, pos: int, k: nat) -> Result<
    (Seq<(Seq<char>, TypeModel)>, int),
    DecodeError,
>
    decreases k,
{
    if k == 0 {
        Ok((seq![], pos))
    } else {
        match lp_string_at(bytes, pos) {
            Err(e) => Err(e),
            Ok((name, p1)) => match lp_string_at(bytes, p1) {
                Err(e) => Err(e),
                Ok((ty, p2)) => match headers_at(bytes, p2, (k - 1) as nat) {
                    Err(e) => Err(e),
                    Ok((rest, p3)) => Ok((seq![(name, parse_type(ty))] + rest, p3)),
                },
            },
        }
    }
}

/// Reads `k` column headers, each a name and a type name.
pub(crate) fn read_headers(bytes: &[u8], pos: usize, k: u64) -> (r: Result<
    (Vec<ColumnDescriptor>, usize),
    DecodeError,
>)
    requires
        pos <= bytes@.len(),
    ensures
        match headers_at(bytes@, pos as int, k as nat) {
            Ok((hs, p)) => r matches Ok((ds, q)) && descriptor_views(ds@) == hs && q == p,
            Err(e) => r matches Err(x) && x == e,
        },
        r matches Ok((_, q)) ==> pos <= q <= bytes@.len(),
{
    let ghost total = headers_at(bytes@, pos as int, k as nat);
    let mut out: Vec<ColumnDescriptor> = Vec::new();
    let mut p = pos;
    let mut i: u64 = 0;
    while i < k
        invariant
            pos <= p <= bytes@.len(),
            i <= k,
            total == headers_at(bytes@, pos as int, k as nat),
            total == match headers_at(bytes@, p as int, (k - i) as nat) {
                Ok((hs, q)) => Ok((descriptor_views(out@) + hs, q)),
                Err(e) => Err(e),
            },
        decreases k - i,
    {
        let ghost rest = headers_at(bytes@, p as int, (k - i) as nat);
        let (name, p1) = match read_string(bytes, p) {
            Ok(x) => x,
            Err(e) => {
                assert(rest == Err::<(Seq<(Seq<char>, TypeModel)>, int), DecodeError>(e));
                assert(total == Err::<(Seq<(Seq<char>, TypeModel)>, int), DecodeError>(e));
                return Err(e);
            },
        };
        let (type_text, p2) = match read_string(bytes, p1) {
            Ok(x) => x,
            Err(e) => {
                assert(rest == Err::<(Seq<(Seq<char>, TypeModel)>, int), DecodeError>(e));
                assert(total == Err::<(Seq<(Seq<char>, TypeModel)>, int), DecodeError>(e));
                return Err(e);
            },
        };
        let (column_type, _) = parse_column_type(type_text.as_str());
        let ghost h = (name@, column_type@);
        let ghost before = out@;
        out.push(ColumnDescriptor { name, column_type });
        assert(descriptor_views(out@) =~= descriptor_views(before).push(h));
        proof {
            match headers_at(bytes@, p2 as int, (k - i - 1) as nat) {
                Ok((hs, q)) => {
                    assert(descriptor_views(before) + (seq![h] + hs) =~= descriptor_views(out@)
                        + hs);
                },
                Err(e) => {},
            }
        }
        p = p2;
        i = i + 1;
    }
    assert(descriptor_views(out@) + Seq::<(Seq<char>, TypeModel)>::empty() =~= descriptor_views(
        out@,
    ));
    Ok((out, p))
}

/// `rows` values of type `ty` at `pos`.
pub open spec fn column_at(bytes: Seq<u8>, pos: int, ty: TypeModel, rows: nat) -> Result<
    (Seq<ValueModel>, int),
    DecodeError,
>
    decreases rows,
{
    if rows == 0 {
        Ok((seq![], pos))
    } else {
        match value_at(bytes, pos, ty) {
            Err(e) => Err(e),
            Ok((v, p)) => match column_at(bytes, p, ty, (rows - 1) as nat) {
                Err(e) => Err(e),
                Ok((vs, q)) => Ok((seq![v] + vs, q)),
            },
        }
    }
}

/// Appends `rows` values of type `ty`, read at `pos`, to `out`.
fn decode_column_into(
    bytes: &[u8],
    pos: usize,
    ty: &ColumnType,
    rows: u64,
    out: &mut Vec<Value>,
) -> (r: Result<usize, DecodeError>)
    requires
        pos <= bytes@.len(),
    ensures
        match column_at(bytes@, pos as int, ty@, rows as nat) {
            Ok((vs, p)) => r matches Ok(q) && q == p && value_views(final(out)@) == value_views(
                old(out)@,
            ) + vs,
            Err(e) => r == Err::<usize, DecodeError>(e),
        },
        r matches Ok(q) ==> pos <= q <= bytes@.len(),
{
    let ghost total = column_at(bytes@, pos as int, ty@, rows as nat);
    let ghost start = value_views(out@);
    let ghost mut added: Seq<ValueModel> = seq![];
    let mut p = pos;
    let mut i: u64 = 0;
    while i < rows
        invariant
            pos <= p <= bytes@.len(),
            i <= rows,
            total == column_at(bytes@, pos as int, ty@, rows as nat),
            value_views(out@) == start + added,
            total == match column_at(bytes@, p as int, ty@, (rows - i) as nat) {
                Ok((vs, q)) => Ok((added + vs, q)),
                Err(e) => Err(e),
            },
        decreases rows - i,
    {
        let ghost rest = column_at(bytes@, p as int, ty@, (rows - i) as nat);
        let (v, q) = match decode_value(bytes, p, ty) {
            Ok(x) => x,
            Err(e) => {
                assert(rest == Err::<(Seq<ValueModel>, int), DecodeError>(e));
                assert(total == Err::<(Seq<ValueModel>, int), DecodeError>(e));
                return Err(e);
            },
        };
        let ghost vm = v@;
        let ghost before = out@;
        out.push(v);
        assert(value_views(out@) =~= value_views(before).push(vm));
        proof {
            assert(start + added.push(vm) =~= (start + added).push(vm));
            match column_at(bytes@, q as int, ty@, (rows - i - 1) as nat) {
                Ok((vs, q2)) => {
                    assert(added + (seq![vm] + vs) =~= added.push(vm) + vs);
                },
                Err(e) => {},
            }
            added = added.push(vm);
        }
        p = q;
        i = i + 1;
    }
    assert(added + Seq::<ValueModel>::empty() =~= added);
    Ok(p)
}

/// The data of one block: `rows` values of each of the types `types`, column after column.
pub open spec fn block_data_at(bytes: Seq<u8>, pos: int, types: Seq<TypeModel>, rows: nat) -> Result<
    (Seq<Seq<ValueModel>>, int),
    DecodeError,
>
    decreases types.len(),
{
    if types.len() == 0 {
        Ok((seq![], pos))
    } else {
        match column_at(bytes, pos, types[0], rows) {
            Err(e) => Err(e),
            Ok((vs, p)) => match block_data_at(bytes, p, types.skip(1), rows) {
                Err(e) => Err(e),
                Ok((rest, q)) => Ok((seq![vs] + rest, q)),
            },
        }
    }
}

/// Each column of `a` followed by the same column of `b`.
pub open spec fn concat_columns(a: Seq<Seq<ValueModel>>, b: Seq<Seq<ValueModel>>) -> Seq<
    Seq<ValueModel>,
> {
    Seq::new(a.len(), |i: int| a[i] + b[i])
}

/// `n` empty columns.
pub open spec fn empty_columns(n: nat) -> Seq<Seq<ValueModel>> {
    Seq::new(n, |i: int| Seq::<ValueModel>::empty())
}

/// Decodes the data of one block and appends each column to its buffer in `data`.
pub(crate) fn decode_block_data(
    bytes: &[u8],
    pos: usize,
    cols: &Vec<ColumnDescriptor>,
    rows: u64,
    data: &mut Vec<Vec<Value>>,
) -> (r: Result<usize, DecodeError>)
    requires
        pos <= bytes@.len(),
        old(data)@.len() == cols@.len(),
    ensures
        match block_data_at(bytes@, pos as int, descriptor_types(cols@), rows as nat) {
            Ok((d, p)) => r matches Ok(q) && q == p && final(data)@.len() == cols@.len()
                && data_views(final(data)@) == concat_columns(
                data_views(old(data)@),
                d,
            ),
            Err(e) => r == Err::<usize, DecodeError>(e),
        },
        r matches Ok(q) ==> pos <= q <= bytes@.len(),
{
    let ghost types = descriptor_types(cols@);
    let ghost total = block_data_at(bytes@, pos as int, types, rows as nat);
    let ghost start = data_views(data@);
    let ghost mut done: Seq<Seq<ValueModel>> = seq![];
    let mut p = pos;
    let mut c: usize = 0;
    assert(types.skip(0) =~= types);
    assert(done + total->Ok_0.0 =~= total->Ok_0.0) by {
        if total is Ok {}
    }
    while c < cols.len()
        invariant
            pos <= p <= bytes@.len(),
            c <= cols@.len(),
            total == block_data_at(bytes@, pos as int, types, rows as nat),
            start == data_views(old(data)@),
            types == descriptor_types(cols@),
            data@.len() == cols@.len(),
            start.len() == cols@.len(),
            done.len() == c,
            forall|k: int| 0 <= k < c ==> #[trigger] data_views(data@)[k] == start[k] + done[k],
            forall|k: int| c <= k < cols@.len() ==> #[trigger] data_views(data@)[k] == start[k],
            total == match block_data_at(bytes@, p as int, types.skip(c as int), rows as nat) {
                Ok((d, q)) => Ok((done + d, q)),
                Err(e) => Err(e),
            },
        decreases cols@.len() - c,
    {
        let ghost before = data@;
        assert(types.skip(c as int)[0] == cols@[c as int].column_type@);
        assert(types.skip(c as int).skip(1) =~= types.skip(c + 1));
        let ghost rest = block_data_at(bytes@, p as int, types.skip(c as int), rows as nat);
        let q = match decode_column_into(bytes, p, &cols[c].column_type, rows, &mut data[c]) {
            Ok(q) => q,
            Err(e) => {
                assert(rest == Err::<(Seq<Seq<ValueModel>>, int), DecodeError>(e));
                assert(total == Err::<(Seq<Seq<ValueModel>>, int), DecodeError>(e));
                return Err(e);
            },
        };
        let ghost vs = value_views(data@[c as int]@).subrange(
            value_views(before[c as int]@).len() as int,
            value_views(data@[c as int]@).len() as int,
        );
        proof {
            let col = column_at(bytes@, p as int, types.skip(c as int)[0], rows as nat);
            assert(col matches Ok((x, _)) && x =~= vs);
            assert(col == Ok::<(Seq<ValueModel>, int), DecodeError>((vs, q as int)));
            assert(rest == match block_data_at(bytes@, q as int, types.skip(c + 1), rows as nat) {
                Ok((d, q2)) => Ok((seq![vs] + d, q2)),
                Err(e) => Err(e),
            });
            assert forall|k: int| 0 <= k < cols@.len() && k != c implies #[trigger] data_views(
                data@,
            )[k] == data_views(before)[k] by {
                assert(data@[k] == before[k]);
            }
            assert(data_views(before)[c as int] == start[c as int]);
            assert(data_views(data@)[c as int] == start[c as int] + vs);
            assert forall|k: int| 0 <= k < c + 1 implies #[trigger] data_views(data@)[k] == start[k]
                + done.push(vs)[k] by {
                if k < c {
                    assert(data_views(data@)[k] == data_views(before)[k]);
                }
            }
            match block_data_at(bytes@, q as int, types.skip(c + 1), rows as nat) {
                Ok((d, q2)) => {
                    assert(done + (seq![vs] + d) =~= done.push(vs) + d);
                },
                Err(e) => {},
            }
            done = done.push(vs);
        }
        p = q;
        c = c + 1;
    }
    proof {
        assert(types.skip(c as int).len() == 0);
        assert(done + Seq::<Seq<ValueModel>>::empty() =~= done);
        assert(data_views(data@) =~= concat_columns(start, done));
    }
    Ok(p)
}

} // verus!
