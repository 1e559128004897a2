use vstd::prelude::*;

use crate::block::{
    block_data_at, column_at, concat_columns, count_at, data_views, decode_block_data,
    descriptor_types, descriptor_views, empty_columns, headers_at, read_count, read_headers,
    ColumnDescriptor, CountWidth, StreamOptions, Termination,
};
use crate::column_type::TypeModel;
use crate::error::DecodeError;
use crate::field::{lp_string_at, value_at, Value, ValueModel};
use crate::varuint::varuint_extent;

verus! {

/// A decoded stream as a mathematical value: the schema of the first block,
/// every column's values over all blocks, and the row count of each block.
pub struct StreamModel {
    pub schema: Seq<(Seq<char>, TypeModel)>,
    pub data: Seq<Seq<ValueModel>>,
    pub block_rows: Seq<nat>,
}

/// The types of the columns of `schema`.
pub open spec fn schema_types(schema: Seq<(Seq<char>, TypeModel)>) -> Seq<TypeModel> {
    schema.map_values(|h: (Seq<char>, TypeModel)| h.1)
}

/// Whether the reader stops after a block of `rows` rows.
pub open spec fn stops_after(t: Termination, rows: u64) -> bool {
    match t {
        Termination::SingleBlock => true,
        Termination::UntilExhausted => false,
        Termination::ZeroRowBlock => rows == 0,
        Termination::ShortBlock(max) => rows < max,
    }
}

/// The blocks after the first, from `pos` on: each column's further values,
/// and the row count of each further block. A further block repeats its
/// column headers, which are read and set aside.
pub open spec fn later_blocks_at(
    bytes: Seq<u8>,
    pos: int,
    types: Seq<TypeModel>,
    opts: StreamOptions,
) -> Result<(Seq<Seq<ValueModel>>, Seq<nat>), DecodeError>
    decreases bytes.len() - pos,
{
    match count_at(bytes, pos, opts.counts) {
        Err(e) => if opts.termination == Termination::UntilExhausted {
            Ok((empty_columns(types.len()), seq![]))
        } else {
            Err(e)
        },
        Ok((ncols, p1)) => match count_at(bytes, p1, opts.counts) {
            Err(e) => Err(e),
            Ok((rows, p2)) => if opts.termination == Termination::ZeroRowBlock && rows == 0 {
                Ok((empty_columns(types.len()), seq![]))
            } else {
                match headers_at(bytes, p2, ncols as nat) {
                    Err(e) => Err(e),
                    Ok((_, p3)) => match block_data_at(bytes, p3, types, rows as nat) {
                        Err(e) => Err(e),
                        Ok((d, p4)) => if stops_after(opts.termination, rows) {
                            Ok((d, seq![rows as nat]))
                        } else if p4 <= pos || p4 > bytes.len() {
                            // Unreachable: the two counts move the position forward,
                            // and nothing moves it back or past the end.
                            Err(DecodeError::TruncatedStream)
                        } else {
                            match later_blocks_at(bytes, p4, types, opts) {
                                Err(e) => Err(e),
                                Ok((more, rs)) => Ok(
                                    (concat_columns(d, more), seq![rows as nat] + rs),
                                ),
                            }
                        },
                    },
                }
            },
        },
    }
}

/// The whole stream: a first block that declares the schema, then further
/// blocks as the termination policy of `opts` allows.
pub open spec fn stream_at(bytes: Seq<u8>, opts: StreamOptions) -> Result<StreamModel, DecodeError> {
    match count_at(bytes, 0, opts.counts) {
        Err(e) => Err(e),
        Ok((ncols, p1)) => match count_at(bytes, p1, opts.counts) {
            Err(e) => Err(e),
            Ok((rows, p2)) => match headers_at(bytes, p2, ncols as nat) {
                Err(e) => Err(e),
                Ok((schema, p3)) => {
                    let types = schema_types(schema);
                    match block_data_at(bytes, p3, types, rows as nat) {
                        Err(e) => Err(e),
                        Ok((d, p4)) => if stops_after(opts.termination, rows) {
                            Ok(StreamModel { schema, data: d, block_rows: seq![rows as nat] })
                        } else {
                            match later_blocks_at(bytes, p4, types, opts) {
                                Err(e) => Err(e),
                                Ok((more, rs)) => Ok(
                                    StreamModel {
                                        schema,
                                        data: concat_columns(d, more),
                                        block_rows: seq![rows as nat] + rs,
                                    },
                                ),
                            }
                        },
                    }
                },
            },
        },
    }
}

/// The decoded columns of a stream, in declaration order, each with its buffer.
#[derive(Debug)]
pub struct StreamResult {
    pub columns: Vec<ColumnDescriptor>,
    pub data: Vec<Vec<Value>>,
}

impl StreamResult {
    /// The schema of the stream.
    pub open spec fn schema(&self) -> Seq<(Seq<char>, TypeModel)> {
        descriptor_views(self.columns@)
    }

    /// The values of each column.
    pub open spec fn values(&self) -> Seq<Seq<ValueModel>> {
        data_views(self.data@)
    }
}

proof fn lemma_concat_empty(a: Seq<Seq<ValueModel>>)
    ensures
        concat_columns(a, empty_columns(a.len())) =~~= a,
{
    assert forall|i: int| 0 <= i < a.len() implies #[trigger] concat_columns(
        a,
        empty_columns(a.len()),
    )[i] == a[i] by {
        assert(a[i] + Seq::<ValueModel>::empty() =~= a[i]);
    }
}

proof fn lemma_concat_assoc(a: Seq<Seq<ValueModel>>, b: Seq<Seq<ValueModel>>, c: Seq<Seq<ValueModel>>)
    requires
        a.len() == b.len(),
    ensures
        concat_columns(concat_columns(a, b), c) =~~= concat_columns(a, concat_columns(b, c)),
{
    assert forall|i: int| 0 <= i < a.len() implies #[trigger] concat_columns(
        concat_columns(a, b),
        c,
    )[i] == concat_columns(a, concat_columns(b, c))[i] by {
        assert(a[i] + b[i] + c[i] =~= a[i] + (b[i] + c[i]));
    }
}

/// Reads the blocks after the first and appends their values to `data`.
fn read_later_blocks(
    bytes: &[u8],
    pos: usize,
    cols: &Vec<ColumnDescriptor>,
    opts: StreamOptions,
    data: &mut Vec<Vec<Value>>,
) -> (r: Result<(), DecodeError>)
    requires
        pos <= bytes@.len(),
        old(data)@.len() == cols@.len(),
    ensures
        match later_blocks_at(bytes@, pos as int, descriptor_types(cols@), opts) {
            Ok((more, _)) => r is Ok && final(data)@.len() == cols@.len() && data_views(
                final(data)@,
            ) == concat_columns(data_views(old(data)@), more),
            Err(e) => r == Err::<(), DecodeError>(e),
        },
{
    let ghost types = descriptor_types(cols@);
    let ghost n = cols@.len();
    let ghost total = later_blocks_at(bytes@, pos as int, types, opts);
    let ghost start = data_views(data@);
    let ghost mut done: Seq<Seq<ValueModel>> = empty_columns(n);
    let ghost mut seen: Seq<nat> = seq![];
    let mut p = pos;
    proof {
        lemma_concat_empty(start);
        match later_blocks_at(bytes@, pos as int, types, opts) {
            Ok((more, rs)) => {
                lemma_later_blocks_len(bytes@, pos as int, types, opts);
                assert forall|i: int| 0 <= i < more.len() implies #[trigger] concat_columns(
                    empty_columns(n),
                    more,
                )[i] == more[i] by {
                    assert(Seq::<ValueModel>::empty() + more[i] =~= more[i]);
                }
                assert(concat_columns(empty_columns(n), more) =~~= more);
                assert(seen + rs =~= rs);
            },
            Err(e) => {},
        }
    }
    loop
        invariant
            pos <= p <= bytes@.len(),
            types == descriptor_types(cols@),
            n == cols@.len(),
            data@.len() == n,
            start.len() == n,
            done.len() == n,
            total == later_blocks_at(bytes@, pos as int, types, opts),
            start == data_views(old(data)@),
            data_views(data@) == concat_columns(start, done),
            total == match later_blocks_at(bytes@, p as int, types, opts) {
                Ok((more, rs)) => Ok((concat_columns(done, more), seen + rs)),
                Err(e) => Err(e),
            },
        decreases bytes@.len() - p,
    {
        let ghost rest = later_blocks_at(bytes@, p as int, types, opts);
        let (ncols, p1) = match read_count(bytes, p, opts.counts) {
            Ok(x) => x,
            Err(e) => {
                if opts.termination == Termination::UntilExhausted {
                    proof {
                        lemma_concat_empty(done);
                    }
                    return Ok(());
                }
                return Err(e);
            },
        };
        let (rows, p2) = match read_count(bytes, p1, opts.counts) {
            Ok(x) => x,
            Err(e) => {
                return Err(e);
            },
        };
        if opts.termination == Termination::ZeroRowBlock && rows == 0 {
            proof {
                lemma_concat_empty(done);
            }
            return Ok(());
        }
        let (_, p3) = match read_headers(bytes, p2, ncols) {
            Ok(x) => x,
            Err(e) => {
                return Err(e);
            },
        };
        let ghost before = data_views(data@);
        let p4 = match decode_block_data(bytes, p3, cols, rows, data) {
            Ok(q) => q,
            Err(e) => {
                return Err(e);
            },
        };
        let ghost d = block_data_at(bytes@, p3 as int, types, rows as nat)->Ok_0.0;
        proof {
            lemma_block_data_len(bytes@, p3 as int, types, rows as nat);
            lemma_concat_assoc(start, done, d);
        }
        if stops_after_exec(opts.termination, rows) {
            return Ok(());
        }
        proof {
            match later_blocks_at(bytes@, p4 as int, types, opts) {
                Ok((more, rs)) => {
                    lemma_later_blocks_len(bytes@, p4 as int, types, opts);
                    lemma_concat_assoc(done, d, more);
                    assert(seen + (seq![rows as nat] + rs) =~= seen.push(rows as nat) + rs);
                },
                Err(e) => {},
            }
            done = concat_columns(done, d);
            seen = seen.push(rows as nat);
        }
        p = p4;
    }
}

fn stops_after_exec(t: Termination, rows: u64) -> (r: bool)
    ensures
        r == stops_after(t, rows),
{
    match t {
        Termination::SingleBlock => true,
        Termination::UntilExhausted => false,
        Termination::ZeroRowBlock => rows == 0,
        Termination::ShortBlock(max) => rows < max,
    }
}

proof fn lemma_column_len(bytes: Seq<u8>, pos: int, ty: TypeModel, rows: nat)
    ensures
        column_at_len_ok(bytes, pos, ty, rows),
    decreases rows,
{
    if rows > 0 {
        match crate::field::value_at(bytes, pos, ty) {
            Ok((v, p)) => lemma_column_len(bytes, p, ty, (rows - 1) as nat),
            Err(e) => {},
        }
    }
}

spec fn column_at_len_ok(bytes: Seq<u8>, pos: int, ty: TypeModel, rows: nat) -> bool {
    crate::block::column_at(bytes, pos, ty, rows) matches Ok((vs, _)) ==> vs.len() == rows
}

pub(crate) proof fn lemma_block_data_len(bytes: Seq<u8>, pos: int, types: Seq<TypeModel>, rows: nat)
    ensures
        block_data_at(bytes, pos, types, rows) matches Ok((d, _)) ==> d.len() == types.len() && (
        forall|c: int| 0 <= c < d.len() ==> (#[trigger] d[c]).len() == rows),
    decreases types.len(),
{
    if types.len() > 0 {
        lemma_column_len(bytes, pos, types[0], rows);
        match crate::block::column_at(bytes, pos, types[0], rows) {
            Ok((vs, p)) => {
                lemma_block_data_len(bytes, p, types.skip(1), rows);
                match block_data_at(bytes, p, types.skip(1), rows) {
                    Ok((rest, q)) => {
                        let d = seq![vs] + rest;
                        assert forall|c: int| 0 <= c < d.len() implies (#[trigger] d[c]).len()
                            == rows by {
                            if c > 0 {
                                assert(d[c] == rest[c - 1]);
                            }
                        }
                    },
                    Err(e) => {},
                }
            },
            Err(e) => {},
        }
    }
}

/// The sum of the row counts `s`.
pub open spec fn row_sum(s: Seq<nat>) -> nat
    decreases s.len(),
{
    if s.len() == 0 {
        0
    } else {
        s[0] + row_sum(s.skip(1))
    }
}

/// One block of `rows` rows adds up to `rows` rows.
proof fn lemma_row_sum_one(rows: nat)
    ensures
        row_sum(seq![rows]) == rows,
{
    assert(seq![rows].skip(1) =~= Seq::<nat>::empty());
    assert(row_sum(Seq::<nat>::empty()) == 0);
}

/// Prepending a block of `rows` rows to columns that each hold `row_sum(rs)`
/// values gives columns that each hold `row_sum([rows] + rs)` values.
proof fn lemma_prepend_block(d: Seq<Seq<ValueModel>>, more: Seq<Seq<ValueModel>>, rows: nat, rs: Seq<nat>)
    requires
        d.len() == more.len(),
        forall|c: int| 0 <= c < d.len() ==> (#[trigger] d[c]).len() == rows,
        forall|c: int| 0 <= c < more.len() ==> (#[trigger] more[c]).len() == row_sum(rs),
    ensures
        forall|c: int|
            0 <= c < d.len() ==> (#[trigger] concat_columns(d, more)[c]).len() == row_sum(
                seq![rows] + rs,
            ),
{
    assert((seq![rows] + rs).skip(1) =~= rs);
    assert forall|c: int| 0 <= c < d.len() implies (#[trigger] concat_columns(d, more)[c]).len()
        == row_sum(seq![rows] + rs) by {
        assert(concat_columns(d, more)[c] == d[c] + more[c]);
    }
}

proof fn lemma_later_blocks_len(bytes: Seq<u8>, pos: int, types: Seq<TypeModel>, opts: StreamOptions)
    ensures
        later_blocks_at(bytes, pos, types, opts) matches Ok((more, rs)) ==> more.len()
            == types.len() && (forall|c: int|
            0 <= c < more.len() ==> (#[trigger] more[c]).len() == row_sum(rs)),
    decreases bytes.len() - pos,
{
    match count_at(bytes, pos, opts.counts) {
        Err(e) => {},
        Ok((ncols, p1)) => match count_at(bytes, p1, opts.counts) {
            Err(e) => {},
            Ok((rows, p2)) => match headers_at(bytes, p2, ncols as nat) {
                Err(e) => {},
                Ok((_, p3)) => {
                    lemma_block_data_len(bytes, p3, types, rows as nat);
                    match block_data_at(bytes, p3, types, rows as nat) {
                        Err(e) => {},
                        Ok((d, p4)) => {
                            lemma_row_sum_one(rows as nat);
                            if !stops_after(opts.termination, rows) && p4 > pos && p4
                                <= bytes.len() {
                                lemma_later_blocks_len(bytes, p4, types, opts);
                                if let Ok((more, rs)) = later_blocks_at(bytes, p4, types, opts) {
                                    lemma_prepend_block(d, more, rows as nat, rs);
                                }
                            }
                        },
                    }
                },
            },
        },
    }
}

/// Decodes a whole stream with the layout variant `opts`: the first block
/// declares the columns, and the values of every block are appended to them.
pub fn read_native_format(bytes: &[u8], opts: StreamOptions) -> (r: Result<StreamResult, DecodeError>)
    ensures
        match stream_at(bytes@, opts) {
            Ok(m) => r matches Ok(s) && s.schema() == m.schema && s.values() == m.data,
            Err(e) => r matches Err(x) && x == e,
        },
{
    let (ncols, p1) = match read_count(bytes, 0, opts.counts) {
        Ok(x) => x,
        Err(e) => {
            return Err(e);
        },
    };
    let (rows, p2) = match read_count(bytes, p1, opts.counts) {
        Ok(x) => x,
        Err(e) => {
            return Err(e);
        },
    };
    let (cols, p3) = match read_headers(bytes, p2, ncols) {
        Ok(x) => x,
        Err(e) => {
            return Err(e);
        },
    };
    let ghost schema = descriptor_views(cols@);
    let ghost types = schema_types(schema);
    assert(types =~= descriptor_types(cols@));
    let mut data: Vec<Vec<Value>> = Vec::new();
    let mut i: usize = 0;
    while i < cols.len()
        invariant
            i <= cols@.len(),
            data@.len() == i,
            forall|k: int| 0 <= k < i ==> (#[trigger] data@[k])@.len() == 0,
        decreases cols@.len() - i,
    {
        data.push(Vec::new());
        i = i + 1;
    }
    assert(data_views(data@) =~~= empty_columns(cols@.len()));
    let p4 = match decode_block_data(bytes, p3, &cols, rows, &mut data) {
        Ok(q) => q,
        Err(e) => {
            return Err(e);
        },
    };
    let ghost d = block_data_at(bytes@, p3 as int, types, rows as nat)->Ok_0.0;
    proof {
        lemma_block_data_len(bytes@, p3 as int, types, rows as nat);
        assert forall|k: int| 0 <= k < d.len() implies #[trigger] concat_columns(
            empty_columns(cols@.len()),
            d,
        )[k] == d[k] by {
            assert(Seq::<ValueModel>::empty() + d[k] =~= d[k]);
        }
        assert(data_views(data@) =~~= d);
    }
    if !stops_after_exec(opts.termination, rows) {
        match read_later_blocks(bytes, p4, &cols, opts, &mut data) {
            Ok(()) => {},
            Err(e) => {
                return Err(e);
            },
        }
    }
    Ok(StreamResult { columns: cols, data })
}

/// Every column of a decoded stream holds as many values as the row counts of
/// its blocks add up to, and there is one buffer per declared column.
pub proof fn lemma_column_lengths_are_row_sum(bytes: Seq<u8>, opts: StreamOptions)
    ensures
        stream_at(bytes, opts) matches Ok(m) ==> m.data.len() == m.schema.len() && (forall|c: int|
            0 <= c < m.data.len() ==> (#[trigger] m.data[c]).len() == row_sum(m.block_rows)),
{
    match count_at(bytes, 0, opts.counts) {
        Err(e) => {},
        Ok((ncols, p1)) => match count_at(bytes, p1, opts.counts) {
            Err(e) => {},
            Ok((rows, p2)) => match headers_at(bytes, p2, ncols as nat) {
                Err(e) => {},
                Ok((schema, p3)) => {
                    let types = schema_types(schema);
                    lemma_block_data_len(bytes, p3, types, rows as nat);
                    match block_data_at(bytes, p3, types, rows as nat) {
                        Err(e) => {},
                        Ok((d, p4)) => {
                            lemma_row_sum_one(rows as nat);
                            if !stops_after(opts.termination, rows) {
                                lemma_later_blocks_len(bytes, p4, types, opts);
                                if let Ok((more, rs)) = later_blocks_at(bytes, p4, types, opts) {
                                    lemma_prepend_block(d, more, rows as nat, rs);
                                }
                            }
                        },
                    }
                },
            },
        },
    }
}

/// A further block at `pos` of a stream whose columns have the types `types`:
/// its row count and the position after it, if it decodes.
pub open spec fn later_block_at(bytes: Seq<u8>, pos: int, types: Seq<TypeModel>, w: CountWidth) -> Option<
    (nat, int),
> {
    match count_at(bytes, pos, w) {
        Ok((ncols, p1)) => match count_at(bytes, p1, w) {
            Ok((rows, p2)) => match headers_at(bytes, p2, ncols as nat) {
                Ok((_, p3)) => match block_data_at(bytes, p3, types, rows as nat) {
                    Ok((_, p4)) => Some((rows as nat, p4)),
                    Err(_) => None,
                },
                Err(_) => None,
            },
            Err(_) => None,
        },
        Err(_) => None,
    }
}

/// The first block of a stream: its schema, its row count and the position
/// after it, if it decodes.
pub open spec fn first_block_at(bytes: Seq<u8>, w: CountWidth) -> Option<
    (Seq<(Seq<char>, TypeModel)>, nat, int),
> {
    match count_at(bytes, 0, w) {
        Ok((ncols, p1)) => match count_at(bytes, p1, w) {
            Ok((rows, p2)) => match headers_at(bytes, p2, ncols as nat) {
                Ok((schema, p3)) => match block_data_at(
                    bytes,
                    p3,
                    schema_types(schema),
                    rows as nat,
                ) {
                    Ok((_, p4)) => Some((schema, rows as nat, p4)),
                    Err(_) => None,
                },
                Err(_) => None,
            },
            Err(_) => None,
        },
        Err(_) => None,
    }
}

proof fn lemma_extent_bounds(bytes: Seq<u8>, pos: int, i: nat)
    requires
        0 <= pos,
    ensures
        varuint_extent(bytes, pos, i) matches Ok(n) ==> i < n && pos + n <= bytes.len(),
    decreases 10 - i,
{
    if i < 10 && pos + i < bytes.len() && bytes[pos + i] >= 128 {
        lemma_extent_bounds(bytes, pos, i + 1);
    }
}

proof fn lemma_count_advances(bytes: Seq<u8>, pos: int, w: CountWidth)
    requires
        0 <= pos,
    ensures
        count_at(bytes, pos, w) matches Ok((_, p)) ==> pos < p <= bytes.len(),
{
    lemma_extent_bounds(bytes, pos, 0);
}

proof fn lemma_headers_advance(bytes: Seq<u8>, pos: int, k: nat)
    requires
        0 <= pos <= bytes.len(),
    ensures
        headers_at(bytes, pos, k) matches Ok((_, p)) ==> pos <= p <= bytes.len(),
    decreases k,
{
    if k > 0 {
        if let Ok((_, p1)) = lp_string_at(bytes, pos) {
            if let Ok((_, p2)) = lp_string_at(bytes, p1) {
                lemma_headers_advance(bytes, p2, (k - 1) as nat);
            }
        }
    }
}

proof fn lemma_column_advances(bytes: Seq<u8>, pos: int, ty: TypeModel, rows: nat)
    requires
        0 <= pos <= bytes.len(),
    ensures
        column_at(bytes, pos, ty, rows) matches Ok((_, p)) ==> pos <= p <= bytes.len(),
    decreases rows,
{
    if rows > 0 {
        if let Ok((_, p)) = value_at(bytes, pos, ty) {
            lemma_column_advances(bytes, p, ty, (rows - 1) as nat);
        }
    }
}

proof fn lemma_block_data_advances(bytes: Seq<u8>, pos: int, types: Seq<TypeModel>, rows: nat)
    requires
        0 <= pos <= bytes.len(),
    ensures
        block_data_at(bytes, pos, types, rows) matches Ok((_, p)) ==> pos <= p <= bytes.len(),
    decreases types.len(),
{
    if types.len() > 0 {
        lemma_column_advances(bytes, pos, types[0], rows);
        if let Ok((_, p)) = column_at(bytes, pos, types[0], rows) {
            lemma_block_data_advances(bytes, p, types.skip(1), rows);
        }
    }
}

proof fn lemma_later_block_advances(bytes: Seq<u8>, pos: int, types: Seq<TypeModel>, w: CountWidth)
    requires
        0 <= pos <= bytes.len(),
    ensures
        later_block_at(bytes, pos, types, w) matches Some((_, e)) ==> pos < e <= bytes.len(),
{
    lemma_count_advances(bytes, pos, w);
    if let Ok((ncols, p1)) = count_at(bytes, pos, w) {
        lemma_count_advances(bytes, p1, w);
        if let Ok((rows, p2)) = count_at(bytes, p1, w) {
            lemma_headers_advance(bytes, p2, ncols as nat);
            if let Ok((_, p3)) = headers_at(bytes, p2, ncols as nat) {
                lemma_block_data_advances(bytes, p3, types, rows as nat);
            }
        }
    }
}

/// The standard layout: VarUInt counts, blocks until the input is used up.
pub open spec fn standard_options() -> StreamOptions {
    StreamOptions { counts: CountWidth::VarUInt, termination: Termination::UntilExhausted }
}

proof fn lemma_later_blocks_of(
    bytes: Seq<u8>,
    types: Seq<TypeModel>,
    ends: Seq<int>,
    rows: Seq<nat>,
    j: int,
)
    requires
        1 <= j <= rows.len(),
        ends.len() == rows.len(),
        0 <= ends[j - 1] <= bytes.len(),
        ends[rows.len() - 1] == bytes.len(),
        forall|i: int|
            1 <= i < rows.len() ==> #[trigger] later_block_at(bytes, ends[i - 1], types, CountWidth::VarUInt)
                == Some((rows[i], ends[i])),
    ensures
        later_blocks_at(bytes, ends[j - 1], types, standard_options()) matches Ok((_, rs)) && rs
            == rows.subrange(j, rows.len() as int),
    decreases rows.len() - j,
{
    let opts = standard_options();
    let pos = ends[j - 1];
    if j == rows.len() {
        assert(varuint_extent(bytes, pos, 0) is Err);
        assert(rows.subrange(j, rows.len() as int) =~= Seq::<nat>::empty());
    } else {
        lemma_later_block_advances(bytes, pos, types, CountWidth::VarUInt);
        assert(later_block_at(bytes, ends[j - 1], types, CountWidth::VarUInt) == Some((rows[j], ends[j])));
        lemma_later_blocks_of(bytes, types, ends, rows, j + 1);
        assert(seq![rows[j]] + rows.subrange(j + 1, rows.len() as int) =~= rows.subrange(
            j,
            rows.len() as int,
        ));
    }
}

/// A stream made of a first block and further blocks that each decode, the
/// last ending where the input ends, decodes in the standard layout: its row
/// counts are those of its blocks, and every column holds their sum.
pub proof fn lemma_blocks_decode(bytes: Seq<u8>, ends: Seq<int>, rows: Seq<nat>)
    requires
        rows.len() >= 1,
        ends.len() == rows.len(),
        ends[rows.len() - 1] == bytes.len(),
        first_block_at(bytes, CountWidth::VarUInt) matches Some((_, r, e)) && r == rows[0] && e
            == ends[0],
        forall|i: int|
            1 <= i < rows.len() ==> #[trigger] later_block_at(
                bytes,
                ends[i - 1],
                schema_types(first_block_at(bytes, CountWidth::VarUInt)->Some_0.0),
                CountWidth::VarUInt,
            ) == Some((rows[i], ends[i])),
    ensures
        stream_at(bytes, standard_options()) matches Ok(m) && m.block_rows == rows && m.schema
            == first_block_at(bytes, CountWidth::VarUInt)->Some_0.0 && m.data.len()
            == m.schema.len() && (forall|c: int|
            0 <= c < m.data.len() ==> (#[trigger] m.data[c]).len() == row_sum(rows)),
{
    let opts = standard_options();
    let schema = first_block_at(bytes, CountWidth::VarUInt)->Some_0.0;
    let types = schema_types(schema);
    lemma_count_advances(bytes, 0, CountWidth::VarUInt);
    let p1 = count_at(bytes, 0, CountWidth::VarUInt)->Ok_0.1;
    lemma_count_advances(bytes, p1, CountWidth::VarUInt);
    let (ncols, _) = count_at(bytes, 0, CountWidth::VarUInt)->Ok_0;
    let p2 = count_at(bytes, p1, CountWidth::VarUInt)->Ok_0.1;
    lemma_headers_advance(bytes, p2, ncols as nat);
    let p3 = headers_at(bytes, p2, ncols as nat)->Ok_0.1;
    lemma_block_data_advances(bytes, p3, types, rows[0]);
    lemma_later_blocks_of(bytes, types, ends, rows, 1);
    assert(seq![rows[0]] + rows.subrange(1, rows.len() as int) =~= rows);
    lemma_column_lengths_are_row_sum(bytes, opts);
}

} // verus!
