use vstd::prelude::*;

use crate::block::{data_views, descriptor_views, ColumnDescriptor};
use crate::column_type::{ColumnType, TypeModel};
use crate::error::DecodeError;
use crate::field::{value_views, Value, ValueModel};
use crate::stream::{row_sum, StreamResult};
use crate::text::{chars_of, string_of};

verus! {

/// The physical representation in which the host receives a column.
#[derive(Debug, Clone, Copy, PartialEq, Eq, Structural)]
pub enum OutputKind {
    Int32,
    Int64,
    /// IEEE 754 single-precision bit patterns.
    Float32Bits,
    /// IEEE 754 double-precision bit patterns.
    Float64Bits,
    Text,
}

/// The logical type under which the host declares a column.
#[derive(Debug, Clone, Copy, PartialEq, Eq, Structural)]
pub enum LogicalKind {
    /// 32-bit signed integer.
    Integer,
    /// 64-bit signed integer.
    Bigint,
    /// Floating point.
    Double,
    /// Text.
    Varchar,
    /// Days since 1970-01-01, as a 32-bit integer.
    Date,
    /// Microseconds since 1970-01-01 00:00:00 UTC, as a 64-bit integer.
    Timestamp,
}

/// How each column type is handed to the host. Narrow integers widen to 32
/// bits; `UInt32`, `Int64` and `DateTime` go to 64 bits; `UInt64` goes to 64
/// bits as its two's complement reading, so values from 2^63 on turn negative.
pub open spec fn output_kind(t: TypeModel) -> OutputKind {
    match t {
        TypeModel::UInt8 | TypeModel::UInt16 | TypeModel::Int8 | TypeModel::Int16
        | TypeModel::Int32 | TypeModel::Bool | TypeModel::Date => OutputKind::Int32,
        TypeModel::UInt32 | TypeModel::UInt64 | TypeModel::Int64 | TypeModel::DateTime => {
            OutputKind::Int64
        },
        TypeModel::Float32 => OutputKind::Float32Bits,
        TypeModel::Float64 => OutputKind::Float64Bits,
        _ => OutputKind::Text,
    }
}

/// The logical type of each column type.
pub open spec fn logical_kind(t: TypeModel) -> LogicalKind {
    match t {
        TypeModel::Date => LogicalKind::Date,
        TypeModel::DateTime => LogicalKind::Timestamp,
        _ => match output_kind(t) {
            OutputKind::Int32 => LogicalKind::Integer,
            OutputKind::Int64 => LogicalKind::Bigint,
            OutputKind::Float32Bits | OutputKind::Float64Bits => LogicalKind::Double,
            OutputKind::Text => LogicalKind::Varchar,
        },
    }
}

impl ColumnType {
    /// The physical representation in which the host receives this column.
    pub fn output_kind(&self) -> (r: OutputKind)
        ensures
            r == output_kind(self@),
    {
        match self {
            ColumnType::UInt8 | ColumnType::UInt16 | ColumnType::Int8 | ColumnType::Int16
            | ColumnType::Int32 | ColumnType::Bool | ColumnType::Date => OutputKind::Int32,
            ColumnType::UInt32 | ColumnType::UInt64 | ColumnType::Int64 | ColumnType::DateTime => {
                OutputKind::Int64
            },
            ColumnType::Float32 => OutputKind::Float32Bits,
            ColumnType::Float64 => OutputKind::Float64Bits,
            _ => OutputKind::Text,
        }
    }

    /// The logical type under which the host declares this column.
    pub fn logical_kind(&self) -> (r: LogicalKind)
        ensures
            r == logical_kind(self@),
    {
        match self {
            ColumnType::Date => LogicalKind::Date,
            ColumnType::DateTime => LogicalKind::Timestamp,
            _ => match self.output_kind() {
                OutputKind::Int32 => LogicalKind::Integer,
                OutputKind::Int64 => LogicalKind::Bigint,
                OutputKind::Float32Bits | OutputKind::Float64Bits => LogicalKind::Double,
                OutputKind::Text => LogicalKind::Varchar,
            },
        }
    }
}

/// A value as a 32-bit integer; `0` for a value of another kind.
pub open spec fn int32_of(v: ValueModel) -> i32 {
    match v {
        ValueModel::UInt8(x) => x as i32,
        ValueModel::UInt16(x) => x as i32,
        ValueModel::Int8(x) => x as i32,
        ValueModel::Int16(x) => x as i32,
        ValueModel::Int32(x) => x,
        ValueModel::Bool(b) => if b {
            1
        } else {
            0
        },
        ValueModel::Date(x) => x as i32,
        _ => 0,
    }
}

/// A value as a 64-bit integer; a `DateTime` in microseconds; `0` for a
/// value of another kind.
pub open spec fn int64_of(v: ValueModel) -> i64 {
    match v {
        ValueModel::UInt32(x) => x as i64,
        ValueModel::UInt64(x) => if x < 0x8000_0000_0000_0000 {
            x as i64
        } else {
            (x - 0x1_0000_0000_0000_0000) as i64
        },
        ValueModel::Int64(x) => x,
        ValueModel::DateTime(x) => (x * 1_000_000) as i64,
        _ => 0,
    }
}

/// The single-precision bits of a value; `0` for a value of another kind.
pub open spec fn float32_bits_of(v: ValueModel) -> u32 {
    match v {
        ValueModel::Float32Bits(x) => x,
        _ => 0,
    }
}

/// The double-precision bits of a value; `0` for a value of another kind.
pub open spec fn float64_bits_of(v: ValueModel) -> u64 {
    match v {
        ValueModel::Float64Bits(x) => x,
        _ => 0,
    }
}

/// A value as text; `<invalid>` for a value of another kind.
pub open spec fn text_of(v: ValueModel) -> Seq<char> {
    match v {
        ValueModel::Text(s) => s,
        _ => "<invalid>"@,
    }
}

/// Consecutive values of one column in the host's representation.
#[derive(Debug, Clone, PartialEq)]
pub enum ColumnView {
    Int32(Vec<i32>),
    Int64(Vec<i64>),
    Float32Bits(Vec<u32>),
    Float64Bits(Vec<u64>),
    Text(Vec<String>),
}

/// A column view as a mathematical value.
pub enum ColumnViewModel {
    Int32(Seq<i32>),
    Int64(Seq<i64>),
    Float32Bits(Seq<u32>),
    Float64Bits(Seq<u64>),
    Text(Seq<Seq<char>>),
}

impl View for ColumnView {
    type V = ColumnViewModel;

    open spec fn view(&self) -> ColumnViewModel {
        match self {
            ColumnView::Int32(v) => ColumnViewModel::Int32(v@),
            ColumnView::Int64(v) => ColumnViewModel::Int64(v@),
            ColumnView::Float32Bits(v) => ColumnViewModel::Float32Bits(v@),
            ColumnView::Float64Bits(v) => ColumnViewModel::Float64Bits(v@),
            ColumnView::Text(v) => ColumnViewModel::Text(v@.map_values(|s: String| s@)),
        }
    }
}

/// The values `vals` in the representation `kind`.
pub open spec fn column_view_of(kind: OutputKind, vals: Seq<ValueModel>) -> ColumnViewModel {
    match kind {
        OutputKind::Int32 => ColumnViewModel::Int32(vals.map_values(|v: ValueModel| int32_of(v))),
        OutputKind::Int64 => ColumnViewModel::Int64(vals.map_values(|v: ValueModel| int64_of(v))),
        OutputKind::Float32Bits => ColumnViewModel::Float32Bits(
            vals.map_values(|v: ValueModel| float32_bits_of(v)),
        ),
        OutputKind::Float64Bits => ColumnViewModel::Float64Bits(
            vals.map_values(|v: ValueModel| float64_bits_of(v)),
        ),
        OutputKind::Text => ColumnViewModel::Text(vals.map_values(|v: ValueModel| text_of(v))),
    }
}

fn int32_value(v: &Value) -> (r: i32)
    ensures
        r == int32_of(v@),
{
    match v {
        Value::UInt8(x) => *x as i32,
        Value::UInt16(x) => *x as i32,
        Value::Int8(x) => *x as i32,
        Value::Int16(x) => *x as i32,
        Value::Int32(x) => *x,
        Value::Bool(b) => if *b {
            1
        } else {
            0
        },
        Value::Date(x) => *x as i32,
        _ => 0,
    }
}

fn int64_value(v: &Value) -> (r: i64)
    ensures
        r == int64_of(v@),
{
    match v {
        Value::UInt32(x) => *x as i64,
        Value::UInt64(x) => if *x < 0x8000_0000_0000_0000 {
            *x as i64
        } else {
            let low: u64 = *x - 0x8000_0000_0000_0000;
            let r: i64 = (low as i64) - 0x4000_0000_0000_0000 - 0x4000_0000_0000_0000;
            assert(r == (*x - 0x1_0000_0000_0000_0000) as i64);
            r
        },
        Value::Int64(x) => *x,
        Value::DateTime(x) => (*x as i64) * 1_000_000,
        _ => 0,
    }
}

fn text_value(v: &Value) -> (r: String)
    ensures
        r@ == text_of(v@),
{
    match v {
        Value::Text(s) => s.clone(),
        _ => string_of(chars_of("<invalid>").as_slice()),
    }
}

/// The values `vals[start..start + n]` in the representation `kind`.
fn slice_column(kind: OutputKind, vals: &Vec<Value>, start: usize, n: usize) -> (r: ColumnView)
    requires
        start + n <= vals@.len(),
    ensures
        r@ == column_view_of(kind, value_views(vals@).subrange(start as int, start + n)),
{
    let ghost src = value_views(vals@).subrange(start as int, start + n);
    let len = vals.len();
    assert(start + n <= len);
    match kind {
        OutputKind::Int32 => {
            let mut out: Vec<i32> = Vec::new();
            let mut i: usize = 0;
            while i < n
                invariant
                    i <= n,
                    start + n <= vals@.len(),
                    start + n <= usize::MAX,
                    src == value_views(vals@).subrange(start as int, start + n),
                    out@ == src.take(i as int).map_values(|v: ValueModel| int32_of(v)),
                decreases n - i,
            {
                out.push(int32_value(&vals[start + i]));
                i = i + 1;
                assert(out@ =~= src.take(i as int).map_values(|v: ValueModel| int32_of(v)));
            }
            assert(src.take(n as int) =~= src);
            ColumnView::Int32(out)
        },
        OutputKind::Int64 => {
            let mut out: Vec<i64> = Vec::new();
            let mut i: usize = 0;
            while i < n
                invariant
                    i <= n,
                    start + n <= vals@.len(),
                    start + n <= usize::MAX,
                    src == value_views(vals@).subrange(start as int, start + n),
                    out@ == src.take(i as int).map_values(|v: ValueModel| int64_of(v)),
                decreases n - i,
            {
                out.push(int64_value(&vals[start + i]));
                i = i + 1;
                assert(out@ =~= src.take(i as int).map_values(|v: ValueModel| int64_of(v)));
            }
            assert(src.take(n as int) =~= src);
            ColumnView::Int64(out)
        },
        OutputKind::Float32Bits => {
            let mut out: Vec<u32> = Vec::new();
            let mut i: usize = 0;
            while i < n
                invariant
                    i <= n,
                    start + n <= vals@.len(),
                    start + n <= usize::MAX,
                    src == value_views(vals@).subrange(start as int, start + n),
                    out@ == src.take(i as int).map_values(|v: ValueModel| float32_bits_of(v)),
                decreases n - i,
            {
                let x = match &vals[start + i] {
                    Value::Float32Bits(b) => *b,
                    _ => 0,
                };
                out.push(x);
                i = i + 1;
                assert(out@ =~= src.take(i as int).map_values(|v: ValueModel| float32_bits_of(v)));
            }
            assert(src.take(n as int) =~= src);
            ColumnView::Float32Bits(out)
        },
        OutputKind::Float64Bits => {
            let mut out: Vec<u64> = Vec::new();
            let mut i: usize = 0;
            while i < n
                invariant
                    i <= n,
                    start + n <= vals@.len(),
                    start + n <= usize::MAX,
                    src == value_views(vals@).subrange(start as int, start + n),
                    out@ == src.take(i as int).map_values(|v: ValueModel| float64_bits_of(v)),
                decreases n - i,
            {
                let x = match &vals[start + i] {
                    Value::Float64Bits(b) => *b,
                    _ => 0,
                };
                out.push(x);
                i = i + 1;
                assert(out@ =~= src.take(i as int).map_values(|v: ValueModel| float64_bits_of(v)));
            }
            assert(src.take(n as int) =~= src);
            ColumnView::Float64Bits(out)
        },
        OutputKind::Text => {
            let mut out: Vec<String> = Vec::new();
            let mut i: usize = 0;
            while i < n
                invariant
                    i <= n,
                    start + n <= vals@.len(),
                    start + n <= usize::MAX,
                    src == value_views(vals@).subrange(start as int, start + n),
                    out@.map_values(|s: String| s@) == src.take(i as int).map_values(
                        |v: ValueModel| text_of(v),
                    ),
                decreases n - i,
            {
                let s = text_value(&vals[start + i]);
                let ghost prev = out@;
                let ghost sv = s@;
                assert(sv == text_of(src[i as int]));
                out.push(s);
                assert(out@.map_values(|s: String| s@) =~= prev.map_values(|s: String| s@).push(sv));
                assert(src.take(i + 1) =~= src.take(i as int).push(src[i as int]));
                i = i + 1;
                assert(out@.map_values(|s: String| s@) =~= src.take(i as int).map_values(
                    |v: ValueModel| text_of(v),
                ));
            }
            assert(src.take(n as int) =~= src);
            ColumnView::Text(out)
        },
    }
}

/// The bookkeeping of a batch cursor: the next row, the number of rows, and
/// whether the end has been reported.
pub struct CursorModel {
    pub current: nat,
    pub total: nat,
    pub done: bool,
}

/// How many rows a pull of at most `capacity` rows hands out.
pub open spec fn pull_rows(m: CursorModel, capacity: nat) -> nat {
    if m.done || m.current >= m.total {
        0
    } else if capacity < m.total - m.current {
        capacity
    } else {
        (m.total - m.current) as nat
    }
}

/// The bookkeeping after a pull of at most `capacity` rows.
pub open spec fn pull_state(m: CursorModel, capacity: nat) -> CursorModel {
    CursorModel {
        current: m.current + pull_rows(m, capacity),
        total: m.total,
        done: m.done || m.current >= m.total,
    }
}

/// The row counts of successive pulls with the capacities `caps`.
pub open spec fn pulls(m: CursorModel, caps: Seq<nat>) -> Seq<nat>
    decreases caps.len(),
{
    if caps.len() == 0 {
        seq![]
    } else {
        seq![pull_rows(m, caps[0])] + pulls(pull_state(m, caps[0]), caps.skip(1))
    }
}

/// The bookkeeping after successive pulls with the capacities `caps`.
pub open spec fn after_pulls(m: CursorModel, caps: Seq<nat>) -> CursorModel
    decreases caps.len(),
{
    if caps.len() == 0 {
        m
    } else {
        after_pulls(pull_state(m, caps[0]), caps.skip(1))
    }
}

/// A pull never moves past the last row, hands out `min(capacity, rows left)`
/// rows while rows are left, and moves forward whenever it hands out any.
pub proof fn lemma_pull_advances(m: CursorModel, capacity: nat)
    requires
        m.current <= m.total,
    ensures
        pull_state(m, capacity).current <= m.total,
        pull_state(m, capacity).current == m.current + pull_rows(m, capacity),
        !m.done && m.current < m.total ==> pull_rows(m, capacity) == if capacity < m.total
            - m.current {
            capacity
        } else {
            (m.total - m.current) as nat
        },
        pull_rows(m, capacity) > 0 ==> pull_state(m, capacity).current > m.current,
{
}

/// Once a pull with a capacity above zero has handed out no rows, any number
/// of further pulls hand out none and leave the cursor as it is.
pub proof fn lemma_end_is_terminal(m: CursorModel, capacity: nat, caps: Seq<nat>)
    requires
        m.current <= m.total,
        capacity > 0,
        pull_rows(m, capacity) == 0,
    ensures
        pulls(pull_state(m, capacity), caps).len() == caps.len(),
        forall|i: int|
            0 <= i < caps.len() ==> #[trigger] pulls(pull_state(m, capacity), caps)[i] == 0,
        after_pulls(pull_state(m, capacity), caps) == pull_state(m, capacity),
    decreases caps.len(),
{
    let e = pull_state(m, capacity);
    assert(e.done);
    if caps.len() > 0 {
        assert(pull_state(e, caps[0]) == e);
        lemma_end_is_terminal(m, capacity, caps.skip(1));
        let rest = pulls(e, caps.skip(1));
        assert forall|i: int| 0 <= i < caps.len() implies #[trigger] pulls(e, caps)[i] == 0 by {
            if i > 0 {
                assert(pulls(e, caps)[i] == rest[i - 1]);
            }
        }
    }
}

/// Pulling `k` times with one capacity above zero, enough pulls to cover the
/// rows left, reaches the end, and the row counts handed out add up to the
/// rows that were left.
pub proof fn lemma_pulls_hand_out_every_row(m: CursorModel, capacity: nat, k: nat)
    requires
        m.current <= m.total,
        m.done ==> m.current == m.total,
        capacity > 0,
        k * capacity >= m.total - m.current,
    ensures
        after_pulls(m, Seq::new(k, |i: int| capacity)).current == m.total,
        row_sum(pulls(m, Seq::new(k, |i: int| capacity))) == m.total - m.current,
    decreases k,
{
    let caps = Seq::new(k, |i: int| capacity);
    if k == 0 {
        assert(m.total - m.current == 0) by (nonlinear_arith)
            requires
                k * capacity >= m.total - m.current,
                k == 0,
                m.current <= m.total,
        ;
    } else {
        let next = pull_state(m, capacity);
        let rest = Seq::new((k - 1) as nat, |i: int| capacity);
        assert(caps.skip(1) =~= rest);
        assert(k * capacity == (k - 1) * capacity + capacity) by (nonlinear_arith)
            requires
                k >= 1,
        ;
        assert((k - 1) * capacity >= 0) by (nonlinear_arith)
            requires
                k >= 1,
        ;
        assert((k - 1) * capacity >= next.total - next.current);
        lemma_pulls_hand_out_every_row(next, capacity, (k - 1) as nat);
        assert((seq![pull_rows(m, capacity)] + pulls(next, rest)).skip(1) =~= pulls(next, rest));
    }
}

/// One batch: up to the requested number of rows of every column.
#[derive(Debug)]
pub struct Batch {
    pub row_count: usize,
    pub columns: Vec<ColumnView>,
    /// Whether no rows are left after this batch.
    pub is_last: bool,
}

/// A cursor over fully decoded columns that hands them out in batches.
#[derive(Debug)]
pub struct ClickHouseFolderInitData {
    columns: Vec<ColumnDescriptor>,
    data: Vec<Vec<Value>>,
    current_row: usize,
    total_rows: usize,
    done: bool,
}

impl ClickHouseFolderInitData {
    /// The bookkeeping of the cursor.
    pub closed spec fn model(&self) -> CursorModel {
        CursorModel {
            current: self.current_row as nat,
            total: self.total_rows as nat,
            done: self.done,
        }
    }

    /// The columns, each a name and a type.
    pub closed spec fn schema(&self) -> Seq<(Seq<char>, TypeModel)> {
        descriptor_views(self.columns@)
    }

    /// The values of each column.
    pub closed spec fn values(&self) -> Seq<Seq<ValueModel>> {
        data_views(self.data@)
    }

    /// One buffer per column, every buffer `total` long, and the next row
    /// within them.
    pub closed spec fn wf(&self) -> bool {
        &&& self.columns@.len() == self.data@.len()
        &&& forall|c: int| 0 <= c < self.data@.len() ==> (#[trigger] self.data@[c])@.len() == self.total_rows
        &&& self.current_row <= self.total_rows
        &&& self.done ==> self.current_row == self.total_rows
    }

    /// What holds of a well-formed cursor, in terms of its views.
    pub proof fn lemma_wf(&self)
        requires
            self.wf(),
        ensures
            self.values().len() == self.schema().len(),
            forall|c: int| 0 <= c < self.values().len() ==> (#[trigger] self.values()[c]).len() == self.model().total,
            self.model().current <= self.model().total,
            self.model().done ==> self.model().current == self.model().total,
    {
        assert forall|c: int| 0 <= c < self.values().len() implies (#[trigger] self.values()[c]).len()
            == self.model().total by {
            assert(self.values()[c] == value_views(self.data@[c]@));
        }
    }

    /// A cursor at the first row of `result`. Fails when the buffers are not
    /// one per column or not all of one length. A stream without columns has no rows.
    pub fn new(result: StreamResult) -> (r: Result<ClickHouseFolderInitData, DecodeError>)
        ensures
            r is Ok <==> (result.columns@.len() == result.data@.len() && forall|c: int|
                0 <= c < result.data@.len() ==> (#[trigger] result.data@[c])@.len()
                    == result.data@[0]@.len()),
            r is Err ==> r == Err::<ClickHouseFolderInitData, DecodeError>(
                DecodeError::ColumnLengthMismatch,
            ),
            r matches Ok(s) ==> s.wf() && s.schema() == result.schema() && s.values()
                == result.values() && s.model() == (CursorModel {
                current: 0,
                total: if result.data@.len() == 0 {
                    0
                } else {
                    result.data@[0]@.len()
                },
                done: false,
            }),
    {
        if result.columns.len() != result.data.len() {
            return Err(DecodeError::ColumnLengthMismatch);
        }
        let total: usize = if result.data.len() == 0 {
            0
        } else {
            result.data[0].len()
        };
        let mut c: usize = 0;
        while c < result.data.len()
            invariant
                c <= result.data@.len(),
                result.data@.len() > 0 ==> total == result.data@[0]@.len(),
                forall|k: int| 0 <= k < c ==> (#[trigger] result.data@[k])@.len() == total,
            decreases result.data@.len() - c,
        {
            if result.data[c].len() != total {
                return Err(DecodeError::ColumnLengthMismatch);
            }
            c = c + 1;
        }
        Ok(ClickHouseFolderInitData {
            columns: result.columns,
            data: result.data,
            current_row: 0,
            total_rows: total,
            done: false,
        })
    }

    /// Hands out the next rows, at most `capacity`, of every column in the
    /// host's representation, and moves past them. Once no rows are left it
    /// hands out none, however often it is called.
    pub fn pull(&mut self, capacity: usize) -> (r: Batch)
        requires
            old(self).wf(),
        ensures
            final(self).wf(),
            final(self).schema() == old(self).schema(),
            final(self).values() == old(self).values(),
            r.row_count == pull_rows(old(self).model(), capacity as nat),
            final(self).model() == pull_state(old(self).model(), capacity as nat),
            r.is_last == (final(self).model().current == final(self).model().total),
            r.columns@.len() == old(self).schema().len(),
            forall|c: int|
                0 <= c < r.columns@.len() ==> (#[trigger] r.columns@[c])@ == column_view_of(
                    output_kind(old(self).schema()[c].1),
                    old(self).values()[c].subrange(
                        old(self).model().current as int,
                        old(self).model().current + r.row_count,
                    ),
                ),
    {
        let ghost old_model = self.model();
        if self.done || self.current_row >= self.total_rows {
            self.done = true;
            let columns = column_views(&self.columns, &self.data, self.current_row, 0);
            return Batch { row_count: 0, columns, is_last: true };
        }
        let left = self.total_rows - self.current_row;
        let n = if capacity < left {
            capacity
        } else {
            left
        };
        let columns = column_views(&self.columns, &self.data, self.current_row, n);
        self.current_row = self.current_row + n;
        Batch { row_count: n, columns, is_last: self.current_row == self.total_rows }
    }

    /// The index of the next row.
    pub fn current_row(&self) -> (r: usize)
        ensures
            r == self.model().current,
    {
        self.current_row
    }

    /// The number of rows.
    pub fn total_rows(&self) -> (r: usize)
        ensures
            r == self.model().total,
    {
        self.total_rows
    }

    /// Whether the end has been reported.
    pub fn is_done(&self) -> (r: bool)
        ensures
            r == self.model().done,
    {
        self.done
    }

    /// The columns.
    pub fn columns(&self) -> (r: &Vec<ColumnDescriptor>)
        ensures
            descriptor_views(r@) == self.schema(),
    {
        &self.columns
    }
}

fn column_views(cols: &Vec<ColumnDescriptor>, data: &Vec<Vec<Value>>, at: usize, n: usize) -> (r: Vec<ColumnView>)
    requires
        cols@.len() == data@.len(),
        forall|c: int| 0 <= c < data@.len() ==> at + n <= (#[trigger] data@[c])@.len(),
    ensures
        r@.len() == cols@.len(),
        forall|c: int|
            0 <= c < r@.len() ==> (#[trigger] r@[c])@ == column_view_of(
                output_kind(cols@[c].column_type@),
                value_views(data@[c]@).subrange(at as int, at + n),
            ),
{
    let mut out: Vec<ColumnView> = Vec::new();
    let mut c: usize = 0;
    while c < cols.len()
        invariant
            c <= cols@.len(),
            cols@.len() == data@.len(),
            forall|k: int| 0 <= k < data@.len() ==> at + n <= (#[trigger] data@[k])@.len(),
            out@.len() == c,
            forall|k: int|
                0 <= k < c ==> (#[trigger] out@[k])@ == column_view_of(
                    output_kind(cols@[k].column_type@),
                    value_views(data@[k]@).subrange(at as int, at + n),
                ),
        decreases cols@.len() - c,
    {
        let kind = cols[c].column_type.output_kind();
        assert(at + n <= data@[c as int]@.len());
        out.push(slice_column(kind, &data[c], at, n));
        c = c + 1;
    }
    out
}

} // verus!
