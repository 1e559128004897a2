use vstd::prelude::*;

use crate::block::{
    block_data_at, data_views, decode_block_data, descriptor_types, descriptor_views,
    ColumnDescriptor,
};
use crate::column_type::{parse_column_type, parse_type, TypeModel};
use crate::cursor::ClickHouseFolderInitData;
use crate::decimal::{parse_bounded, parse_integer_in};
use crate::error::DecodeError;
use crate::field::{Value, ValueModel};
use crate::stream::StreamResult;
use crate::text::{
    char_views, chars_of, find_char, index_of, split_chars, split_on, string_of, sub_chars,
    trim_class, trimmed, CharClass,
};

verus! {

/// A column as a column list declares it: a name and a type name.
#[derive(Debug, Clone, PartialEq)]
pub struct ColumnDefinition {
    pub name: String,
    pub type_str: String,
}

/// The views of the definitions `s`.
pub open spec fn definition_views(s: Seq<ColumnDefinition>) -> Seq<(Seq<char>, Seq<char>)> {
    s.map_values(|d: ColumnDefinition| (d.name@, d.type_str@))
}

/// `l` without one trailing carriage return.
pub open spec fn without_cr(l: Seq<char>) -> Seq<char> {
    if l.len() > 0 && l.last() == '\r' {
        l.drop_last()
    } else {
        l
    }
}

/// The lines of `s`, split at `\n`, each without a trailing `\r`; a final
/// line ending adds no empty line.
pub open spec fn text_lines(s: Seq<char>) -> Seq<Seq<char>> {
    let pieces = split_on(s, '\n');
    let kept = if pieces.last().len() == 0 {
        pieces.drop_last()
    } else {
        pieces
    };
    kept.map_values(|l: Seq<char>| without_cr(l))
}

/// What one line of a column list declares: nothing for an empty line, else
/// the name and type on either side of the first space, once backticks are
/// trimmed from both ends.
pub open spec fn column_line(line: Seq<char>) -> Option<Result<(Seq<char>, Seq<char>), DecodeError>> {
    if line.len() == 0 {
        None
    } else {
        let l = trimmed(line, CharClass::Backtick);
        match index_of(l, ' ') {
            Some(i) => Some(Ok((l.take(i as int), l.skip(i as int + 1)))),
            None => Some(Err(DecodeError::InvalidColumnLine)),
        }
    }
}

/// The columns that the lines `ls` declare, failing at any invalid line.
pub open spec fn column_lines(ls: Seq<Seq<char>>) -> Result<Seq<(Seq<char>, Seq<char>)>, DecodeError>
    decreases ls.len(),
{
    if ls.len() == 0 {
        Ok(seq![])
    } else {
        match column_lines(ls.drop_last()) {
            Err(e) => Err(e),
            Ok(prev) => match column_line(ls.last()) {
                None => Ok(prev),
                Some(Err(e)) => Err(e),
                Some(Ok(d)) => Ok(prev.push(d)),
            },
        }
    }
}

/// A column list: a version line, a column count line, then one line per column.
pub open spec fn columns_file(s: Seq<char>) -> Result<Seq<(Seq<char>, Seq<char>)>, DecodeError> {
    let ls = text_lines(s);
    if ls.len() < 2 {
        Err(DecodeError::MissingColumnCount)
    } else {
        column_lines(ls.skip(2))
    }
}

/// A row count file: a decimal number, with white space around it.
pub open spec fn count_file(s: Seq<char>) -> Result<u64, DecodeError> {
    match parse_bounded(trimmed(s, CharClass::WhiteSpace), false, 0, 0xffff_ffff_ffff_ffff) {
        Some(v) => Ok(v as u64),
        None => Err(DecodeError::InvalidRowCount),
    }
}

proof fn lemma_column_lines_err_sticks(ls: Seq<Seq<char>>, more: Seq<Seq<char>>)
    requires
        column_lines(ls) is Err,
    ensures
        column_lines(ls + more) == column_lines(ls),
    decreases more.len(),
{
    if more.len() > 0 {
        lemma_column_lines_err_sticks(ls, more.drop_last());
        assert((ls + more).drop_last() =~= ls + more.drop_last());
    } else {
        assert(ls + more =~= ls);
    }
}

fn split_lines(cs: &[char]) -> (r: Vec<Vec<char>>)
    ensures
        char_views(r@) == text_lines(cs@),
{
    let pieces = split_chars(cs, '\n');
    let ghost ps = split_on(cs@, '\n');
    proof {
        crate::text::lemma_split_nonempty(cs@, '\n');
    }
    let count = if pieces[pieces.len() - 1].len() == 0 {
        pieces.len() - 1
    } else {
        pieces.len()
    };
    let ghost kept = if ps.last().len() == 0 {
        ps.drop_last()
    } else {
        ps
    };
    assert(kept.len() == count);
    let mut out: Vec<Vec<char>> = Vec::new();
    let mut i: usize = 0;
    while i < count
        invariant
            i <= count,
            count == kept.len(),
            kept.len() <= ps.len(),
            pieces@.len() == ps.len(),
            forall|k: int| 0 <= k < kept.len() ==> kept[k] == ps[k],
            char_views(pieces@) == ps,
            char_views(out@) == kept.take(i as int).map_values(|l: Seq<char>| without_cr(l)),
        decreases count - i,
    {
        let line = &pieces[i];
        assert(line@ == ps[i as int]);
        let piece = if line.len() > 0 && line[line.len() - 1] == '\r' {
            sub_chars(line.as_slice(), 0, line.len() - 1)
        } else {
            sub_chars(line.as_slice(), 0, line.len())
        };
        assert(line@.subrange(0, line@.len() as int) =~= line@);
        assert(line@.subrange(0, line@.len() - 1) =~= line@.drop_last());
        let ghost prev = out@;
        let ghost pv = piece@;
        out.push(piece);
        assert(char_views(out@) =~= char_views(prev).push(pv));
        i = i + 1;
        assert(char_views(out@) =~= kept.take(i as int).map_values(|l: Seq<char>| without_cr(l)));
    }
    assert(kept.take(count as int) =~= kept);
    out
}

fn parse_column_line(line: &[char]) -> (r: Option<Result<ColumnDefinition, DecodeError>>)
    ensures
        match column_line(line@) {
            None => r is None,
            Some(Err(e)) => r matches Some(Err(x)) && x == e,
            Some(Ok((n, t))) => r matches Some(Ok(d)) && d.name@ == n && d.type_str@ == t,
        },
{
    if line.len() == 0 {
        return None;
    }
    let l = trim_class(line, CharClass::Backtick);
    match find_char(l.as_slice(), ' ') {
        Some(i) => {
            let len = l.len();
            let name = sub_chars(l.as_slice(), 0, i);
            let ty = sub_chars(l.as_slice(), i + 1, len);
            assert(l@.subrange(0, i as int) =~= l@.take(i as int));
            assert(l@.subrange(i + 1, l@.len() as int) =~= l@.skip(i + 1));
            Some(Ok(ColumnDefinition { name: string_of(name.as_slice()), type_str: string_of(ty.as_slice()) }))
        },
        None => Some(Err(DecodeError::InvalidColumnLine)),
    }
}

/// Parses a column list: a version line, a line with the column count, then
/// one line per column holding its name and type name, separated by the
/// first space, with backticks trimmed from both ends. Empty lines are skipped.
pub fn parse_columns_file(content: &str) -> (r: Result<Vec<ColumnDefinition>, DecodeError>)
    ensures
        match columns_file(content@) {
            Ok(ds) => r matches Ok(v) && definition_views(v@) == ds,
            Err(e) => r matches Err(x) && x == e,
        },
{
    let cs = chars_of(content);
    let lines = split_lines(cs.as_slice());
    let ghost ls = text_lines(cs@);
    if lines.len() < 2 {
        return Err(DecodeError::MissingColumnCount);
    }
    let ghost body = ls.skip(2);
    let mut out: Vec<ColumnDefinition> = Vec::new();
    let mut i: usize = 2;
    assert(body.take(0) =~= Seq::<Seq<char>>::empty());
    assert(definition_views(out@) =~= Seq::<(Seq<char>, Seq<char>)>::empty());
    while i < lines.len()
        invariant
            2 <= i <= lines@.len(),
            char_views(lines@) == ls,
            ls == text_lines(content@),
            body == ls.skip(2),
            column_lines(body.take(i - 2)) == Ok::<Seq<(Seq<char>, Seq<char>)>, DecodeError>(
                definition_views(out@),
            ),
        decreases lines@.len() - i,
    {
        let ghost prefix = body.take(i - 2);
        assert(body.take(i - 1).drop_last() =~= prefix);
        assert(body.take(i - 1).last() == lines@[i as int]@);
        match parse_column_line(lines[i].as_slice()) {
            None => {},
            Some(Err(e)) => {
                proof {
                    assert(column_lines(body.take(i - 1)) == Err::<
                        Seq<(Seq<char>, Seq<char>)>,
                        DecodeError,
                    >(e));
                    assert(body =~= body.take(i - 1) + body.skip(i - 1));
                    lemma_column_lines_err_sticks(body.take(i - 1), body.skip(i - 1));
                    assert(column_lines(body) == Err::<Seq<(Seq<char>, Seq<char>)>, DecodeError>(e));
                    assert(ls.len() >= 2);
                    assert(columns_file(content@) == column_lines(body));
                }
                return Err(e);
            },
            Some(Ok(d)) => {
                let ghost prev = out@;
                let ghost dv = (d.name@, d.type_str@);
                out.push(d);
                assert(definition_views(out@) =~= definition_views(prev).push(dv));
            },
        }
        i = i + 1;
    }
    assert(body.take(lines@.len() - 2) =~= body);
    Ok(out)
}

/// Parses a row count file: a decimal number with optional white space around it.
pub fn parse_count_file(content: &str) -> (r: Result<u64, DecodeError>)
    ensures
        match count_file(content@) {
            Ok(v) => r == Ok::<u64, DecodeError>(v),
            Err(e) => r == Err::<u64, DecodeError>(e),
        },
{
    let cs = chars_of(content);
    let t = trim_class(cs.as_slice(), CharClass::WhiteSpace);
    match parse_integer_in(t.as_slice(), false, 0, 0xffff_ffff_ffff_ffff) {
        Some(v) => Ok(v as u64),
        None => Err(DecodeError::InvalidRowCount),
    }
}

/// The column types that the definitions `ds` name.
pub open spec fn definition_types(ds: Seq<(Seq<char>, Seq<char>)>) -> Seq<TypeModel> {
    ds.map_values(|d: (Seq<char>, Seq<char>)| parse_type(d.1))
}

fn describe(defs: &Vec<ColumnDefinition>) -> (r: Vec<ColumnDescriptor>)
    ensures
        descriptor_views(r@) == definition_views(defs@).map_values(
            |d: (Seq<char>, Seq<char>)| (d.0, parse_type(d.1)),
        ),
{
    let mut out: Vec<ColumnDescriptor> = Vec::new();
    let mut i: usize = 0;
    while i < defs.len()
        invariant
            i <= defs@.len(),
            descriptor_views(out@) == definition_views(defs@).take(i as int).map_values(
                |d: (Seq<char>, Seq<char>)| (d.0, parse_type(d.1)),
            ),
        decreases defs@.len() - i,
    {
        let (column_type, _) = parse_column_type(defs[i].type_str.as_str());
        let ghost prev = out@;
        let ghost h = (defs@[i as int].name@, column_type@);
        out.push(ColumnDescriptor { name: defs[i].name.clone(), column_type });
        assert(descriptor_views(out@) =~= descriptor_views(prev).push(h));
        i = i + 1;
        assert(descriptor_views(out@) =~= definition_views(defs@).take(i as int).map_values(
            |d: (Seq<char>, Seq<char>)| (d.0, parse_type(d.1)),
        ));
    }
    assert(definition_views(defs@).take(defs@.len() as int) =~= definition_views(defs@));
    out
}

/// A table whose columns a column list declares, whose row count a count
/// file holds, and whose values a data file holds column after column.
pub struct ClickHouseFolderVTab;

impl ClickHouseFolderVTab {
    /// The columns that a column list declares, each with its parsed type.
    pub fn bind(columns_txt: &str) -> (r: Result<Vec<ColumnDescriptor>, DecodeError>)
        ensures
            match columns_file(columns_txt@) {
                Ok(ds) => r matches Ok(v) && descriptor_views(v@) == ds.map_values(
                    |d: (Seq<char>, Seq<char>)| (d.0, parse_type(d.1)),
                ),
                Err(e) => r matches Err(x) && x == e,
            },
    {
        match parse_columns_file(columns_txt) {
            Ok(defs) => Ok(describe(&defs)),
            Err(e) => Err(e),
        }
    }

    /// Decodes a data file of `count_txt` rows of the columns that
    /// `columns_txt` declares, and puts a cursor at its first row.
    pub fn init(columns_txt: &str, count_txt: &str, data: &[u8]) -> (r: Result<
        ClickHouseFolderInitData,
        DecodeError,
    >)
        ensures
            match (columns_file(columns_txt@), count_file(count_txt@)) {
                (Err(e), _) => r matches Err(x) && x == e,
                (Ok(_), Err(e)) => r matches Err(x) && x == e,
                (Ok(ds), Ok(rows)) => match block_data_at(
                    data@,
                    0,
                    definition_types(ds),
                    rows as nat,
                ) {
                    Err(e) => r matches Err(x) && x == e,
                    Ok((d, _)) => r matches Ok(s) && s.wf() && s.values() == d && s.schema()
                        == ds.map_values(|h: (Seq<char>, Seq<char>)| (h.0, parse_type(h.1)))
                        && s.model().current == 0 && !s.model().done && s.model().total == if ds.len()
                        == 0 {
                        0
                    } else {
                        rows as nat
                    },
                },
            },
    {
        let cols = match ClickHouseFolderVTab::bind(columns_txt) {
            Ok(c) => c,
            Err(e) => {
                return Err(e);
            },
        };
        let rows = match parse_count_file(count_txt) {
            Ok(n) => n,
            Err(e) => {
                return Err(e);
            },
        };
        assert(columns_file(columns_txt@) is Ok);
        let ghost ds = columns_file(columns_txt@)->Ok_0;
        assert(ds.len() == descriptor_views(cols@).len());
        assert forall|k: int| 0 <= k < cols@.len() implies #[trigger] descriptor_types(cols@)[k]
            == definition_types(ds)[k] by {
            assert(descriptor_views(cols@)[k] == (cols@[k].name@, cols@[k].column_type@));
        }
        assert(descriptor_types(cols@) =~= definition_types(ds));
        let mut buffers: Vec<Vec<Value>> = Vec::new();
        let mut i: usize = 0;
        while i < cols.len()
            invariant
                i <= cols@.len(),
                buffers@.len() == i,
                forall|k: int| 0 <= k < i ==> (#[trigger] buffers@[k])@.len() == 0,
            decreases cols@.len() - i,
        {
            buffers.push(Vec::new());
            i = i + 1;
        }
        assert(data_views(buffers@) =~~= crate::block::empty_columns(cols@.len()));
        match decode_block_data(data, 0, &cols, rows, &mut buffers) {
            Ok(_) => {},
            Err(e) => {
                return Err(e);
            },
        }
        let ghost d = block_data_at(data@, 0, definition_types(ds), rows as nat)->Ok_0.0;
        proof {
            crate::stream::lemma_block_data_len(data@, 0, definition_types(ds), rows as nat);
            assert forall|k: int| 0 <= k < d.len() implies #[trigger] data_views(buffers@)[k]
                == d[k] by {
                assert(crate::block::empty_columns(cols@.len())[k] == Seq::<ValueModel>::empty());
                assert(Seq::<ValueModel>::empty() + d[k] =~= d[k]);
            }
            assert(data_views(buffers@) =~~= d);
            assert forall|k: int| 0 <= k < buffers@.len() implies (#[trigger] buffers@[k])@.len()
                == rows by {
                assert(data_views(buffers@)[k].len() == buffers@[k]@.len());
            }
        }
        let result = StreamResult { columns: cols, data: buffers };
        match ClickHouseFolderInitData::new(result) {
            Ok(s) => Ok(s),
            Err(e) => Err(e),
        }
    }
}

} // verus!
