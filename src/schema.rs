//! Projecting input files onto the table's schema, with the allowed type widenings.
use vstd::prelude::*;
use crate::compactor::{compact_rows, concat, is_compaction, files_view, CompactorOutput};
use crate::index::{cols_view, IndexColumn};
use crate::render::value_text;
use crate::rows::{opt_view, rows_view, Row, RowView, Value, ValueView};

verus! {

/// Column types that the compactor reads.
#[derive(Clone, Copy, Debug, PartialEq, Eq, Structural)]
pub enum ColumnType {
    /// Dictionary-encoded UTF-8, as tags are stored.
    Dictionary,
    Utf8,
    Int32,
    Int64,
    UInt32,
    UInt64,
    Boolean,
    Timestamp,
}

/// A named column.
#[derive(Debug)]
pub struct ColumnDef {
    pub name: String,
    pub column_type: ColumnType,
}

impl View for ColumnDef {
    type V = (Seq<char>, ColumnType);

    open spec fn view(&self) -> (Seq<char>, ColumnType) {
        (self.name@, self.column_type)
    }
}

/// The target table: tag columns (dictionary-encoded) in sort-key order, then fields. The
/// time column is called `time`.
#[derive(Debug)]
pub struct TableDef {
    pub tags: Vec<String>,
    pub fields: Vec<ColumnDef>,
}

/// One input file: its columns and its rows, each row's values in column order.
#[derive(Debug)]
pub struct InputFile {
    pub columns: Vec<ColumnDef>,
    pub rows: Vec<Vec<Value>>,
}

/// Why an input could not be read into the table.
#[derive(Debug, Clone, Copy, PartialEq, Eq, Structural)]
pub enum CompactionError {
    /// A column's type cannot be widened to the table's type for it.
    IncompatibleType { column_index: usize },
    /// A row's value does not match its column's type, or its time is missing.
    InvalidRow { row_index: usize },
    /// The input has no time column of type timestamp.
    MissingTime,
}

/// Widenings that a compaction accepts.
pub open spec fn widens(from: ColumnType, to: ColumnType) -> bool {
    from == to || (from == ColumnType::Dictionary && to == ColumnType::Utf8) || (from
        == ColumnType::Int32 && to == ColumnType::Int64) || (from == ColumnType::UInt32 && to
        == ColumnType::UInt64) || (from == ColumnType::UInt32 && to == ColumnType::Int64)
}

/// A value belongs to a column of type `t`.
pub open spec fn fits(t: ColumnType, v: ValueView) -> bool {
    match v {
        ValueView::Null => true,
        ValueView::Str(_) => t == ColumnType::Dictionary || t == ColumnType::Utf8,
        ValueView::Int(n) => t == ColumnType::Int64 || (t == ColumnType::Int32 && i32::MIN <= n
            <= i32::MAX),
        ValueView::UInt(n) => t == ColumnType::UInt64 || (t == ColumnType::UInt32 && n
            <= u32::MAX),
        ValueView::Bool(_) => t == ColumnType::Boolean,
        ValueView::Time(_) => t == ColumnType::Timestamp,
    }
}

/// A value of a column of type `from` read as type `to`.
pub open spec fn widen(v: ValueView, to: ColumnType) -> ValueView {
    match v {
        ValueView::UInt(n) => if to == ColumnType::Int64 {
            ValueView::Int(n as i64)
        } else {
            v
        },
        _ => v,
    }
}

/// Position of the first column named `name`.
pub open spec fn find_col(cols: Seq<(Seq<char>, ColumnType)>, name: Seq<char>) -> Option<int>
    decreases cols.len(),
{
    if cols.len() == 0 {
        None
    } else {
        match find_col(cols.drop_last(), name) {
            Some(k) => Some(k),
            None => if cols.last().0 == name {
                Some(cols.len() - 1)
            } else {
                None
            },
        }
    }
}

pub open spec fn time_name() -> Seq<char> {
    seq!['t', 'i', 'm', 'e']
}

/// Every column of the table that the input has can be read as the table's type, and the
/// input has a time column.
pub open spec fn schema_ok(
    tags: Seq<Seq<char>>,
    fields: Seq<(Seq<char>, ColumnType)>,
    cols: Seq<(Seq<char>, ColumnType)>,
) -> bool {
    &&& forall|i: int| 0 <= i < tags.len() ==> (find_col(cols, #[trigger] tags[i]) matches Some(k) ==> cols[k].1 == ColumnType::Dictionary)
    &&& forall|i: int| 0 <= i < fields.len() ==> (find_col(cols, (#[trigger] fields[i]).0) matches Some(k) ==> widens(cols[k].1, fields[i].1))
    &&& find_col(cols, time_name()) matches Some(k) && cols[k].1 == ColumnType::Timestamp
}

/// A row's values fit their columns and its time is present.
pub open spec fn row_ok(cols: Seq<(Seq<char>, ColumnType)>, vals: Seq<ValueView>) -> bool {
    &&& vals.len() == cols.len()
    &&& forall|k: int| 0 <= k < vals.len() ==> fits(cols[k].1, #[trigger] vals[k])
    &&& find_col(cols, time_name()) matches Some(k) && vals[k] is Time
}

/// The row of the table that a valid input row reads as: missing columns are null.
pub open spec fn project_row(
    tags: Seq<Seq<char>>,
    fields: Seq<(Seq<char>, ColumnType)>,
    cols: Seq<(Seq<char>, ColumnType)>,
    vals: Seq<ValueView>,
) -> RowView {
    RowView {
        tags: Seq::new(
            tags.len(),
            |i: int|
                match find_col(cols, tags[i]) {
                    Some(k) => match vals[k] {
                        ValueView::Str(s) => Some(s),
                        _ => None,
                    },
                    None => None,
                },
        ),
        time: match vals[find_col(cols, time_name())->0] {
            ValueView::Time(t) => t,
            _ => 0,
        },
        fields: Seq::new(
            fields.len(),
            |i: int|
                match find_col(cols, fields[i].0) {
                    Some(k) => widen(vals[k], fields[i].1),
                    None => ValueView::Null,
                },
        ),
    }
}

pub open spec fn table_tags(t: &TableDef) -> Seq<Seq<char>> {
    t.tags@.map_values(|s: String| s@)
}

pub open spec fn table_fields(t: &TableDef) -> Seq<(Seq<char>, ColumnType)> {
    t.fields@.map_values(|c: ColumnDef| c@)
}

pub open spec fn file_cols(f: &InputFile) -> Seq<(Seq<char>, ColumnType)> {
    f.columns@.map_values(|c: ColumnDef| c@)
}

pub open spec fn file_row(f: &InputFile, r: int) -> Seq<ValueView> {
    f.rows@[r]@.map_values(|v: Value| v@)
}

/// The input can be read into the table: its schema fits and each row is valid.
pub open spec fn file_ok(t: &TableDef, f: &InputFile) -> bool {
    &&& schema_ok(table_tags(t), table_fields(t), file_cols(f))
    &&& forall|r: int| 0 <= r < f.rows@.len() ==> #[trigger] row_ok(file_cols(f), file_row(f, r))
}

/// The rows of the table that a valid input reads as.
pub open spec fn projected(t: &TableDef, f: &InputFile) -> Seq<RowView> {
    Seq::new(
        f.rows@.len(),
        |r: int| project_row(table_tags(t), table_fields(t), file_cols(f), file_row(f, r)),
    )
}

/// Position of the first column named `name`.
fn find_column(cols: &Vec<ColumnDef>, name: &String) -> (r: Option<usize>)
    ensures
        r matches Some(k) ==> k < cols@.len() && find_col(cols@.map_values(|c: ColumnDef| c@), name@) == Some(k as int),
        r is None ==> find_col(cols@.map_values(|c: ColumnDef| c@), name@) is None,
{
    let ghost cv = cols@.map_values(|c: ColumnDef| c@);
    let mut i: usize = 0;
    while i < cols.len()
        invariant
            cv == cols@.map_values(|c: ColumnDef| c@),
            i <= cv.len(),
            find_col(cv.take(i as int), name@) is None,
        decreases cv.len() - i,
    {
        proof {
            assert(cv.take(i + 1).drop_last() =~= cv.take(i as int));
            assert(cv.take(i + 1).last() == cols@[i as int]@);
        }
        if cols[i].name == *name {
            proof {
                lemma_find_col_prefix(cv, i as int + 1, name@);
            }
            return Some(i);
        }
        i += 1;
    }
    assert(cv.take(cv.len() as int) =~= cv);
    None
}

proof fn lemma_find_col_prefix(cols: Seq<(Seq<char>, ColumnType)>, n: int, name: Seq<char>)
    requires
        0 <= n <= cols.len(),
        find_col(cols.take(n), name) is Some,
    ensures
        find_col(cols, name) == find_col(cols.take(n), name),
    decreases cols.len() - n,
{
    if n < cols.len() {
        assert(cols.take(n + 1).drop_last() =~= cols.take(n));
        lemma_find_col_prefix(cols, n + 1, name);
    } else {
        assert(cols.take(n) =~= cols);
    }
}

/// Checks that the input's columns fit the table.
fn check_schema(t: &TableDef, cols: &Vec<ColumnDef>) -> (r: Result<(), CompactionError>)
    ensures
        r is Ok <==> schema_ok(table_tags(t), table_fields(t), cols@.map_values(|c: ColumnDef| c@)),
        r matches Err(e) ==> !(e is InvalidRow),
{
    let ghost cv = cols@.map_values(|c: ColumnDef| c@);
    let ghost tags = table_tags(t);
    let ghost fields = table_fields(t);
    let mut i: usize = 0;
    while i < t.tags.len()
        invariant
            cv == cols@.map_values(|c: ColumnDef| c@),
            tags == table_tags(t),
            i <= tags.len(),
            forall|q: int| 0 <= q < i ==> (find_col(cv, #[trigger] tags[q]) matches Some(k) ==> cv[k].1 == ColumnType::Dictionary),
        decreases tags.len() - i,
    {
        assert(tags[i as int] == t.tags@[i as int]@);
        match find_column(cols, &t.tags[i]) {
            Some(k) => {
                if cols[k].column_type != ColumnType::Dictionary {
                    assert(cv[k as int] == cols@[k as int]@);
                    return Err(CompactionError::IncompatibleType { column_index: k });
                }
                assert(cv[k as int] == cols@[k as int]@);
            },
            None => {},
        }
        i += 1;
    }
    let mut i: usize = 0;
    while i < t.fields.len()
        invariant
            cv == cols@.map_values(|c: ColumnDef| c@),
            fields == table_fields(t),
            i <= fields.len(),
            forall|q: int| 0 <= q < i ==> (find_col(cv, (#[trigger] fields[q]).0) matches Some(k) ==> widens(cv[k].1, fields[q].1)),
        decreases fields.len() - i,
    {
        assert(fields[i as int] == t.fields@[i as int]@);
        match find_column(cols, &t.fields[i].name) {
            Some(k) => {
                assert(cv[k as int] == cols@[k as int]@);
                let from = cols[k].column_type;
                let to = t.fields[i].column_type;
                let ok = from == to || (from == ColumnType::Dictionary && to == ColumnType::Utf8)
                    || (from == ColumnType::Int32 && to == ColumnType::Int64) || (from
                    == ColumnType::UInt32 && to == ColumnType::UInt64) || (from
                    == ColumnType::UInt32 && to == ColumnType::Int64);
                if !ok {
                    return Err(CompactionError::IncompatibleType { column_index: k });
                }
            },
            None => {},
        }
        i += 1;
    }
    let time = "time".to_owned();
    proof {
        reveal_strlit("time");
        assert(time@ =~= time_name());
    }
    match find_column(cols, &time) {
        Some(k) => {
            assert(cv[k as int] == cols@[k as int]@);
            if cols[k].column_type != ColumnType::Timestamp {
                return Err(CompactionError::MissingTime);
            }
        },
        None => {
            return Err(CompactionError::MissingTime);
        },
    }
    Ok(())
}

/// Whether a value belongs to a column of type `t`.
fn value_fits(t: ColumnType, v: &Value) -> (r: bool)
    ensures
        r == fits(t, v@),
{
    match v {
        Value::Null => true,
        Value::Str(_) => t == ColumnType::Dictionary || t == ColumnType::Utf8,
        Value::Int(n) => t == ColumnType::Int64 || (t == ColumnType::Int32 && i32::MIN as i64 <= *n && *n <= i32::MAX as i64),
        Value::UInt(n) => t == ColumnType::UInt64 || (t == ColumnType::UInt32 && *n <= u32::MAX as u64),
        Value::Bool(_) => t == ColumnType::Boolean,
        Value::Time(_) => t == ColumnType::Timestamp,
    }
}

/// A value read as type `to`.
fn widen_value(v: &Value, to: ColumnType) -> (r: Value)
    requires
        v@ is UInt ==> v@->UInt_0 <= u32::MAX || to != ColumnType::Int64,
    ensures
        r@ == widen(v@, to),
{
    match v {
        Value::UInt(n) => if to == ColumnType::Int64 {
            Value::Int(*n as i64)
        } else {
            Value::UInt(*n)
        },
        _ => v.clone(),
    }
}

proof fn lemma_find_col_range(cols: Seq<(Seq<char>, ColumnType)>, name: Seq<char>)
    ensures
        find_col(cols, name) matches Some(k) ==> 0 <= k < cols.len() && cols[k].0 == name,
    decreases cols.len(),
{
    if cols.len() > 0 {
        lemma_find_col_range(cols.drop_last(), name);
    }
}

/// Positions of the table's tag columns, field columns and time column in an input.
fn column_positions(t: &TableDef, cols: &Vec<ColumnDef>) -> (r: (Vec<Option<usize>>, Vec<Option<usize>>, Option<usize>))
    ensures
        r.0@.len() == t.tags@.len(),
        forall|i: int| 0 <= i < r.0@.len() ==> (match #[trigger] r.0@[i] {
            Some(k) => k < cols@.len() && find_col(cols@.map_values(|c: ColumnDef| c@), t.tags@[i]@) == Some(k as int),
            None => find_col(cols@.map_values(|c: ColumnDef| c@), t.tags@[i]@) is None,
        }),
        r.1@.len() == t.fields@.len(),
        forall|i: int| 0 <= i < r.1@.len() ==> (match #[trigger] r.1@[i] {
            Some(k) => k < cols@.len() && find_col(cols@.map_values(|c: ColumnDef| c@), t.fields@[i]@.0) == Some(k as int),
            None => find_col(cols@.map_values(|c: ColumnDef| c@), t.fields@[i]@.0) is None,
        }),
        match r.2 {
            Some(k) => k < cols@.len() && find_col(cols@.map_values(|c: ColumnDef| c@), time_name()) == Some(k as int),
            None => find_col(cols@.map_values(|c: ColumnDef| c@), time_name()) is None,
        },
{
    let mut tags: Vec<Option<usize>> = Vec::new();
    let mut i: usize = 0;
    while i < t.tags.len()
        invariant
            i <= t.tags@.len(),
            tags@.len() == i,
            forall|q: int| 0 <= q < i ==> (match #[trigger] tags@[q] {
                Some(k) => k < cols@.len() && find_col(cols@.map_values(|c: ColumnDef| c@), t.tags@[q]@) == Some(k as int),
                None => find_col(cols@.map_values(|c: ColumnDef| c@), t.tags@[q]@) is None,
            }),
        decreases t.tags@.len() - i,
    {
        tags.push(find_column(cols, &t.tags[i]));
        i += 1;
    }
    let mut fields: Vec<Option<usize>> = Vec::new();
    let mut i: usize = 0;
    while i < t.fields.len()
        invariant
            i <= t.fields@.len(),
            fields@.len() == i,
            forall|q: int| 0 <= q < i ==> (match #[trigger] fields@[q] {
                Some(k) => k < cols@.len() && find_col(cols@.map_values(|c: ColumnDef| c@), t.fields@[q]@.0) == Some(k as int),
                None => find_col(cols@.map_values(|c: ColumnDef| c@), t.fields@[q]@.0) is None,
            }),
        decreases t.fields@.len() - i,
    {
        fields.push(find_column(cols, &t.fields[i].name));
        i += 1;
    }
    let time = "time".to_owned();
    proof {
        reveal_strlit("time");
        assert(time@ =~= time_name());
    }
    let tp = find_column(cols, &time);
    (tags, fields, tp)
}

/// Whether a row's values fit their columns and it has a time.
fn check_row(cols: &Vec<ColumnDef>, vals: &Vec<Value>, time_idx: usize) -> (r: bool)
    requires
        time_idx < cols@.len(),
        find_col(cols@.map_values(|c: ColumnDef| c@), time_name()) == Some(time_idx as int),
    ensures
        r == row_ok(cols@.map_values(|c: ColumnDef| c@), vals@.map_values(|v: Value| v@)),
{
    let ghost cv = cols@.map_values(|c: ColumnDef| c@);
    let ghost vv = vals@.map_values(|v: Value| v@);
    if vals.len() != cols.len() {
        return false;
    }
    let mut k: usize = 0;
    while k < vals.len()
        invariant
            cv == cols@.map_values(|c: ColumnDef| c@),
            vv == vals@.map_values(|v: Value| v@),
            vals@.len() == cols@.len(),
            k <= vv.len(),
            forall|q: int| 0 <= q < k ==> fits(cv[q].1, #[trigger] vv[q]),
        decreases vv.len() - k,
    {
        assert(vv[k as int] == vals@[k as int]@ && cv[k as int] == cols@[k as int]@);
        if !value_fits(cols[k].column_type, &vals[k]) {
            return false;
        }
        k += 1;
    }
    assert(vv[time_idx as int] == vals@[time_idx as int]@);
    match &vals[time_idx] {
        Value::Time(_) => true,
        _ => false,
    }
}

/// The table row that a valid input row reads as.
fn project_one(
    t: &TableDef,
    cols: &Vec<ColumnDef>,
    vals: &Vec<Value>,
    pos: &(Vec<Option<usize>>, Vec<Option<usize>>, Option<usize>),
) -> (r: Row)
    requires
        schema_ok(table_tags(t), table_fields(t), cols@.map_values(|c: ColumnDef| c@)),
        row_ok(cols@.map_values(|c: ColumnDef| c@), vals@.map_values(|v: Value| v@)),
        pos.0@.len() == t.tags@.len(),
        forall|i: int| 0 <= i < pos.0@.len() ==> (match #[trigger] pos.0@[i] {
            Some(k) => k < cols@.len() && find_col(cols@.map_values(|c: ColumnDef| c@), t.tags@[i]@) == Some(k as int),
            None => find_col(cols@.map_values(|c: ColumnDef| c@), t.tags@[i]@) is None,
        }),
        pos.1@.len() == t.fields@.len(),
        forall|i: int| 0 <= i < pos.1@.len() ==> (match #[trigger] pos.1@[i] {
            Some(k) => k < cols@.len() && find_col(cols@.map_values(|c: ColumnDef| c@), t.fields@[i]@.0) == Some(k as int),
            None => find_col(cols@.map_values(|c: ColumnDef| c@), t.fields@[i]@.0) is None,
        }),
        match pos.2 {
            Some(k) => k < cols@.len() && find_col(cols@.map_values(|c: ColumnDef| c@), time_name()) == Some(k as int),
            None => find_col(cols@.map_values(|c: ColumnDef| c@), time_name()) is None,
        },
    ensures
        r@ == project_row(table_tags(t), table_fields(t), cols@.map_values(|c: ColumnDef| c@), vals@.map_values(|v: Value| v@)),
{
    let ghost cv = cols@.map_values(|c: ColumnDef| c@);
    let ghost vv = vals@.map_values(|v: Value| v@);
    let ghost want = project_row(table_tags(t), table_fields(t), cv, vv);
    let mut tags: Vec<Option<String>> = Vec::new();
    let mut i: usize = 0;
    while i < pos.0.len()
        invariant
            cv == cols@.map_values(|c: ColumnDef| c@),
            vv == vals@.map_values(|v: Value| v@),
            vv.len() == cv.len(),
            want == project_row(table_tags(t), table_fields(t), cv, vv),
            pos.0@.len() == t.tags@.len(),
            forall|q: int| 0 <= q < pos.0@.len() ==> (match #[trigger] pos.0@[q] {
                Some(k) => k < cols@.len() && find_col(cv, t.tags@[q]@) == Some(k as int),
                None => find_col(cv, t.tags@[q]@) is None,
            }),
            i <= pos.0@.len(),
            tags@.len() == i,
            forall|q: int| 0 <= q < i ==> opt_view(#[trigger] tags@[q]) == want.tags[q],
        decreases pos.0@.len() - i,
    {
        assert(table_tags(t)[i as int] == t.tags@[i as int]@);
        let tv = match pos.0[i] {
            Some(k) => {
                assert(vv[k as int] == vals@[k as int]@);
                match &vals[k] {
                    Value::Str(s) => Some(s.clone()),
                    _ => None,
                }
            },
            None => None,
        };
        tags.push(tv);
        i += 1;
    }
    let mut fields: Vec<Value> = Vec::new();
    let mut i: usize = 0;
    while i < pos.1.len()
        invariant
            cv == cols@.map_values(|c: ColumnDef| c@),
            vv == vals@.map_values(|v: Value| v@),
            vv.len() == cv.len(),
            schema_ok(table_tags(t), table_fields(t), cv),
            row_ok(cv, vv),
            want == project_row(table_tags(t), table_fields(t), cv, vv),
            pos.1@.len() == t.fields@.len(),
            forall|q: int| 0 <= q < pos.1@.len() ==> (match #[trigger] pos.1@[q] {
                Some(k) => k < cols@.len() && find_col(cv, t.fields@[q]@.0) == Some(k as int),
                None => find_col(cv, t.fields@[q]@.0) is None,
            }),
            i <= pos.1@.len(),
            fields@.len() == i,
            forall|q: int| 0 <= q < i ==> (#[trigger] fields@[q])@ == want.fields[q],
        decreases pos.1@.len() - i,
    {
        assert(table_fields(t)[i as int] == t.fields@[i as int]@);
        let fv = match pos.1[i] {
            Some(k) => {
                assert(vv[k as int] == vals@[k as int]@);
                assert(cv[k as int] == cols@[k as int]@);
                assert(fits(cv[k as int].1, vv[k as int]));
                assert(widens(cv[k as int].1, table_fields(t)[i as int].1));
                widen_value(&vals[k], t.fields[i].column_type)
            },
            None => Value::Null,
        };
        fields.push(fv);
        i += 1;
    }
    let tk = pos.2.unwrap();
    proof {
        lemma_find_col_range(cv, time_name());
        assert(vv[tk as int] == vals@[tk as int]@);
    }
    let time = match &vals[tk] {
        Value::Time(x) => *x,
        _ => 0,
    };
    let r = Row { tags, time, fields };
    assert(r@.tags =~= want.tags);
    assert(r@.fields =~= want.fields);
    r
}

/// Reads an input file into rows of the table. Fails where a column's type cannot be
/// widened to the table's, the time column is missing, or a row is invalid.
pub fn project_file(t: &TableDef, f: &InputFile) -> (r: Result<Vec<Row>, CompactionError>)
    ensures
        r is Ok <==> file_ok(t, f),
        r matches Ok(rows) ==> rows_view(rows@) == projected(t, f),
        r matches Err(CompactionError::InvalidRow { row_index }) ==> row_index < f.rows@.len() && !row_ok(file_cols(f), file_row(f, row_index as int)),
{
    match check_schema(t, &f.columns) {
        Err(e) => {
            return Err(e);
        },
        Ok(()) => {},
    }
    let pos = column_positions(t, &f.columns);
    proof {
        lemma_find_col_range(file_cols(f), time_name());
    }
    let tk = pos.2.unwrap();
    let ghost want = projected(t, f);
    let mut rows: Vec<Row> = Vec::new();
    let mut i: usize = 0;
    while i < f.rows.len()
        invariant
            schema_ok(table_tags(t), table_fields(t), file_cols(f)),
            want == projected(t, f),
            pos.2 == Some(tk),
            tk < f.columns@.len(),
            find_col(file_cols(f), time_name()) == Some(tk as int),
            pos.0@.len() == t.tags@.len(),
            forall|q: int| 0 <= q < pos.0@.len() ==> (match #[trigger] pos.0@[q] {
                Some(k) => k < f.columns@.len() && find_col(file_cols(f), t.tags@[q]@) == Some(k as int),
                None => find_col(file_cols(f), t.tags@[q]@) is None,
            }),
            pos.1@.len() == t.fields@.len(),
            forall|q: int| 0 <= q < pos.1@.len() ==> (match #[trigger] pos.1@[q] {
                Some(k) => k < f.columns@.len() && find_col(file_cols(f), t.fields@[q]@.0) == Some(k as int),
                None => find_col(file_cols(f), t.fields@[q]@.0) is None,
            }),
            i <= f.rows@.len(),
            rows@.len() == i,
            forall|q: int| 0 <= q < i ==> row_ok(file_cols(f), #[trigger] file_row(f, q)),
            forall|q: int| 0 <= q < i ==> (#[trigger] rows@[q])@ == want[q],
        decreases f.rows@.len() - i,
    {
        assert(file_row(f, i as int) == f.rows@[i as int]@.map_values(|v: Value| v@));
        if !check_row(&f.columns, &f.rows[i], tk) {
            return Err(CompactionError::InvalidRow { row_index: i });
        }
        let row = project_one(t, &f.columns, &f.rows[i], &pos);
        rows.push(row);
        i += 1;
    }
    assert(rows_view(rows@) =~= want);
    Ok(rows)
}

/// Every input can be read into the table.
pub open spec fn inputs_ok(t: &TableDef, inputs: Seq<InputFile>) -> bool {
    forall|f: int| 0 <= f < inputs.len() ==> file_ok(t, &#[trigger] inputs[f])
}

/// The rows of each input, read into the table.
pub open spec fn projected_all(t: &TableDef, inputs: Seq<InputFile>) -> Seq<Seq<RowView>> {
    Seq::new(inputs.len(), |f: int| projected(t, &inputs[f]))
}

/// Compacts input files, oldest first, into output files of the table: each input is read
/// into the table's schema, then the rows are compacted as `compact_rows` does.
pub fn compact_files(
    t: &TableDef,
    inputs: &Vec<InputFile>,
    row_limit: usize,
    index_columns: &Vec<IndexColumn>,
) -> (r: Result<CompactorOutput, CompactionError>)
    ensures
        r is Ok <==> inputs_ok(t, inputs@),
        r matches Ok(out) ==> is_compaction(
            concat(projected_all(t, inputs@)),
            files_view(out.files@),
            out.file_index@,
            row_limit as nat,
            cols_view(index_columns@),
        ),
{
    let mut chunks: Vec<Vec<Row>> = Vec::new();
    let mut i: usize = 0;
    while i < inputs.len()
        invariant
            i <= inputs@.len(),
            chunks@.len() == i,
            forall|f: int| 0 <= f < i ==> file_ok(t, &#[trigger] inputs@[f]),
            forall|f: int| 0 <= f < i ==> rows_view((#[trigger] chunks@[f])@) == projected(t, &inputs@[f]),
        decreases inputs@.len() - i,
    {
        match project_file(t, &inputs[i]) {
            Ok(rows) => {
                chunks.push(rows);
            },
            Err(e) => {
                return Err(e);
            },
        }
        i += 1;
    }
    let out = compact_rows(&chunks, row_limit, index_columns);
    assert(chunks@.map_values(|c: Vec<Row>| rows_view(c@)) =~= projected_all(t, inputs@));
    Ok(out)
}

/// A dictionary-encoded column read as UTF-8 is accepted, keeps its values and is indexed
/// under the same text.
pub proof fn lemma_dictionary_to_utf8(v: ValueView)
    requires
        fits(ColumnType::Dictionary, v),
    ensures
        widens(ColumnType::Dictionary, ColumnType::Utf8),
        fits(ColumnType::Utf8, v),
        widen(v, ColumnType::Utf8) == v,
        value_text(widen(v, ColumnType::Utf8)) == value_text(v),
{
}

} // verus!
verus! {

proof fn lemma_find_col_names(c1: Seq<(Seq<char>, ColumnType)>, c2: Seq<(Seq<char>, ColumnType)>, name: Seq<char>)
    requires
        c1.len() == c2.len(),
        forall|k: int| 0 <= k < c1.len() ==> (#[trigger] c1[k]).0 == c2[k].0,
    ensures
        find_col(c1, name) == find_col(c2, name),
    decreases c1.len(),
{
    if c1.len() > 0 {
        let (d1, d2) = (c1.drop_last(), c2.drop_last());
        assert forall|k: int| 0 <= k < d1.len() implies (#[trigger] d1[k]).0 == d2[k].0 by {
            assert(d1[k] == c1[k] && d2[k] == c2[k]);
        }
        lemma_find_col_names(d1, d2, name);
        assert(c1.last() == c1[c1.len() - 1] && c2.last() == c2[c2.len() - 1]);
    }
}

/// Two inputs that hold the same rows and differ only in one column being stored
/// dictionary-encoded in the first and as UTF-8 in the second, where the table reads that
/// column as a UTF-8 field, are both accepted or both refused, and read as the same rows.
pub proof fn lemma_dictionary_input_reads_as_utf8(t: &TableDef, f1: &InputFile, f2: &InputFile, c: int)
    requires
        f1.rows@ == f2.rows@,
        file_cols(f1).len() == file_cols(f2).len(),
        0 <= c < file_cols(f1).len(),
        forall|k: int| 0 <= k < file_cols(f1).len() && k != c ==> #[trigger] file_cols(f1)[k] == file_cols(f2)[k],
        file_cols(f1)[c] == (file_cols(f2)[c].0, ColumnType::Dictionary),
        file_cols(f2)[c].1 == ColumnType::Utf8,
        forall|i: int| 0 <= i < table_tags(t).len() ==> #[trigger] table_tags(t)[i] != file_cols(f1)[c].0,
        forall|i: int|
            0 <= i < table_fields(t).len() && (#[trigger] table_fields(t)[i]).0 == file_cols(f1)[c].0
                ==> table_fields(t)[i].1 == ColumnType::Utf8,
    ensures
        file_ok(t, f1) == file_ok(t, f2),
        projected(t, f1) == projected(t, f2),
{
    let (c1, c2) = (file_cols(f1), file_cols(f2));
    let tags = table_tags(t);
    let fields = table_fields(t);
    assert forall|k: int| 0 <= k < c1.len() implies (#[trigger] c1[k]).0 == c2[k].0 by {
        if k != c {
            assert(c1[k] == c2[k]);
        }
    }
    assert forall|name: Seq<char>| #[trigger] find_col(c1, name) == find_col(c2, name) by {
        lemma_find_col_names(c1, c2, name);
    }
    assert forall|name: Seq<char>| #[trigger] find_col(c1, name) matches Some(k) ==> 0 <= k < c1.len() && c1[k].0 == name by {
        lemma_find_col_range(c1, name);
    }
    assert(schema_ok(tags, fields, c1) == schema_ok(tags, fields, c2)) by {
        assert forall|i: int| 0 <= i < tags.len() implies ((find_col(c1, #[trigger] tags[i]) matches Some(k) ==> c1[k].1 == ColumnType::Dictionary)
            == (find_col(c2, tags[i]) matches Some(k) ==> c2[k].1 == ColumnType::Dictionary)) by {
            if let Some(k) = find_col(c1, tags[i]) {
                if k == c {
                    assert(c1[c].0 == tags[i]);
                } else {
                    assert(c1[k] == c2[k]);
                }
            }
        }
        assert forall|i: int| 0 <= i < fields.len() implies ((find_col(c1, (#[trigger] fields[i]).0) matches Some(k) ==> widens(c1[k].1, fields[i].1))
            == (find_col(c2, fields[i].0) matches Some(k) ==> widens(c2[k].1, fields[i].1))) by {
            if let Some(k) = find_col(c1, fields[i].0) {
                if k != c {
                    assert(c1[k] == c2[k]);
                }
            }
        }
        if let Some(k) = find_col(c1, time_name()) {
            if k != c {
                assert(c1[k] == c2[k]);
            }
        }
    }
    assert forall|r: int| 0 <= r < f1.rows@.len() implies #[trigger] row_ok(c1, file_row(f1, r)) == row_ok(c2, file_row(f2, r)) by {
        let v = file_row(f1, r);
        assert(file_row(f2, r) == v);
        if v.len() == c1.len() {
            assert forall|k: int| 0 <= k < v.len() implies fits(c1[k].1, #[trigger] v[k]) == fits(c2[k].1, v[k]) by {
                if k != c {
                    assert(c1[k] == c2[k]);
                }
            }
        }
    }
    if file_ok(t, f1) {
        assert forall|r: int| 0 <= r < f2.rows@.len() implies #[trigger] row_ok(file_cols(f2), file_row(f2, r)) by {
            assert(row_ok(c1, file_row(f1, r)));
        }
    }
    if file_ok(t, f2) {
        assert forall|r: int| 0 <= r < f1.rows@.len() implies #[trigger] row_ok(file_cols(f1), file_row(f1, r)) by {
            assert(row_ok(c2, file_row(f2, r)));
        }
    }
    assert(projected(t, f1) =~= projected(t, f2)) by {
        assert forall|r: int| 0 <= r < f1.rows@.len() implies #[trigger] projected(t, f1)[r] == projected(t, f2)[r] by {
            let v = file_row(f1, r);
            assert(file_row(f2, r) == v);
            let p1 = project_row(tags, fields, c1, v);
            let p2 = project_row(tags, fields, c2, v);
            assert(p1.tags =~= p2.tags);
            assert(p1.fields =~= p2.fields);
        }
    }
}

} // verus!
