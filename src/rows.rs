//! Rows of a table as the compactor sees them, and their sort key.
use vstd::prelude::*;
use vstd::utf8::encode_utf8;
use crate::order::{compare_bytes, key_cmp, lemma_key_cmp_basic, tag_cmp, tags_cmp, SortKey};

verus! {

/// A cell of a field column.
#[derive(Debug)]
pub enum Value {
    Null,
    Str(String),
    Int(i64),
    UInt(u64),
    Bool(bool),
    /// Nanoseconds since the epoch, UTC.
    Time(i64),
}

/// The value a `Value` holds.
pub ghost enum ValueView {
    Null,
    Str(Seq<char>),
    Int(i64),
    UInt(u64),
    Bool(bool),
    Time(i64),
}

impl View for Value {
    type V = ValueView;

    open spec fn view(&self) -> ValueView {
        match self {
            Value::Null => ValueView::Null,
            Value::Str(s) => ValueView::Str(s@),
            Value::Int(n) => ValueView::Int(*n),
            Value::UInt(n) => ValueView::UInt(*n),
            Value::Bool(b) => ValueView::Bool(*b),
            Value::Time(t) => ValueView::Time(*t),
        }
    }
}

impl Clone for Value {
    fn clone(&self) -> (r: Value)
        ensures
            r@ == self@,
    {
        match self {
            Value::Null => Value::Null,
            Value::Str(s) => Value::Str(s.clone()),
            Value::Int(n) => Value::Int(*n),
            Value::UInt(n) => Value::UInt(*n),
            Value::Bool(b) => Value::Bool(*b),
            Value::Time(t) => Value::Time(*t),
        }
    }
}

/// One row: its tag values in the table's tag order (a missing tag is `None`), its time
/// and its field values in the table's field order.
#[derive(Debug)]
pub struct Row {
    pub tags: Vec<Option<String>>,
    pub time: i64,
    pub fields: Vec<Value>,
}

/// The values a `Row` holds.
pub ghost struct RowView {
    pub tags: Seq<Option<Seq<char>>>,
    pub time: i64,
    pub fields: Seq<ValueView>,
}

pub open spec fn opt_view(t: Option<String>) -> Option<Seq<char>> {
    match t {
        Some(s) => Some(s@),
        None => None,
    }
}

impl View for Row {
    type V = RowView;

    open spec fn view(&self) -> RowView {
        RowView {
            tags: self.tags@.map_values(|t: Option<String>| opt_view(t)),
            time: self.time,
            fields: self.fields@.map_values(|v: Value| v@),
        }
    }
}

/// The views of a list of rows.
pub open spec fn rows_view(v: Seq<Row>) -> Seq<RowView> {
    v.map_values(|r: Row| r@)
}

/// A tag value as the sort key compares it: its UTF-8 bytes.
pub open spec fn tag_key(t: Option<Seq<char>>) -> Option<Seq<u8>> {
    match t {
        Some(s) => Some(encode_utf8(s)),
        None => None,
    }
}

/// The series of a row: its tag values.
pub open spec fn series_of(r: RowView) -> Seq<Option<Seq<u8>>> {
    r.tags.map_values(|t: Option<Seq<char>>| tag_key(t))
}

/// The sort key of a row: its series, then its time.
pub open spec fn key_of(r: RowView) -> SortKey {
    (series_of(r), r.time)
}

impl Clone for Row {
    fn clone(&self) -> (r: Row)
        ensures
            r@ == self@,
    {
        let mut tags: Vec<Option<String>> = Vec::new();
        let mut i: usize = 0;
        while i < self.tags.len()
            invariant
                i <= self.tags@.len(),
                tags@.len() == i,
                forall|k: int| 0 <= k < i ==> opt_view(#[trigger] tags@[k]) == opt_view(self.tags@[k]),
            decreases self.tags@.len() - i,
        {
            let t = match &self.tags[i] {
                Some(s) => Some(s.clone()),
                None => None,
            };
            tags.push(t);
            i += 1;
        }
        let mut fields: Vec<Value> = Vec::new();
        let mut i: usize = 0;
        while i < self.fields.len()
            invariant
                i <= self.fields@.len(),
                fields@.len() == i,
                forall|k: int| 0 <= k < i ==> (#[trigger] fields@[k])@ == self.fields@[k]@,
            decreases self.fields@.len() - i,
        {
            fields.push(self.fields[i].clone());
            i += 1;
        }
        let r = Row { tags, time: self.time, fields };
        assert(r@.tags =~= self@.tags);
        assert(r@.fields =~= self@.fields);
        r
    }
}

/// Compares two optional tag values.
fn compare_tag(a: &Option<String>, b: &Option<String>) -> (r: i8)
    ensures
        r as int == tag_cmp(tag_key(opt_view(*a)), tag_key(opt_view(*b))),
{
    match (a, b) {
        (None, None) => 0,
        (None, Some(_)) => -1,
        (Some(_), None) => 1,
        (Some(x), Some(y)) => compare_bytes(x.as_str().as_bytes(), y.as_str().as_bytes()),
    }
}

/// Compares the series of two rows.
pub fn compare_series(a: &Row, b: &Row) -> (r: i8)
    ensures
        r as int == tags_cmp(series_of(a@), series_of(b@)),
{
    let ghost x = series_of(a@);
    let ghost y = series_of(b@);
    let mut i: usize = 0;
    assert(x.skip(0) =~= x && y.skip(0) =~= y);
    while i < a.tags.len() && i < b.tags.len()
        invariant
            x == series_of(a@),
            y == series_of(b@),
            x.len() == a.tags@.len(),
            y.len() == b.tags@.len(),
            i <= x.len(),
            i <= y.len(),
            tags_cmp(x, y) == tags_cmp(x.skip(i as int), y.skip(i as int)),
        decreases x.len() - i,
    {
        let c = compare_tag(&a.tags[i], &b.tags[i]);
        assert(x.skip(i as int)[0] == x[i as int]);
        assert(y.skip(i as int)[0] == y[i as int]);
        if c != 0 {
            return c;
        }
        proof {
            assert(x.skip(i as int).drop_first() =~= x.skip(i + 1));
            assert(y.skip(i as int).drop_first() =~= y.skip(i + 1));
        }
        i += 1;
    }
    if i == a.tags.len() {
        if i == b.tags.len() {
            0
        } else {
            -1
        }
    } else {
        1
    }
}

/// Compares the sort keys of two rows.
pub fn compare_keys(a: &Row, b: &Row) -> (r: i8)
    ensures
        r as int == key_cmp(key_of(a@), key_of(b@)),
        r == 0 <==> key_of(a@) == key_of(b@),
{
    proof {
        lemma_key_cmp_basic(key_of(a@), key_of(b@));
    }
    let c = compare_series(a, b);
    if c != 0 {
        c
    } else if a.time < b.time {
        -1
    } else if a.time > b.time {
        1
    } else {
        0
    }
}

} // verus!
