//! Canonical text of values, as UTF-8 bytes, under which the file index records them.
use vstd::prelude::*;
use vstd::slice::slice_to_vec;
use vstd::utf8::encode_utf8;
use crate::rows::{Row, RowView, Value, ValueView};

verus! {

/// The text chrono gives a UTC timestamp of `ns` nanoseconds with the pattern
/// `%Y-%m-%dT%H:%M:%S%.9f`.
pub uninterp spec fn timestamp_text(ns: i64) -> Seq<char>;

/// Relies on chrono::DateTime::from_timestamp_nanos, which takes every `i64`, and on its
/// `format` with `%Y-%m-%dT%H:%M:%S%.9f`: RFC 3339 with nanoseconds and no offset.
#[verifier::external_body]
fn format_timestamp(ns: i64) -> (r: String)
    ensures
        r@ == timestamp_text(ns),
{
    chrono::DateTime::from_timestamp_nanos(ns).naive_utc().format("%Y-%m-%dT%H:%M:%S%.9f").to_string()
}

/// Decimal digits of `n`, most significant first, without leading zeros.
pub open spec fn digits(n: nat) -> Seq<u8>
    decreases n,
{
    if n < 10 {
        seq![(48 + n) as u8]
    } else {
        digits(n / 10).push((48 + n % 10) as u8)
    }
}

/// Decimal text of `n`, with `-` before a negative number.
pub open spec fn decimal(n: int) -> Seq<u8> {
    if n < 0 {
        seq![45u8] + digits((-n) as nat)
    } else {
        digits(n as nat)
    }
}

pub open spec fn null_text() -> Seq<u8> {
    seq![110u8, 117, 108, 108]
}

pub open spec fn bool_text(b: bool) -> Seq<u8> {
    if b {
        seq![116u8, 114, 117, 101]
    } else {
        seq![102u8, 97, 108, 115, 101]
    }
}

/// Canonical text of a value.
pub open spec fn value_text(v: ValueView) -> Seq<u8> {
    match v {
        ValueView::Null => null_text(),
        ValueView::Str(s) => encode_utf8(s),
        ValueView::Int(n) => decimal(n as int),
        ValueView::UInt(n) => decimal(n as int),
        ValueView::Bool(b) => bool_text(b),
        ValueView::Time(t) => encode_utf8(timestamp_text(t)),
    }
}

/// A column of a row: a tag by position, a field by position, or the time.
#[derive(Clone, Copy, Debug, PartialEq, Eq, Structural)]
pub enum ColumnRef {
    Tag(usize),
    Field(usize),
    Time,
}

/// Canonical text of a column of a row; a missing tag or field reads as null.
pub open spec fn column_text(r: RowView, c: ColumnRef) -> Seq<u8> {
    match c {
        ColumnRef::Tag(i) => if i < r.tags.len() {
            match r.tags[i as int] {
                Some(s) => encode_utf8(s),
                None => null_text(),
            }
        } else {
            null_text()
        },
        ColumnRef::Field(i) => if i < r.fields.len() {
            value_text(r.fields[i as int])
        } else {
            null_text()
        },
        ColumnRef::Time => value_text(ValueView::Time(r.time)),
    }
}

fn digits_of(n: u64) -> (r: Vec<u8>)
    ensures
        r@ == digits(n as nat),
    decreases n,
{
    if n < 10 {
        vec![(48 + n) as u8]
    } else {
        let mut v = digits_of(n / 10);
        v.push((48 + n % 10) as u8);
        v
    }
}

/// Decimal text of a signed integer.
pub fn decimal_i64(n: i64) -> (r: Vec<u8>)
    ensures
        r@ == decimal(n as int),
{
    if n < 0 {
        let m: u64 = (-(n as i128)) as u64;
        let d = digits_of(m);
        let mut r: Vec<u8> = vec![45u8];
        let mut i: usize = 0;
        while i < d.len()
            invariant
                i <= d@.len(),
                r@ == seq![45u8] + d@.take(i as int),
            decreases d@.len() - i,
        {
            r.push(d[i]);
            assert(d@.take(i + 1) =~= d@.take(i as int).push(d@[i as int]));
            i += 1;
        }
        assert(d@.take(d@.len() as int) =~= d@);
        r
    } else {
        digits_of(n as u64)
    }
}

fn null_bytes() -> (r: Vec<u8>)
    ensures
        r@ == null_text(),
{
    let r: Vec<u8> = vec![110u8, 117, 108, 108];
    assert(r@ =~= null_text());
    r
}

fn text_bytes(s: &str) -> (r: Vec<u8>)
    ensures
        r@ == encode_utf8(s@),
{
    slice_to_vec(s.as_bytes())
}

/// Canonical text of a value.
pub fn render_value(v: &Value) -> (r: Vec<u8>)
    ensures
        r@ == value_text(v@),
{
    match v {
        Value::Null => null_bytes(),
        Value::Str(s) => text_bytes(s.as_str()),
        Value::Int(n) => decimal_i64(*n),
        Value::UInt(n) => digits_of(*n),
        Value::Bool(b) => {
            let r: Vec<u8> = if *b {
                vec![116u8, 114, 117, 101]
            } else {
                vec![102u8, 97, 108, 115, 101]
            };
            assert(r@ =~= bool_text(*b));
            r
        },
        Value::Time(t) => {
            let s = format_timestamp(*t);
            text_bytes(s.as_str())
        },
    }
}

/// Canonical text of a column of a row.
pub fn render_column(r: &Row, c: ColumnRef) -> (out: Vec<u8>)
    ensures
        out@ == column_text(r@, c),
{
    match c {
        ColumnRef::Tag(i) => if i < r.tags.len() {
            match &r.tags[i] {
                Some(s) => text_bytes(s.as_str()),
                None => null_bytes(),
            }
        } else {
            null_bytes()
        },
        ColumnRef::Field(i) => if i < r.fields.len() {
            render_value(&r.fields[i])
        } else {
            null_bytes()
        },
        ColumnRef::Time => render_value(&Value::Time(r.time)),
    }
}

} // verus!
