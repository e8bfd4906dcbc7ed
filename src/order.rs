//! The sort key order: tag values compared by their UTF-8 bytes, a missing tag first,
//! then the time.
use vstd::prelude::*;

verus! {

/// Lexicographic comparison of byte strings: -1, 0 or 1.
pub open spec fn bytes_cmp(a: Seq<u8>, b: Seq<u8>) -> int
    decreases a.len(),
{
    if a.len() == 0 {
        if b.len() == 0 {
            0
        } else {
            -1
        }
    } else if b.len() == 0 {
        1
    } else if a[0] < b[0] {
        -1
    } else if a[0] > b[0] {
        1
    } else {
        bytes_cmp(a.drop_first(), b.drop_first())
    }
}

/// Comparison of optional tag values: a missing value first.
pub open spec fn tag_cmp(a: Option<Seq<u8>>, b: Option<Seq<u8>>) -> int {
    match (a, b) {
        (None, None) => 0,
        (None, Some(_)) => -1,
        (Some(_), None) => 1,
        (Some(x), Some(y)) => bytes_cmp(x, y),
    }
}

/// Lexicographic comparison of tag tuples.
pub open spec fn tags_cmp(a: Seq<Option<Seq<u8>>>, b: Seq<Option<Seq<u8>>>) -> int
    decreases a.len(),
{
    if a.len() == 0 {
        if b.len() == 0 {
            0
        } else {
            -1
        }
    } else if b.len() == 0 {
        1
    } else if tag_cmp(a[0], b[0]) != 0 {
        tag_cmp(a[0], b[0])
    } else {
        tags_cmp(a.drop_first(), b.drop_first())
    }
}

/// A sort key: the series' tag values and the time.
pub type SortKey = (Seq<Option<Seq<u8>>>, i64);

/// Comparison of sort keys: by series, then by time.
pub open spec fn key_cmp(a: SortKey, b: SortKey) -> int {
    let c = tags_cmp(a.0, b.0);
    if c != 0 {
        c
    } else if a.1 < b.1 {
        -1
    } else if a.1 > b.1 {
        1
    } else {
        0
    }
}

pub proof fn lemma_bytes_cmp_basic(a: Seq<u8>, b: Seq<u8>)
    ensures
        bytes_cmp(a, b) == -bytes_cmp(b, a),
        bytes_cmp(a, b) == 0 <==> a == b,
        -1 <= bytes_cmp(a, b) <= 1,
    decreases a.len(),
{
    if a.len() > 0 && b.len() > 0 && a[0] == b[0] {
        lemma_bytes_cmp_basic(a.drop_first(), b.drop_first());
        if a.drop_first() == b.drop_first() {
            assert(a =~= seq![a[0]] + a.drop_first());
            assert(b =~= seq![b[0]] + b.drop_first());
        }
    }
    if a == b && a.len() > 0 {
        assert(a.drop_first() == b.drop_first());
    }
    if a.len() == 0 && b.len() == 0 {
        assert(a =~= b);
    }
}

pub proof fn lemma_bytes_cmp_trans(a: Seq<u8>, b: Seq<u8>, c: Seq<u8>)
    requires
        bytes_cmp(a, b) <= 0,
        bytes_cmp(b, c) <= 0,
    ensures
        bytes_cmp(a, c) <= 0,
        bytes_cmp(a, b) < 0 || bytes_cmp(b, c) < 0 ==> bytes_cmp(a, c) < 0,
    decreases a.len(),
{
    lemma_bytes_cmp_basic(a, b);
    lemma_bytes_cmp_basic(b, c);
    lemma_bytes_cmp_basic(a, c);
    if a.len() > 0 && b.len() > 0 && c.len() > 0 && a[0] == b[0] && b[0] == c[0] {
        lemma_bytes_cmp_trans(a.drop_first(), b.drop_first(), c.drop_first());
    }
}

pub proof fn lemma_tag_cmp_basic(a: Option<Seq<u8>>, b: Option<Seq<u8>>)
    ensures
        tag_cmp(a, b) == -tag_cmp(b, a),
        tag_cmp(a, b) == 0 <==> a == b,
        -1 <= tag_cmp(a, b) <= 1,
{
    if let (Some(x), Some(y)) = (a, b) {
        lemma_bytes_cmp_basic(x, y);
    }
}

pub proof fn lemma_tag_cmp_trans(a: Option<Seq<u8>>, b: Option<Seq<u8>>, c: Option<Seq<u8>>)
    requires
        tag_cmp(a, b) <= 0,
        tag_cmp(b, c) <= 0,
    ensures
        tag_cmp(a, c) <= 0,
        tag_cmp(a, b) < 0 || tag_cmp(b, c) < 0 ==> tag_cmp(a, c) < 0,
{
    lemma_tag_cmp_basic(a, b);
    lemma_tag_cmp_basic(b, c);
    lemma_tag_cmp_basic(a, c);
    if let (Some(x), Some(y), Some(z)) = (a, b, c) {
        lemma_bytes_cmp_trans(x, y, z);
    }
}

pub proof fn lemma_tags_cmp_basic(a: Seq<Option<Seq<u8>>>, b: Seq<Option<Seq<u8>>>)
    ensures
        tags_cmp(a, b) == -tags_cmp(b, a),
        tags_cmp(a, b) == 0 <==> a == b,
        -1 <= tags_cmp(a, b) <= 1,
    decreases a.len(),
{
    if a.len() > 0 && b.len() > 0 {
        lemma_tag_cmp_basic(a[0], b[0]);
        if a[0] == b[0] {
            lemma_tags_cmp_basic(a.drop_first(), b.drop_first());
            if a.drop_first() == b.drop_first() {
                assert(a =~= seq![a[0]] + a.drop_first());
                assert(b =~= seq![b[0]] + b.drop_first());
            }
        }
    }
    if a == b && a.len() > 0 {
        assert(a.drop_first() == b.drop_first());
    }
    if a.len() == 0 && b.len() == 0 {
        assert(a =~= b);
    }
}

pub proof fn lemma_tags_cmp_trans(
    a: Seq<Option<Seq<u8>>>,
    b: Seq<Option<Seq<u8>>>,
    c: Seq<Option<Seq<u8>>>,
)
    requires
        tags_cmp(a, b) <= 0,
        tags_cmp(b, c) <= 0,
    ensures
        tags_cmp(a, c) <= 0,
        tags_cmp(a, b) < 0 || tags_cmp(b, c) < 0 ==> tags_cmp(a, c) < 0,
    decreases a.len(),
{
    lemma_tags_cmp_basic(a, b);
    lemma_tags_cmp_basic(b, c);
    lemma_tags_cmp_basic(a, c);
    if a.len() > 0 && b.len() > 0 && c.len() > 0 {
        lemma_tag_cmp_basic(a[0], b[0]);
        lemma_tag_cmp_basic(b[0], c[0]);
        lemma_tag_cmp_basic(a[0], c[0]);
        lemma_tag_cmp_trans(a[0], b[0], c[0]);
        if a[0] == b[0] && b[0] == c[0] {
            lemma_tags_cmp_trans(a.drop_first(), b.drop_first(), c.drop_first());
        }
    }
}

pub proof fn lemma_key_cmp_basic(a: SortKey, b: SortKey)
    ensures
        key_cmp(a, b) == -key_cmp(b, a),
        key_cmp(a, b) == 0 <==> a == b,
        -1 <= key_cmp(a, b) <= 1,
{
    lemma_tags_cmp_basic(a.0, b.0);
}

pub proof fn lemma_key_cmp_trans(a: SortKey, b: SortKey, c: SortKey)
    requires
        key_cmp(a, b) <= 0,
        key_cmp(b, c) <= 0,
    ensures
        key_cmp(a, c) <= 0,
        key_cmp(a, b) < 0 || key_cmp(b, c) < 0 ==> key_cmp(a, c) < 0,
{
    lemma_tags_cmp_basic(a.0, b.0);
    lemma_tags_cmp_basic(b.0, c.0);
    lemma_tags_cmp_basic(a.0, c.0);
    lemma_tags_cmp_trans(a.0, b.0, c.0);
}

/// Compares two byte strings.
pub fn compare_bytes(a: &[u8], b: &[u8]) -> (r: i8)
    ensures
        r as int == bytes_cmp(a@, b@),
{
    let mut i: usize = 0;
    assert(a@.skip(0) =~= a@ && b@.skip(0) =~= b@);
    while i < a.len() && i < b.len() && a[i] == b[i]
        invariant
            i <= a@.len(),
            i <= b@.len(),
            bytes_cmp(a@, b@) == bytes_cmp(a@.skip(i as int), b@.skip(i as int)),
        decreases a@.len() - i,
    {
        proof {
            let x = a@.skip(i as int);
            let y = b@.skip(i as int);
            assert(x.drop_first() =~= a@.skip(i + 1));
            assert(y.drop_first() =~= b@.skip(i + 1));
        }
        i += 1;
    }
    let ghost x = a@.skip(i as int);
    let ghost y = b@.skip(i as int);
    if i == a.len() {
        if i == b.len() {
            0
        } else {
            -1
        }
    } else if i == b.len() {
        1
    } else if a[i] < b[i] {
        assert(x[0] == a@[i as int] && y[0] == b@[i as int]);
        -1
    } else {
        assert(x[0] == a@[i as int] && y[0] == b@[i as int]);
        1
    }
}

} // verus!
