//! The file compactor on rows: sort-merge-dedup by sort key, then series-aware splitting
//! into output files, which the file index then records.
use vstd::prelude::*;
use crate::order::{
    key_cmp, lemma_key_cmp_basic, lemma_key_cmp_trans, lemma_tags_cmp_basic, lemma_tags_cmp_trans,
    tags_cmp, SortKey,
};
use crate::render::ColumnRef;
use crate::index::{build_file_index, cols_view, indexes_exactly, FileIndex, IndexColumn};
use crate::rows::{compare_keys, compare_series, key_of, rows_view, series_of, Row, RowView};

verus! {

/// The rows of `chunks`, chunk after chunk.
pub open spec fn concat(chunks: Seq<Seq<RowView>>) -> Seq<RowView>
    decreases chunks.len(),
{
    if chunks.len() == 0 {
        seq![]
    } else {
        concat(chunks.drop_last()) + chunks.last()
    }
}

/// The last row of `s` with sort key `k`, if any.
pub open spec fn last_with_key(s: Seq<RowView>, k: SortKey) -> Option<RowView>
    decreases s.len(),
{
    if s.len() == 0 {
        None
    } else if key_of(s.last()) == k {
        Some(s.last())
    } else {
        last_with_key(s.drop_last(), k)
    }
}

/// Sort keys strictly ascending.
pub open spec fn strictly_sorted(s: Seq<RowView>) -> bool {
    forall|i: int, j: int| 0 <= i < j < s.len() ==> key_cmp(key_of(#[trigger] s[i]), key_of(#[trigger] s[j])) < 0
}

/// No two rows of `s` share a sort key.
pub open spec fn keys_distinct(s: Seq<RowView>) -> bool {
    forall|i: int, j: int| 0 <= i < j < s.len() ==> key_of(#[trigger] s[i]) != key_of(#[trigger] s[j])
}

/// `out` is `rows` sorted by key with one row per key: the last row of `rows` with it.
pub open spec fn is_merged(rows: Seq<RowView>, out: Seq<RowView>) -> bool {
    &&& strictly_sorted(out)
    &&& forall|j: int| 0 <= j < out.len() ==> last_with_key(rows, key_of(#[trigger] out[j])) == Some(out[j])
    &&& forall|k: int| 0 <= k < rows.len() ==> exists|j: int| 0 <= j < out.len() && key_of(#[trigger] out[j]) == key_of(#[trigger] rows[k])
}

/// The rows of all chunks, chunk after chunk.
pub fn concat_rows(chunks: &Vec<Vec<Row>>) -> (r: Vec<Row>)
    ensures
        rows_view(r@) == concat(chunks@.map_values(|c: Vec<Row>| rows_view(c@))),
{
    let ghost cs = chunks@.map_values(|c: Vec<Row>| rows_view(c@));
    let mut out: Vec<Row> = Vec::new();
    let mut c: usize = 0;
    while c < chunks.len()
        invariant
            cs == chunks@.map_values(|c: Vec<Row>| rows_view(c@)),
            c <= chunks@.len(),
            rows_view(out@) == concat(cs.take(c as int)),
        decreases chunks@.len() - c,
    {
        let ghost base = rows_view(out@);
        let chunk = &chunks[c];
        let mut j: usize = 0;
        while j < chunk.len()
            invariant
                j <= chunk@.len(),
                rows_view(out@) == base + rows_view(chunk@).take(j as int),
            decreases chunk@.len() - j,
        {
            let ghost before = out@;
            out.push(chunk[j].clone());
            proof {
                assert(rows_view(out@) =~= rows_view(before).push(chunk@[j as int]@));
                assert(rows_view(chunk@).take(j + 1) =~= rows_view(chunk@).take(j as int).push(chunk@[j as int]@));
            }
            j += 1;
        }
        proof {
            assert(rows_view(chunk@).take(chunk@.len() as int) =~= rows_view(chunk@));
            assert(cs.take(c + 1).drop_last() =~= cs.take(c as int));
            assert(cs[c as int] == rows_view(chunk@));
        }
        c += 1;
    }
    assert(cs.take(cs.len() as int) =~= cs);
    out
}

/// Kept rows `os` for the first `i` rows of `rs`, with their keys drawn from those rows.
#[verifier::opaque]
pub open spec fn merge_step_inv(rs: Seq<RowView>, i: int, os: Seq<RowView>) -> bool {
    &&& 0 <= i <= rs.len()
    &&& is_merged(rs.take(i), os)
    &&& forall|j: int| 0 <= j < os.len() ==> exists|k: int| 0 <= k < i && key_of(#[trigger] os[j]) == key_of(#[trigger] rs[k])
}

proof fn lemma_merge_replace(rs: Seq<RowView>, i: int, os: Seq<RowView>, e: int)
    requires
        merge_step_inv(rs, i, os),
        i < rs.len(),
        0 <= e < os.len(),
        key_of(os[e]) == key_of(rs[i]),
    ensures
        merge_step_inv(rs, i + 1, os.update(e, rs[i])),
        keys_distinct(rs) ==> false,
{
    reveal(merge_step_inv);
    let x = rs[i];
    let ns = os.update(e, x);
    let pre = rs.take(i);
    let post = rs.take(i + 1);
    assert(post.drop_last() =~= pre);
    assert(post.last() == x);
    assert forall|a: int, b: int| 0 <= a < b < ns.len() implies key_cmp(key_of(#[trigger] ns[a]), key_of(#[trigger] ns[b])) < 0 by {
        assert(key_of(ns[a]) == key_of(os[a]));
        assert(key_of(ns[b]) == key_of(os[b]));
    }
    assert forall|j: int| 0 <= j < ns.len() implies last_with_key(post, key_of(#[trigger] ns[j])) == Some(ns[j]) by {
        if j != e {
            assert(ns[j] == os[j]);
            lemma_key_cmp_basic(key_of(os[j]), key_of(os[e]));
            if j < e {
                assert(key_cmp(key_of(os[j]), key_of(os[e])) < 0);
            } else {
                assert(key_cmp(key_of(os[e]), key_of(os[j])) < 0);
            }
        }
    }
    assert forall|k: int| 0 <= k < post.len() implies exists|j: int| 0 <= j < ns.len() && key_of(#[trigger] ns[j]) == key_of(#[trigger] post[k]) by {
        if k < i {
            assert(post[k] == pre[k]);
            let j = choose|j: int| 0 <= j < os.len() && key_of(#[trigger] os[j]) == key_of(#[trigger] pre[k]);
            assert(key_of(ns[j]) == key_of(os[j]));
        } else {
            assert(key_of(ns[e]) == key_of(post[k]));
        }
    }
    assert forall|j: int| 0 <= j < ns.len() implies exists|k: int| 0 <= k < i + 1 && key_of(#[trigger] ns[j]) == key_of(#[trigger] rs[k]) by {
        if j == e {
            assert(key_of(ns[j]) == key_of(rs[i]));
        } else {
            let k = choose|k: int| 0 <= k < i && key_of(#[trigger] os[j]) == key_of(#[trigger] rs[k]);
            assert(key_of(ns[j]) == key_of(rs[k]));
        }
    }
    if keys_distinct(rs) {
        let k = choose|k: int| 0 <= k < i && key_of(#[trigger] os[e]) == key_of(#[trigger] rs[k]);
        assert(key_of(rs[k]) != key_of(rs[i]));
    }
}

proof fn lemma_merge_insert(rs: Seq<RowView>, i: int, os: Seq<RowView>, p: int)
    requires
        merge_step_inv(rs, i, os),
        i < rs.len(),
        0 <= p <= os.len(),
        forall|q: int| 0 <= q < os.len() ==> key_of(#[trigger] os[q]) != key_of(rs[i]),
        forall|q: int| 0 <= q < p ==> key_cmp(key_of(#[trigger] os[q]), key_of(rs[i])) < 0,
        p < os.len() ==> key_cmp(key_of(os[p]), key_of(rs[i])) >= 0,
    ensures
        merge_step_inv(rs, i + 1, os.insert(p, rs[i])),
{
    reveal(merge_step_inv);
    let x = rs[i];
    let ns = os.insert(p, x);
    let pre = rs.take(i);
    let post = rs.take(i + 1);
    assert(post.drop_last() =~= pre);
    assert(post.last() == x);
    if p < os.len() {
        lemma_key_cmp_basic(key_of(os[p]), key_of(x));
    }
    assert forall|a: int, b: int| 0 <= a < b < ns.len() implies key_cmp(key_of(#[trigger] ns[a]), key_of(#[trigger] ns[b])) < 0 by {
        if a < p && b == p {
        } else if a < p && b > p {
            assert(ns[b] == os[b - 1]);
            if b - 1 != p {
                assert(key_cmp(key_of(os[p]), key_of(os[b - 1])) < 0);
                lemma_key_cmp_trans(key_of(x), key_of(os[p]), key_of(os[b - 1]));
            }
            lemma_key_cmp_trans(key_of(os[a]), key_of(x), key_of(os[b - 1]));
        } else if a == p {
            assert(ns[b] == os[b - 1]);
            if b - 1 > p {
                assert(key_cmp(key_of(os[p]), key_of(os[b - 1])) < 0);
                lemma_key_cmp_trans(key_of(x), key_of(os[p]), key_of(os[b - 1]));
            }
        } else if a > p {
            assert(ns[a] == os[a - 1]);
            assert(ns[b] == os[b - 1]);
        } else {
            assert(ns[a] == os[a]);
            assert(ns[b] == os[b]);
        }
    }
    assert forall|j: int| 0 <= j < ns.len() implies last_with_key(post, key_of(#[trigger] ns[j])) == Some(ns[j]) by {
        if j < p {
            assert(ns[j] == os[j]);
        } else if j > p {
            assert(ns[j] == os[j - 1]);
        }
    }
    assert forall|k: int| 0 <= k < post.len() implies exists|j: int| 0 <= j < ns.len() && key_of(#[trigger] ns[j]) == key_of(#[trigger] post[k]) by {
        if k < i {
            assert(post[k] == pre[k]);
            let j = choose|j: int| 0 <= j < os.len() && key_of(#[trigger] os[j]) == key_of(#[trigger] pre[k]);
            if j < p {
                assert(ns[j] == os[j]);
            } else {
                assert(ns[j + 1] == os[j]);
            }
        } else {
            assert(key_of(ns[p]) == key_of(post[k]));
        }
    }
    assert forall|j: int| 0 <= j < ns.len() implies exists|k: int| 0 <= k < i + 1 && key_of(#[trigger] ns[j]) == key_of(#[trigger] rs[k]) by {
        if j == p {
            assert(key_of(ns[j]) == key_of(rs[i]));
        } else if j < p {
            assert(ns[j] == os[j]);
            let k = choose|k: int| 0 <= k < i && key_of(#[trigger] os[j]) == key_of(#[trigger] rs[k]);
        } else {
            assert(ns[j] == os[j - 1]);
            let k = choose|k: int| 0 <= k < i && key_of(#[trigger] os[j - 1]) == key_of(#[trigger] rs[k]);
        }
    }
}

proof fn lemma_merge_start(rs: Seq<RowView>)
    ensures
        merge_step_inv(rs, 0, Seq::<RowView>::empty()),
{
    reveal(merge_step_inv);
    assert(rs.take(0) =~= Seq::<RowView>::empty());
}

proof fn lemma_merge_done(rs: Seq<RowView>, os: Seq<RowView>)
    requires
        merge_step_inv(rs, rs.len() as int, os),
    ensures
        is_merged(rs, os),
{
    reveal(merge_step_inv);
    assert(rs.take(rs.len() as int) =~= rs);
}

/// Index of the first row of `out` with the key of `x`; `out.len()` where none has it.
fn find_key(out: &Vec<Row>, x: &Row) -> (e: usize)
    ensures
        e <= out@.len(),
        forall|q: int| 0 <= q < e ==> key_of(#[trigger] out@[q]@) != key_of(x@),
        e < out@.len() ==> key_of(out@[e as int]@) == key_of(x@),
{
    let mut e: usize = 0;
    while e < out.len() && compare_keys(&out[e], x) != 0
        invariant
            e <= out@.len(),
            forall|q: int| 0 <= q < e ==> key_of(#[trigger] out@[q]@) != key_of(x@),
        decreases out@.len() - e,
    {
        e += 1;
    }
    e
}

/// Index of the first row of `out` whose key is not below the key of `x`.
fn insert_position(out: &Vec<Row>, x: &Row) -> (p: usize)
    ensures
        p <= out@.len(),
        forall|q: int| 0 <= q < p ==> key_cmp(key_of(#[trigger] out@[q]@), key_of(x@)) < 0,
        p < out@.len() ==> key_cmp(key_of(out@[p as int]@), key_of(x@)) >= 0,
{
    let mut p: usize = 0;
    while p < out.len() && compare_keys(&out[p], x) < 0
        invariant
            p <= out@.len(),
            forall|q: int| 0 <= q < p ==> key_cmp(key_of(#[trigger] out@[q]@), key_of(x@)) < 0,
        decreases out@.len() - p,
    {
        p += 1;
    }
    p
}

/// Sorts `rows` by sort key, keeping for each key the last row that has it.
pub fn sort_dedup(rows: &Vec<Row>) -> (r: Vec<Row>)
    ensures
        is_merged(rows_view(rows@), rows_view(r@)),
        r@.len() <= rows@.len(),
        keys_distinct(rows_view(rows@)) ==> r@.len() == rows@.len(),
{
    let ghost rs = rows_view(rows@);
    let mut out: Vec<Row> = Vec::new();
    let mut i: usize = 0;
    proof {
        lemma_merge_start(rs);
        assert(rows_view(out@) =~= Seq::<RowView>::empty());
    }
    while i < rows.len()
        invariant
            rs == rows_view(rows@),
            i <= rs.len(),
            out@.len() <= i,
            keys_distinct(rs) ==> out@.len() == i,
            merge_step_inv(rs, i as int, rows_view(out@)),
        decreases rs.len() - i,
    {
        let ghost os = rows_view(out@);
        assert(rs[i as int] == rows@[i as int]@);
        let e = find_key(&out, &rows[i]);
        if e < out.len() {
            proof {
                assert(os[e as int] == out@[e as int]@);
                lemma_merge_replace(rs, i as int, os, e as int);
            }
            out.set(e, rows[i].clone());
            assert(rows_view(out@) =~= os.update(e as int, rs[i as int]));
        } else {
            let p = insert_position(&out, &rows[i]);
            proof {
                assert forall|q: int| 0 <= q < os.len() implies key_of(#[trigger] os[q]) != key_of(rs[i as int]) by {
                    assert(os[q] == out@[q]@);
                }
                assert forall|q: int| 0 <= q < p implies key_cmp(key_of(#[trigger] os[q]), key_of(rs[i as int])) < 0 by {
                    assert(os[q] == out@[q]@);
                }
                if p < os.len() {
                    assert(os[p as int] == out@[p as int]@);
                }
                lemma_merge_insert(rs, i as int, os, p as int);
            }
            out.insert(p, rows[i].clone());
            assert(rows_view(out@) =~= os.insert(p as int, rs[i as int]));
        }
        i += 1;
    }
    proof {
        lemma_merge_done(rs, rows_view(out@));
    }
    out
}

/// Output files of `rows`: a row opens a new file when it starts a new series and the
/// current file already holds `limit` rows or more.
pub open spec fn split_spec(rows: Seq<RowView>, limit: nat) -> Seq<Seq<RowView>>
    decreases rows.len(),
{
    if rows.len() == 0 {
        seq![]
    } else {
        let fs = split_spec(rows.drop_last(), limit);
        let x = rows.last();
        if fs.len() == 0 {
            seq![seq![x]]
        } else if series_of(x) != series_of(fs.last().last()) && fs.last().len() >= limit {
            fs.push(seq![x])
        } else {
            fs.update(fs.len() - 1, fs.last().push(x))
        }
    }
}

/// The views of a list of files.
pub open spec fn files_view(v: Seq<Vec<Row>>) -> Seq<Seq<RowView>> {
    v.map_values(|f: Vec<Row>| rows_view(f@))
}

/// Rows of one series stand together in `s`.
pub open spec fn series_contiguous(s: Seq<RowView>) -> bool {
    forall|a: int, b: int, c: int|
        0 <= a < b < c < s.len() && series_of(#[trigger] s[a]) == series_of(#[trigger] s[c]) ==> series_of(#[trigger] s[b]) == series_of(s[a])
}

/// No series has rows in two different files of `fs`.
pub open spec fn series_unsplit(fs: Seq<Seq<RowView>>) -> bool {
    forall|i: int, j: int, a: int, b: int|
        0 <= i < j < fs.len() && 0 <= a < fs[i].len() && 0 <= b < fs[j].len() ==> series_of(#[trigger] fs[i][a]) != series_of(#[trigger] fs[j][b])
}

/// Splits sorted rows into output files: a new file starts only where a new series starts
/// and the current file holds at least `row_limit` rows.
pub fn split_series(rows: &Vec<Row>, row_limit: usize) -> (r: Vec<Vec<Row>>)
    ensures
        files_view(r@) == split_spec(rows_view(rows@), row_limit as nat),
{
    let ghost rs = rows_view(rows@);
    let mut done: Vec<Vec<Row>> = Vec::new();
    let mut cur: Vec<Row> = Vec::new();
    let mut i: usize = 0;
    assert(rs.take(0) =~= Seq::<RowView>::empty());
    while i < rows.len()
        invariant
            rs == rows_view(rows@),
            i <= rs.len(),
            i == 0 <==> cur@.len() == 0,
            i == 0 ==> done@.len() == 0,
            i > 0 ==> split_spec(rs.take(i as int), row_limit as nat) == files_view(done@).push(rows_view(cur@)),
            i > 0 ==> cur@[cur@.len() - 1]@ == rs[i - 1],
        decreases rs.len() - i,
    {
        let ghost pre = rs.take(i as int);
        let ghost x = rs[i as int];
        proof {
            assert(rs.take(i + 1).drop_last() =~= pre);
            assert(rs.take(i + 1).last() == x);
            assert(rows@[i as int]@ == x);
        }
        if cur.len() == 0 {
            cur.push(rows[i].clone());
            proof {
                assert(pre =~= Seq::<RowView>::empty());
                assert(split_spec(pre, row_limit as nat) =~= Seq::<Seq<RowView>>::empty());
                assert(rows_view(cur@) =~= seq![x]);
                assert(files_view(done@).push(rows_view(cur@)) =~= seq![seq![x]]);
            }
        } else if compare_series(&cur[cur.len() - 1], &rows[i]) != 0 && cur.len() >= row_limit {
            proof {
                lemma_tags_cmp_basic(series_of(cur@[cur@.len() - 1]@), series_of(x));
                assert(rows_view(cur@).last() == cur@[cur@.len() - 1]@);
            }
            let ghost fs0 = files_view(done@);
            let mut full: Vec<Row> = Vec::new();
            std::mem::swap(&mut cur, &mut full);
            done.push(full);
            cur.push(rows[i].clone());
            proof {
                assert(files_view(done@) =~= fs0.push(rows_view(full@)));
                assert(rows_view(cur@) =~= seq![x]);
                let fs = split_spec(pre, row_limit as nat);
                assert(fs == fs0.push(rows_view(full@)));
                assert(fs.last() == rows_view(full@));
                assert(fs.last().last() == full@[full@.len() - 1]@);
                assert(split_spec(rs.take(i + 1), row_limit as nat) == fs.push(seq![x]));
            }
        } else {
            proof {
                lemma_tags_cmp_basic(series_of(cur@[cur@.len() - 1]@), series_of(x));
                assert(rows_view(cur@).last() == cur@[cur@.len() - 1]@);
            }
            let ghost c0 = rows_view(cur@);
            cur.push(rows[i].clone());
            proof {
                assert(rows_view(cur@) =~= c0.push(x));
                let fs = files_view(done@).push(c0);
                assert(fs == split_spec(pre, row_limit as nat));
                assert(fs.last() == c0);
                assert(fs.update(fs.len() - 1, fs.last().push(x)) =~= files_view(done@).push(rows_view(cur@)));
            }
        }
        i += 1;
    }
    assert(rs.take(rs.len() as int) =~= rs);
    if cur.len() > 0 {
        done.push(cur);
    } else {
        assert(files_view(done@) =~= Seq::<Seq<RowView>>::empty());
    }
    done
}

/// The files of a split hold the rows, in order, and none is empty.
pub proof fn lemma_split_concat(rows: Seq<RowView>, limit: nat)
    ensures
        concat(split_spec(rows, limit)) == rows,
        forall|i: int| 0 <= i < split_spec(rows, limit).len() ==> (#[trigger] split_spec(rows, limit)[i]).len() > 0,
        rows.len() > 0 ==> split_spec(rows, limit).len() > 0,
    decreases rows.len(),
{
    if rows.len() > 0 {
        let init = rows.drop_last();
        let fs = split_spec(init, limit);
        let x = rows.last();
        lemma_split_concat(init, limit);
        let out = split_spec(rows, limit);
        if fs.len() == 0 {
            assert(init.len() == 0);
            assert(concat(out.drop_last()) =~= Seq::<RowView>::empty());
            assert(rows =~= seq![x]);
        } else if series_of(x) != series_of(fs.last().last()) && fs.last().len() >= limit {
            assert(out.drop_last() =~= fs);
            assert(rows =~= init + seq![x]);
        } else {
            assert(out.drop_last() =~= fs.drop_last());
            assert(out.last() == fs.last().push(x));
            assert(concat(fs) == concat(fs.drop_last()) + fs.last());
            assert(rows =~= init.push(x));
            assert(concat(out) == concat(out.drop_last()) + out.last());
            assert(rows =~= concat(fs.drop_last()) + fs.last().push(x));
        }
    }
}

proof fn lemma_split_members(rows: Seq<RowView>, limit: nat)
    ensures
        forall|i: int, a: int|
            0 <= i < split_spec(rows, limit).len() && 0 <= a < split_spec(rows, limit)[i].len() ==> rows.contains(#[trigger] split_spec(rows, limit)[i][a]),
        split_spec(rows, limit).len() > 0 ==> split_spec(rows, limit).last().len() > 0
            && split_spec(rows, limit).last().last() == rows.last(),
    decreases rows.len(),
{
    if rows.len() > 0 {
        let init = rows.drop_last();
        let fs = split_spec(init, limit);
        let x = rows.last();
        lemma_split_members(init, limit);
        let out = split_spec(rows, limit);
        assert(rows[rows.len() - 1] == x);
        assert forall|i: int, a: int| 0 <= i < out.len() && 0 <= a < out[i].len() implies rows.contains(#[trigger] out[i][a]) by {
            if i < fs.len() && a < fs[i].len() {
                assert(out[i][a] == fs[i][a]);
                let k = choose|k: int| 0 <= k < init.len() && init[k] == fs[i][a];
                assert(rows[k] == init[k]);
            } else {
                assert(out[i][a] == x);
            }
        }
    }
}

/// Where rows of one series stand together, a split never puts one series in two files;
/// moreover the last row's series lies in the last file alone.
pub proof fn lemma_split_keeps_series(rows: Seq<RowView>, limit: nat)
    requires
        series_contiguous(rows),
    ensures
        series_unsplit(split_spec(rows, limit)),
        forall|i: int, a: int|
            0 <= i < split_spec(rows, limit).len() - 1 && 0 <= a < split_spec(rows, limit)[i].len() ==> series_of(#[trigger] split_spec(rows, limit)[i][a]) != series_of(rows.last()),
    decreases rows.len(),
{
    if rows.len() > 0 {
        let init = rows.drop_last();
        let fs = split_spec(init, limit);
        let x = rows.last();
        let n = rows.len();
        assert(series_contiguous(init)) by {
            assert forall|a: int, b: int, c: int| 0 <= a < b < c < init.len() && series_of(#[trigger] init[a]) == series_of(#[trigger] init[c]) implies series_of(#[trigger] init[b]) == series_of(init[a]) by {
                assert(init[a] == rows[a] && init[b] == rows[b] && init[c] == rows[c]);
            }
        }
        lemma_split_keeps_series(init, limit);
        lemma_split_members(init, limit);
        let out = split_spec(rows, limit);
        // a row of `init` outside the series of `init`'s last row is outside x's series too:
        // rows of one series stand together
        assert forall|u: RowView| init.contains(u) && init.len() > 0 && series_of(u) != series_of(init.last()) implies series_of(u) != series_of(x) by {
            let a = choose|a: int| 0 <= a < init.len() && init[a] == u;
            if series_of(u) == series_of(x) {
                assert(rows[a] == u);
                assert(rows[n - 2] == init.last());
                assert(rows[n - 1] == x);
            }
        }
        if fs.len() == 0 {
            assert(out =~= seq![seq![x]]);
        } else if series_of(x) != series_of(fs.last().last()) && fs.last().len() >= limit {
            assert forall|i: int, a: int| 0 <= i < out.len() - 1 && 0 <= a < out[i].len() implies series_of(#[trigger] out[i][a]) != series_of(rows.last()) by {
                assert(out[i] == fs[i]);
                let u = fs[i][a];
                assert(init.contains(u));
                if series_of(u) == series_of(init.last()) {
                    assert(series_of(init.last()) != series_of(x));
                }
            }
            assert forall|i: int, j: int, a: int, b: int| 0 <= i < j < out.len() && 0 <= a < out[i].len() && 0 <= b < out[j].len() implies series_of(#[trigger] out[i][a]) != series_of(#[trigger] out[j][b]) by {
                assert(out[i] == fs[i]);
                if j < fs.len() {
                    assert(out[j] == fs[j]);
                } else {
                    assert(out[j][b] == x);
                }
            }
        } else {
            let last = fs.len() - 1;
            assert forall|i: int, a: int| 0 <= i < out.len() - 1 && 0 <= a < out[i].len() implies series_of(#[trigger] out[i][a]) != series_of(rows.last()) by {
                assert(out[i] == fs[i]);
                let u = fs[i][a];
                assert(init.contains(u));
                assert(series_of(u) != series_of(init.last()));
            }
            assert forall|i: int, j: int, a: int, b: int| 0 <= i < j < out.len() && 0 <= a < out[i].len() && 0 <= b < out[j].len() implies series_of(#[trigger] out[i][a]) != series_of(#[trigger] out[j][b]) by {
                assert(out[i] == fs[i]);
                if j < last {
                    assert(out[j] == fs[j]);
                } else if b < fs[last].len() {
                    assert(out[j][b] == fs[j][b]);
                } else {
                    assert(out[j][b] == x);
                    let u = fs[i][a];
                    assert(init.contains(u));
                    assert(series_of(u) != series_of(init.last()));
                }
            }
        }
    }
}

/// Rows that all belong to one series go to a single file, however many they are.
pub proof fn lemma_single_series_one_file(rows: Seq<RowView>, limit: nat)
    requires
        rows.len() > 0,
        forall|a: int| 0 <= a < rows.len() ==> series_of(#[trigger] rows[a]) == series_of(rows[0]),
    ensures
        split_spec(rows, limit).len() == 1,
    decreases rows.len(),
{
    let init = rows.drop_last();
    if init.len() == 0 {
        assert(split_spec(init, limit) =~= Seq::<Seq<RowView>>::empty());
    }
    if init.len() > 0 {
        assert forall|a: int| 0 <= a < init.len() implies series_of(#[trigger] init[a]) == series_of(init[0]) by {
            assert(init[a] == rows[a]);
            assert(init[0] == rows[0]);
        }
        lemma_single_series_one_file(init, limit);
        lemma_split_members(init, limit);
        assert(series_of(rows.last()) == series_of(rows[0]));
        assert(series_of(init.last()) == series_of(rows[0]));
    }
}

/// Rows sorted by sort key keep each series together.
pub proof fn lemma_sorted_contiguous(s: Seq<RowView>)
    requires
        strictly_sorted(s),
    ensures
        series_contiguous(s),
{
    assert forall|a: int, b: int, c: int| 0 <= a < b < c < s.len() && series_of(#[trigger] s[a]) == series_of(#[trigger] s[c]) implies series_of(#[trigger] s[b]) == series_of(s[a]) by {
        assert(key_cmp(key_of(s[a]), key_of(s[b])) < 0);
        assert(key_cmp(key_of(s[b]), key_of(s[c])) < 0);
        lemma_tags_cmp_basic(series_of(s[a]), series_of(s[b]));
        lemma_tags_cmp_basic(series_of(s[b]), series_of(s[c]));
        lemma_tags_cmp_basic(series_of(s[a]), series_of(s[c]));
        if tags_cmp(series_of(s[a]), series_of(s[b])) <= 0 && tags_cmp(series_of(s[b]), series_of(s[c])) <= 0 {
            lemma_tags_cmp_trans(series_of(s[a]), series_of(s[b]), series_of(s[c]));
        }
    }
}

/// What one compaction produced: the output files, in order, and their index.
#[derive(Debug)]
pub struct CompactorOutput {
    pub files: Vec<Vec<Row>>,
    pub file_index: FileIndex,
}

/// `out` and `idx` are the compaction of `all` (the rows of the chunks, oldest first):
/// sorted by sort key with one row per key, the latest; split without splitting a series;
/// indexed exactly.
pub open spec fn is_compaction(
    all: Seq<RowView>,
    out: Seq<Seq<RowView>>,
    idx: Seq<(Seq<char>, Seq<u8>, usize)>,
    row_limit: nat,
    cols: Seq<(Seq<char>, ColumnRef)>,
) -> bool {
    &&& is_merged(all, concat(out))
    &&& out == split_spec(concat(out), row_limit)
    &&& series_unsplit(out)
    &&& forall|i: int| 0 <= i < out.len() ==> (#[trigger] out[i]).len() > 0
    &&& concat(out).len() <= all.len()
    &&& keys_distinct(all) ==> concat(out).len() == all.len()
    &&& indexes_exactly(idx, out, cols)
}

/// Compacts the rows of input chunks, oldest chunk first: rows are sorted by sort key, a key
/// keeps the row of the latest chunk that has it, the result is split into files without
/// splitting a series, and the indexed columns of each file are recorded.
pub fn compact_rows(chunks: &Vec<Vec<Row>>, row_limit: usize, index_columns: &Vec<IndexColumn>) -> (r:
    CompactorOutput)
    ensures
        is_compaction(
            concat(chunks@.map_values(|c: Vec<Row>| rows_view(c@))),
            files_view(r.files@),
            r.file_index@,
            row_limit as nat,
            cols_view(index_columns@),
        ),
{
    let rows = concat_rows(chunks);
    let merged = sort_dedup(&rows);
    let files = split_series(&merged, row_limit);
    proof {
        let mv = rows_view(merged@);
        lemma_split_concat(mv, row_limit as nat);
        lemma_sorted_contiguous(mv);
        lemma_split_keeps_series(mv, row_limit as nat);
    }
    let file_index = build_file_index(&files, index_columns);
    CompactorOutput { files, file_index }
}

} // verus!
