//! The file index: which output files hold a value in an indexed column.
use vstd::prelude::*;
use vstd::slice::slice_to_vec;
use vstd::utf8::encode_utf8;
use crate::order::{compare_bytes, lemma_bytes_cmp_basic};
use crate::render::{column_text, render_column, ColumnRef};
use crate::compactor::files_view;
use crate::rows::{rows_view, Row, RowView};

verus! {

/// A column the index records, under its name.
#[derive(Debug)]
pub struct IndexColumn {
    pub name: String,
    pub column: ColumnRef,
}

impl View for IndexColumn {
    type V = (Seq<char>, ColumnRef);

    open spec fn view(&self) -> (Seq<char>, ColumnRef) {
        (self.name@, self.column)
    }
}

pub open spec fn cols_view(cols: Seq<IndexColumn>) -> Seq<(Seq<char>, ColumnRef)> {
    cols.map_values(|c: IndexColumn| c@)
}

/// `(column name, canonical text)` of each indexed column of a row.
pub open spec fn row_obs(r: RowView, cols: Seq<(Seq<char>, ColumnRef)>) -> Seq<(Seq<char>, Seq<u8>)> {
    cols.map_values(|c: (Seq<char>, ColumnRef)| (c.0, column_text(r, c.1)))
}

/// `(column name, canonical text)` of each indexed column of each row, row after row.
pub open spec fn file_obs(rows: Seq<RowView>, cols: Seq<(Seq<char>, ColumnRef)>) -> Seq<(Seq<char>, Seq<u8>)>
    decreases rows.len(),
{
    if rows.len() == 0 {
        seq![]
    } else {
        file_obs(rows.drop_last(), cols) + row_obs(rows.last(), cols)
    }
}

/// Some row of `rows` has text `v` in an indexed column named `name`.
pub open spec fn holds_value(
    rows: Seq<RowView>,
    cols: Seq<(Seq<char>, ColumnRef)>,
    name: Seq<char>,
    v: Seq<u8>,
) -> bool {
    exists|r: int, k: int|
        0 <= r < rows.len() && 0 <= k < cols.len() && (#[trigger] cols[k]).0 == name && column_text(#[trigger] rows[r], cols[k].1) == v
}

pub proof fn lemma_file_obs(rows: Seq<RowView>, cols: Seq<(Seq<char>, ColumnRef)>, name: Seq<char>, v: Seq<u8>)
    ensures
        file_obs(rows, cols).contains((name, v)) <==> holds_value(rows, cols, name, v),
    decreases rows.len(),
{
    if rows.len() > 0 {
        let init = rows.drop_last();
        let last = rows.last();
        lemma_file_obs(init, cols, name, v);
        let a = file_obs(init, cols);
        let b = row_obs(last, cols);
        let all = file_obs(rows, cols);
        assert(all == a + b);
        if all.contains((name, v)) {
            let i = choose|i: int| 0 <= i < all.len() && all[i] == (name, v);
            if i < a.len() {
                assert(a[i] == all[i]);
                assert(a.contains((name, v)));
                let (r, k) = choose|r: int, k: int|
                    0 <= r < init.len() && 0 <= k < cols.len() && (#[trigger] cols[k]).0 == name && column_text(#[trigger] init[r], cols[k].1) == v;
                assert(rows[r] == init[r]);
            } else {
                assert(b[i - a.len()] == all[i]);
                assert(rows[rows.len() - 1] == last);
                assert(cols[i - a.len()].0 == name && column_text(rows[rows.len() - 1], cols[i - a.len()].1) == v);
            }
        }
        if holds_value(rows, cols, name, v) {
            let (r, k) = choose|r: int, k: int|
                0 <= r < rows.len() && 0 <= k < cols.len() && (#[trigger] cols[k]).0 == name && column_text(#[trigger] rows[r], cols[k].1) == v;
            if r < rows.len() - 1 {
                assert(init[r] == rows[r]);
                assert(holds_value(init, cols, name, v));
                let i = choose|i: int| 0 <= i < a.len() && a[i] == (name, v);
                assert(all[i] == a[i]);
            } else {
                assert(b[k] == (name, v));
                assert(all[a.len() + k] == b[k]);
            }
        }
    }
}

/// One recorded occurrence: file `file` holds `value` in column `column`.
#[derive(Debug)]
pub struct Posting {
    pub column: String,
    pub value: Vec<u8>,
    pub file: usize,
}

impl View for Posting {
    type V = (Seq<char>, Seq<u8>, usize);

    open spec fn view(&self) -> (Seq<char>, Seq<u8>, usize) {
        (self.column@, self.value@, self.file)
    }
}

pub open spec fn postings_view(ps: Seq<Posting>) -> Seq<(Seq<char>, Seq<u8>, usize)> {
    ps.map_values(|p: Posting| p@)
}

/// Index from `(column, canonical text)` to the output files that hold it.
#[derive(Debug)]
pub struct FileIndex {
    postings: Vec<Posting>,
}

impl View for FileIndex {
    type V = Seq<(Seq<char>, Seq<u8>, usize)>;

    closed spec fn view(&self) -> Seq<(Seq<char>, Seq<u8>, usize)> {
        postings_view(self.postings@)
    }
}

/// For one `(column, text)` the files come in ascending order.
pub open spec fn postings_ordered(ps: Seq<(Seq<char>, Seq<u8>, usize)>) -> bool {
    forall|a: int, b: int|
        0 <= a < b < ps.len() && (#[trigger] ps[a]).0 == (#[trigger] ps[b]).0 && ps[a].1 == ps[b].1 ==> ps[a].2 < ps[b].2
}

/// What the index built over `files` and `cols` records: exactly the files with a row
/// that has text `v` in an indexed column named `name`.
pub open spec fn indexes_exactly(
    idx: Seq<(Seq<char>, Seq<u8>, usize)>,
    files: Seq<Seq<RowView>>,
    cols: Seq<(Seq<char>, ColumnRef)>,
) -> bool {
    &&& postings_ordered(idx)
    &&& forall|name: Seq<char>, v: Seq<u8>, o: usize|
        #[trigger] idx.contains((name, v, o)) <==> (o < files.len() && holds_value(files[o as int], cols, name, v))
}

impl FileIndex {
    /// The files, ascending, that hold `value` in the column named `column`.
    pub fn lookup(&self, column: &str, value: &str) -> (r: Vec<usize>)
        requires
            postings_ordered(self@),
        ensures
            forall|o: usize| r@.contains(o) <==> self@.contains((column@, encode_utf8(value@), o)),
            forall|i: int, j: int| 0 <= i < j < r@.len() ==> r@[i] < r@[j],
    {
        let name = column.to_owned();
        let bytes = value.as_bytes();
        let ghost ps = self@;
        let ghost key = (column@, encode_utf8(value@));
        let mut r: Vec<usize> = Vec::new();
        let mut i: usize = 0;
        while i < self.postings.len()
            invariant
                ps == self@,
                postings_ordered(ps),
                ps.len() == self.postings@.len(),
                i <= ps.len(),
                key == (name@, bytes@),
                forall|o: usize| r@.contains(o) <==> exists|a: int| 0 <= a < i && #[trigger] ps[a] == (key.0, key.1, o),
                forall|x: int, y: int| 0 <= x < y < r@.len() ==> r@[x] < r@[y],
                forall|x: int| #![trigger r@[x]] 0 <= x < r@.len() ==> exists|a: int| 0 <= a < i && #[trigger] ps[a] == (key.0, key.1, r@[x]),
            decreases ps.len() - i,
        {
            let p = &self.postings[i];
            assert(ps[i as int] == p@);
            let c = compare_bytes(p.value.as_slice(), bytes);
            proof {
                lemma_bytes_cmp_basic(p.value@, bytes@);
            }
            if p.column == name && c == 0 {
                proof {
                    assert forall|x: int| 0 <= x < r@.len() implies r@[x] < p.file by {
                        let a = choose|a: int| 0 <= a < i && #[trigger] ps[a] == (key.0, key.1, r@[x]);
                    }
                }
                let ghost before = r@;
                r.push(p.file);
                proof {
                    assert forall|o: usize| r@.contains(o) <==> exists|a: int| 0 <= a < i + 1 && #[trigger] ps[a] == (key.0, key.1, o) by {
                        if r@.contains(o) {
                            let x = choose|x: int| 0 <= x < r@.len() && r@[x] == o;
                            if x < before.len() {
                                assert(before.contains(o));
                            } else {
                                assert(ps[i as int] == (key.0, key.1, o));
                            }
                        }
                        if exists|a: int| 0 <= a < i + 1 && #[trigger] ps[a] == (key.0, key.1, o) {
                            let a = choose|a: int| 0 <= a < i + 1 && #[trigger] ps[a] == (key.0, key.1, o);
                            if a < i {
                                assert(before.contains(o));
                                let x = choose|x: int| 0 <= x < before.len() && before[x] == o;
                                assert(r@[x] == o);
                            } else {
                                assert(r@[before.len() as int] == o);
                            }
                        }
                    }
                    assert forall|x: int| #![trigger r@[x]] 0 <= x < r@.len() implies exists|a: int| 0 <= a < i + 1 && #[trigger] ps[a] == (key.0, key.1, r@[x]) by {
                        if x < before.len() {
                            let a = choose|a: int| 0 <= a < i && #[trigger] ps[a] == (key.0, key.1, before[x]);
                        } else {
                            assert(ps[i as int] == (key.0, key.1, r@[x]));
                        }
                    }
                }
            } else {
                proof {
                    assert forall|o: usize| r@.contains(o) <==> exists|a: int| 0 <= a < i + 1 && #[trigger] ps[a] == (key.0, key.1, o) by {
                        if exists|a: int| 0 <= a < i + 1 && #[trigger] ps[a] == (key.0, key.1, o) {
                            let a = choose|a: int| 0 <= a < i + 1 && #[trigger] ps[a] == (key.0, key.1, o);
                            if a == i {
                                assert(ps[a] != (key.0, key.1, o));
                            }
                        }
                    }
                }
            }
            i += 1;
        }
        proof {
            assert forall|o: usize| r@.contains(o) <==> ps.contains((key.0, key.1, o)) by {
                if ps.contains((key.0, key.1, o)) {
                    let a = choose|a: int| 0 <= a < ps.len() && ps[a] == (key.0, key.1, o);
                }
            }
        }
        r
    }
}

pub open spec fn obs_view(v: Seq<(String, Vec<u8>)>) -> Seq<(Seq<char>, Seq<u8>)> {
    v.map_values(|p: (String, Vec<u8>)| (p.0@, p.1@))
}

/// `(name, text)` of each indexed column of each row of `file`, row after row.
fn observations(file: &Vec<Row>, cols: &Vec<IndexColumn>) -> (r: Vec<(String, Vec<u8>)>)
    ensures
        obs_view(r@) == file_obs(rows_view(file@), cols_view(cols@)),
{
    let ghost rs = rows_view(file@);
    let ghost cv = cols_view(cols@);
    let mut out: Vec<(String, Vec<u8>)> = Vec::new();
    let mut i: usize = 0;
    while i < file.len()
        invariant
            rs == rows_view(file@),
            cv == cols_view(cols@),
            i <= rs.len(),
            obs_view(out@) == file_obs(rs.take(i as int), cv),
        decreases rs.len() - i,
    {
        let ghost base = obs_view(out@);
        let row = &file[i];
        let mut k: usize = 0;
        while k < cols.len()
            invariant
                cv == cols_view(cols@),
                k <= cv.len(),
                obs_view(out@) == base + row_obs(row@, cv).take(k as int),
            decreases cv.len() - k,
        {
            let ghost before = out@;
            let text = render_column(row, cols[k].column);
            out.push((cols[k].name.clone(), text));
            proof {
                assert(obs_view(out@) =~= obs_view(before).push((cv[k as int].0, column_text(row@, cv[k as int].1))));
                assert(row_obs(row@, cv).take(k + 1) =~= row_obs(row@, cv).take(k as int).push(row_obs(row@, cv)[k as int]));
            }
            k += 1;
        }
        proof {
            assert(row_obs(row@, cv).take(cv.len() as int) =~= row_obs(row@, cv));
            assert(rs.take(i + 1).drop_last() =~= rs.take(i as int));
            assert(rs.take(i + 1).last() == row@);
        }
        i += 1;
    }
    assert(rs.take(rs.len() as int) =~= rs);
    out
}

/// Whether `ps` records `(name, v, o)`.
fn has_posting(ps: &Vec<Posting>, name: &String, v: &Vec<u8>, o: usize) -> (r: bool)
    ensures
        r == postings_view(ps@).contains((name@, v@, o)),
{
    let ghost pv = postings_view(ps@);
    let mut i: usize = 0;
    while i < ps.len()
        invariant
            pv == postings_view(ps@),
            i <= pv.len(),
            forall|a: int| 0 <= a < i ==> pv[a] != (name@, v@, o),
        decreases pv.len() - i,
    {
        let p = &ps[i];
        assert(pv[i as int] == p@);
        let c = compare_bytes(p.value.as_slice(), v.as_slice());
        proof {
            lemma_bytes_cmp_basic(p.value@, v@);
        }
        if p.file == o && p.column == *name && c == 0 {
            return true;
        }
        i += 1;
    }
    false
}

/// Builds the index of `files`: for each indexed column, each text that a row of a file
/// has there is recorded with that file's position.
pub fn build_file_index(files: &Vec<Vec<Row>>, cols: &Vec<IndexColumn>) -> (r: FileIndex)
    ensures
        indexes_exactly(r@, files_view(files@), cols_view(cols@)),
{
    let ghost fv = files_view(files@);
    let ghost cv = cols_view(cols@);
    let mut postings: Vec<Posting> = Vec::new();
    let mut o: usize = 0;
    while o < files.len()
        invariant
            fv == files_view(files@),
            cv == cols_view(cols@),
            o <= fv.len(),
            postings_ordered(postings_view(postings@)),
            forall|a: int| 0 <= a < postings@.len() ==> (#[trigger] postings@[a]).file < o,
            forall|name: Seq<char>, v: Seq<u8>, o2: usize|
                #[trigger] postings_view(postings@).contains((name, v, o2)) <==> (o2 < o && file_obs(fv[o2 as int], cv).contains((name, v))),
        decreases fv.len() - o,
    {
        let obs = observations(&files[o], cols);
        let ghost ob = obs_view(obs@);
        assert(ob == file_obs(fv[o as int], cv));
        let mut j: usize = 0;
        while j < obs.len()
            invariant
                fv == files_view(files@),
                cv == cols_view(cols@),
                o < fv.len(),
                ob == obs_view(obs@),
                ob == file_obs(fv[o as int], cv),
                j <= ob.len(),
                postings_ordered(postings_view(postings@)),
                forall|a: int| 0 <= a < postings@.len() ==> (#[trigger] postings@[a]).file <= o,
                forall|name: Seq<char>, v: Seq<u8>, o2: usize|
                    #[trigger] postings_view(postings@).contains((name, v, o2)) <==> ((o2 < o && file_obs(fv[o2 as int], cv).contains((name, v))) || (o2 == o && ob.take(j as int).contains((name, v)))),
            decreases ob.len() - j,
        {
            let ghost pv = postings_view(postings@);
            let (name, value) = (&obs[j].0, &obs[j].1);
            assert(ob[j as int] == (name@, value@));
            assert(ob.take(j + 1) =~= ob.take(j as int).push((name@, value@)));
            if !has_posting(&postings, name, value, o) {
                postings.push(Posting { column: name.clone(), value: slice_to_vec(value.as_slice()), file: o });
                proof {
                    let nv = postings_view(postings@);
                    assert(nv =~= pv.push((name@, value@, o)));
                    assert forall|a: int, b: int| 0 <= a < b < nv.len() && (#[trigger] nv[a]).0 == (#[trigger] nv[b]).0 && nv[a].1 == nv[b].1 implies nv[a].2 < nv[b].2 by {
                        if b == nv.len() - 1 {
                            assert(nv[a] == pv[a]);
                            assert(pv[a].2 == postings@[a].file);
                            if pv[a].2 == o {
                                assert(pv.contains((name@, value@, o)));
                            }
                        } else {
                            assert(nv[a] == pv[a] && nv[b] == pv[b]);
                        }
                    }
                    assert forall|name2: Seq<char>, v2: Seq<u8>, o2: usize| #[trigger] nv.contains((name2, v2, o2)) <==> ((o2 < o && file_obs(fv[o2 as int], cv).contains((name2, v2))) || (o2 == o && ob.take(j + 1).contains((name2, v2)))) by {
                        if nv.contains((name2, v2, o2)) && !pv.contains((name2, v2, o2)) {
                            let a = choose|a: int| 0 <= a < nv.len() && nv[a] == (name2, v2, o2);
                            if a < pv.len() {
                                assert(pv[a] == nv[a]);
                            }
                            assert(ob.take(j + 1)[j as int] == (name2, v2));
                        }
                        if pv.contains((name2, v2, o2)) {
                            let a = choose|a: int| 0 <= a < pv.len() && pv[a] == (name2, v2, o2);
                            assert(nv[a] == pv[a]);
                        }
                        if o2 == o && ob.take(j + 1).contains((name2, v2)) && !ob.take(j as int).contains((name2, v2)) {
                            let q = choose|q: int| 0 <= q < j + 1 && #[trigger] ob.take(j + 1)[q] == (name2, v2);
                            if q < j {
                                assert(ob.take(j as int)[q] == (name2, v2));
                            }
                            assert(nv[nv.len() - 1] == (name2, v2, o2));
                        }
                    }
                    assert forall|a: int| 0 <= a < postings@.len() implies (#[trigger] postings@[a]).file <= o by {
                        if a < pv.len() {
                            assert(postings@[a]@ == nv[a]);
                            assert(nv[a] == pv[a]);
                        }
                    }
                }
            } else {
                proof {
                    assert forall|name2: Seq<char>, v2: Seq<u8>, o2: usize| #[trigger] pv.contains((name2, v2, o2)) <==> ((o2 < o && file_obs(fv[o2 as int], cv).contains((name2, v2))) || (o2 == o && ob.take(j + 1).contains((name2, v2)))) by {
                        if o2 == o && ob.take(j + 1).contains((name2, v2)) && !ob.take(j as int).contains((name2, v2)) {
                            let q = choose|q: int| 0 <= q < j + 1 && #[trigger] ob.take(j + 1)[q] == (name2, v2);
                            if q < j {
                                assert(ob.take(j as int)[q] == (name2, v2));
                            }
                        }
                    }
                }
            }
            j += 1;
        }
        proof {
            assert(ob.take(ob.len() as int) =~= ob);
        }
        o += 1;
    }
    let r = FileIndex { postings };
    proof {
        assert forall|name: Seq<char>, v: Seq<u8>, o2: usize| #[trigger] r@.contains((name, v, o2)) <==> (o2 < fv.len() && holds_value(fv[o2 as int], cv, name, v)) by {
            if o2 < fv.len() {
                lemma_file_obs(fv[o2 as int], cv, name, v);
            }
        }
    }
    r
}

} // verus!
