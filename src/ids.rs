//! Sorting and membership over lists of generation ids.
use vstd::prelude::*;
use crate::generation::{gen_le, gens_sorted, Generation, GenerationId};

verus! {

broadcast use vstd::seq_lib::group_to_multiset_ensures;

/// Ids in ascending order.
pub open spec fn ids_sorted(s: Seq<GenerationId>) -> bool {
    forall|i: int, j: int| 0 <= i < j < s.len() ==> (#[trigger] s[i]).0 <= (#[trigger] s[j]).0
}

/// Whether `id` occurs in `v`.
pub fn contains_id(v: &Vec<GenerationId>, id: GenerationId) -> (r: bool)
    ensures
        r == v@.contains(id),
{
    let mut i: usize = 0;
    while i < v.len()
        invariant
            i <= v@.len(),
            forall|k: int| 0 <= k < i ==> v@[k] != id,
        decreases v@.len() - i,
    {
        if v[i].0 == id.0 {
            return true;
        }
        i += 1;
    }
    false
}

proof fn lemma_insert_multiset<A>(s: Seq<A>, i: int, x: A)
    requires
        0 <= i <= s.len(),
    ensures
        s.insert(i, x).to_multiset() =~= s.to_multiset().insert(x),
{
    let t = s.insert(i, x);
    assert(t.remove(i) =~= s);
    assert(t[i] == x);
    assert(t.contains(x));
}

/// Sorts ids ascending; the same ids, each as often, come out.
pub fn sort_ids(v: Vec<GenerationId>) -> (r: Vec<GenerationId>)
    ensures
        ids_sorted(r@),
        r@.to_multiset() == v@.to_multiset(),
{
    let mut out: Vec<GenerationId> = Vec::new();
    let mut i: usize = 0;
    while i < v.len()
        invariant
            i <= v@.len(),
            ids_sorted(out@),
            out@.to_multiset() == v@.take(i as int).to_multiset(),
        decreases v@.len() - i,
    {
        let x = v[i];
        let mut p: usize = 0;
        while p < out.len() && out[p].0 <= x.0
            invariant
                p <= out@.len(),
                forall|k: int| 0 <= k < p ==> (#[trigger] out@[k]).0 <= x.0,
            decreases out@.len() - p,
        {
            p += 1;
        }
        proof {
            lemma_insert_multiset(out@, p as int, x);
            assert(v@.take(i + 1) =~= v@.take(i as int).push(x));
        }
        out.insert(p, x);
        i += 1;
    }
    proof {
        assert(v@.take(v@.len() as int) =~= v@);
    }
    out
}

/// Sorts generations by block start, then id; the same generations, each as often, come out.
pub fn sort_generations(v: Vec<Generation>) -> (r: Vec<Generation>)
    ensures
        gens_sorted(r@),
        r@.to_multiset() == v@.to_multiset(),
{
    let mut out: Vec<Generation> = Vec::new();
    let mut i: usize = 0;
    while i < v.len()
        invariant
            i <= v@.len(),
            gens_sorted(out@),
            out@.to_multiset() == v@.take(i as int).to_multiset(),
        decreases v@.len() - i,
    {
        let x = v[i];
        let mut p: usize = 0;
        while p < out.len() && (out[p].start_time_secs < x.start_time_secs || (out[p].start_time_secs
            == x.start_time_secs && out[p].id.0 <= x.id.0))
            invariant
                p <= out@.len(),
                forall|k: int| 0 <= k < p ==> gen_le(#[trigger] out@[k], x),
            decreases out@.len() - p,
        {
            p += 1;
        }
        proof {
            lemma_insert_multiset(out@, p as int, x);
            assert(v@.take(i + 1) =~= v@.take(i as int).push(x));
        }
        out.insert(p, x);
        i += 1;
    }
    proof {
        assert(v@.take(v@.len() as int) =~= v@);
    }
    out
}

/// Whether id `d` is among `ids`.
pub open spec fn has_id(ids: Seq<GenerationId>, d: u64) -> bool {
    ids.contains(GenerationId(d))
}

/// The least id that is not among `ids`.
pub open spec fn least_missing(ids: Seq<GenerationId>) -> u64 {
    choose|c: u64| !has_id(ids, c) && forall|d: u64| d < c ==> #[trigger] has_id(ids, d)
}

/// The least id that is not among `ids`.
pub fn least_missing_id(ids: Vec<GenerationId>) -> (r: u64)
    ensures
        !has_id(ids@, r),
        forall|d: u64| d < r ==> #[trigger] has_id(ids@, d),
        r == least_missing(ids@),
{
    let ghost orig = ids@;
    let s = sort_ids(ids);
    let mut c: u64 = 0;
    let mut i: usize = 0;
    let mut past: bool = false;
    while i < s.len() && !past
        invariant
            ids_sorted(s@),
            i <= s@.len(),
            past ==> i < s@.len() && s@[i as int].0 > c,
            c <= i,
            forall|d: u64| d < c ==> #[trigger] has_id(s@, d),
            forall|k: int| 0 <= k < i ==> (#[trigger] s@[k]).0 < c,
        decreases s@.len() - i + if past { 0int } else { 1int },
    {
        let x = s[i].0;
        if x > c {
            past = true;
        } else if x == c {
            proof {
                assert forall|d: u64| d < c + 1 implies #[trigger] has_id(s@, d) by {
                    if d == c {
                        assert(s@[i as int] == GenerationId(d));
                    }
                }
            }
            c = c + 1;
            i += 1;
        } else {
            i += 1;
        }
    }
    proof {
        if has_id(s@, c) {
            let k = choose|k: int| 0 <= k < s@.len() && s@[k] == GenerationId(c);
            if k >= i {
                assert(s@[i as int].0 <= s@[k].0);
            }
        }
        assert forall|d: u64| #[trigger] has_id(orig, d) == has_id(s@, d) by {
            assert(orig.to_multiset().count(GenerationId(d)) == s@.to_multiset().count(GenerationId(d)));
        }
        let w = least_missing(orig);
        assert(!has_id(orig, c) && forall|d: u64| d < c ==> #[trigger] has_id(orig, d));
        assert(!has_id(orig, w) && forall|d: u64| d < w ==> #[trigger] has_id(orig, d));
        if w < c {
            assert(has_id(orig, w));
        }
        if c < w {
            assert(has_id(orig, c));
        }
    }
    c
}

} // verus!
