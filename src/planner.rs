//! Chooses which gen1 generations of one table are merged into a gen2 generation.
use vstd::prelude::*;
use crate::generation::{
    clamp_i64, CompactionConfig, Generation, GenerationId, GenerationLevel, NANOS_PER_SEC,
};
use crate::generation::{block_start, gens_sorted, MAX_DURATION_SECS};
use crate::ids::{contains_id, has_id, ids_sorted, least_missing, least_missing_id, sort_generations, sort_ids};
use crate::registry::{
    gen1_generation, newer_than, next_after, CompactedData, EntryView, ParquetFile,
    ParquetFileView, RegistryView,
};

verus! {

broadcast use vstd::seq_lib::group_to_multiset_ensures;

/// Number of gen1 generations at the head of `s`, before the first higher level.
pub open spec fn leading_gen1_count(s: Seq<Generation>) -> nat
    decreases s.len(),
{
    if s.len() == 0 {
        0
    } else if s[0].level.0 < 2 {
        1 + leading_gen1_count(s.subrange(1, s.len() as int))
    } else {
        0
    }
}

/// The gen1 generations at the head of `s`.
pub open spec fn leading_gen1(s: Seq<Generation>) -> Seq<Generation> {
    s.take(leading_gen1_count(s) as int)
}

/// The level-2 block that a generation falls in.
pub open spec fn bucket_of(cfg: CompactionConfig, g: Generation) -> int {
    cfg.spec_start_time(2, g.start_time_secs as int)
}

/// How many generations of `s` fall in block `b`.
pub open spec fn bucket_count(cfg: CompactionConfig, s: Seq<Generation>, b: int) -> nat
    decreases s.len(),
{
    if s.len() == 0 {
        0
    } else {
        bucket_count(cfg, s.drop_last(), b) + if bucket_of(cfg, s.last()) == b {
            1nat
        } else {
            0nat
        }
    }
}

/// Ids, in order, of the generations of `s` that fall in block `b`.
pub open spec fn ids_in_bucket(cfg: CompactionConfig, s: Seq<Generation>, b: int) -> Seq<
    GenerationId,
>
    decreases s.len(),
{
    if s.len() == 0 {
        seq![]
    } else if bucket_of(cfg, s.last()) == b {
        ids_in_bucket(cfg, s.drop_last(), b).push(s.last().id)
    } else {
        ids_in_bucket(cfg, s.drop_last(), b)
    }
}

/// Ids, in order, of the generations of `s`.
pub open spec fn ids_of(s: Seq<Generation>) -> Seq<GenerationId> {
    s.map_values(|g: Generation| g.id)
}

/// Ids, in order, of the gen1 generations of `s` whose id is not in `taken`.
pub open spec fn gen1_ids_except(s: Seq<Generation>, taken: Seq<GenerationId>) -> Seq<
    GenerationId,
>
    decreases s.len(),
{
    if s.len() == 0 {
        seq![]
    } else if s.last().level.0 < 2 && !taken.contains(s.last().id) {
        gen1_ids_except(s.drop_last(), taken).push(s.last().id)
    } else {
        gen1_ids_except(s.drop_last(), taken)
    }
}

/// Block `b` holds at least two of the generations of `lead`.
pub open spec fn qualifies(cfg: CompactionConfig, lead: Seq<Generation>, b: int) -> bool {
    bucket_count(cfg, lead, b) >= 2
}

/// `b` is the newest block that holds at least two of the generations of `lead`.
pub open spec fn is_newest_full_bucket(cfg: CompactionConfig, lead: Seq<Generation>, b: int) -> bool {
    &&& qualifies(cfg, lead, b)
    &&& exists|i: int| 0 <= i < lead.len() && bucket_of(cfg, #[trigger] lead[i]) == b
    &&& forall|i: int|
        0 <= i < lead.len() && qualifies(cfg, lead, bucket_of(cfg, #[trigger] lead[i]))
            ==> bucket_of(cfg, lead[i]) <= b
}

/// The newest block with at least two of the generations of `lead`, if any.
pub open spec fn newest_full_bucket(cfg: CompactionConfig, lead: Seq<Generation>) -> Option<int> {
    if exists|b: int| is_newest_full_bucket(cfg, lead, b) {
        Some(choose|b: int| is_newest_full_bucket(cfg, lead, b))
    } else {
        None
    }
}

/// Exclusive end, in nanoseconds, of a gen2 block that starts at `b` seconds.
pub open spec fn gen2_max_time(cfg: CompactionConfig, b: int) -> int {
    match cfg.spec_duration(2) {
        Some(d) => clamp_i64((b + d) * NANOS_PER_SEC),
        None => clamp_i64(b * NANOS_PER_SEC),
    }
}

/// A plan that only records gen1 generations still waiting for a merge.
#[derive(Debug)]
pub struct LeftoverPlan {
    pub db_name: String,
    pub table_name: String,
    pub leftover_gen1_ids: Vec<GenerationId>,
}

/// A plan that merges `input_ids` into `output_generation`.
#[derive(Debug)]
pub struct NextCompactionPlan {
    pub db_name: String,
    pub table_name: String,
    pub output_generation: Generation,
    /// The gen1 generations merged by this plan, ascending.
    pub input_ids: Vec<GenerationId>,
    /// The gen1 generations left for a later round, ascending.
    pub leftover_ids: Vec<GenerationId>,
}

/// What the planner decided for one table.
#[derive(Debug)]
pub enum CompactionPlan {
    LeftoverOnly(LeftoverPlan),
    Compaction(NextCompactionPlan),
}

impl CompactionPlan {
    pub open spec fn spec_db_name(&self) -> Seq<char> {
        match self {
            CompactionPlan::LeftoverOnly(p) => p.db_name@,
            CompactionPlan::Compaction(p) => p.db_name@,
        }
    }

    pub open spec fn spec_table_name(&self) -> Seq<char> {
        match self {
            CompactionPlan::LeftoverOnly(p) => p.table_name@,
            CompactionPlan::Compaction(p) => p.table_name@,
        }
    }

    pub fn db_name(&self) -> (r: &str)
        ensures
            r@ == self.spec_db_name(),
    {
        match self {
            CompactionPlan::LeftoverOnly(p) => p.db_name.as_str(),
            CompactionPlan::Compaction(p) => p.db_name.as_str(),
        }
    }

    pub fn table_name(&self) -> (r: &str)
        ensures
            r@ == self.spec_table_name(),
    {
        match self {
            CompactionPlan::LeftoverOnly(p) => p.table_name.as_str(),
            CompactionPlan::Compaction(p) => p.table_name.as_str(),
        }
    }
}

/// What `create_gen1_plan` returns for `gens`, stated over the plan's parts.
pub open spec fn is_gen1_plan(
    cfg: CompactionConfig,
    db: Seq<char>,
    table: Seq<char>,
    gens: Seq<Generation>,
    output_id: GenerationId,
    plan: CompactionPlan,
) -> bool {
    let lead = leading_gen1(gens);
    &&& plan.spec_db_name() == db
    &&& plan.spec_table_name() == table
    &&& match newest_full_bucket(cfg, lead) {
        None => plan matches CompactionPlan::LeftoverOnly(p) && p.leftover_gen1_ids@ == ids_of(
            lead,
        ),
        Some(b) => plan matches CompactionPlan::Compaction(p) && {
            &&& p.output_generation == Generation {
                id: output_id,
                level: GenerationLevel(2),
                start_time_secs: b as i64,
                max_time: gen2_max_time(cfg, b) as i64,
            }
            &&& ids_sorted(p.input_ids@)
            &&& p.input_ids@.to_multiset() == ids_in_bucket(cfg, lead, b).to_multiset()
            &&& ids_sorted(p.leftover_ids@)
            &&& p.leftover_ids@.to_multiset() == gen1_ids_except(
                gens,
                ids_in_bucket(cfg, lead, b),
            ).to_multiset()
        },
    }
}

proof fn lemma_leading_count(s: Seq<Generation>, n: int)
    requires
        0 <= n <= s.len(),
        forall|i: int| 0 <= i < n ==> (#[trigger] s[i]).level.0 < 2,
        n == s.len() || s[n].level.0 >= 2,
    ensures
        leading_gen1_count(s) == n,
    decreases n,
{
    if n > 0 {
        let t = s.subrange(1, s.len() as int);
        assert forall|i: int| 0 <= i < n - 1 implies (#[trigger] t[i]).level.0 < 2 by {
            assert(t[i] == s[i + 1]);
        }
        if n < s.len() {
            assert(t[n - 1] == s[n]);
        }
        lemma_leading_count(t, n - 1);
    }
}

/// Creates the plan for one table: the newest level-2 block holding at least two of the
/// leading gen1 generations is merged into a gen2 generation with id `output_id`; where no
/// block qualifies, the leading gen1 generations are only recorded as leftovers.
pub fn create_gen1_plan(
    compaction_config: &CompactionConfig,
    db_name: String,
    table_name: String,
    generations: &Vec<Generation>,
    output_id: GenerationId,
) -> (r: CompactionPlan)
    requires
        compaction_config.wf(),
    ensures
        is_gen1_plan(*compaction_config, db_name@, table_name@, generations@, output_id, r),
{
    let ghost cfg = *compaction_config;
    let ghost gs = generations@;
    // the leading gen1 slice
    let mut n: usize = 0;
    while n < generations.len() && generations[n].level.is_under_two()
        invariant
            gs == generations@,
            cfg == *compaction_config,
            compaction_config.wf(),
            n <= gs.len(),
            forall|i: int| 0 <= i < n ==> (#[trigger] gs[i]).level.0 < 2,
        decreases gs.len() - n,
    {
        n += 1;
    }
    proof {
        lemma_leading_count(gs, n as int);
    }
    let ghost lead = leading_gen1(gs);
    assert(lead.len() == n);

    // level-2 block of each leading generation
    let mut buckets: Vec<i64> = Vec::new();
    let mut i: usize = 0;
    while i < n
        invariant
            gs == generations@,
            cfg == *compaction_config,
            compaction_config.wf(),
            n <= gs.len(),
            lead == gs.take(n as int),
            n == lead.len(),
            lead == gs.take(n as int),
            i <= n,
            buckets@.len() == i,
            forall|k: int| 0 <= k < i ==> buckets@[k] as int == bucket_of(cfg, #[trigger] lead[k]),
        decreases n - i,
    {
        let b = compaction_config.generation_start_time(
            GenerationLevel::two(),
            generations[i].start_time_secs,
        );
        buckets.push(b);
        i += 1;
    }

    // newest block with at least two members
    let mut best: Option<i64> = None;
    let mut i: usize = 0;
    while i < n
        invariant
            gs == generations@,
            cfg == *compaction_config,
            compaction_config.wf(),
            n <= gs.len(),
            lead == gs.take(n as int),
            n == lead.len(),
            i <= n,
            buckets@.len() == n,
            forall|k: int| 0 <= k < n ==> buckets@[k] as int == bucket_of(cfg, #[trigger] lead[k]),
            best is None ==> forall|k: int|
                0 <= k < i ==> !qualifies(cfg, lead, bucket_of(cfg, #[trigger] lead[k])),
            best matches Some(b) ==> {
                &&& qualifies(cfg, lead, b as int)
                &&& exists|k: int| 0 <= k < n && bucket_of(cfg, #[trigger] lead[k]) == b
                &&& forall|k: int|
                    0 <= k < i && qualifies(cfg, lead, bucket_of(cfg, #[trigger] lead[k]))
                        ==> bucket_of(cfg, lead[k]) <= b
            },
        decreases n - i,
    {
        let b = buckets[i];
        let mut count: usize = 0;
        let mut j: usize = 0;
        while j < n
            invariant
                gs == generations@,
                cfg == *compaction_config,
                compaction_config.wf(),
                n == lead.len(),
                j <= n,
                count <= j,
                buckets@.len() == n,
                forall|k: int|
                    0 <= k < n ==> buckets@[k] as int == bucket_of(cfg, #[trigger] lead[k]),
                count == bucket_count(cfg, lead.take(j as int), b as int),
            decreases n - j,
        {
            proof {
                assert(lead.take(j + 1).drop_last() =~= lead.take(j as int));
                assert(lead.take(j + 1).last() == lead[j as int]);
            }
            if buckets[j] == b {
                count += 1;
            }
            j += 1;
        }
        assert(lead.take(n as int) =~= lead);
        assert(bucket_of(cfg, lead[i as int]) == b);
        if count >= 2 {
            match best {
                Some(cur) => {
                    if b > cur {
                        best = Some(b);
                    }
                },
                None => {
                    best = Some(b);
                },
            }
        }
        i += 1;
    }

    match best {
        None => {
            proof {
                assert forall|b: int| !is_newest_full_bucket(cfg, lead, b) by {
                    if is_newest_full_bucket(cfg, lead, b) {
                        let k = choose|k: int| 0 <= k < lead.len() && bucket_of(cfg, #[trigger] lead[k]) == b;
                        assert(!qualifies(cfg, lead, bucket_of(cfg, lead[k])));
                    }
                }
            }
            let mut ids: Vec<GenerationId> = Vec::new();
            let mut k: usize = 0;
            while k < n
                invariant
                    gs == generations@,
                    cfg == *compaction_config,
                    compaction_config.wf(),
                    n <= gs.len(),
                    lead == gs.take(n as int),
                    n == lead.len(),
                    lead == gs.take(n as int),
                    k <= n,
                    ids@ == ids_of(lead.take(k as int)),
                decreases n - k,
            {
                ids.push(generations[k].id);
                proof {
                    assert(ids_of(lead.take(k + 1)) =~= ids_of(lead.take(k as int)).push(lead[k as int].id));
                }
                k += 1;
            }
            assert(lead.take(n as int) =~= lead);
            CompactionPlan::LeftoverOnly(
                LeftoverPlan { db_name, table_name, leftover_gen1_ids: ids },
            )
        },
        Some(b) => {
            proof {
                assert(is_newest_full_bucket(cfg, lead, b as int));
                let c = choose|c: int| is_newest_full_bucket(cfg, lead, c);
                assert(is_newest_full_bucket(cfg, lead, c));
                let kb = choose|k: int| 0 <= k < lead.len() && bucket_of(cfg, #[trigger] lead[k]) == b;
                let kc = choose|k: int| 0 <= k < lead.len() && bucket_of(cfg, #[trigger] lead[k]) == c;
                assert(bucket_of(cfg, lead[kb]) <= c);
                assert(bucket_of(cfg, lead[kc]) <= b);
                assert(c == b);
            }
            let ghost inb = ids_in_bucket(cfg, lead, b as int);
            // the members of the chosen block
            let mut input_ids: Vec<GenerationId> = Vec::new();
            let mut k: usize = 0;
            while k < n
                invariant
                    gs == generations@,
                    cfg == *compaction_config,
                    compaction_config.wf(),
                    n <= gs.len(),
                    lead == gs.take(n as int),
                    n == lead.len(),
                    lead == gs.take(n as int),
                    k <= n,
                    buckets@.len() == n,
                    forall|q: int|
                        0 <= q < n ==> buckets@[q] as int == bucket_of(cfg, #[trigger] lead[q]),
                    input_ids@ == ids_in_bucket(cfg, lead.take(k as int), b as int),
                decreases n - k,
            {
                proof {
                    assert(lead.take(k + 1).drop_last() =~= lead.take(k as int));
                    assert(lead.take(k + 1).last() == lead[k as int]);
                }
                if buckets[k] == b {
                    input_ids.push(generations[k].id);
                }
                k += 1;
            }
            assert(lead.take(n as int) =~= lead);
            // every other gen1 generation is left over
            let mut leftover_ids: Vec<GenerationId> = Vec::new();
            let mut k: usize = 0;
            while k < generations.len()
                invariant
                    gs == generations@,
                    cfg == *compaction_config,
                    compaction_config.wf(),
                    n <= gs.len(),
                    lead == gs.take(n as int),
                    k <= gs.len(),
                    input_ids@ == inb,
                    leftover_ids@ == gen1_ids_except(gs.take(k as int), inb),
                decreases gs.len() - k,
            {
                proof {
                    assert(gs.take(k + 1).drop_last() =~= gs.take(k as int));
                    assert(gs.take(k + 1).last() == gs[k as int]);
                }
                let g = generations[k];
                if g.level.is_under_two() && !contains_id(&input_ids, g.id) {
                    leftover_ids.push(g.id);
                }
                k += 1;
            }
            assert(gs.take(gs.len() as int) =~= gs);
            let input_ids = sort_ids(input_ids);
            let leftover_ids = sort_ids(leftover_ids);
            let max_time = match compaction_config.generation_duration(GenerationLevel::two()) {
                Some(d) => block_end_nanos(b, d as i64),
                None => block_end_nanos(b, 0),
            };
            CompactionPlan::Compaction(
                NextCompactionPlan {
                    db_name,
                    table_name,
                    output_generation: Generation {
                        id: output_id,
                        level: GenerationLevel::two(),
                        start_time_secs: b,
                        max_time,
                    },
                    input_ids,
                    leftover_ids,
                },
            )
        },
    }
}

/// `(start + d)` seconds in nanoseconds, held within the range of `i64`.
fn block_end_nanos(start: i64, d: i64) -> (r: i64)
    requires
        0 <= d <= 1_000_000_000,
    ensures
        r == clamp_i64((start + d) * NANOS_PER_SEC),
{
    let sum: i128 = start as i128 + d as i128;
    assert(-10_000_000_000_000_000_000i128 <= sum <= 10_000_000_000_000_000_000i128);
    assert(-10_000_000_000_000_000_000_000_000_000i128 <= sum * 1_000_000_000
        <= 10_000_000_000_000_000_000_000_000_000i128) by (nonlinear_arith)
        requires
            -10_000_000_000_000_000_000i128 <= sum <= 10_000_000_000_000_000_000i128,
    ;
    let end: i128 = sum * (NANOS_PER_SEC as i128);
    if end > i64::MAX as i128 {
        i64::MAX
    } else if end < i64::MIN as i128 {
        i64::MIN
    } else {
        end as i64
    }
}


proof fn lemma_leading_all_gen1(s: Seq<Generation>)
    ensures
        leading_gen1_count(s) <= s.len(),
        forall|i: int| 0 <= i < leading_gen1_count(s) ==> (#[trigger] s[i]).level.0 < 2,
    decreases s.len(),
{
    if s.len() > 0 && s[0].level.0 < 2 {
        let t = s.subrange(1, s.len() as int);
        lemma_leading_all_gen1(t);
        assert forall|i: int| 0 <= i < leading_gen1_count(s) implies (#[trigger] s[i]).level.0 < 2 by {
            if i > 0 {
                assert(s[i] == t[i - 1]);
            }
        }
    }
}

proof fn lemma_ids_in_bucket_members(cfg: CompactionConfig, s: Seq<Generation>, b: int, id: GenerationId)
    ensures
        ids_in_bucket(cfg, s, b).contains(id) <==> exists|i: int|
            0 <= i < s.len() && bucket_of(cfg, #[trigger] s[i]) == b && s[i].id == id,
    decreases s.len(),
{
    if s.len() > 0 {
        let init = s.drop_last();
        lemma_ids_in_bucket_members(cfg, init, b, id);
        let r0 = ids_in_bucket(cfg, init, b);
        if ids_in_bucket(cfg, s, b).contains(id) {
            if r0.contains(id) {
                let i = choose|i: int| 0 <= i < init.len() && bucket_of(cfg, #[trigger] init[i]) == b && init[i].id == id;
                assert(s[i] == init[i]);
            } else {
                assert(s[s.len() - 1] == s.last());
            }
        }
        if exists|i: int| 0 <= i < s.len() && bucket_of(cfg, #[trigger] s[i]) == b && s[i].id == id {
            let i = choose|i: int| 0 <= i < s.len() && bucket_of(cfg, #[trigger] s[i]) == b && s[i].id == id;
            if i < s.len() - 1 {
                assert(init[i] == s[i]);
                let k = choose|k: int| 0 <= k < r0.len() && r0[k] == id;
                if bucket_of(cfg, s.last()) == b {
                    assert(r0.push(s.last().id)[k] == id);
                }
            } else {
                assert(ids_in_bucket(cfg, s, b) == r0.push(id));
                assert(r0.push(id)[r0.len() as int] == id);
            }
        }
    }
}

proof fn lemma_gen1_ids_except_members(s: Seq<Generation>, taken: Seq<GenerationId>, id: GenerationId)
    ensures
        gen1_ids_except(s, taken).contains(id) <==> (!taken.contains(id) && exists|i: int|
            0 <= i < s.len() && (#[trigger] s[i]).level.0 < 2 && s[i].id == id),
    decreases s.len(),
{
    if s.len() > 0 {
        let init = s.drop_last();
        lemma_gen1_ids_except_members(init, taken, id);
        let r0 = gen1_ids_except(init, taken);
        if gen1_ids_except(s, taken).contains(id) {
            if r0.contains(id) {
                let i = choose|i: int| 0 <= i < init.len() && (#[trigger] init[i]).level.0 < 2 && init[i].id == id;
                assert(s[i] == init[i]);
            } else {
                assert(s[s.len() - 1] == s.last());
            }
        }
        if !taken.contains(id) && exists|i: int| 0 <= i < s.len() && (#[trigger] s[i]).level.0 < 2 && s[i].id == id {
            let i = choose|i: int| 0 <= i < s.len() && (#[trigger] s[i]).level.0 < 2 && s[i].id == id;
            if i < s.len() - 1 {
                assert(init[i] == s[i]);
                let k = choose|k: int| 0 <= k < r0.len() && r0[k] == id;
                if s.last().level.0 < 2 && !taken.contains(s.last().id) {
                    assert(r0.push(s.last().id)[k] == id);
                }
            } else {
                assert(gen1_ids_except(s, taken) == r0.push(id));
                assert(r0.push(id)[r0.len() as int] == id);
            }
        }
    }
}

proof fn lemma_bucket_count_bound(cfg: CompactionConfig, s: Seq<Generation>, b: int)
    ensures
        bucket_count(cfg, s, b) <= s.len(),
    decreases s.len(),
{
    if s.len() > 0 {
        lemma_bucket_count_bound(cfg, s.drop_last(), b);
    }
}

/// A merge plan splits the gen1 generations: no id is both merged and left over, and
/// together they are exactly the ids of the gen1 generations planned over.
pub proof fn lemma_plan_partitions_gen1(
    cfg: CompactionConfig,
    db: Seq<char>,
    table: Seq<char>,
    gens: Seq<Generation>,
    output_id: GenerationId,
    plan: CompactionPlan,
)
    requires
        is_gen1_plan(cfg, db, table, gens, output_id, plan),
        plan is Compaction,
    ensures
        forall|id: GenerationId|
            !((plan->Compaction_0).input_ids@.contains(id) && (plan->Compaction_0).leftover_ids@.contains(id)),
        forall|id: GenerationId|
            (plan->Compaction_0).input_ids@.contains(id) || (plan->Compaction_0).leftover_ids@.contains(id)
                <==> exists|i: int| 0 <= i < gens.len() && (#[trigger] gens[i]).level.0 < 2 && gens[i].id == id,
{
    let p = plan->Compaction_0;
    let lead = leading_gen1(gens);
    let b = newest_full_bucket(cfg, lead)->0;
    let inb = ids_in_bucket(cfg, lead, b);
    lemma_leading_all_gen1(gens);
    assert forall|id: GenerationId| p.input_ids@.contains(id) <==> inb.contains(id) by {
        assert(p.input_ids@.to_multiset().count(id) == inb.to_multiset().count(id));
    }
    assert forall|id: GenerationId| p.leftover_ids@.contains(id) <==> gen1_ids_except(gens, inb).contains(id) by {
        assert(p.leftover_ids@.to_multiset().count(id) == gen1_ids_except(gens, inb).to_multiset().count(id));
    }
    assert forall|id: GenerationId|
        p.input_ids@.contains(id) || p.leftover_ids@.contains(id) <==> exists|i: int| 0 <= i < gens.len() && (#[trigger] gens[i]).level.0 < 2 && gens[i].id == id by {
        lemma_ids_in_bucket_members(cfg, lead, b, id);
        lemma_gen1_ids_except_members(gens, inb, id);
        if inb.contains(id) {
            let i = choose|i: int| 0 <= i < lead.len() && bucket_of(cfg, #[trigger] lead[i]) == b && lead[i].id == id;
            assert(lead[i] == gens[i]);
        }
    }
    assert forall|id: GenerationId| !(p.input_ids@.contains(id) && p.leftover_ids@.contains(id)) by {
        lemma_gen1_ids_except_members(gens, inb, id);
    }
}

/// The output generation of a merge starts on a level-2 block boundary, where the level has
/// a duration.
pub proof fn lemma_output_block_aligned(
    cfg: CompactionConfig,
    db: Seq<char>,
    table: Seq<char>,
    gens: Seq<Generation>,
    output_id: GenerationId,
    plan: CompactionPlan,
)
    requires
        cfg.wf(),
        is_gen1_plan(cfg, db, table, gens, output_id, plan),
        plan is Compaction,
        cfg.spec_duration(2) is Some,
    ensures
        (plan->Compaction_0).output_generation.start_time_secs as int % cfg.spec_duration(2)->0 == 0,
{
    let lead = leading_gen1(gens);
    let d = cfg.spec_duration(2)->0;
    lemma_leading_all_gen1(gens);
    let b = newest_full_bucket(cfg, lead)->0;
    assert(exists|c: int| is_newest_full_bucket(cfg, lead, c));
    assert(is_newest_full_bucket(cfg, lead, b));
    let i = choose|i: int| 0 <= i < lead.len() && bucket_of(cfg, #[trigger] lead[i]) == b;
    let t = lead[i].start_time_secs as int;
    assert(lead[i] == gens[i]);
    assert(0 < d <= MAX_DURATION_SECS) by {
        assert(cfg.generation_durations@[0] == d);
    }
    vstd::arithmetic::div_mod::lemma_fundamental_div_mod(t, d);
    assert(0 <= t % d < d) by {
        vstd::arithmetic::div_mod::lemma_mod_bound(t, d);
    }
    assert(block_start(t, d) == d * (t / d));
    vstd::arithmetic::mul::lemma_mul_is_commutative(d, t / d);
    vstd::arithmetic::mul::lemma_mul_is_commutative(d, t / d + 1);
    vstd::arithmetic::mul::lemma_mul_is_distributive_add(d, t / d, 1);
    vstd::arithmetic::div_mod::lemma_mod_multiples_basic(t / d, d);
    vstd::arithmetic::div_mod::lemma_mod_multiples_basic(t / d + 1, d);
}

/// A single leading gen1 generation is only recorded, as the one leftover.
pub proof fn lemma_single_leading_gen1(
    cfg: CompactionConfig,
    db: Seq<char>,
    table: Seq<char>,
    gens: Seq<Generation>,
    output_id: GenerationId,
    plan: CompactionPlan,
)
    requires
        is_gen1_plan(cfg, db, table, gens, output_id, plan),
        leading_gen1(gens).len() == 1,
    ensures
        plan matches CompactionPlan::LeftoverOnly(p) && p.leftover_gen1_ids@ == seq![gens[0].id],
{
    let lead = leading_gen1(gens);
    assert forall|c: int| !is_newest_full_bucket(cfg, lead, c) by {
        lemma_bucket_count_bound(cfg, lead, c);
    }
    lemma_leading_all_gen1(gens);
    assert(lead[0] == gens[0]);
    assert(ids_of(lead) =~= seq![gens[0].id]);
}

/// Where no level-2 block holds two of the leading gen1 generations, they are all only
/// recorded as leftovers.
pub proof fn lemma_no_full_bucket(
    cfg: CompactionConfig,
    db: Seq<char>,
    table: Seq<char>,
    gens: Seq<Generation>,
    output_id: GenerationId,
    plan: CompactionPlan,
)
    requires
        is_gen1_plan(cfg, db, table, gens, output_id, plan),
        forall|i: int|
            0 <= i < leading_gen1(gens).len() ==> bucket_count(cfg, leading_gen1(gens), bucket_of(cfg, #[trigger] leading_gen1(gens)[i])) < 2,
    ensures
        plan matches CompactionPlan::LeftoverOnly(p) && p.leftover_gen1_ids@ == ids_of(leading_gen1(gens)),
{
    let lead = leading_gen1(gens);
    assert forall|c: int| !is_newest_full_bucket(cfg, lead, c) by {
        if is_newest_full_bucket(cfg, lead, c) {
            let i = choose|i: int| 0 <= i < lead.len() && bucket_of(cfg, #[trigger] lead[i]) == c;
        }
    }
}

/// Smallest chunk time among `fs`.
pub open spec fn min_chunk_time(fs: Seq<ParquetFileView>) -> int
    decreases fs.len(),
{
    if fs.len() <= 1 {
        if fs.len() == 0 {
            0
        } else {
            fs[0].chunk_time as int
        }
    } else {
        let m = min_chunk_time(fs.drop_last());
        if fs.last().chunk_time < m {
            fs.last().chunk_time as int
        } else {
            m
        }
    }
}

/// The id handed out `k` ids after `n`.
pub open spec fn nth_id(n: u64, k: nat) -> u64
    decreases k,
{
    if k == 0 {
        n
    } else {
        next_after(nth_id(n, (k - 1) as nat))
    }
}

/// The gen1 generations registered for `fs`, in order, ids handed out from `n`.
pub open spec fn gen1_gens(n: u64, fs: Seq<ParquetFileView>) -> Seq<Generation>
    decreases fs.len(),
{
    if fs.len() == 0 {
        seq![]
    } else {
        gen1_gens(n, fs.drop_last()).push(gen1_generation(nth_id(n, (fs.len() - 1) as nat), fs.last()))
    }
}

/// The registry entries for generations `gs` of `db.table`.
pub open spec fn entries_for(db: Seq<char>, table: Seq<char>, gs: Seq<Generation>) -> Seq<EntryView> {
    gs.map_values(|g: Generation| (db, table, g))
}

/// Planning new gen1 files `fs` of `db.table` takes the registry from `before` to `after`
/// and gives `plan`: the files get gen1 generations with the next ids, and the plan is
/// made over the table's generations that the files may overlap together with the new
/// ones, arranged by block start and id; the output generation gets the id after those.
pub open spec fn planned_table(
    cfg: CompactionConfig,
    before: RegistryView,
    after: RegistryView,
    db: Seq<char>,
    table: Seq<char>,
    fs: Seq<ParquetFileView>,
    plan: CompactionPlan,
) -> bool {
    let n = before.next_id;
    let added = gen1_gens(n, fs);
    let existing = newer_than(cfg, before.entries, db, table, min_chunk_time(fs) / NANOS_PER_SEC as int);
    &&& after.entries == before.entries + entries_for(db, table, added)
    &&& after.next_id == nth_id(n, fs.len() + 1)
    &&& exists|cands: Seq<Generation>|
        gens_sorted(cands) && cands.to_multiset() == (existing + added).to_multiset()
            && #[trigger] is_gen1_plan(cfg, db, table, cands, GenerationId(fresh_output_id(nth_id(n, fs.len()), cands)), plan)
            && !has_id(ids_of(cands), fresh_output_id(nth_id(n, fs.len()), cands))
}

/// The id of a planned output generation: the registry's next id `next`, or, where a
/// planned generation already has it, the least id that none of them has.
pub open spec fn fresh_output_id(next: u64, cands: Seq<Generation>) -> u64 {
    if !has_id(ids_of(cands), next) {
        next
    } else {
        least_missing(ids_of(cands))
    }
}

/// The ids of `gens`, in order.
fn generation_ids(gens: &Vec<Generation>) -> (r: Vec<GenerationId>)
    ensures
        r@ == ids_of(gens@),
{
    let mut r: Vec<GenerationId> = Vec::new();
    let mut i: usize = 0;
    while i < gens.len()
        invariant
            i <= gens@.len(),
            r@ == ids_of(gens@.take(i as int)),
        decreases gens@.len() - i,
    {
        r.push(gens[i].id);
        assert(ids_of(gens@.take(i + 1)) =~= ids_of(gens@.take(i as int)).push(gens@[i as int].id));
        i += 1;
    }
    assert(gens@.take(gens@.len() as int) =~= gens@);
    r
}

/// Plans one table with new gen1 `files`: the registry's generations of the table that the
/// files may overlap and the files' new gen1 generations, arranged by block start and id,
/// go to `create_gen1_plan`; the output generation gets the next id.
pub fn plan_table(
    compacted_data: &mut CompactedData,
    db: &str,
    table: &str,
    files: Vec<ParquetFile>,
) -> (r: CompactionPlan)
    requires
        old(compacted_data).wf(),
        files@.len() > 0,
    ensures
        final(compacted_data).wf(),
        final(compacted_data).config() == old(compacted_data).config(),
        planned_table(
            old(compacted_data).config(),
            old(compacted_data)@,
            final(compacted_data)@,
            db@,
            table@,
            files@.map_values(|f: ParquetFile| f@),
            r,
        ),
{
    let ghost cfg = compacted_data.config();
    let ghost n = compacted_data@.next_id;
    let ghost es0 = compacted_data@.entries;
    let ghost fs = files@.map_values(|f: ParquetFile| f@);
    // oldest chunk among the new files
    let mut min_t = files[0].chunk_time;
    let mut i: usize = 1;
    assert(fs.take(1).drop_last().len() == 0);
    while i < files.len()
        invariant
            1 <= i <= files@.len(),
            fs == files@.map_values(|f: ParquetFile| f@),
            min_t == min_chunk_time(fs.take(i as int)),
        decreases files@.len() - i,
    {
        proof {
            assert(fs.take(i + 1).drop_last() =~= fs.take(i as int));
            assert(fs.take(i + 1).last() == fs[i as int]);
        }
        if files[i].chunk_time < min_t {
            min_t = files[i].chunk_time;
        }
        i += 1;
    }
    assert(fs.take(fs.len() as int) =~= fs);
    let min_secs = min_t.checked_div_euclid(NANOS_PER_SEC).unwrap();
    let mut generations = compacted_data.get_generations_newer_than(db, table, min_secs);
    let ghost existing = generations@;
    let mut k: usize = 0;
    while k < files.len()
        invariant
            k <= files@.len(),
            fs == files@.map_values(|f: ParquetFile| f@),
            compacted_data.wf(),
            compacted_data.config() == cfg,
            generations@ == existing + gen1_gens(n, fs.take(k as int)),
            compacted_data@.entries == es0 + entries_for(db@, table@, gen1_gens(n, fs.take(k as int))),
            compacted_data@.next_id == nth_id(n, k as nat),
        decreases files@.len() - k,
    {
        proof {
            assert(fs.take(k + 1).drop_last() =~= fs.take(k as int));
            assert(fs.take(k + 1).last() == fs[k as int]);
        }
        let gen1 = compacted_data.add_gen1_file_to_map(db, table, files[k].clone());
        generations.push(gen1.generation());
        proof {
            let g0 = gen1_gens(n, fs.take(k as int));
            assert(gen1_gens(n, fs.take(k + 1)) == g0.push(gen1.generation));
            assert(entries_for(db@, table@, g0.push(gen1.generation)) =~= entries_for(db@, table@, g0).push((db@, table@, gen1.generation)));
        }
        k += 1;
    }
    assert(fs.take(fs.len() as int) =~= fs);
    let generations = sort_generations(generations);
    let next = compacted_data.fresh_generation_id();
    let ids = generation_ids(&generations);
    let output_id = if !contains_id(&ids, next) {
        next
    } else {
        GenerationId(least_missing_id(ids))
    };
    assert(output_id.0 == fresh_output_id(next.0, generations@));
    let plan = create_gen1_plan(
        compacted_data.compaction_config(),
        db.to_owned(),
        table.to_owned(),
        &generations,
        output_id,
    );
    assert(is_gen1_plan(cfg, db@, table@, generations@, output_id, plan));
    plan
}

} // verus!
