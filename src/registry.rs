//! The compacted-data registry: which generations exist for each table.
use vstd::prelude::*;
use crate::generation::{
    CompactionConfig, Generation, GenerationId, GenerationLevel, NANOS_PER_SEC,
};
use crate::ids::contains_id;

verus! {

/// A gen1 file as a producer persisted it.
#[derive(Debug)]
pub struct ParquetFile {
    pub path: String,
    pub size_bytes: u64,
    pub row_count: u64,
    /// Start of the chunk the file was persisted for, in nanoseconds.
    pub chunk_time: i64,
    pub min_time: i64,
    pub max_time: i64,
}

/// The values a `ParquetFile` holds.
pub ghost struct ParquetFileView {
    pub path: Seq<char>,
    pub size_bytes: u64,
    pub row_count: u64,
    pub chunk_time: i64,
    pub min_time: i64,
    pub max_time: i64,
}

impl View for ParquetFile {
    type V = ParquetFileView;

    open spec fn view(&self) -> ParquetFileView {
        ParquetFileView {
            path: self.path@,
            size_bytes: self.size_bytes,
            row_count: self.row_count,
            chunk_time: self.chunk_time,
            min_time: self.min_time,
            max_time: self.max_time,
        }
    }
}

impl Clone for ParquetFile {
    fn clone(&self) -> (r: ParquetFile)
        ensures
            r@ == self@,
    {
        ParquetFile {
            path: self.path.clone(),
            size_bytes: self.size_bytes,
            row_count: self.row_count,
            chunk_time: self.chunk_time,
            min_time: self.min_time,
            max_time: self.max_time,
        }
    }
}

/// The gen1 generation registered for a file under id `id`.
pub open spec fn gen1_generation(id: u64, f: ParquetFileView) -> Generation {
    Generation {
        id: GenerationId(id),
        level: GenerationLevel(1),
        start_time_secs: (f.chunk_time as int / NANOS_PER_SEC as int) as i64,
        max_time: f.max_time,
    }
}

/// A gen1 file together with the generation registered for it.
#[derive(Debug)]
pub struct Gen1File {
    pub generation: Generation,
    pub file: ParquetFile,
}

impl Gen1File {
    pub fn generation(&self) -> (r: Generation)
        ensures
            r == self.generation,
    {
        self.generation
    }
}

/// One generation of one table.
#[derive(Debug)]
pub struct TableGeneration {
    pub db_name: String,
    pub table_name: String,
    pub generation: Generation,
}

/// `(database, table, generation)`.
pub type EntryView = (Seq<char>, Seq<char>, Generation);

impl View for TableGeneration {
    type V = EntryView;

    open spec fn view(&self) -> EntryView {
        (self.db_name@, self.table_name@, self.generation)
    }
}

/// The result of one plan of a committed round.
#[derive(Debug)]
pub struct PlanSummary {
    pub db_name: String,
    pub table_name: String,
    pub output_generation: Generation,
    pub input_ids: Vec<GenerationId>,
    pub leftover_ids: Vec<GenerationId>,
    pub output_paths: Vec<String>,
}

/// `(database, table, output generation, input ids)`: what the registry reads of a plan.
pub type PlanSummaryView = (Seq<char>, Seq<char>, Generation, Seq<GenerationId>);

impl View for PlanSummary {
    type V = PlanSummaryView;

    open spec fn view(&self) -> PlanSummaryView {
        (self.db_name@, self.table_name@, self.output_generation, self.input_ids@)
    }
}

/// The durable record of one committed round.
#[derive(Debug)]
pub struct CompactionSummary {
    pub round_id: u64,
    pub plans: Vec<PlanSummary>,
}

impl View for CompactionSummary {
    type V = Seq<PlanSummaryView>;

    open spec fn view(&self) -> Seq<PlanSummaryView> {
        self.plans@.map_values(|p: PlanSummary| p@)
    }
}

/// Duration of a level in seconds, zero where it has none.
pub open spec fn duration_or_zero(cfg: CompactionConfig, level: GenerationLevel) -> int {
    match cfg.spec_duration(level.0 as int) {
        Some(d) => d,
        None => 0,
    }
}

/// Generations of `db.table` in `es`, in order, whose block may hold times at or after
/// `t` seconds.
pub open spec fn newer_than(
    cfg: CompactionConfig,
    es: Seq<EntryView>,
    db: Seq<char>,
    table: Seq<char>,
    t: int,
) -> Seq<Generation>
    decreases es.len(),
{
    if es.len() == 0 {
        seq![]
    } else {
        let e = es.last();
        let rest = newer_than(cfg, es.drop_last(), db, table, t);
        if e.0 == db && e.1 == table && e.2.start_time_secs >= t - duration_or_zero(cfg, e.2.level) {
            rest.push(e.2)
        } else {
            rest
        }
    }
}

/// A plan of the summary replaces this entry: same table, and its id is among the inputs.
/// An entry that is itself a plan's output stays.
pub open spec fn superseded(e: EntryView, plans: Seq<PlanSummaryView>) -> bool {
    &&& exists|i: int|
        0 <= i < plans.len() && (#[trigger] plans[i]).0 == e.0 && plans[i].1 == e.1
            && plans[i].3.contains(e.2.id)
    &&& !is_output(e, plans)
}

/// `e` is the output entry of a plan of `plans`.
pub open spec fn is_output(e: EntryView, plans: Seq<PlanSummaryView>) -> bool {
    exists|i: int| 0 <= i < plans.len() && output_entry(#[trigger] plans[i]) == e
}

/// The entries of `es` that no plan replaces, in order.
pub open spec fn retain_current(es: Seq<EntryView>, plans: Seq<PlanSummaryView>) -> Seq<EntryView>
    decreases es.len(),
{
    if es.len() == 0 {
        seq![]
    } else if superseded(es.last(), plans) {
        retain_current(es.drop_last(), plans)
    } else {
        retain_current(es.drop_last(), plans).push(es.last())
    }
}

/// The entry a plan adds.
pub open spec fn output_entry(p: PlanSummaryView) -> EntryView {
    (p.0, p.1, p.2)
}

/// `es` with the output of each plan appended, in order, unless already there.
pub open spec fn add_outputs(es: Seq<EntryView>, plans: Seq<PlanSummaryView>) -> Seq<EntryView>
    decreases plans.len(),
{
    if plans.len() == 0 {
        es
    } else {
        let before = add_outputs(es, plans.drop_last());
        let o = output_entry(plans.last());
        if before.contains(o) {
            before
        } else {
            before.push(o)
        }
    }
}

/// The entries after a summary is applied: inputs removed, outputs present.
pub open spec fn apply_summary_spec(es: Seq<EntryView>, plans: Seq<PlanSummaryView>) -> Seq<
    EntryView,
> {
    add_outputs(retain_current(es, plans), plans)
}

/// What the registry holds: its entries and the next id it hands out.
pub ghost struct RegistryView {
    pub entries: Seq<EntryView>,
    pub next_id: u64,
}

/// Process-wide index of which generations exist for each table.
#[derive(Debug)]
pub struct CompactedData {
    compaction_config: CompactionConfig,
    entries: Vec<TableGeneration>,
    next_id: u64,
}

impl View for CompactedData {
    type V = RegistryView;

    closed spec fn view(&self) -> RegistryView {
        RegistryView {
            entries: self.entries@.map_values(|e: TableGeneration| e@),
            next_id: self.next_id,
        }
    }
}

/// `n + 1`, wrapping to 0 after `u64::MAX`.
pub open spec fn next_after(n: u64) -> u64 {
    if n == u64::MAX {
        0
    } else {
        (n + 1) as u64
    }
}

impl CompactedData {
    pub closed spec fn config(&self) -> CompactionConfig {
        self.compaction_config
    }

    pub closed spec fn wf(&self) -> bool {
        self.compaction_config.wf()
    }

    /// An empty registry; ids are handed out from 1.
    pub fn new(compaction_config: CompactionConfig) -> (r: CompactedData)
        requires
            compaction_config.wf(),
        ensures
            r.wf(),
            r.config() == compaction_config,
            r@.entries == Seq::<EntryView>::empty(),
            r@.next_id == 1,
    {
        let r = CompactedData { compaction_config, entries: Vec::new(), next_id: 1 };
        assert(r@.entries =~= Seq::<EntryView>::empty());
        r
    }

    /// A copy with the same configuration, entries and next id.
    pub fn duplicate(&self) -> (r: CompactedData)
        ensures
            r@ == self@,
            r.config().generation_durations@ == self.config().generation_durations@,
            r.wf() == self.wf(),
    {
        let mut entries: Vec<TableGeneration> = Vec::new();
        let mut i: usize = 0;
        while i < self.entries.len()
            invariant
                i <= self.entries@.len(),
                entries@.len() == i,
                forall|k: int| 0 <= k < i ==> (#[trigger] entries@[k])@ == self.entries@[k]@,
            decreases self.entries@.len() - i,
        {
            let e = &self.entries[i];
            entries.push(
                TableGeneration {
                    db_name: e.db_name.clone(),
                    table_name: e.table_name.clone(),
                    generation: e.generation,
                },
            );
            i += 1;
        }
        let r = CompactedData {
            compaction_config: CompactionConfig {
                generation_durations: copy_durations(&self.compaction_config.generation_durations),
            },
            entries,
            next_id: self.next_id,
        };
        assert(r@.entries =~= self@.entries);
        assert(r.compaction_config.generation_durations@ =~= self.compaction_config.generation_durations@);
        r
    }

    pub fn compaction_config(&self) -> (r: &CompactionConfig)
        requires
            self.wf(),
        ensures
            *r == self.config(),
            r.wf(),
    {
        &self.compaction_config
    }

    /// Hands out the next generation id.
    pub fn fresh_generation_id(&mut self) -> (r: GenerationId)
        ensures
            r.0 == old(self)@.next_id,
            final(self)@.next_id == next_after(old(self)@.next_id),
            final(self)@.entries == old(self)@.entries,
            final(self).config() == old(self).config(),
            final(self).wf() == old(self).wf(),
    {
        let id = self.next_id;
        self.next_id = self.next_id.wrapping_add(1);
        GenerationId(id)
    }

    /// Registers a gen1 generation for `file` in `db.table`.
    pub fn add_gen1_file_to_map(&mut self, db: &str, table: &str, file: ParquetFile) -> (r:
        Gen1File)
        ensures
            r.generation == gen1_generation(old(self)@.next_id, file@),
            r.file@ == file@,
            final(self)@.entries == old(self)@.entries.push((db@, table@, r.generation)),
            final(self)@.next_id == next_after(old(self)@.next_id),
            final(self).config() == old(self).config(),
            final(self).wf() == old(self).wf(),
    {
        let id = self.fresh_generation_id();
        let start = file.chunk_time.checked_div_euclid(NANOS_PER_SEC).unwrap();
        let generation = Generation {
            id,
            level: GenerationLevel::one(),
            start_time_secs: start,
            max_time: file.max_time,
        };
        let ghost before = self.entries@;
        self.entries.push(
            TableGeneration { db_name: db.to_owned(), table_name: table.to_owned(), generation },
        );
        proof {
            assert(self.entries@.map_values(|e: TableGeneration| e@) =~= before.map_values(
                |e: TableGeneration| e@,
            ).push((db@, table@, generation)));
        }
        Gen1File { generation, file }
    }

    /// Generations of `db.table` whose block may hold times at or after `time_secs`.
    pub fn get_generations_newer_than(&self, db: &str, table: &str, time_secs: i64) -> (r: Vec<
        Generation,
    >)
        requires
            self.wf(),
        ensures
            r@ == newer_than(self.config(), self@.entries, db@, table@, time_secs as int),
    {
        let db = db.to_owned();
        let table = table.to_owned();
        let ghost es = self@.entries;
        let mut r: Vec<Generation> = Vec::new();
        let mut i: usize = 0;
        while i < self.entries.len()
            invariant
                es == self@.entries,
                es.len() == self.entries@.len(),
                self.wf(),
                i <= es.len(),
                r@ == newer_than(self.config(), es.take(i as int), db@, table@, time_secs as int),
            decreases es.len() - i,
        {
            proof {
                assert(es.take(i + 1).drop_last() =~= es.take(i as int));
                assert(es.take(i + 1).last() == es[i as int]);
                assert(es[i as int] == self.entries@[i as int]@);
            }
            let e = &self.entries[i];
            if e.db_name == db && e.table_name == table {
                let d: i64 = match self.compaction_config.generation_duration(e.generation.level) {
                    Some(d) => d as i64,
                    None => 0,
                };
                if e.generation.start_time_secs as i128 >= time_secs as i128 - d as i128 {
                    r.push(e.generation);
                }
            }
            i += 1;
        }
        assert(es.take(es.len() as int) =~= es);
        r
    }

    /// Applies a committed round: generations replaced by a plan leave, each plan's output
    /// generation is present afterwards.
    pub fn apply_summary(&mut self, summary: &CompactionSummary)
        ensures
            final(self)@.entries == apply_summary_spec(old(self)@.entries, summary@),
            final(self)@.next_id == old(self)@.next_id,
            final(self).config() == old(self).config(),
            final(self).wf() == old(self).wf(),
    {
        let ghost es = self@.entries;
        let ghost ps = summary@;
        let mut kept: Vec<TableGeneration> = Vec::new();
        let mut i: usize = 0;
        while i < self.entries.len()
            invariant
                es == self@.entries,
                es.len() == self.entries@.len(),
                ps == summary@,
                i <= es.len(),
                kept@.map_values(|e: TableGeneration| e@) == retain_current(
                    es.take(i as int),
                    ps,
                ),
            decreases es.len() - i,
        {
            proof {
                assert(es.take(i + 1).drop_last() =~= es.take(i as int));
                assert(es.take(i + 1).last() == es[i as int]);
                assert(es[i as int] == self.entries@[i as int]@);
            }
            let e = &self.entries[i];
            let gone = is_superseded(e, &summary.plans);
            if !gone {
                let ghost before = kept@;
                kept.push(
                    TableGeneration {
                        db_name: e.db_name.clone(),
                        table_name: e.table_name.clone(),
                        generation: e.generation,
                    },
                );
                proof {
                    assert(kept@.map_values(|e: TableGeneration| e@) =~= before.map_values(
                        |e: TableGeneration| e@,
                    ).push(es[i as int]));
                }
            }
            i += 1;
        }
        assert(es.take(es.len() as int) =~= es);
        let ghost base = retain_current(es, ps);
        let mut j: usize = 0;
        while j < summary.plans.len()
            invariant
                ps == summary@,
                ps.len() == summary.plans@.len(),
                base == retain_current(es, ps),
                j <= ps.len(),
                kept@.map_values(|e: TableGeneration| e@) == add_outputs(base, ps.take(j as int)),
            decreases ps.len() - j,
        {
            proof {
                assert(ps.take(j + 1).drop_last() =~= ps.take(j as int));
                assert(ps.take(j + 1).last() == ps[j as int]);
                assert(ps[j as int] == summary.plans@[j as int]@);
            }
            let p = &summary.plans[j];
            let present = has_entry(&kept, &p.db_name, &p.table_name, p.output_generation);
            if !present {
                let ghost before = kept@;
                kept.push(
                    TableGeneration {
                        db_name: p.db_name.clone(),
                        table_name: p.table_name.clone(),
                        generation: p.output_generation,
                    },
                );
                proof {
                    assert(kept@.map_values(|e: TableGeneration| e@) =~= before.map_values(
                        |e: TableGeneration| e@,
                    ).push(output_entry(ps[j as int])));
                }
            }
            j += 1;
        }
        assert(ps.take(ps.len() as int) =~= ps);
        self.entries = kept;
    }
}

fn copy_durations(v: &Vec<u64>) -> (r: Vec<u64>)
    ensures
        r@ == v@,
{
    vstd::slice::slice_to_vec(v.as_slice())
}

/// Whether a plan of `plans` replaces `e`.
fn is_superseded(e: &TableGeneration, plans: &Vec<PlanSummary>) -> (r: bool)
    ensures
        r == superseded(e@, plans@.map_values(|p: PlanSummary| p@)),
{
    let ghost ps = plans@.map_values(|p: PlanSummary| p@);
    let mut i: usize = 0;
    while i < plans.len()
        invariant
            ps == plans@.map_values(|p: PlanSummary| p@),
            i <= plans@.len(),
            forall|k: int|
                0 <= k < i ==> !((#[trigger] ps[k]).0 == e@.0 && ps[k].1 == e@.1 && ps[k].3.contains(
                    e@.2.id,
                )),
        decreases plans@.len() - i,
    {
        let p = &plans[i];
        assert(ps[i as int] == p@);
        if p.db_name == e.db_name && p.table_name == e.table_name && contains_id(
            &p.input_ids,
            e.generation.id,
        ) {
            return !is_output_entry(e, plans);
        }
        i += 1;
    }
    false
}

/// Whether `e` is the output entry of a plan of `plans`.
fn is_output_entry(e: &TableGeneration, plans: &Vec<PlanSummary>) -> (r: bool)
    ensures
        r == is_output(e@, plans@.map_values(|p: PlanSummary| p@)),
{
    let ghost ps = plans@.map_values(|p: PlanSummary| p@);
    let mut i: usize = 0;
    while i < plans.len()
        invariant
            ps == plans@.map_values(|p: PlanSummary| p@),
            i <= plans@.len(),
            forall|k: int| 0 <= k < i ==> output_entry(#[trigger] ps[k]) != e@,
        decreases plans@.len() - i,
    {
        let p = &plans[i];
        assert(ps[i as int] == p@);
        if p.db_name == e.db_name && p.table_name == e.table_name && p.output_generation == e.generation {
            assert(output_entry(ps[i as int]) == e@);
            return true;
        }
        i += 1;
    }
    false
}

/// Whether `es` holds the entry `(db, table, g)`.
fn has_entry(es: &Vec<TableGeneration>, db: &String, table: &String, g: Generation) -> (r: bool)
    ensures
        r == es@.map_values(|e: TableGeneration| e@).contains((db@, table@, g)),
{
    let ghost vs = es@.map_values(|e: TableGeneration| e@);
    let mut i: usize = 0;
    while i < es.len()
        invariant
            vs == es@.map_values(|e: TableGeneration| e@),
            i <= es@.len(),
            forall|k: int| 0 <= k < i ==> vs[k] != (db@, table@, g),
        decreases es@.len() - i,
    {
        let e = &es[i];
        assert(vs[i as int] == e@);
        if e.db_name == *db && e.table_name == *table && e.generation == g {
            assert(vs[i as int] == (db@, table@, g));
            return true;
        }
        i += 1;
    }
    false
}


proof fn lemma_retain_subset(es: Seq<EntryView>, plans: Seq<PlanSummaryView>)
    ensures
        forall|e: EntryView|
            #[trigger] retain_current(es, plans).contains(e) ==> es.contains(e) && !superseded(
                e,
                plans,
            ),
    decreases es.len(),
{
    if es.len() > 0 {
        lemma_retain_subset(es.drop_last(), plans);
        assert forall|e: EntryView| #[trigger] retain_current(es, plans).contains(e) implies es.contains(
            e,
        ) && !superseded(e, plans) by {
            let r0 = retain_current(es.drop_last(), plans);
            if r0.contains(e) {
                let k = choose|k: int| 0 <= k < es.drop_last().len() && es.drop_last()[k] == e;
                assert(es[k] == e);
            } else {
                assert(e == es.last());
                assert(es[es.len() - 1] == e);
            }
        }
    }
}

proof fn lemma_retain_identity(es: Seq<EntryView>, plans: Seq<PlanSummaryView>)
    requires
        forall|k: int| 0 <= k < es.len() ==> !superseded(#[trigger] es[k], plans),
    ensures
        retain_current(es, plans) == es,
    decreases es.len(),
{
    if es.len() > 0 {
        assert(!superseded(es[es.len() - 1], plans));
        lemma_retain_identity(es.drop_last(), plans);
        assert(es.drop_last().push(es.last()) =~= es);
    }
}

proof fn lemma_add_outputs_parts(es: Seq<EntryView>, plans: Seq<PlanSummaryView>)
    ensures
        forall|e: EntryView|
            #[trigger] add_outputs(es, plans).contains(e) ==> es.contains(e) || exists|i: int|
                0 <= i < plans.len() && e == output_entry(#[trigger] plans[i]),
        forall|i: int|
            0 <= i < plans.len() ==> add_outputs(es, plans).contains(output_entry(#[trigger] plans[i])),
        forall|e: EntryView| es.contains(e) ==> #[trigger] add_outputs(es, plans).contains(e),
    decreases plans.len(),
{
    if plans.len() > 0 {
        let init = plans.drop_last();
        lemma_add_outputs_parts(es, init);
        let before = add_outputs(es, init);
        let o = output_entry(plans.last());
        let after = add_outputs(es, plans);
        assert forall|e: EntryView| #[trigger] after.contains(e) implies es.contains(e) || exists|i: int|
            0 <= i < plans.len() && e == output_entry(#[trigger] plans[i]) by {
            if before.contains(e) {
                if !es.contains(e) {
                    let i = choose|i: int| 0 <= i < init.len() && e == output_entry(#[trigger] init[i]);
                    assert(plans[i] == init[i]);
                }
            } else {
                let k = choose|k: int| 0 <= k < after.len() && after[k] == e;
                assert(e == o);
                assert(plans[plans.len() - 1] == plans.last());
            }
        }
        assert forall|i: int| 0 <= i < plans.len() implies after.contains(
            output_entry(#[trigger] plans[i]),
        ) by {
            if i < plans.len() - 1 {
                assert(init[i] == plans[i]);
                assert(before.contains(output_entry(init[i])));
                if !before.contains(o) {
                    let k = choose|k: int| 0 <= k < before.len() && before[k] == output_entry(init[i]);
                    assert(after[k] == before[k]);
                }
            } else {
                if !before.contains(o) {
                    assert(after[before.len() as int] == o);
                }
            }
        }
        assert forall|e: EntryView| es.contains(e) implies #[trigger] after.contains(e) by {
            assert(before.contains(e));
            if !before.contains(o) {
                let k = choose|k: int| 0 <= k < before.len() && before[k] == e;
                assert(after[k] == before[k]);
            }
        }
    }
}

proof fn lemma_add_outputs_present(es: Seq<EntryView>, plans: Seq<PlanSummaryView>)
    requires
        forall|i: int| 0 <= i < plans.len() ==> es.contains(output_entry(#[trigger] plans[i])),
    ensures
        add_outputs(es, plans) == es,
    decreases plans.len(),
{
    if plans.len() > 0 {
        let init = plans.drop_last();
        assert forall|i: int| 0 <= i < init.len() implies es.contains(
            output_entry(#[trigger] init[i]),
        ) by {
            assert(init[i] == plans[i]);
        }
        lemma_add_outputs_present(es, init);
        assert(es.contains(output_entry(plans[plans.len() - 1])));
    }
}

/// Applying the same summary a second time changes nothing: its inputs are already gone
/// and its outputs already present.
pub proof fn lemma_apply_summary_idempotent(es: Seq<EntryView>, plans: Seq<PlanSummaryView>)
    ensures
        apply_summary_spec(apply_summary_spec(es, plans), plans) == apply_summary_spec(es, plans),
{
    let kept = retain_current(es, plans);
    let once = add_outputs(kept, plans);
    lemma_retain_subset(es, plans);
    lemma_add_outputs_parts(kept, plans);
    assert forall|k: int| 0 <= k < once.len() implies !superseded(#[trigger] once[k], plans) by {
        let e = once[k];
        assert(once.contains(e));
        if !kept.contains(e) {
            let i = choose|i: int| 0 <= i < plans.len() && e == output_entry(#[trigger] plans[i]);
            assert(is_output(e, plans));
        }
    }
    lemma_retain_identity(once, plans);
    lemma_add_outputs_present(once, plans);
}

} // verus!
