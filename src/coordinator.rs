//! Rounds of compaction: planned on copies, committed all at once or not at all.
use vstd::prelude::*;
use crate::generation::CompactionConfig;
use crate::planner::CompactionPlan;
use crate::registry::{apply_summary_spec, CompactedData, CompactionSummary, PlanSummary, PlanSummaryView};
use crate::generation::{Generation, GenerationId};
use crate::maps::host_counters_of;
use crate::tracker::{
    absorb_files, absorb_marker, compaction_due, is_advance_plan, reset_counters, Error,
    MarkerView, PendingView, PersistedSnapshot, PlanError, SnapshotAdvancePlan, SnapshotTracker,
    TableFiles,
};

verus! {

/// The tracker and registry of one compaction group, and the next round's id.
#[derive(Debug)]
pub struct Coordinator {
    pub tracker: SnapshotTracker,
    pub registry: CompactedData,
    pub next_round_id: u64,
}

/// A planned round: the state that the coordinator takes on if the round commits.
#[derive(Debug)]
pub struct Round {
    pub round_id: u64,
    pub tracker: SnapshotTracker,
    pub registry: CompactedData,
    pub plan: SnapshotAdvancePlan,
}

/// How the round's summary write went.
#[derive(Debug)]
pub enum RoundOutcome {
    /// The summary was written; it is the commit point.
    Committed(CompactionSummary),
    /// A plan or the summary write failed.
    Failed,
}

/// What the registry reads of each merge plan among `plans`, in order.
pub open spec fn merge_views(plans: Seq<CompactionPlan>) -> Seq<PlanSummaryView>
    decreases plans.len(),
{
    if plans.len() == 0 {
        seq![]
    } else {
        let before = merge_views(plans.drop_last());
        match plans.last() {
            CompactionPlan::Compaction(p) => before.push(
                (p.db_name@, p.table_name@, p.output_generation, p.input_ids@),
            ),
            CompactionPlan::LeftoverOnly(_) => before,
        }
    }
}

/// Everything a summary records of one plan: database, table, output generation, input
/// ids, leftover ids and output paths.
pub type SummaryEntry = (Seq<char>, Seq<char>, Generation, Seq<GenerationId>, Seq<GenerationId>, Seq<Seq<char>>);

pub open spec fn strings_view(v: Seq<String>) -> Seq<Seq<char>> {
    v.map_values(|s: String| s@)
}

pub open spec fn entry_view(p: PlanSummary) -> SummaryEntry {
    (p.db_name@, p.table_name@, p.output_generation, p.input_ids@, p.leftover_ids@, strings_view(p.output_paths@))
}

/// The entry of each merge plan among the first `n` of `plans`, in order; plan `i` wrote
/// `paths[i]`.
pub open spec fn summary_entries(plans: Seq<CompactionPlan>, paths: Seq<Seq<Seq<char>>>, n: nat) -> Seq<SummaryEntry>
    decreases n,
{
    if n == 0 {
        seq![]
    } else {
        let before = summary_entries(plans, paths, (n - 1) as nat);
        match plans[n - 1] {
            CompactionPlan::Compaction(p) => before.push(
                (p.db_name@, p.table_name@, p.output_generation, p.input_ids@, p.leftover_ids@, paths[n - 1]),
            ),
            CompactionPlan::LeftoverOnly(_) => before,
        }
    }
}

fn clone_strings(v: &Vec<String>) -> (r: Vec<String>)
    ensures
        strings_view(r@) == strings_view(v@),
{
    let mut r: Vec<String> = Vec::new();
    let mut i: usize = 0;
    while i < v.len()
        invariant
            i <= v@.len(),
            r@.len() == i,
            forall|k: int| 0 <= k < i ==> (#[trigger] r@[k])@ == v@[k]@,
        decreases v@.len() - i,
    {
        r.push(v[i].clone());
        i += 1;
    }
    assert(strings_view(r@) =~= strings_view(v@));
    r
}

/// The summary of a round: one entry per merge plan, in order, with the paths its
/// compaction wrote (`output_paths[i]` for plan `i`).
pub fn summarize(round_id: u64, plans: &Vec<CompactionPlan>, output_paths: &Vec<Vec<String>>) -> (r:
    CompactionSummary)
    requires
        output_paths@.len() == plans@.len(),
    ensures
        r.round_id == round_id,
        r@ == merge_views(plans@),
        r.plans@.map_values(|p: PlanSummary| entry_view(p)) == summary_entries(
            plans@,
            output_paths@.map_values(|v: Vec<String>| strings_view(v@)),
            plans@.len(),
        ),
{
    let ghost paths = output_paths@.map_values(|v: Vec<String>| strings_view(v@));
    let mut out: Vec<PlanSummary> = Vec::new();
    let mut i: usize = 0;
    while i < plans.len()
        invariant
            i <= plans@.len(),
            output_paths@.len() == plans@.len(),
            out@.map_values(|p: PlanSummary| p@) == merge_views(plans@.take(i as int)),
            paths == output_paths@.map_values(|v: Vec<String>| strings_view(v@)),
            out@.map_values(|p: PlanSummary| entry_view(p)) == summary_entries(plans@, paths, i as nat),
        decreases plans@.len() - i,
    {
        let ghost before = out@;
        proof {
            assert(plans@.take(i + 1).drop_last() =~= plans@.take(i as int));
            assert(plans@.take(i + 1).last() == plans@[i as int]);
        }
        match &plans[i] {
            CompactionPlan::Compaction(p) => {
                out.push(
                    PlanSummary {
                        db_name: p.db_name.clone(),
                        table_name: p.table_name.clone(),
                        output_generation: p.output_generation,
                        input_ids: vstd::slice::slice_to_vec(p.input_ids.as_slice()),
                        leftover_ids: vstd::slice::slice_to_vec(p.leftover_ids.as_slice()),
                        output_paths: clone_strings(&output_paths[i]),
                    },
                );
                proof {
                    assert(paths[i as int] == strings_view(output_paths@[i as int]@));
                    assert(out@.map_values(|p: PlanSummary| entry_view(p)) =~= before.map_values(
                        |p: PlanSummary| entry_view(p),
                    ).push((p.db_name@, p.table_name@, p.output_generation, p.input_ids@, p.leftover_ids@, paths[i as int])));
                    assert(out@.map_values(|p: PlanSummary| p@) =~= before.map_values(
                        |p: PlanSummary| p@,
                    ).push((p.db_name@, p.table_name@, p.output_generation, p.input_ids@)));
                }
            },
            CompactionPlan::LeftoverOnly(_) => {},
        }
        i += 1;
    }
    assert(plans@.take(plans@.len() as int) =~= plans@);
    CompactionSummary { round_id, plans: out }
}

impl Coordinator {
    pub fn new(hosts: Vec<String>, config: CompactionConfig) -> (r: Coordinator)
        requires
            config.wf(),
        ensures
            r.registry.wf(),
            r.registry.config() == config,
            r.registry@.entries == Seq::<crate::registry::EntryView>::empty(),
            r.next_round_id == 0,
            r.tracker@.hosts == Map::new(
                |h: Seq<char>| exists|i: int| 0 <= i < hosts@.len() && (#[trigger] hosts@[i])@ == h,
                |h: Seq<char>| (None::<MarkerView>, 0usize),
            ),
            r.tracker@.pending == PendingView::empty(),
    {
        Coordinator {
            tracker: SnapshotTracker::new(hosts),
            registry: CompactedData::new(config),
            next_round_id: 0,
        }
    }

    /// Hands a snapshot from a host's feed to the tracker.
    pub fn receive_snapshot(&mut self, snapshot: &PersistedSnapshot) -> (r: Result<(), Error>)
        ensures
            final(self).registry == old(self).registry,
            final(self).next_round_id == old(self).next_round_id,
            r is Err <==> !old(self).tracker@.hosts.contains_key(snapshot.host_id@),
            r is Err ==> final(self).tracker@ == old(self).tracker@,
            r is Ok ==> final(self).tracker@.hosts == old(self).tracker@.hosts.insert(
                snapshot.host_id@,
                absorb_marker(
                    old(self).tracker@.hosts[snapshot.host_id@],
                    snapshot.host_id@,
                    snapshot.snapshot_sequence_number,
                    snapshot.next_file_id,
                ),
            ),
            r is Ok ==> final(self).tracker@.pending == absorb_files(
                old(self).tracker@.pending,
                snapshot.databases@.map_values(|t: TableFiles| t@),
            ),
    {
        self.tracker.add_snapshot(snapshot)
    }

    /// Plans a round on copies of the tracker and the registry, if one is due: the copied
    /// tracker is reset and its absorbed snapshots are planned by `to_plan_and_reset`. A
    /// table listed with no files aborts the round.
    pub fn begin_round(&self) -> (r: Result<Option<Round>, PlanError>)
        requires
            self.registry.wf(),
        ensures
            r matches Ok(None) <==> !compaction_due(self.tracker@.hosts),
            r is Err <==> compaction_due(self.tracker@.hosts) && exists|k: (Seq<char>, Seq<char>)|
                #[trigger] self.tracker@.pending.contains_key(k) && self.tracker@.pending[k].len() == 0,
            r matches Ok(Some(round)) ==> {
                &&& round.round_id == self.next_round_id
                &&& round.registry.wf()
                &&& round.registry.config().generation_durations@
                    == self.registry.config().generation_durations@
                &&& round.tracker@.hosts == reset_counters(self.tracker@.hosts)
                &&& round.tracker@.pending == PendingView::empty()
                &&& is_advance_plan(
                    round.registry.config(),
                    self.tracker@.hosts,
                    self.tracker@.pending,
                    self.registry@,
                    round.registry@,
                    round.plan,
                )
            },
    {
        if !self.tracker.should_compact() {
            return Ok(None);
        }
        let mut tracker = self.tracker.duplicate();
        let mut registry = self.registry.duplicate();
        let plan = tracker.to_plan_and_reset(&mut registry)?;
        Ok(Some(Round { round_id: self.next_round_id, tracker, registry, plan }))
    }

    /// Ends a round. A committed round's tracker becomes the coordinator's and its summary
    /// is applied to the registry; a failed round leaves the coordinator as it was.
    pub fn finish_round(&mut self, round: Round, outcome: RoundOutcome)
        ensures
            outcome is Failed ==> *final(self) == *old(self),
            outcome matches RoundOutcome::Committed(s) ==> {
                &&& final(self).tracker == round.tracker
                &&& final(self).registry@.entries == apply_summary_spec(round.registry@.entries, s@)
                &&& final(self).registry@.next_id == round.registry@.next_id
                &&& final(self).registry.config() == round.registry.config()
                &&& final(self).registry.wf() == round.registry.wf()
                &&& final(self).next_round_id == if old(self).next_round_id == u64::MAX {
                    old(self).next_round_id
                } else {
                    (old(self).next_round_id + 1) as u64
                }
            },
    {
        match outcome {
            RoundOutcome::Failed => {},
            RoundOutcome::Committed(summary) => {
                let mut registry = round.registry;
                registry.apply_summary(&summary);
                self.tracker = round.tracker;
                self.registry = registry;
                self.next_round_id = self.next_round_id.saturating_add(1);
            },
        }
    }
}

} // verus!
