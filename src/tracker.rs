//! The host snapshot tracker: absorbs snapshots and decides when a round may start.
use vstd::prelude::*;
use crate::maps::{gen1_files_of, host_counters_of, pending_for, Gen1Files, HostCounters};
use crate::planner::{plan_table, planned_table, CompactionPlan};
use crate::registry::{CompactedData, ParquetFile, ParquetFileView, RegistryView};

verus! {

/// How far the compactor has absorbed the snapshots of one host.
#[derive(Debug)]
pub struct HostSnapshotMarker {
    pub host_id: String,
    pub snapshot_sequence_number: u64,
    pub next_file_id: u64,
}

/// `(host id, snapshot sequence number, next file id)`.
pub type MarkerView = (Seq<char>, u64, u64);

impl View for HostSnapshotMarker {
    type V = MarkerView;

    open spec fn view(&self) -> MarkerView {
        (self.host_id@, self.snapshot_sequence_number, self.next_file_id)
    }
}

/// A host's marker, once it has one, and the snapshots absorbed since the last reset.
#[derive(Debug)]
pub struct HostSnapshotCounter {
    pub marker: Option<HostSnapshotMarker>,
    pub snapshot_count: usize,
}

impl Clone for HostSnapshotMarker {
    fn clone(&self) -> (r: HostSnapshotMarker)
        ensures
            r@ == self@,
    {
        HostSnapshotMarker {
            host_id: self.host_id.clone(),
            snapshot_sequence_number: self.snapshot_sequence_number,
            next_file_id: self.next_file_id,
        }
    }
}

/// `(marker, snapshot count)`.
pub type CounterView = (Option<MarkerView>, usize);

impl View for HostSnapshotCounter {
    type V = CounterView;

    open spec fn view(&self) -> CounterView {
        (
            match self.marker {
                Some(m) => Some(m@),
                None => None,
            },
            self.snapshot_count,
        )
    }
}

impl Clone for HostSnapshotCounter {
    fn clone(&self) -> (r: HostSnapshotCounter)
        ensures
            r@ == self@,
    {
        let marker = match &self.marker {
            Some(m) => Some(m.clone()),
            None => None,
        };
        HostSnapshotCounter { marker, snapshot_count: self.snapshot_count }
    }
}

impl Default for HostSnapshotCounter {
    fn default() -> (r: HostSnapshotCounter)
        ensures
            r@ == (None::<MarkerView>, 0usize),
    {
        HostSnapshotCounter { marker: None, snapshot_count: 0 }
    }
}

/// The files persisted for one table.
#[derive(Debug)]
pub struct TableFiles {
    pub db_name: String,
    pub table_name: String,
    pub files: Vec<ParquetFile>,
}

/// The values a `TableFiles` holds.
pub ghost struct TableFilesView {
    pub db: Seq<char>,
    pub table: Seq<char>,
    pub files: Seq<ParquetFileView>,
}

impl TableFilesView {
    pub open spec fn key(self) -> (Seq<char>, Seq<char>) {
        (self.db, self.table)
    }
}

impl View for TableFiles {
    type V = TableFilesView;

    open spec fn view(&self) -> TableFilesView {
        TableFilesView {
            db: self.db_name@,
            table: self.table_name@,
            files: self.files@.map_values(|f: ParquetFile| f@),
        }
    }
}

/// A snapshot manifest published by one host.
#[derive(Debug)]
pub struct PersistedSnapshot {
    pub host_id: String,
    pub snapshot_sequence_number: u64,
    pub next_file_id: u64,
    pub databases: Vec<TableFiles>,
}

/// Errors in planning a round; each aborts the round.
#[derive(Debug)]
pub enum PlanError {
    /// A table was listed in a snapshot with no files, so it has no oldest chunk.
    EmptyTable { db_name: String, table_name: String },
}

/// `plan` holds the absorbed counters `hosts` and one plan for each table of `pending`,
/// each made by `plan_table` from the table's files as the registry went from `before`
/// to `after`.
pub open spec fn is_advance_plan(
    cfg: crate::generation::CompactionConfig,
    hosts: HostsView,
    pending: PendingView,
    before: RegistryView,
    after: RegistryView,
    plan: SnapshotAdvancePlan,
) -> bool {
    let plans = plan.compaction_plans@;
    &&& host_counters_of(plan.host_snapshot_markers) == hosts
    &&& forall|i: int|
        0 <= i < plans.len() ==> pending.contains_key(#[trigger] plan_key(plans[i]))
            && pending[plan_key(plans[i])].len() > 0
    &&& forall|k: (Seq<char>, Seq<char>)|
        #[trigger] pending.contains_key(k) ==> exists|i: int|
            0 <= i < plans.len() && #[trigger] plan_key(plans[i]) == k
    &&& forall|i: int, j: int|
        0 <= i < j < plans.len() ==> plan_key(#[trigger] plans[i]) != plan_key(#[trigger] plans[j])
    &&& exists|regs: Seq<RegistryView>| #[trigger] plans_chain(cfg, regs, pending, plans) && regs[0]
        == before && regs.last() == after
}

/// Errors of the tracker.
#[derive(Debug)]
pub enum Error {
    /// A snapshot came from a host outside the compaction group.
    NotTrackingHost(String),
}

/// Pending files by `(database, table)`.
pub type PendingView = Map<(Seq<char>, Seq<char>), Seq<ParquetFileView>>;

/// Counters by host id.
pub type HostsView = Map<Seq<char>, CounterView>;

/// `n + 1`, held at `usize::MAX`.
pub open spec fn count_after(n: usize) -> usize {
    if n == usize::MAX {
        n
    } else {
        (n + 1) as usize
    }
}

/// A host's counter after one more snapshot: the marker is the element-wise maximum.
pub open spec fn absorb_marker(c: CounterView, host: Seq<char>, seq: u64, next_file: u64) -> CounterView {
    (
        Some(
            match c.0 {
                None => (host, seq, next_file),
                Some(m) => (
                    m.0,
                    if m.1 >= seq {
                        m.1
                    } else {
                        seq
                    },
                    if m.2 >= next_file {
                        m.2
                    } else {
                        next_file
                    },
                ),
            },
        ),
        count_after(c.1),
    )
}

/// Pending files after the tables of a snapshot are appended, in order.
pub open spec fn absorb_files(p: PendingView, ts: Seq<TableFilesView>) -> PendingView
    decreases ts.len(),
{
    if ts.len() == 0 {
        p
    } else {
        let before = absorb_files(p, ts.drop_last());
        let t = ts.last();
        before.insert(t.key(), pending_for(before, t.key()) + t.files)
    }
}

/// Each host's marker, where it has one, names that host.
pub open spec fn markers_keyed(m: HostsView) -> bool {
    forall|h: Seq<char>|
        #[trigger] m.contains_key(h) ==> match m[h].0 {
            Some(mk) => mk.0 == h,
            None => true,
        }
}

/// Every host of `m` with a fresh counter.
pub open spec fn reset_counters(m: Map<Seq<char>, CounterView>) -> Map<Seq<char>, CounterView> {
    Map::new(|h: Seq<char>| m.contains_key(h), |h: Seq<char>| (None::<MarkerView>, 0usize))
}

/// Some host has absorbed three snapshots, or every host two.
pub open spec fn compaction_due(m: Map<Seq<char>, CounterView>) -> bool {
    (exists|h: Seq<char>| m.contains_key(h) && #[trigger] m[h].1 >= 3) || (forall|h: Seq<char>|
        m.contains_key(h) ==> #[trigger] m[h].1 >= 2)
}

/// Plan `k` was made from the pending files of its table, taking the registry from
/// `regs[k]` to `regs[k + 1]`.
pub open spec fn plans_chain(
    cfg: crate::generation::CompactionConfig,
    regs: Seq<RegistryView>,
    pending: PendingView,
    plans: Seq<CompactionPlan>,
) -> bool {
    &&& regs.len() == plans.len() + 1
    &&& forall|k: int|
        #![trigger plans[k]]
        0 <= k < plans.len() ==> planned_table(
            cfg,
            regs[k],
            regs[k + 1],
            plan_key(plans[k]).0,
            plan_key(plans[k]).1,
            pending[plan_key(plans[k])],
            plans[k],
        )
}

/// The key of the table a plan is for.
pub open spec fn plan_key(p: CompactionPlan) -> (Seq<char>, Seq<char>) {
    (p.spec_db_name(), p.spec_table_name())
}

/// Counters of the tracked hosts, and the gen1 files not yet planned.
pub ghost struct TrackerView {
    pub hosts: Map<Seq<char>, CounterView>,
    pub pending: PendingView,
}

/// Markers and pending files of one compaction group.
#[derive(Debug)]
pub struct TrackerState {
    host_snapshot_markers: HostCounters,
    gen1_files: Gen1Files,
}

impl View for TrackerState {
    type V = TrackerView;

    closed spec fn view(&self) -> TrackerView {
        TrackerView {
            hosts: host_counters_of(self.host_snapshot_markers),
            pending: gen1_files_of(self.gen1_files),
        }
    }
}

/// A copy of each file.
fn clone_files(v: &Vec<ParquetFile>) -> (r: Vec<ParquetFile>)
    ensures
        r@.map_values(|f: ParquetFile| f@) == v@.map_values(|f: ParquetFile| f@),
{
    let mut r: Vec<ParquetFile> = Vec::new();
    let mut i: usize = 0;
    while i < v.len()
        invariant
            i <= v@.len(),
            r@.len() == i,
            forall|k: int| 0 <= k < i ==> (#[trigger] r@[k])@ == v@[k]@,
        decreases v@.len() - i,
    {
        r.push(v[i].clone());
        i += 1;
    }
    assert(r@.map_values(|f: ParquetFile| f@) =~= v@.map_values(|f: ParquetFile| f@));
    r
}

/// A map with a fresh counter for each of `hosts`.
fn fresh_counters(hosts: &Vec<String>) -> (r: HostCounters)
    ensures
        host_counters_of(r) == Map::new(
            |h: Seq<char>| exists|i: int| 0 <= i < hosts@.len() && (#[trigger] hosts@[i])@ == h,
            |h: Seq<char>| (None::<MarkerView>, 0usize),
        ),
{
    let mut m = HostCounters::new();
    let mut i: usize = 0;
    while i < hosts.len()
        invariant
            i <= hosts@.len(),
            host_counters_of(m) == Map::new(
                |h: Seq<char>| exists|k: int| 0 <= k < i && (#[trigger] hosts@[k])@ == h,
                |h: Seq<char>| (None::<MarkerView>, 0usize),
            ),
        decreases hosts@.len() - i,
    {
        let ghost before = host_counters_of(m);
        m.insert(hosts[i].clone(), HostSnapshotCounter::default());
        proof {
            assert(host_counters_of(m) =~= Map::new(
                |h: Seq<char>| exists|k: int| 0 <= k < i + 1 && (#[trigger] hosts@[k])@ == h,
                |h: Seq<char>| (None::<MarkerView>, 0usize),
            )) by {
                assert forall|h: Seq<char>| (exists|k: int| 0 <= k < i + 1 && (#[trigger] hosts@[k])@ == h)
                    <==> (before.contains_key(h) || h == hosts@[i as int]@) by {
                    if exists|k: int| 0 <= k < i + 1 && (#[trigger] hosts@[k])@ == h {
                        let k = choose|k: int| 0 <= k < i + 1 && (#[trigger] hosts@[k])@ == h;
                        if k < i {
                            assert(before.contains_key(h));
                        }
                    }
                }
            }
        }
        i += 1;
    }
    m
}

impl TrackerState {
    /// A copy with the same counters and pending files.
    pub fn duplicate(&self) -> (r: TrackerState)
        ensures
            r@ == self@,
    {
        TrackerState {
            host_snapshot_markers: self.host_snapshot_markers.duplicate(),
            gen1_files: self.gen1_files.duplicate(),
        }
    }

    /// Swaps out the markers and pending files, leaving a fresh counter for each host and
    /// no pending files.
    pub fn reset(&mut self) -> (r: (HostCounters, Gen1Files))
        ensures
            host_counters_of(r.0) == old(self)@.hosts,
            gen1_files_of(r.1) == old(self)@.pending,
            final(self)@.hosts == reset_counters(old(self)@.hosts),
            final(self)@.pending == PendingView::empty(),
    {
        let keys = self.host_snapshot_markers.keys();
        let mut markers = fresh_counters(&keys);
        proof {
            let old_hosts = host_counters_of(self.host_snapshot_markers);
            assert(host_counters_of(markers) =~= reset_counters(old_hosts));
        }
        std::mem::swap(&mut self.host_snapshot_markers, &mut markers);
        let mut files = Gen1Files::new();
        std::mem::swap(&mut self.gen1_files, &mut files);
        (markers, files)
    }
}

/// Keeps the snapshot markers and gen1 files of each host until a round is planned.
#[derive(Debug)]
pub struct SnapshotTracker {
    state: TrackerState,
}

/// What a round starts from: the absorbed markers and one plan per table.
#[derive(Debug)]
pub struct SnapshotAdvancePlan {
    pub host_snapshot_markers: HostCounters,
    pub compaction_plans: Vec<CompactionPlan>,
}

impl View for SnapshotTracker {
    type V = TrackerView;

    closed spec fn view(&self) -> TrackerView {
        self.state@
    }
}

impl SnapshotTracker {
    /// A copy with the same counters and pending files.
    pub fn duplicate(&self) -> (r: SnapshotTracker)
        ensures
            r@ == self@,
    {
        SnapshotTracker { state: self.state.duplicate() }
    }

    /// A tracker for the hosts compacted together, each with a fresh counter.
    pub fn new(hosts: Vec<String>) -> (r: SnapshotTracker)
        ensures
            r@.hosts == Map::new(
                |h: Seq<char>| exists|i: int| 0 <= i < hosts@.len() && (#[trigger] hosts@[i])@ == h,
                |h: Seq<char>| (None::<MarkerView>, 0usize),
            ),
            r@.pending == PendingView::empty(),
            markers_keyed(r@.hosts),
    {
        let host_snapshot_markers = fresh_counters(&hosts);
        SnapshotTracker { state: TrackerState { host_snapshot_markers, gen1_files: Gen1Files::new() } }
    }

    /// The tracked hosts, each once, in arbitrary order.
    pub fn hosts(&self) -> (r: Vec<String>)
        ensures
            forall|i: int, j: int| 0 <= i < j < r@.len() ==> (#[trigger] r@[i])@ != (#[trigger] r@[j])@,
            forall|i: int| 0 <= i < r@.len() ==> self@.hosts.contains_key((#[trigger] r@[i])@),
            forall|h: Seq<char>| #[trigger] self@.hosts.contains_key(h) ==> exists|i: int|
                0 <= i < r@.len() && (#[trigger] r@[i])@ == h,
    {
        self.state.host_snapshot_markers.keys()
    }

    /// Absorbs one snapshot: the host's count goes up by one, its marker becomes the
    /// element-wise maximum, and the snapshot's files join the pending files.
    pub fn add_snapshot(&mut self, snapshot: &PersistedSnapshot) -> (r: Result<(), Error>)
        ensures
            r is Err <==> !old(self)@.hosts.contains_key(snapshot.host_id@),
            r matches Err(Error::NotTrackingHost(h)) ==> h@ == snapshot.host_id@,
            r is Err ==> final(self)@ == old(self)@,
            markers_keyed(old(self)@.hosts) ==> markers_keyed(final(self)@.hosts),
            r is Ok ==> final(self)@.hosts == old(self)@.hosts.insert(
                snapshot.host_id@,
                absorb_marker(
                    old(self)@.hosts[snapshot.host_id@],
                    snapshot.host_id@,
                    snapshot.snapshot_sequence_number,
                    snapshot.next_file_id,
                ),
            ),
            r is Ok ==> final(self)@.pending == absorb_files(
                old(self)@.pending,
                snapshot.databases@.map_values(|t: TableFiles| t@),
            ),
    {
        let counter = match self.state.host_snapshot_markers.get(snapshot.host_id.as_str()) {
            None => {
                return Err(Error::NotTrackingHost(snapshot.host_id.clone()));
            },
            Some(c) => c,
        };
        let marker = match &counter.marker {
            Some(m) => HostSnapshotMarker {
                host_id: m.host_id.clone(),
                snapshot_sequence_number: if m.snapshot_sequence_number >= snapshot.snapshot_sequence_number {
                    m.snapshot_sequence_number
                } else {
                    snapshot.snapshot_sequence_number
                },
                next_file_id: if m.next_file_id >= snapshot.next_file_id {
                    m.next_file_id
                } else {
                    snapshot.next_file_id
                },
            },
            None => HostSnapshotMarker {
                host_id: snapshot.host_id.clone(),
                snapshot_sequence_number: snapshot.snapshot_sequence_number,
                next_file_id: snapshot.next_file_id,
            },
        };
        let updated = HostSnapshotCounter {
            marker: Some(marker),
            snapshot_count: counter.snapshot_count.saturating_add(1),
        };
        self.state.host_snapshot_markers.insert(snapshot.host_id.clone(), updated);

        let ghost ts = snapshot.databases@.map_values(|t: TableFiles| t@);
        let ghost p0 = self@.pending;
        let mut i: usize = 0;
        while i < snapshot.databases.len()
            invariant
                i <= snapshot.databases@.len(),
                ts == snapshot.databases@.map_values(|t: TableFiles| t@),
                gen1_files_of(self.state.gen1_files) == absorb_files(p0, ts.take(i as int)),
                host_counters_of(self.state.host_snapshot_markers) == old(self)@.hosts.insert(
                    snapshot.host_id@,
                    absorb_marker(
                        old(self)@.hosts[snapshot.host_id@],
                        snapshot.host_id@,
                        snapshot.snapshot_sequence_number,
                        snapshot.next_file_id,
                    ),
                ),
            decreases snapshot.databases@.len() - i,
        {
            proof {
                assert(ts.take(i + 1).drop_last() =~= ts.take(i as int));
                assert(ts.take(i + 1).last() == ts[i as int]);
            }
            let t = &snapshot.databases[i];
            let files = clone_files(&t.files);
            self.state.gen1_files.append(t.db_name.clone(), t.table_name.clone(), files);
            i += 1;
        }
        assert(ts.take(ts.len() as int) =~= ts);
        Ok(())
    }

    /// Whether a round should start: some host has absorbed three snapshots since the last
    /// reset, or every host at least two.
    pub fn should_compact(&self) -> (r: bool)
        ensures
            r == compaction_due(self@.hosts),
    {
        let ghost m = self@.hosts;
        let keys = self.state.host_snapshot_markers.keys();
        let mut all_two = true;
        let mut i: usize = 0;
        while i < keys.len()
            invariant
                m == self@.hosts,
                i <= keys@.len(),
                forall|k: int| 0 <= k < keys@.len() ==> m.contains_key((#[trigger] keys@[k])@),
                forall|k: int| 0 <= k < i ==> m[(#[trigger] keys@[k])@].1 < 3,
                all_two == forall|k: int| 0 <= k < i ==> m[(#[trigger] keys@[k])@].1 >= 2,
            decreases keys@.len() - i,
        {
            let c = self.state.host_snapshot_markers.get(keys[i].as_str()).unwrap();
            if c.snapshot_count >= 3 {
                assert(m[keys@[i as int]@].1 >= 3);
                return true;
            }
            if c.snapshot_count < 2 {
                all_two = false;
            }
            i += 1;
        }
        proof {
            assert forall|h: Seq<char>| m.contains_key(h) implies #[trigger] m[h].1 < 3 by {
                let k = choose|k: int| 0 <= k < keys@.len() && (#[trigger] keys@[k])@ == h;
            }
            if all_two {
                assert forall|h: Seq<char>| m.contains_key(h) implies #[trigger] m[h].1 >= 2 by {
                    let k = choose|k: int| 0 <= k < keys@.len() && (#[trigger] keys@[k])@ == h;
                }
            } else {
                let k = choose|k: int| 0 <= k < i && !(m[(#[trigger] keys@[k])@].1 >= 2);
                assert(m.contains_key(keys@[k]@));
            }
        }
        all_two
    }

    /// Swaps out the absorbed markers and pending files and plans each table with pending
    /// files against the registry.
    pub fn to_plan_and_reset(&mut self, compacted_data: &mut CompactedData) -> (r: Result<
        SnapshotAdvancePlan,
        PlanError,
    >)
        requires
            old(compacted_data).wf(),
        ensures
            final(self)@.hosts == reset_counters(old(self)@.hosts),
            final(self)@.pending == PendingView::empty(),
            markers_keyed(final(self)@.hosts),
            final(compacted_data).wf(),
            final(compacted_data).config() == old(compacted_data).config(),
            r is Err <==> exists|k: (Seq<char>, Seq<char>)|
                #[trigger] old(self)@.pending.contains_key(k) && old(self)@.pending[k].len() == 0,
            r matches Err(PlanError::EmptyTable { db_name, table_name }) ==> old(
                self,
            )@.pending.contains_key((db_name@, table_name@)) && old(self)@.pending[(
            db_name@,
            table_name@,
            )].len() == 0,
            r is Err ==> final(compacted_data)@ == old(compacted_data)@,
            r matches Ok(p) ==> is_advance_plan(
                old(compacted_data).config(),
                old(self)@.hosts,
                old(self)@.pending,
                old(compacted_data)@,
                final(compacted_data)@,
                p,
            ),
    {
        let (host_snapshot_markers, gen1_files) = self.state.reset();
        let ghost pending = gen1_files_of(gen1_files);
        let tables = gen1_files.into_tables();
        // a table with no files cannot be planned: the round is aborted
        let mut j: usize = 0;
        while j < tables.len()
            invariant
                j <= tables@.len(),
                forall|q: int| 0 <= q < j ==> (#[trigger] tables@[q])@.files.len() > 0,
                self@.hosts == reset_counters(old(self)@.hosts),
                self@.pending == PendingView::empty(),
                *compacted_data == *old(compacted_data),
                compacted_data.wf(),
                pending == old(self)@.pending,
                host_counters_of(host_snapshot_markers) == old(self)@.hosts,
                forall|a: int|
                    0 <= a < tables@.len() ==> pending.contains_key((#[trigger] tables@[a])@.key())
                        && pending[tables@[a]@.key()] == tables@[a]@.files,
                forall|k: (Seq<char>, Seq<char>)| #[trigger] pending.contains_key(k) ==> exists|i: int|
                    0 <= i < tables@.len() && (#[trigger] tables@[i])@.key() == k,
                forall|a: int, b: int|
                    0 <= a < b < tables@.len() ==> (#[trigger] tables@[a])@.key() != (
                    #[trigger] tables@[b])@.key(),
            decreases tables@.len() - j,
        {
            if tables[j].files.len() == 0 {
                proof {
                    assert(pending.contains_key(tables@[j as int]@.key()));
                }
                return Err(
                    PlanError::EmptyTable {
                        db_name: tables[j].db_name.clone(),
                        table_name: tables[j].table_name.clone(),
                    },
                );
            }
            j += 1;
        }
        proof {
            assert forall|k: (Seq<char>, Seq<char>)| #[trigger] pending.contains_key(k) implies pending[k].len() > 0 by {
                let c = choose|c: int| 0 <= c < tables@.len() && (#[trigger] tables@[c])@.key() == k;
            }
        }
        let mut plans: Vec<CompactionPlan> = Vec::new();
        let ghost mut from: Seq<int> = seq![];
        let ghost cfg = compacted_data.config();
        let ghost mut regs: Seq<RegistryView> = seq![compacted_data@];
        let mut i: usize = 0;
        while i < tables.len()
            invariant
                i <= tables@.len(),
                cfg == old(compacted_data).config(),
                plans_chain(cfg, regs, pending, plans@),
                regs[0] == old(compacted_data)@,
                regs.last() == compacted_data@,
                compacted_data.wf(),
                compacted_data.config() == old(compacted_data).config(),
                forall|a: int, b: int|
                    0 <= a < b < tables@.len() ==> (#[trigger] tables@[a])@.key() != (
                    #[trigger] tables@[b])@.key(),
                forall|a: int|
                    0 <= a < tables@.len() ==> pending.contains_key((#[trigger] tables@[a])@.key())
                        && pending[tables@[a]@.key()] == tables@[a]@.files,
                from.len() == plans@.len(),
                forall|a: int|
                    0 <= a < plans@.len() ==> 0 <= #[trigger] from[a] < i && plan_key(plans@[a])
                        == tables@[from[a]]@.key() && tables@[from[a]]@.files.len() > 0,
                forall|a: int, b: int| 0 <= a < b < plans@.len() ==> #[trigger] from[a] < #[trigger] from[b],
                forall|c: int|
                    0 <= c < i && (#[trigger] tables@[c])@.files.len() > 0 ==> exists|a: int|
                        0 <= a < plans@.len() && from[a] == c,
            decreases tables@.len() - i,
        {
            let t = &tables[i];
            if t.files.len() > 0 {
                let files = clone_files(&t.files);
                let ghost before = compacted_data@;
                let ghost old_plans = plans@;
                let plan = plan_table(compacted_data, t.db_name.as_str(), t.table_name.as_str(), files);
                plans.push(plan);
                proof {
                    let old_regs = regs;
                    regs = regs.push(compacted_data@);
                    assert(plan_key(plan) == t@.key());
                    assert(pending[t@.key()] == t@.files);
                    assert forall|k: int| #![trigger plans@[k]] 0 <= k < plans@.len() implies planned_table(
                        cfg,
                        regs[k],
                        regs[k + 1],
                        plan_key(plans@[k]).0,
                        plan_key(plans@[k]).1,
                        pending[plan_key(plans@[k])],
                        plans@[k],
                    ) by {
                        if k < old_plans.len() {
                            assert(plans@[k] == old_plans[k]);
                            assert(regs[k] == old_regs[k] && regs[k + 1] == old_regs[k + 1]);
                        } else {
                            assert(regs[k] == before);
                        }
                    }
                    let old_from = from;
                    from = from.push(i as int);
                    assert(from[from.len() - 1] == i);
                    assert forall|c: int|
                        0 <= c < i + 1 && (#[trigger] tables@[c])@.files.len() > 0 implies exists|a: int|
                        0 <= a < plans@.len() && from[a] == c by {
                        if c < i {
                            let a = choose|a: int| 0 <= a < old_from.len() && old_from[a] == c;
                            assert(from[a] == c);
                        } else {
                            assert(from[plans@.len() - 1] == c);
                        }
                    }
                }
            }
            i += 1;
        }
        proof {
            assert forall|k: (Seq<char>, Seq<char>)|
                #[trigger] pending.contains_key(k) && pending[k].len() > 0 implies exists|a: int|
                0 <= a < plans@.len() && #[trigger] plan_key(plans@[a]) == k by {
                let c = choose|c: int| 0 <= c < tables@.len() && (#[trigger] tables@[c])@.key() == k;
                let a = choose|a: int| 0 <= a < plans@.len() && from[a] == c;
                assert(plan_key(plans@[a]) == k);
            }
            assert forall|a: int| 0 <= a < plans@.len() implies pending.contains_key(
                #[trigger] plan_key(plans@[a]),
            ) && pending[plan_key(plans@[a])].len() > 0 by {
                assert(tables@[from[a]]@.files.len() > 0);
            }
            assert forall|a: int, b: int| 0 <= a < b < plans@.len() implies plan_key(
                #[trigger] plans@[a],
            ) != plan_key(#[trigger] plans@[b]) by {
                assert(from[a] < from[b]);
            }
        }
        assert(plans_chain(old(compacted_data).config(), regs, old(self)@.pending, plans@));
        proof {
            assert forall|k: (Seq<char>, Seq<char>)| #[trigger] pending.contains_key(k) implies exists|a: int|
                0 <= a < plans@.len() && #[trigger] plan_key(plans@[a]) == k by {
                assert(pending[k].len() > 0);
            }
        }
        Ok(SnapshotAdvancePlan { host_snapshot_markers, compaction_plans: plans })
    }
}

} // verus!
