//! The tracker's hash maps, kept in hashbrown and known to the proofs by their contents.
use vstd::prelude::*;
use crate::registry::ParquetFileView;
use crate::tracker::{CounterView, HostSnapshotCounter, HostsView, PendingView, TableFiles};

verus! {

/// Snapshot counters by host id.
#[derive(Debug)]
#[verifier::external_body]
pub struct HostCounters {
    inner: hashbrown::HashMap<String, HostSnapshotCounter>,
}

/// What a `HostCounters` holds: the counter of each host id.
pub uninterp spec fn host_counters_of(m: HostCounters) -> Map<Seq<char>, CounterView>;

impl HostCounters {
    /// Relies on hashbrown::HashMap::new: a new map is empty.
    #[verifier::external_body]
    pub fn new() -> (r: HostCounters)
        ensures
            host_counters_of(r) == HostsView::empty(),
    {
        HostCounters { inner: hashbrown::HashMap::new() }
    }

    /// Relies on hashbrown::HashMap::insert: afterwards `host` maps to `counter`, other keys
    /// keep their values.
    #[verifier::external_body]
    pub fn insert(&mut self, host: String, counter: HostSnapshotCounter)
        ensures
            host_counters_of(*final(self)) == host_counters_of(*old(self)).insert(host@, counter@),
    {
        self.inner.insert(host, counter);
    }

    /// Relies on hashbrown::HashMap::get: the value of `host`, if it is a key.
    #[verifier::external_body]
    pub fn get(&self, host: &str) -> (r: Option<&HostSnapshotCounter>)
        ensures
            r is Some <==> host_counters_of(*self).contains_key(host@),
            r matches Some(c) ==> c@ == host_counters_of(*self)[host@],
    {
        self.inner.get(host)
    }

    /// Relies on hashbrown::HashMap::clone, with `HostSnapshotCounter`'s `Clone`, which keeps
    /// the counter's values: the copy holds the same counters.
    #[verifier::external_body]
    pub fn duplicate(&self) -> (r: HostCounters)
        ensures
            host_counters_of(r) == host_counters_of(*self),
    {
        HostCounters { inner: self.inner.clone() }
    }

    /// Relies on hashbrown::HashMap::keys: each key once, in arbitrary order.
    #[verifier::external_body]
    pub fn keys(&self) -> (r: Vec<String>)
        ensures
            forall|i: int, j: int| 0 <= i < j < r@.len() ==> (#[trigger] r@[i])@ != (#[trigger] r@[j])@,
            forall|i: int| 0 <= i < r@.len() ==> host_counters_of(*self).contains_key(
                (#[trigger] r@[i])@,
            ),
            forall|h: Seq<char>| #[trigger] host_counters_of(*self).contains_key(h) ==> exists|i: int|
                0 <= i < r@.len() && (#[trigger] r@[i])@ == h,
    {
        self.inner.keys().cloned().collect()
    }
}

/// Pending gen1 files by `(database, table)`.
#[derive(Debug)]
#[verifier::external_body]
pub struct Gen1Files {
    inner: hashbrown::HashMap<(String, String), Vec<crate::registry::ParquetFile>>,
}

/// What a `Gen1Files` holds: the files of each `(database, table)`.
pub uninterp spec fn gen1_files_of(m: Gen1Files) -> Map<(Seq<char>, Seq<char>), Seq<ParquetFileView>>;

/// Files already pending for `key`, none where it has no entry.
pub open spec fn pending_for(
    m: Map<(Seq<char>, Seq<char>), Seq<ParquetFileView>>,
    key: (Seq<char>, Seq<char>),
) -> Seq<ParquetFileView> {
    if m.contains_key(key) {
        m[key]
    } else {
        seq![]
    }
}

impl Gen1Files {
    /// Relies on hashbrown::HashMap::new: a new map is empty.
    #[verifier::external_body]
    pub fn new() -> (r: Gen1Files)
        ensures
            gen1_files_of(r) == PendingView::empty(),
    {
        Gen1Files { inner: hashbrown::HashMap::new() }
    }

    /// Relies on hashbrown::HashMap::entry and Entry::or_default: `files` go after those
    /// already held for `(db, table)`, which gets an entry if it had none.
    #[verifier::external_body]
    pub fn append(&mut self, db: String, table: String, files: Vec<crate::registry::ParquetFile>)
        ensures
            gen1_files_of(*final(self)) == gen1_files_of(*old(self)).insert(
                (db@, table@),
                pending_for(gen1_files_of(*old(self)), (db@, table@)) + files@.map_values(
                    |f: crate::registry::ParquetFile| f@,
                ),
            ),
    {
        let mut files = files;
        self.inner.entry((db, table)).or_default().append(&mut files);
    }

    /// Relies on hashbrown::HashMap::clone, with `ParquetFile`'s `Clone`, which keeps the
    /// file's values: the copy holds the same files.
    #[verifier::external_body]
    pub fn duplicate(&self) -> (r: Gen1Files)
        ensures
            gen1_files_of(r) == gen1_files_of(*self),
    {
        Gen1Files { inner: self.inner.clone() }
    }

    /// Relies on hashbrown::HashMap::into_iter: each entry once, in arbitrary order.
    #[verifier::external_body]
    pub fn into_tables(self) -> (r: Vec<TableFiles>)
        ensures
            forall|i: int, j: int|
                0 <= i < j < r@.len() ==> (#[trigger] r@[i])@.key() != (#[trigger] r@[j])@.key(),
            forall|i: int|
                0 <= i < r@.len() ==> gen1_files_of(self).contains_key((#[trigger] r@[i])@.key())
                    && gen1_files_of(self)[r@[i]@.key()] == r@[i]@.files,
            forall|k: (Seq<char>, Seq<char>)| #[trigger] gen1_files_of(self).contains_key(k) ==> exists|i: int|
                0 <= i < r@.len() && (#[trigger] r@[i])@.key() == k,
    {
        self.inner.into_iter().map(|((db_name, table_name), files)| TableFiles { db_name, table_name, files }).collect()
    }
}

} // verus!
