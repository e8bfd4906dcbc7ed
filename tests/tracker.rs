use compactor::coordinator::{summarize, Coordinator, RoundOutcome};
use compactor::generation::{CompactionConfig, Generation, GenerationId, GenerationLevel};
use compactor::planner::{plan_table, CompactionPlan};
use compactor::registry::{CompactedData, CompactionSummary, ParquetFile, PlanSummary};
use compactor::tracker::{Error, PersistedSnapshot, PlanError, SnapshotTracker, TableFiles};

const MINUTE_NS: i64 = 60 * 1_000_000_000;

fn file(path: &str, chunk_minute: i64) -> ParquetFile {
    ParquetFile {
        path: path.to_string(),
        size_bytes: 10,
        row_count: 1,
        chunk_time: chunk_minute * MINUTE_NS,
        min_time: chunk_minute * MINUTE_NS,
        max_time: chunk_minute * MINUTE_NS + 1,
    }
}

fn snapshot(host: &str, seq: u64, next_file: u64, files: Vec<ParquetFile>) -> PersistedSnapshot {
    PersistedSnapshot {
        host_id: host.to_string(),
        snapshot_sequence_number: seq,
        next_file_id: next_file,
        databases: vec![TableFiles { db_name: "db".to_string(), table_name: "t".to_string(), files }],
    }
}

fn hosts() -> Vec<String> {
    vec!["h1".to_string(), "h2".to_string()]
}

#[test]
fn snapshot_from_untracked_host_is_refused() {
    let mut tracker = SnapshotTracker::new(hosts());
    match tracker.add_snapshot(&snapshot("other", 1, 1, vec![])) {
        Err(Error::NotTrackingHost(h)) => assert_eq!(h, "other"),
        Ok(()) => panic!("expected an error"),
    }
    let mut names = tracker.hosts();
    names.sort();
    assert_eq!(names, hosts());
}

#[test]
fn compaction_due_after_two_each_or_three_from_one() {
    let mut tracker = SnapshotTracker::new(hosts());
    assert!(!tracker.should_compact());
    tracker.add_snapshot(&snapshot("h1", 1, 1, vec![])).unwrap();
    tracker.add_snapshot(&snapshot("h1", 2, 2, vec![])).unwrap();
    assert!(!tracker.should_compact());
    tracker.add_snapshot(&snapshot("h2", 1, 1, vec![])).unwrap();
    assert!(!tracker.should_compact());
    tracker.add_snapshot(&snapshot("h2", 2, 2, vec![])).unwrap();
    assert!(tracker.should_compact());

    let mut forced = SnapshotTracker::new(hosts());
    for seq in 1..=3 {
        forced.add_snapshot(&snapshot("h1", seq, seq, vec![])).unwrap();
    }
    assert!(forced.should_compact());
}

#[test]
fn plan_and_reset_returns_markers_and_clears_state() {
    let mut tracker = SnapshotTracker::new(hosts());
    tracker.add_snapshot(&snapshot("h1", 4, 10, vec![file("a", 0)])).unwrap();
    tracker.add_snapshot(&snapshot("h1", 3, 12, vec![file("b", 5)])).unwrap();
    tracker.add_snapshot(&snapshot("h2", 1, 2, vec![file("c", 30)])).unwrap();
    let mut registry = CompactedData::new(CompactionConfig::default());
    let plan = tracker.to_plan_and_reset(&mut registry).unwrap();

    let h1 = plan.host_snapshot_markers.get("h1").unwrap();
    assert_eq!(h1.snapshot_count, 2);
    let m = h1.marker.as_ref().unwrap();
    assert_eq!((m.host_id.as_str(), m.snapshot_sequence_number, m.next_file_id), ("h1", 4, 12));
    assert_eq!(plan.host_snapshot_markers.get("h2").unwrap().snapshot_count, 1);

    assert_eq!(plan.compaction_plans.len(), 1);
    match &plan.compaction_plans[0] {
        CompactionPlan::Compaction(p) => {
            assert_eq!((p.db_name.as_str(), p.table_name.as_str()), ("db", "t"));
            assert_eq!(p.input_ids, vec![GenerationId(1), GenerationId(2)]);
            assert_eq!(p.leftover_ids, vec![GenerationId(3)]);
            assert_eq!(p.output_generation.id, GenerationId(4));
            assert_eq!(p.output_generation.start_time_secs, 0);
        }
        _ => panic!("expected a compaction plan"),
    }

    assert!(!tracker.should_compact());
    for h in ["h1", "h2"] {
        let mut after = SnapshotTracker::new(hosts());
        std::mem::swap(&mut after, &mut tracker);
        let next = after.to_plan_and_reset(&mut registry).unwrap();
        assert!(next.compaction_plans.is_empty());
        let c = next.host_snapshot_markers.get(h).unwrap();
        assert_eq!(c.snapshot_count, 0);
        assert!(c.marker.is_none());
        tracker = after;
    }
}

#[test]
fn registry_assigns_gen1_generations_and_filters_by_block() {
    let mut registry = CompactedData::new(CompactionConfig::default());
    let g = registry.add_gen1_file_to_map("db", "t", file("a", 61)).generation();
    assert_eq!(g.id, GenerationId(1));
    assert_eq!(g.level, GenerationLevel::one());
    assert_eq!(g.start_time_secs, 61 * 60);
    registry.add_gen1_file_to_map("db", "other", file("b", 61));
    assert_eq!(registry.get_generations_newer_than("db", "t", 61 * 60).len(), 1);
    assert_eq!(registry.get_generations_newer_than("db", "t", 62 * 60).len(), 0);
    assert_eq!(registry.get_generations_newer_than("db", "nope", 0).len(), 0);
}

#[test]
fn plan_table_merges_registered_and_new_generations() {
    let mut registry = CompactedData::new(CompactionConfig::default());
    let plan = plan_table(&mut registry, "db", "t", vec![file("x", 21), file("y", 25)]);
    match plan {
        CompactionPlan::Compaction(p) => {
            assert_eq!(p.input_ids, vec![GenerationId(1), GenerationId(2)]);
            assert_eq!(p.output_generation.start_time_secs, 20 * 60);
        }
        _ => panic!("expected a compaction plan"),
    }
}

fn summary_for(db: &str, table: &str, output: Generation, inputs: Vec<GenerationId>) -> CompactionSummary {
    CompactionSummary {
        round_id: 0,
        plans: vec![PlanSummary {
            db_name: db.to_string(),
            table_name: table.to_string(),
            output_generation: output,
            input_ids: inputs,
            leftover_ids: vec![],
            output_paths: vec![],
        }],
    }
}

#[test]
fn applying_a_summary_twice_changes_nothing_more() {
    let mut registry = CompactedData::new(CompactionConfig::default());
    let a = registry.add_gen1_file_to_map("db", "t", file("a", 0)).generation();
    let b = registry.add_gen1_file_to_map("db", "t", file("b", 5)).generation();
    let out = Generation { id: GenerationId(50), level: GenerationLevel::two(), start_time_secs: 0, max_time: 1 };
    let summary = summary_for("db", "t", out, vec![a.id, b.id]);
    registry.apply_summary(&summary);
    let once = registry.get_generations_newer_than("db", "t", i64::MIN + 10_000);
    assert_eq!(once, vec![out]);
    registry.apply_summary(&summary);
    let twice = registry.get_generations_newer_than("db", "t", i64::MIN + 10_000);
    assert_eq!(twice, once);
}

#[test]
fn failed_round_leaves_coordinator_unchanged() {
    let mut c = Coordinator::new(hosts(), CompactionConfig::default());
    for seq in 1..=2 {
        c.receive_snapshot(&snapshot("h1", seq, seq, vec![file("a", seq as i64)])).unwrap();
        c.receive_snapshot(&snapshot("h2", seq, seq, vec![file("b", seq as i64)])).unwrap();
    }
    let round = c.begin_round().unwrap().unwrap();
    assert_eq!(round.plan.compaction_plans.len(), 1);
    c.finish_round(round, RoundOutcome::Failed);
    assert!(c.tracker.should_compact());
    assert_eq!(c.next_round_id, 0);
    assert_eq!(c.registry.get_generations_newer_than("db", "t", i64::MIN + 10_000).len(), 0);

    let round = c.begin_round().unwrap().unwrap();
    let paths = vec![vec!["out/0.parquet".to_string()]];
    let summary = summarize(round.round_id, &round.plan.compaction_plans, &paths);
    assert_eq!(summary.plans.len(), 1);
    assert_eq!(summary.plans[0].output_paths, paths[0]);
    c.finish_round(round, RoundOutcome::Committed(summary));
    assert!(!c.tracker.should_compact());
    assert_eq!(c.next_round_id, 1);
    let gens = c.registry.get_generations_newer_than("db", "t", i64::MIN + 10_000);
    assert_eq!(gens.len(), 1);
    assert_eq!(gens[0].level, GenerationLevel::two());
}

#[test]
fn table_without_files_aborts_the_round() {
    let mut tracker = SnapshotTracker::new(hosts());
    tracker.add_snapshot(&snapshot("h1", 1, 1, vec![])).unwrap();
    let mut registry = CompactedData::new(CompactionConfig::default());
    match tracker.to_plan_and_reset(&mut registry) {
        Err(PlanError::EmptyTable { db_name, table_name }) => {
            assert_eq!((db_name.as_str(), table_name.as_str()), ("db", "t"));
        }
        Ok(_) => panic!("expected a plan error"),
    }
    assert!(registry.get_generations_newer_than("db", "t", i64::MIN + 10_000).is_empty());

    let mut c = Coordinator::new(hosts(), CompactionConfig::default());
    for seq in 1..=3 {
        c.receive_snapshot(&snapshot("h1", seq, seq, vec![])).unwrap();
    }
    assert!(c.begin_round().is_err());
    assert!(c.tracker.should_compact());
}

#[test]
fn output_id_avoids_ids_already_planned() {
    let mut registry = CompactedData::new(CompactionConfig::default());
    let out = Generation { id: GenerationId(3), level: GenerationLevel::two(), start_time_secs: 3600, max_time: 1 };
    registry.apply_summary(&summary_for("db", "t", out, vec![]));
    // ids 1 and 2 go to the new files; 3 is the next id, held by the gen2 above
    let plan = plan_table(&mut registry, "db", "t", vec![file("x", 21), file("y", 25)]);
    match plan {
        CompactionPlan::Compaction(p) => {
            assert_eq!(p.input_ids, vec![GenerationId(1), GenerationId(2)]);
            assert_eq!(p.output_generation.id, GenerationId(0));
        }
        CompactionPlan::LeftoverOnly(p) => panic!("expected a compaction plan, got {:?}", p),
    }
}

#[test]
fn summary_whose_output_is_also_an_input_applies_once() {
    let mut registry = CompactedData::new(CompactionConfig::default());
    let a = registry.add_gen1_file_to_map("db", "t", file("a", 0)).generation();
    let out = Generation { id: a.id, level: GenerationLevel::two(), start_time_secs: 0, max_time: 1 };
    let summary = summary_for("db", "t", out, vec![a.id]);
    registry.apply_summary(&summary);
    let once = registry.get_generations_newer_than("db", "t", i64::MIN + 10_000);
    assert_eq!(once, vec![out]);
    registry.apply_summary(&summary);
    assert_eq!(registry.get_generations_newer_than("db", "t", i64::MIN + 10_000), once);
}
