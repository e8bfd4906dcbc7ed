use compactor::generation::{CompactionConfig, Generation, GenerationId, GenerationLevel};
use compactor::planner::{create_gen1_plan, CompactionPlan, LeftoverPlan, NextCompactionPlan};

fn gen_time_string_to_start_time_secs(s: &str) -> Option<i64> {
    chrono::NaiveDateTime::parse_from_str(s, "%Y-%m-%d/%H-%M")
        .ok()
        .map(|t| t.and_utc().timestamp())
}

fn gens_of(input: &[(u64, u8, &str)]) -> Vec<Generation> {
    input
        .iter()
        .map(|(id, level, time)| Generation {
            id: GenerationId::from(*id),
            level: GenerationLevel::new(*level),
            start_time_secs: gen_time_string_to_start_time_secs(time).unwrap(),
            max_time: 0,
        })
        .collect()
}

#[test]
fn gen1_plans() {
    let compaction_config = CompactionConfig::default();

    struct TestCase<'a> {
        description: &'a str,
        input: Vec<(u64, u8, &'a str)>,
        output_level: u8,
        output_time: &'a str,
        compact_ids: Vec<u64>,
        leftover_ids: Vec<u64>,
    }

    let test_cases = vec![
        TestCase {
            description: "two gen1 into a gen2",
            input: vec![(1, 1, "2024-09-05/12-00"), (2, 1, "2024-09-05/12-10")],
            output_level: 2,
            output_time: "2024-09-05/12-00",
            compact_ids: vec![1, 2],
            leftover_ids: vec![],
        },
        TestCase {
            description: "one gen1 not ready with 2 older ready",
            input: vec![
                (5, 1, "2024-09-10/11-40"),
                (3, 1, "2024-09-10/11-30"),
                (2, 1, "2024-09-10/11-20"),
            ],
            output_level: 2,
            output_time: "2024-09-10/11-20",
            compact_ids: vec![2, 3],
            leftover_ids: vec![5],
        },
        TestCase {
            description: "three leading gen1 and trailing 2 gen1s to be leftover",
            input: vec![
                (5, 1, "2024-09-10/11-30"),
                (3, 1, "2024-09-10/11-20"),
                (2, 1, "2024-09-10/11-10"),
                (4, 1, "2024-09-10/11-25"),
                (1, 1, "2024-09-10/11-00"),
            ],
            output_level: 2,
            output_time: "2024-09-10/11-20",
            compact_ids: vec![3, 4, 5],
            leftover_ids: vec![1, 2],
        },
    ];

    for tc in test_cases {
        let gens = gens_of(&tc.input);
        let plan = create_gen1_plan(
            &compaction_config,
            "db".to_string(),
            "table".to_string(),
            &gens,
            GenerationId::from(1000),
        );
        match plan {
            CompactionPlan::Compaction(NextCompactionPlan {
                output_generation,
                input_ids,
                leftover_ids,
                ..
            }) => {
                assert_eq!(
                    output_generation.level,
                    GenerationLevel::new(tc.output_level),
                    "{}: expected level {} but got {:?}",
                    tc.description,
                    tc.output_level,
                    output_generation.level,
                );
                assert_eq!(
                    output_generation.start_time_secs,
                    gen_time_string_to_start_time_secs(tc.output_time).unwrap(),
                    "{}: expected gen time {} but got {}",
                    tc.description,
                    tc.output_time,
                    output_generation.start_time_secs
                );
                let ids_to_compact = input_ids.iter().map(|g| g.as_u64()).collect::<Vec<_>>();
                assert_eq!(
                    tc.compact_ids, ids_to_compact,
                    "{}: expected ids {:?} but got {:?}",
                    tc.description, tc.compact_ids, ids_to_compact
                );
                let leftover_ids = leftover_ids.iter().map(|g| g.as_u64()).collect::<Vec<_>>();
                assert_eq!(
                    tc.leftover_ids, leftover_ids,
                    "{}: expected leftover ids {:?} but got {:?}",
                    tc.description, tc.leftover_ids, leftover_ids
                );
            }
            _ => panic!(
                "expected a compaction plan for test case '{}'",
                tc.description
            ),
        }
    }
}

#[test]
fn gen1_leftover_plas() {
    let compaction_config = CompactionConfig::default();

    struct TestCase<'a> {
        description: &'a str,
        input: Vec<(u64, u8, &'a str)>,
        leftover_ids: Vec<u64>,
    }

    let test_cases = vec![
        TestCase {
            description: "one gen1 leftover",
            input: vec![(23, 1, "2024-09-05/12-00")],
            leftover_ids: vec![23],
        },
        TestCase {
            description: "two gen1 leftovers in different gen2 blocks",
            input: vec![(23, 1, "2024-09-05/12-00"), (24, 1, "2024-09-05/12-40")],
            leftover_ids: vec![23, 24],
        },
    ];

    for tc in test_cases {
        let gens = gens_of(&tc.input);
        let plan = create_gen1_plan(
            &compaction_config,
            "db".to_string(),
            "table".to_string(),
            &gens,
            GenerationId::from(1000),
        );
        match plan {
            CompactionPlan::LeftoverOnly(LeftoverPlan {
                leftover_gen1_ids, ..
            }) => {
                let leftover_ids = leftover_gen1_ids
                    .iter()
                    .map(|g| g.as_u64())
                    .collect::<Vec<_>>();
                assert_eq!(
                    tc.leftover_ids, leftover_ids,
                    "{}: expected leftover ids {:?} but got {:?}",
                    tc.description, tc.leftover_ids, leftover_ids
                );
            }
            _ => panic!(
                "expected a leftover compaction plan for test case '{}'",
                tc.description
            ),
        }
    }
}

#[test]
fn output_generation_spans_one_gen2_block() {
    let config = CompactionConfig::default();
    let gens = gens_of(&[(1, 1, "2024-09-05/12-00"), (2, 1, "2024-09-05/12-10")]);
    let plan = create_gen1_plan(&config, "db".to_string(), "table".to_string(), &gens, GenerationId(77));
    match plan {
        CompactionPlan::Compaction(p) => {
            let start = gen_time_string_to_start_time_secs("2024-09-05/12-00").unwrap();
            assert_eq!(p.output_generation.id, GenerationId(77));
            assert_eq!(p.output_generation.start_time_secs % 1200, 0);
            assert_eq!(p.output_generation.max_time, (start + 1200) * 1_000_000_000);
            assert_eq!(p.db_name, "db");
            assert_eq!(p.table_name, "table");
        }
        _ => panic!("expected a compaction plan"),
    }
}

#[test]
fn single_leading_gen1_is_leftover_only() {
    let config = CompactionConfig::default();
    let mut gens = gens_of(&[(7, 1, "2024-09-05/12-00"), (8, 1, "2024-09-05/12-05")]);
    gens[1].level = GenerationLevel::two();
    let plan = create_gen1_plan(&config, "db".to_string(), "t".to_string(), &gens, GenerationId(9));
    match plan {
        CompactionPlan::LeftoverOnly(p) => {
            assert_eq!(p.leftover_gen1_ids, vec![GenerationId(7)]);
        }
        _ => panic!("expected a leftover plan"),
    }
}

#[test]
fn no_bucket_with_two_keeps_all_leading_gen1() {
    let config = CompactionConfig::default();
    let gens = gens_of(&[
        (3, 1, "2024-09-05/12-00"),
        (1, 1, "2024-09-05/12-20"),
        (2, 1, "2024-09-05/12-40"),
    ]);
    let plan = create_gen1_plan(&config, "db".to_string(), "t".to_string(), &gens, GenerationId(9));
    match plan {
        CompactionPlan::LeftoverOnly(p) => {
            assert_eq!(p.leftover_gen1_ids, vec![GenerationId(3), GenerationId(1), GenerationId(2)]);
            assert_eq!(CompactionPlan::LeftoverOnly(p).table_name(), "t");
        }
        _ => panic!("expected a leftover plan"),
    }
}

#[test]
fn leftover_and_input_partition_gen1() {
    let config = CompactionConfig::default();
    let mut gens = gens_of(&[
        (1, 1, "2024-09-10/11-00"),
        (2, 1, "2024-09-10/11-05"),
        (9, 1, "2024-09-10/11-30"),
        (4, 1, "2024-09-10/11-50"),
    ]);
    gens[2].level = GenerationLevel::new(3);
    let plan = create_gen1_plan(&config, "db".to_string(), "t".to_string(), &gens, GenerationId(50));
    match plan {
        CompactionPlan::Compaction(p) => {
            assert_eq!(p.input_ids, vec![GenerationId(1), GenerationId(2)]);
            assert_eq!(p.leftover_ids, vec![GenerationId(4)]);
        }
        _ => panic!("expected a compaction plan"),
    }
}

#[test]
fn generation_start_time_rounds_down() {
    let config = CompactionConfig::default();
    assert_eq!(config.generation_start_time(GenerationLevel::two(), 1250), 1200);
    assert_eq!(config.generation_start_time(GenerationLevel::two(), -1), -1200);
    assert_eq!(config.generation_start_time(GenerationLevel::new(3), 7300), 7200);
    assert_eq!(config.generation_start_time(GenerationLevel::one(), 1250), 1250);
    assert_eq!(config.generation_duration(GenerationLevel::two()), Some(1200));
    let lowest = config.generation_start_time(GenerationLevel::two(), i64::MIN);
    assert_eq!(lowest % 1200, 0);
    assert!(lowest > i64::MIN && (lowest as i128) - (i64::MIN as i128) < 1200);
    assert_eq!(config.generation_duration(GenerationLevel::new(9)), None);
}

#[test]
fn config_rejects_zero_duration() {
    assert!(CompactionConfig::new(vec![600, 0]).is_err());
    assert!(CompactionConfig::new(vec![600, 1800]).is_ok());
}
