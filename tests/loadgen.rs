use compactor::loadgen::{
    CardinalityGenerator, FieldGenerator, Metadata, RowGenerator, TagGenerator, TimeGenerator,
};
use sha2::Digest;
use compactor::render::decimal_i64;
use rand::rngs::SmallRng;
use rand::SeedableRng;

#[test]
fn metadata_names_column_kind() {
    let m = Metadata::Tag.create();
    assert_eq!(m, vec![("iox::column::type".to_string(), "iox::column_type::tag".to_string())]);
    let t = Metadata::Time.create();
    assert_eq!(t[0].1, "iox::column_type::timestamp");
    assert_eq!(Metadata::Field.create()[0].1, "iox::column_type::field::boolean");
    assert_eq!(Metadata::SeriesId.create()[0].1, "iox::column_type::sid");
}

#[test]
fn cardinality_generator_hands_out_each_value_once() {
    let mut rng = SmallRng::seed_from_u64(0);
    let mut g = CardinalityGenerator::new(&mut rng, 5);
    let mut seen = Vec::new();
    while let Some(v) = g.generate() {
        seen.push(v);
    }
    let first = seen.clone();
    seen.sort();
    assert_eq!(seen, vec![0, 1, 2, 3, 4]);
    g.reset();
    assert_eq!(g.generate(), Some(first[0]));
}

#[test]
fn tag_generator_prefixes_base() {
    let mut rng = SmallRng::seed_from_u64(7);
    let mut g = TagGenerator::new(&mut rng, 12).with_base("value-");
    let mut values = Vec::new();
    while let Some(v) = g.generate() {
        values.push(v);
    }
    assert_eq!(values.len(), 12);
    assert!(values.iter().all(|v| v.starts_with("value-")));
    assert!(values.contains(&"value-11".to_string()));
    g.reset();
    assert!(g.generate().is_some());

    let mut plain = TagGenerator::new(&mut rng, 1);
    assert_eq!(plain.generate(), Some("0".to_string()));
    assert_eq!(plain.generate(), None);
}

#[test]
fn time_generator_steps_by_interval() {
    let mut t = TimeGenerator::new(100, 1_000);
    assert_eq!(t.generate(), Some(100));
    assert_eq!(t.current(), 1_100);
}

#[test]
fn field_generator_always_yields() {
    let mut f = FieldGenerator::new(&SmallRng::seed_from_u64(3));
    for _ in 0..10 {
        assert!(f.generate().is_some());
    }
}

#[test]
fn decimal_text() {
    assert_eq!(decimal_i64(0), b"0".to_vec());
    assert_eq!(decimal_i64(-305), b"-305".to_vec());
    assert_eq!(decimal_i64(i64::MIN), i64::MIN.to_string().into_bytes());
}

#[test]
fn row_generator_walks_all_combinations_per_time() {
    let mut g = RowGenerator::new(1, 1_000, 10, 2, 1, 3, true, 0);
    let mut rows = Vec::new();
    while let Some(r) = g.generate() {
        rows.push(r);
    }
    assert_eq!(rows.len(), 3);
    for r in &rows {
        assert_eq!(r.time, 1_000);
        assert_eq!(r.tags.len(), 2);
        assert_eq!(r.tags[0].0, "tag_0");
        assert_eq!(r.tags[1].0, "tag_1");
        assert!(r.tags[0].1.starts_with("value-"));
        assert_eq!(r.fields.len(), 1);
        assert_eq!(r.fields[0].0, "field_0");
        let text = format!("{}={},{}={}", r.tags[0].0, r.tags[0].1, r.tags[1].0, r.tags[1].1);
        let digest: [u8; 32] = sha2::Sha256::digest(text.as_bytes()).into();
        assert_eq!(r.series_id, Some(digest));
    }
    g.reset();
    assert_eq!(g.current_time(), 1_010);
    let next = g.generate().unwrap();
    assert_eq!(next.time, 1_010);
}

#[test]
fn row_generator_without_series_ids() {
    let mut g = RowGenerator::new(2, 0, 1, 1, 0, 2, false, 1);
    let r = g.generate().unwrap();
    assert!(r.series_id.is_none());
    assert!(r.fields.is_empty());
}
