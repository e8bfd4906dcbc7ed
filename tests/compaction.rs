use compactor::compactor::{compact_rows, CompactorOutput};
use compactor::index::IndexColumn;
use compactor::render::ColumnRef;
use compactor::rows::{Row, Value};
use compactor::schema::{compact_files, ColumnDef, ColumnType, CompactionError, InputFile, TableDef};

fn col(name: &str, column_type: ColumnType) -> ColumnDef {
    ColumnDef { name: name.to_string(), column_type }
}

fn s(v: &str) -> Value {
    Value::Str(v.to_string())
}

fn idx(name: &str, column: ColumnRef) -> IndexColumn {
    IndexColumn { name: name.to_string(), column }
}

/// Table with tag `id`, field `field`.
fn id_table() -> TableDef {
    TableDef { tags: vec!["id".to_string()], fields: vec![col("field", ColumnType::Int64)] }
}

fn id_field_time(id: &[&str], field: &[i64], time: &[i64]) -> InputFile {
    InputFile {
        columns: vec![
            col("field", ColumnType::Int64),
            col("id", ColumnType::Dictionary),
            col("time", ColumnType::Timestamp),
        ],
        rows: (0..id.len())
            .map(|i| vec![Value::Int(field[i]), s(id[i]), Value::Time(time[i])])
            .collect(),
    }
}

/// Table with tags `host`, `id` (schema order), field `field`.
fn host_id_table() -> TableDef {
    TableDef {
        tags: vec!["host".to_string(), "id".to_string()],
        fields: vec![col("field", ColumnType::Int64)],
    }
}

fn id_host_field_time(id: &[&str], host: &[&str], field: &[i64], time: &[i64]) -> InputFile {
    InputFile {
        columns: vec![
            col("field", ColumnType::Int64),
            col("host", ColumnType::Dictionary),
            col("id", ColumnType::Dictionary),
            col("time", ColumnType::Timestamp),
        ],
        rows: (0..id.len())
            .map(|i| vec![Value::Int(field[i]), s(host[i]), s(id[i]), Value::Time(time[i])])
            .collect(),
    }
}

fn tag_of(r: &Row, i: usize) -> Option<String> {
    r.tags[i].clone()
}

fn field_of(r: &Row) -> i64 {
    match r.fields[0] {
        Value::Int(n) => n,
        _ => panic!("expected an integer field"),
    }
}

#[test]
fn five_files_multiple_series_same_schema() {
    let batch1 = id_field_time(&["a", "b", "c", "d", "e"], &[0, 0, 0, 0, 0], &[1, 2, 3, 4, 5]);
    let batch2 = id_field_time(
        &["e", "e", "e", "f", "g", "h", "i", "j"],
        &[0, 0, 0, 0, 0, 0, 0, 0],
        &[5, 6, 7, 6, 7, 8, 9, 10],
    );
    let batch3 = id_field_time(
        &["e", "f", "g", "h", "i", "j", "k"],
        &[0, 0, 0, 0, 0, 0, 0],
        &[5, 6, 7, 8, 9, 10, 11],
    );
    let batch4 = id_field_time(
        &["e", "e", "e", "e", "e", "e", "e"],
        &[0, 0, 0, 0, 0, 0, 0],
        &[0, 1, 2, 3, 4, 5, 6],
    );
    let batch5 = id_field_time(&["l"], &[0], &[0]);
    let index_columns = vec![idx("id", ColumnRef::Tag(0)), idx("field", ColumnRef::Field(0))];
    let CompactorOutput { files, file_index } = compact_files(
        &id_table(),
        &vec![batch1, batch2, batch3, batch4, batch5],
        2,
        &index_columns,
    )
    .unwrap();

    let contents: Vec<Vec<(String, i64)>> = files
        .iter()
        .map(|f| f.iter().map(|r| (tag_of(r, 0).unwrap(), r.time)).collect())
        .collect();
    let expected: Vec<Vec<(String, i64)>> = vec![
        vec![("a".into(), 1), ("b".into(), 2)],
        vec![("c".into(), 3), ("d".into(), 4)],
        (0..8).map(|t| ("e".to_string(), t)).collect(),
        vec![("f".into(), 6), ("g".into(), 7)],
        vec![("h".into(), 8), ("i".into(), 9)],
        vec![("j".into(), 10), ("k".into(), 11)],
        vec![("l".into(), 0)],
    ];
    assert_eq!(contents, expected);

    assert_eq!(file_index.lookup("field", "0").len(), 7);
    assert_eq!(file_index.lookup("field", "3").len(), 0);
    assert_eq!(file_index.lookup("id", "a").len(), 1);
    assert_eq!(file_index.lookup("id", "b").len(), 1);
    assert_eq!(file_index.lookup("id", "c").len(), 1);
    assert_eq!(file_index.lookup("id", "d").len(), 1);
    assert_eq!(file_index.lookup("id", "e").len(), 1);
    assert_eq!(file_index.lookup("id", "f").len(), 1);
    assert_eq!(file_index.lookup("id", "g").len(), 1);
    assert_eq!(file_index.lookup("id", "h").len(), 1);
    assert_eq!(file_index.lookup("id", "i").len(), 1);
    assert_eq!(file_index.lookup("id", "j").len(), 1);
    assert_eq!(file_index.lookup("id", "k").len(), 1);
    assert_eq!(file_index.lookup("id", "l").len(), 1);
    assert_eq!(file_index.lookup("id", "m").len(), 0);
    assert_eq!(file_index.lookup("id", "e"), vec![2]);
}

#[test]
fn two_files_two_series_and_same_schema() {
    let batch1 = id_host_field_time(
        &["1", "1", "1", "1", "1", "1"],
        &["a", "a", "a", "a", "a", "a"],
        &[2, 2, 2, 2, 2, 2],
        &[1, 2, 3, 4, 5, 6],
    );
    let batch2 = id_host_field_time(
        &["1", "1", "1", "1", "1", "1", "1", "1", "1", "1", "1", "1"],
        &["a", "a", "a", "a", "a", "a", "b", "b", "b", "b", "b", "b"],
        &[7, 6, 5, 4, 3, 1, 8, 9, 10, 11, 12, 13],
        &[1, 2, 3, 4, 5, 7, 1, 2, 3, 4, 5, 6],
    );
    let index_columns = vec![
        idx("id", ColumnRef::Tag(1)),
        idx("host", ColumnRef::Tag(0)),
        idx("field", ColumnRef::Field(0)),
    ];
    let CompactorOutput { files, file_index } =
        compact_files(&host_id_table(), &vec![batch2, batch1], 2, &index_columns).unwrap();

    assert_eq!(files.len(), 2);
    let f0: Vec<(i64, i64)> = files[0].iter().map(|r| (field_of(r), r.time)).collect();
    assert_eq!(f0, vec![(2, 1), (2, 2), (2, 3), (2, 4), (2, 5), (2, 6), (1, 7)]);
    assert!(files[0].iter().all(|r| tag_of(r, 0) == Some("a".to_string())));
    let f1: Vec<(i64, i64)> = files[1].iter().map(|r| (field_of(r), r.time)).collect();
    assert_eq!(f1, vec![(8, 1), (9, 2), (10, 3), (11, 4), (12, 5), (13, 6)]);
    assert!(files[1].iter().all(|r| tag_of(r, 0) == Some("b".to_string())));

    assert_eq!(file_index.lookup("field", "1").len(), 1);
    assert_eq!(file_index.lookup("field", "2").len(), 1);
    assert_eq!(file_index.lookup("field", "3").len(), 0);
    assert_eq!(file_index.lookup("field", "4").len(), 0);
    assert_eq!(file_index.lookup("field", "5").len(), 0);
    assert_eq!(file_index.lookup("field", "6").len(), 0);
    assert_eq!(file_index.lookup("field", "7").len(), 0);
    assert_eq!(file_index.lookup("field", "8").len(), 1);
    assert_eq!(file_index.lookup("field", "9").len(), 1);
    assert_eq!(file_index.lookup("field", "10").len(), 1);
    assert_eq!(file_index.lookup("field", "11").len(), 1);
    assert_eq!(file_index.lookup("field", "12").len(), 1);
    assert_eq!(file_index.lookup("field", "13").len(), 1);
    assert_eq!(file_index.lookup("field", "14").len(), 0);
    assert_eq!(file_index.lookup("id", "1").len(), 2);
    assert_eq!(file_index.lookup("id", "2").len(), 0);
}

#[test]
fn two_files_same_series_and_schema() {
    let batch1 = id_host_field_time(
        &["1", "1", "1", "1", "1", "1"],
        &["a", "a", "a", "a", "a", "a"],
        &[2, 2, 2, 2, 2, 2],
        &[1, 2, 3, 4, 5, 6],
    );
    let batch2 = id_host_field_time(
        &["1", "1", "1", "1", "1", "1"],
        &["a", "a", "a", "a", "a", "a"],
        &[7, 6, 5, 4, 3, 1],
        &[1, 2, 3, 4, 5, 7],
    );
    let index_columns = vec![
        idx("id", ColumnRef::Tag(1)),
        idx("host", ColumnRef::Tag(0)),
        idx("field", ColumnRef::Field(0)),
    ];
    let CompactorOutput { files, file_index } =
        compact_files(&host_id_table(), &vec![batch1, batch2], 2, &index_columns).unwrap();

    assert_eq!(files.len(), 1);
    let f0: Vec<(i64, i64)> = files[0].iter().map(|r| (field_of(r), r.time)).collect();
    assert_eq!(f0, vec![(7, 1), (6, 2), (5, 3), (4, 4), (3, 5), (2, 6), (1, 7)]);

    assert_eq!(file_index.lookup("field", "1").len(), 1);
    assert_eq!(file_index.lookup("field", "2").len(), 1);
    assert_eq!(file_index.lookup("field", "3").len(), 1);
    assert_eq!(file_index.lookup("field", "4").len(), 1);
    assert_eq!(file_index.lookup("field", "5").len(), 1);
    assert_eq!(file_index.lookup("field", "6").len(), 1);
    assert_eq!(file_index.lookup("field", "7").len(), 1);
    assert_eq!(file_index.lookup("field", "8").len(), 0);
    assert_eq!(file_index.lookup("id", "1").len(), 1);
    assert_eq!(file_index.lookup("id", "2").len(), 0);
    assert_eq!(file_index.lookup("host", "a").len(), 1);
    assert_eq!(file_index.lookup("host", "b").len(), 0);
}

#[test]
fn two_files_similar_series_and_compatible_schema() {
    let table = TableDef {
        tags: vec!["extra_tag".to_string(), "host".to_string(), "id".to_string()],
        fields: vec![col("field", ColumnType::Int64)],
    };
    let batch1 = id_host_field_time(
        &["1", "1", "1", "1", "1", "1"],
        &["a", "a", "a", "a", "a", "a"],
        &[2, 2, 2, 2, 2, 2],
        &[1, 2, 3, 4, 5, 6],
    );
    let fields2 = [7, 6, 5, 4, 3, 1];
    let times2 = [1, 2, 3, 4, 5, 7];
    let batch2 = InputFile {
        columns: vec![
            col("extra_tag", ColumnType::Dictionary),
            col("field", ColumnType::Int64),
            col("host", ColumnType::Dictionary),
            col("id", ColumnType::Dictionary),
            col("time", ColumnType::Timestamp),
        ],
        rows: (0..6)
            .map(|i| vec![s("5"), Value::Int(fields2[i]), s("a"), s("1"), Value::Time(times2[i])])
            .collect(),
    };
    let index_columns = vec![
        idx("id", ColumnRef::Tag(2)),
        idx("host", ColumnRef::Tag(1)),
        idx("field", ColumnRef::Field(0)),
        idx("extra_tag", ColumnRef::Tag(0)),
    ];
    let CompactorOutput { files, file_index } =
        compact_files(&table, &vec![batch1, batch2], 2, &index_columns).unwrap();

    assert_eq!(files.len(), 2);
    assert!(files[0].iter().all(|r| tag_of(r, 0).is_none()));
    let f0: Vec<(i64, i64)> = files[0].iter().map(|r| (field_of(r), r.time)).collect();
    assert_eq!(f0, vec![(2, 1), (2, 2), (2, 3), (2, 4), (2, 5), (2, 6)]);
    assert!(files[1].iter().all(|r| tag_of(r, 0) == Some("5".to_string())));
    let f1: Vec<(i64, i64)> = files[1].iter().map(|r| (field_of(r), r.time)).collect();
    assert_eq!(f1, vec![(7, 1), (6, 2), (5, 3), (4, 4), (3, 5), (1, 7)]);

    assert_eq!(file_index.lookup("extra_tag", "null").len(), 1);
    assert_eq!(file_index.lookup("extra_tag", "5").len(), 1);
    assert_eq!(file_index.lookup("extra_tag", "6").len(), 0);
    assert_eq!(file_index.lookup("field", "1").len(), 1);
    assert_eq!(file_index.lookup("field", "2").len(), 1);
    assert_eq!(file_index.lookup("field", "3").len(), 1);
    assert_eq!(file_index.lookup("field", "4").len(), 1);
    assert_eq!(file_index.lookup("field", "5").len(), 1);
    assert_eq!(file_index.lookup("field", "6").len(), 1);
    assert_eq!(file_index.lookup("field", "7").len(), 1);
    assert_eq!(file_index.lookup("field", "8").len(), 0);
    assert_eq!(file_index.lookup("id", "1").len(), 2);
    assert_eq!(file_index.lookup("id", "2").len(), 0);
    assert_eq!(file_index.lookup("host", "a").len(), 2);
    assert_eq!(file_index.lookup("host", "b").len(), 0);
}

#[test]
fn deduplication_of_data() {
    let batch1 = id_host_field_time(
        &["1", "1", "1", "1", "1", "1"],
        &["a", "a", "a", "a", "a", "a"],
        &[2, 2, 2, 2, 2, 2],
        &[1, 2, 3, 4, 5, 6],
    );
    let batch2 = id_host_field_time(
        &["1", "1", "1", "1", "1", "1"],
        &["a", "a", "a", "a", "a", "a"],
        &[3, 3, 3, 3, 3, 3],
        &[1, 2, 3, 4, 5, 7],
    );
    let index_columns = vec![
        idx("id", ColumnRef::Tag(1)),
        idx("host", ColumnRef::Tag(0)),
        idx("field", ColumnRef::Field(0)),
    ];
    let CompactorOutput { files, file_index } =
        compact_files(&host_id_table(), &vec![batch2, batch1], 2, &index_columns).unwrap();

    assert_eq!(files.len(), 1);
    let f0: Vec<(i64, i64)> = files[0].iter().map(|r| (field_of(r), r.time)).collect();
    assert_eq!(f0, vec![(2, 1), (2, 2), (2, 3), (2, 4), (2, 5), (2, 6), (3, 7)]);

    assert_eq!(file_index.lookup("field", "2").len(), 1);
    assert_eq!(file_index.lookup("field", "3").len(), 1);
    assert_eq!(file_index.lookup("host", "a").len(), 1);
    assert_eq!(file_index.lookup("host", "b").len(), 0);
    assert_eq!(file_index.lookup("id", "1").len(), 1);
    assert_eq!(file_index.lookup("id", "2").len(), 0);
}

#[test]
fn compactor_casting() {
    // `g` holds a float; its canonical text is produced before rows reach the library.
    let table = TableDef {
        tags: ["a", "b", "c", "d", "e"].iter().map(|t| t.to_string()).collect(),
        fields: vec![
            col("f", ColumnType::Int64),
            col("g", ColumnType::Utf8),
            col("h", ColumnType::Boolean),
            col("i", ColumnType::Utf8),
        ],
    };
    let input = InputFile {
        columns: vec![
            col("a", ColumnType::Dictionary),
            col("b", ColumnType::Dictionary),
            col("c", ColumnType::Dictionary),
            col("d", ColumnType::Dictionary),
            col("e", ColumnType::Dictionary),
            col("f", ColumnType::Int64),
            col("g", ColumnType::Utf8),
            col("h", ColumnType::Boolean),
            col("i", ColumnType::Utf8),
            col("time", ColumnType::Timestamp),
        ],
        rows: vec![vec![
            s("0"),
            s("foo"),
            s("1.0"),
            s("2"),
            s("true"),
            Value::Int(3),
            s("4.0"),
            Value::Bool(false),
            s("bar"),
            Value::Time(100),
        ]],
    };
    let index_columns = vec![
        idx("a", ColumnRef::Tag(0)),
        idx("b", ColumnRef::Tag(1)),
        idx("c", ColumnRef::Tag(2)),
        idx("d", ColumnRef::Tag(3)),
        idx("e", ColumnRef::Tag(4)),
        idx("f", ColumnRef::Field(0)),
        idx("g", ColumnRef::Field(1)),
        idx("h", ColumnRef::Field(2)),
        idx("i", ColumnRef::Field(3)),
        idx("time", ColumnRef::Time),
    ];
    let CompactorOutput { file_index, .. } =
        compact_files(&table, &vec![input], 2, &index_columns).unwrap();

    assert_eq!(file_index.lookup("a", "0").len(), 1);
    assert_eq!(file_index.lookup("b", "foo").len(), 1);
    assert_eq!(file_index.lookup("c", "1.0").len(), 1);
    assert_eq!(file_index.lookup("d", "2").len(), 1);
    assert_eq!(file_index.lookup("e", "true").len(), 1);
    assert_eq!(file_index.lookup("f", "3").len(), 1);
    assert_eq!(file_index.lookup("g", "4.0").len(), 1);
    assert_eq!(file_index.lookup("h", "false").len(), 1);
    assert_eq!(file_index.lookup("i", "bar").len(), 1);
    assert_eq!(file_index.lookup("time", "1970-01-01T00:00:00.000000100").len(), 1);
}

#[test]
fn dictionary_widened_to_utf8_is_indexed_identically() {
    let table = TableDef { tags: vec![], fields: vec![col("i", ColumnType::Utf8)] };
    let as_dict = InputFile {
        columns: vec![col("i", ColumnType::Dictionary), col("time", ColumnType::Timestamp)],
        rows: vec![vec![s("bar"), Value::Time(1)]],
    };
    let as_utf8 = InputFile {
        columns: vec![col("i", ColumnType::Utf8), col("time", ColumnType::Timestamp)],
        rows: vec![vec![s("bar"), Value::Time(2)]],
    };
    let index_columns = vec![idx("i", ColumnRef::Field(0))];
    let out = compact_files(&table, &vec![as_dict], 10, &index_columns).unwrap();
    let out2 = compact_files(&table, &vec![as_utf8], 10, &index_columns).unwrap();
    assert_eq!(out.file_index.lookup("i", "bar"), vec![0]);
    assert_eq!(out2.file_index.lookup("i", "bar"), vec![0]);
}

#[test]
fn incompatible_widening_is_refused() {
    let table = TableDef { tags: vec![], fields: vec![col("f", ColumnType::Int32)] };
    let input = InputFile {
        columns: vec![col("f", ColumnType::Int64), col("time", ColumnType::Timestamp)],
        rows: vec![vec![Value::Int(1), Value::Time(1)]],
    };
    let r = compact_files(&table, &vec![input], 10, &vec![]);
    assert!(matches!(r, Err(CompactionError::IncompatibleType { column_index: 0 })));
}

#[test]
fn missing_time_and_invalid_rows_are_refused() {
    let table = id_table();
    let no_time = InputFile { columns: vec![col("id", ColumnType::Dictionary)], rows: vec![] };
    assert!(matches!(
        compact_files(&table, &vec![no_time], 10, &vec![]),
        Err(CompactionError::MissingTime)
    ));
    let bad_row = InputFile {
        columns: vec![col("id", ColumnType::Dictionary), col("time", ColumnType::Timestamp)],
        rows: vec![vec![s("a"), Value::Time(1)], vec![Value::Int(4), Value::Time(2)]],
    };
    assert!(matches!(
        compact_files(&table, &vec![bad_row], 10, &vec![]),
        Err(CompactionError::InvalidRow { row_index: 1 })
    ));
}

#[test]
fn widened_unsigned_reads_as_signed() {
    let table = TableDef { tags: vec![], fields: vec![col("n", ColumnType::Int64)] };
    let input = InputFile {
        columns: vec![col("n", ColumnType::UInt32), col("time", ColumnType::Timestamp)],
        rows: vec![vec![Value::UInt(42), Value::Time(5)]],
    };
    let out = compact_files(&table, &vec![input], 10, &vec![idx("n", ColumnRef::Field(0))]).unwrap();
    assert!(matches!(out.files[0][0].fields[0], Value::Int(42)));
    assert_eq!(out.file_index.lookup("n", "42"), vec![0]);
}

fn row(tag: &str, time: i64, field: i64) -> Row {
    Row { tags: vec![Some(tag.to_string())], time, fields: vec![Value::Int(field)] }
}

#[test]
fn single_oversize_series_is_not_split() {
    let chunk: Vec<Row> = (0..9).map(|t| row("x", t, t)).collect();
    let out = compact_rows(&vec![chunk], 2, &vec![]);
    assert_eq!(out.files.len(), 1);
    assert_eq!(out.files[0].len(), 9);
}

#[test]
fn rows_out_never_exceed_rows_in() {
    let c1 = vec![row("a", 1, 1), row("a", 2, 1), row("b", 1, 1)];
    let c2 = vec![row("a", 2, 9), row("c", 1, 1)];
    let out = compact_rows(&vec![c1, c2], 100, &vec![]);
    let total: usize = out.files.iter().map(|f| f.len()).sum();
    assert_eq!(total, 4);
    let a2 = out.files[0].iter().find(|r| r.time == 2).unwrap();
    assert!(matches!(a2.fields[0], Value::Int(9)));

    let d1 = vec![row("a", 1, 1), row("b", 1, 1)];
    let d2 = vec![row("a", 2, 1), row("c", 5, 1)];
    let out = compact_rows(&vec![d1, d2], 100, &vec![]);
    let total: usize = out.files.iter().map(|f| f.len()).sum();
    assert_eq!(total, 4);
}

#[test]
fn output_is_sorted_by_series_then_time() {
    let c1 = vec![row("b", 3, 0), row("a", 9, 0), row("ab", 1, 0), row("a", 2, 0)];
    let out = compact_rows(&vec![c1], 100, &vec![]);
    let keys: Vec<(String, i64)> =
        out.files[0].iter().map(|r| (r.tags[0].clone().unwrap(), r.time)).collect();
    assert_eq!(
        keys,
        vec![("a".to_string(), 2), ("a".to_string(), 9), ("ab".to_string(), 1), ("b".to_string(), 3)]
    );
}

#[test]
fn missing_tag_sorts_first_and_renders_null() {
    let c1 = vec![
        row("a", 1, 0),
        Row { tags: vec![None], time: 5, fields: vec![Value::Null] },
    ];
    let out = compact_rows(&vec![c1], 1, &vec![idx("t", ColumnRef::Tag(0)), idx("f", ColumnRef::Field(0))]);
    assert_eq!(out.files.len(), 2);
    assert!(out.files[0][0].tags[0].is_none());
    assert_eq!(out.file_index.lookup("t", "null"), vec![0]);
    assert_eq!(out.file_index.lookup("f", "null"), vec![0]);
    assert_eq!(out.file_index.lookup("t", "a"), vec![1]);
}

#[test]
fn empty_input_gives_no_files() {
    let out = compact_rows(&vec![], 2, &vec![idx("id", ColumnRef::Tag(0))]);
    assert!(out.files.is_empty());
    assert!(out.file_index.lookup("id", "a").is_empty());
    let out = compact_files(&id_table(), &vec![id_field_time(&[], &[], &[])], 2, &vec![]).unwrap();
    assert!(out.files.is_empty());
}
