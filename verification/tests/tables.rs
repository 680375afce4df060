use hash_bench::error::ReportError;
use hash_bench::grammar::parse_report;
use hash_bench::matrix::{first_short_series, render_table, write_matrix, Metric, OutputFile};
use hash_bench::pipeline::{tables_from_output, tables_from_records, tables_from_text};
use hash_bench::record::BenchmarkRecord;
use hash_bench::table::{aggregate, AggregationTable, FamilyGroup, Series};

fn record(
    implementation: &str,
    family: &str,
    size: u64,
    mean: u64,
    throughput: u64,
) -> BenchmarkRecord {
    BenchmarkRecord {
        implementation: implementation.to_string(),
        family: family.to_string(),
        payload_size: size,
        mean_ns: mean,
        variance_ns: 0,
        throughput_mb_s: throughput,
    }
}

fn file(name: &str, contents: &str) -> OutputFile {
    OutputFile { name: name.to_string(), contents: contents.to_string() }
}

fn implementations(group: &FamilyGroup) -> Vec<String> {
    group.series.iter().map(|s| s.implementation.clone()).collect()
}

fn families(table: &AggregationTable) -> Vec<String> {
    table.groups().iter().map(|g| g.family.clone()).collect()
}

fn synthetic_report() -> String {
    let mut text = String::from("running 6 tests\n");
    for implementation in ["sip13", "fx"] {
        for (size, mean, throughput) in [(1, 10, 100), (2, 20, 200), (4, 40, 400)] {
            text.push_str(&format!(
                "test {}::bytes_{:09} ... bench: {:>11} ns/iter (+/- 1) = {} MB/s\n",
                implementation, size, mean, throughput
            ));
        }
    }
    text.push_str("\ntest result: ok. 0 passed; 0 failed; 0 ignored; 6 measured; 0 filtered out\n");
    text
}

#[test]
fn round_trip_of_a_synthetic_report() {
    let files = tables_from_text(&synthetic_report()).unwrap();
    assert_eq!(
        files,
        vec![
            file("bytes-time.csv", "bytes,sip13,fx\n1,10,10\n2,20,20\n4,40,40\n"),
            file("bytes-throughput.csv", "bytes,sip13,fx\n1,100,100\n2,200,200\n4,400,400\n"),
        ]
    );
}

#[test]
fn round_trip_from_raw_output() {
    let files = tables_from_output(synthetic_report().into_bytes()).unwrap();
    assert_eq!(files.len(), 2);
    assert_eq!(files[0].name, "bytes-time.csv");
    assert_eq!(files[0].contents, "bytes,sip13,fx\n1,10,10\n2,20,20\n4,40,40\n");
    assert_eq!(files[1].name, "bytes-throughput.csv");
    assert_eq!(files[1].contents, "bytes,sip13,fx\n1,100,100\n2,200,200\n4,400,400\n");
}

#[test]
fn implementations_keep_their_first_seen_order() {
    let table = aggregate(vec![
        record("fx", "bytes", 1, 1, 1),
        record("sip13", "bytes", 1, 2, 2),
        record("fx", "bytes", 2, 3, 3),
        record("ahash", "bytes", 1, 4, 4),
        record("sip13", "bytes", 2, 5, 5),
        record("ahash", "bytes", 2, 6, 6),
    ]);
    assert_eq!(families(&table), vec!["bytes"]);
    assert_eq!(implementations(&table.groups()[0]), vec!["fx", "sip13", "ahash"]);
}

#[test]
fn families_keep_their_first_seen_order() {
    let table = aggregate(vec![
        record("fx", "mapcountsparse", 1, 1, 1),
        record("fx", "bytes", 1, 2, 2),
        record("sip13", "mapcountsparse", 1, 3, 3),
        record("fx", "mapcountdense", 1, 4, 4),
        record("sip13", "bytes", 1, 5, 5),
    ]);
    assert_eq!(families(&table), vec!["mapcountsparse", "bytes", "mapcountdense"]);
    assert_eq!(implementations(&table.groups()[0]), vec!["fx", "sip13"]);
    assert_eq!(implementations(&table.groups()[1]), vec!["fx", "sip13"]);
    assert_eq!(implementations(&table.groups()[2]), vec!["fx"]);
}

#[test]
fn the_same_implementation_in_two_families_has_two_series() {
    let table = aggregate(vec![
        record("fx", "bytes", 1, 1, 1),
        record("fx", "mapcountdense", 1, 2, 2),
        record("fx", "bytes", 2, 3, 3),
    ]);
    let groups = table.groups();
    assert_eq!(groups.len(), 2);
    assert_eq!(
        groups[0].series[0].records,
        vec![record("fx", "bytes", 1, 1, 1), record("fx", "bytes", 2, 3, 3)]
    );
    assert_eq!(groups[1].series[0].records, vec![record("fx", "mapcountdense", 1, 2, 2)]);
}

#[test]
fn records_are_neither_reordered_nor_merged() {
    let table = aggregate(vec![
        record("fx", "bytes", 4, 9, 9),
        record("fx", "bytes", 1, 8, 8),
        record("fx", "bytes", 4, 9, 9),
    ]);
    assert_eq!(
        table.groups()[0].series[0].records,
        vec![
            record("fx", "bytes", 4, 9, 9),
            record("fx", "bytes", 1, 8, 8),
            record("fx", "bytes", 4, 9, 9),
        ]
    );
}

#[test]
fn inserting_one_by_one_is_aggregating() {
    let records = vec![
        record("fx", "bytes", 1, 1, 1),
        record("sip13", "bytes", 1, 2, 2),
        record("fx", "mapcountdense", 1, 3, 3),
        record("fx", "bytes", 2, 4, 4),
    ];
    let mut table = AggregationTable::new();
    assert!(table.groups().is_empty());
    for r in records.iter() {
        table.insert(r.clone());
    }
    assert_eq!(render_table(&table), render_table(&aggregate(records)));
    assert_eq!(families(&table), vec!["bytes", "mapcountdense"]);
}

#[test]
fn an_empty_table_has_no_files() {
    assert_eq!(render_table(&AggregationTable::new()), Ok(vec![]));
    assert_eq!(tables_from_records(vec![]), Ok(vec![]));
}

#[test]
fn writing_twice_gives_the_same_files() {
    let records = parse_report(&synthetic_report()).unwrap();
    let table = aggregate(records);
    let first = render_table(&table).unwrap();
    let second = render_table(&table).unwrap();
    assert_eq!(first, second);
    assert_eq!(first[0].contents.as_bytes(), second[0].contents.as_bytes());
    assert_eq!(first[1].contents.as_bytes(), second[1].contents.as_bytes());
}

#[test]
fn a_single_implementation_gives_two_columns() {
    let files = tables_from_records(vec![
        record("fx", "mapcountdense", 1, 3000, 333),
        record("fx", "mapcountdense", 2, 4000, 500),
    ])
    .unwrap();
    assert_eq!(
        files,
        vec![
            file("mapcountdense-time.csv", "bytes,fx\n1,3000\n2,4000\n"),
            file("mapcountdense-throughput.csv", "bytes,fx\n1,333\n2,500\n"),
        ]
    );
}

#[test]
fn two_files_per_family_in_family_order() {
    let files = tables_from_records(vec![
        record("fx", "mapcountsparse", 1, 11, 12),
        record("fx", "bytes", 1, 21, 22),
        record("sip13", "bytes", 1, 31, 32),
    ])
    .unwrap();
    assert_eq!(
        files,
        vec![
            file("mapcountsparse-time.csv", "bytes,fx\n1,11\n"),
            file("mapcountsparse-throughput.csv", "bytes,fx\n1,12\n"),
            file("bytes-time.csv", "bytes,fx,sip13\n1,21,31\n"),
            file("bytes-throughput.csv", "bytes,fx,sip13\n1,22,32\n"),
        ]
    );
}

#[test]
fn rows_are_labelled_by_the_first_implementation() {
    // the rows go by position, not by payload size
    let files = tables_from_records(vec![
        record("fx", "bytes", 1, 10, 100),
        record("fx", "bytes", 2, 20, 200),
        record("sip13", "bytes", 16, 30, 300),
        record("sip13", "bytes", 32, 40, 400),
    ])
    .unwrap();
    assert_eq!(files[0].contents, "bytes,fx,sip13\n1,10,30\n2,20,40\n");
    assert_eq!(files[1].contents, "bytes,fx,sip13\n1,100,300\n2,200,400\n");
}

#[test]
fn a_longer_later_series_is_cut_at_the_first_one() {
    let files = tables_from_records(vec![
        record("fx", "bytes", 1, 10, 100),
        record("sip13", "bytes", 1, 30, 300),
        record("sip13", "bytes", 2, 40, 400),
    ])
    .unwrap();
    assert_eq!(files[0].contents, "bytes,fx,sip13\n1,10,30\n");
}

#[test]
fn a_shorter_later_series_is_fatal() {
    let records = vec![
        record("fx", "mapcountdense", 1, 1, 1),
        record("fx", "bytes", 1, 10, 100),
        record("fx", "bytes", 2, 20, 200),
        record("sip13", "bytes", 1, 30, 300),
        record("ahash", "bytes", 1, 50, 500),
    ];
    assert_eq!(
        tables_from_records(records.clone()),
        Err(ReportError::LengthMismatch { family: 1, series: 1 })
    );
    let table = aggregate(records);
    assert_eq!(first_short_series(&table.groups()[0]), None);
    assert_eq!(first_short_series(&table.groups()[1]), Some(1));
    assert_eq!(write_matrix(&table.groups()[1], Metric::Time), None);
    assert_eq!(write_matrix(&table.groups()[1], Metric::Throughput), None);
    assert_eq!(
        write_matrix(&table.groups()[0], Metric::Time),
        Some("bytes,fx\n1,1\n".to_string())
    );
}

#[test]
fn a_group_without_series_has_only_a_label() {
    let empty = FamilyGroup { family: "bytes".to_string(), series: vec![] };
    assert_eq!(first_short_series(&empty), None);
    assert_eq!(write_matrix(&empty, Metric::Time), Some("bytes\n".to_string()));
}

#[test]
fn a_group_of_empty_series_has_only_a_header() {
    let group = FamilyGroup {
        family: "bytes".to_string(),
        series: vec![
            Series { implementation: "fx".to_string(), records: vec![] },
            Series {
                implementation: "sip13".to_string(),
                records: vec![record("sip13", "bytes", 1, 1, 1)],
            },
        ],
    };
    assert_eq!(write_matrix(&group, Metric::Throughput), Some("bytes,fx,sip13\n".to_string()));
}

#[test]
fn large_figures_are_written_in_full() {
    let files = tables_from_records(vec![record("fx", "bytes", u64::MAX, 0, 1_000_000)]).unwrap();
    assert_eq!(files[0].contents, "bytes,fx\n18446744073709551615,0\n");
    assert_eq!(files[1].contents, "bytes,fx\n18446744073709551615,1000000\n");
}

#[test]
fn the_variance_is_not_written() {
    let mut r = record("fx", "bytes", 1, 10, 100);
    r.variance_ns = 77;
    let files = tables_from_records(vec![r]).unwrap();
    assert_eq!(files[0].contents, "bytes,fx\n1,10\n");
    assert_eq!(files[1].contents, "bytes,fx\n1,100\n");
}
