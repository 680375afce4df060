use hash_bench::digest::Blake3;
use hash_bench::grammar::parse_report;
use hash_bench::workload::{
    case_name, cyclic_payload, suite_cases, workload, workload_len, BenchmarkCase, Family,
};

fn case(family: Family, payload_size: usize) -> BenchmarkCase {
    BenchmarkCase { family, payload_size }
}

#[test]
fn a_cycle_repeats() {
    assert_eq!(cyclic_payload(7, 3), vec![0, 1, 2, 0, 1, 2, 0]);
    assert_eq!(cyclic_payload(0, 93), Vec::<u8>::new());
    assert_eq!(cyclic_payload(3, 1), vec![0, 0, 0]);
    assert_eq!(cyclic_payload(4, 0), Vec::<u8>::new());
}

#[test]
fn the_dense_cycle_has_period_93() {
    let data = cyclic_payload(200, 93);
    assert_eq!(data.len(), 200);
    assert_eq!(data[92], 92);
    assert_eq!(data[93], 0);
    assert_eq!(data[199], 13);
    assert!(data.iter().enumerate().all(|(i, b)| *b as usize == i % 93));
}

#[test]
fn a_full_byte_cycle() {
    let data = cyclic_payload(600, 255);
    assert_eq!(data[254], 254);
    assert_eq!(data[255], 0);
    assert_eq!(data[599], 89);
}

#[test]
fn hashing_workloads_are_as_long_as_the_payload() {
    let data = workload(case(Family::Bytes, 2048)).unwrap();
    assert_eq!(data.len(), 2048);
    assert!(data.iter().enumerate().all(|(i, b)| *b as usize == i % 100));
    assert_eq!(workload(case(Family::Bytes, 0)), Some(vec![]));
}

#[test]
fn dense_workloads_hold_a_thousand_chunks() {
    let data = workload(case(Family::MapCountDense, 2)).unwrap();
    assert_eq!(data.len(), 2000);
    assert!(data.iter().enumerate().all(|(i, b)| *b as usize == i % 93));
    assert_eq!(data.chunks(2).count(), 1000);
}

#[test]
fn sparse_workloads_hold_a_thousand_chunks() {
    let data = workload(case(Family::MapCountSparse, 8)).unwrap();
    assert_eq!(data.len(), 8000);
    assert_eq!(workload(case(Family::MapCountSparse, 0)), Some(vec![]));
    assert_eq!(workload(case(Family::MapCountSparse, 1)).unwrap().len(), 1000);
}

#[test]
fn sparse_workloads_are_drawn_afresh() {
    let first = workload(case(Family::MapCountSparse, 64)).unwrap();
    let second = workload(case(Family::MapCountSparse, 64)).unwrap();
    assert_eq!(first.len(), 64_000);
    assert_ne!(first, second);
}

#[test]
fn the_largest_workload() {
    assert_eq!(workload_len(case(Family::MapCountDense, 2048)), Some(2_048_000));
    assert_eq!(workload(case(Family::MapCountDense, 2048)).unwrap().len(), 2_048_000);
}

#[test]
fn a_workload_that_cannot_exist() {
    assert_eq!(workload_len(case(Family::MapCountDense, usize::MAX)), None);
    assert_eq!(workload_len(case(Family::MapCountSparse, usize::MAX / 999)), None);
    assert_eq!(workload(case(Family::MapCountSparse, usize::MAX)), None);
    assert_eq!(workload_len(case(Family::Bytes, usize::MAX)), Some(usize::MAX));
    assert_eq!(
        workload_len(case(Family::MapCountSparse, usize::MAX / 1000)),
        Some(usize::MAX / 1000 * 1000)
    );
}

#[test]
fn the_suite_has_every_family_at_every_size() {
    let cases = suite_cases();
    assert_eq!(cases.len(), 36);
    let sizes = [1usize, 2, 4, 8, 16, 32, 64, 128, 256, 512, 1024, 2048];
    let families = [Family::Bytes, Family::MapCountSparse, Family::MapCountDense];
    for (k, family) in families.iter().enumerate() {
        for (e, size) in sizes.iter().enumerate() {
            assert_eq!(cases[12 * k + e], case(*family, *size));
        }
    }
}

#[test]
fn case_names() {
    assert_eq!(case_name("sip13", case(Family::Bytes, 1)), "sip13::bytes_000000001");
    assert_eq!(case_name("fx", case(Family::MapCountSparse, 2048)), "fx::mapcountsparse_000002048");
    assert_eq!(
        case_name("xx_rs", case(Family::MapCountDense, 16)),
        "xx_rs::mapcountdense_000000016"
    );
    assert_eq!(case_name("", case(Family::Bytes, 0)), "::bytes_000000000");
}

#[test]
fn long_sizes_are_not_cut() {
    assert_eq!(case_name("fx", case(Family::Bytes, 123_456_789)), "fx::bytes_123456789");
    assert_eq!(case_name("fx", case(Family::Bytes, 1_234_567_890)), "fx::bytes_1234567890");
}

#[test]
fn a_case_name_is_taken_apart_by_the_parser() {
    for c in suite_cases() {
        let text = format!(
            "test {} ... bench: {:>11} ns/iter (+/- 3) = 25 MB/s\n",
            case_name("highway_hash", c),
            "1,000"
        );
        let records = parse_report(&text).unwrap();
        assert_eq!(records.len(), 1);
        assert_eq!(records[0].implementation, "highway_hash");
        assert_eq!(records[0].payload_size, c.payload_size as u64);
        let family = match c.family {
            Family::Bytes => "bytes",
            Family::MapCountSparse => "mapcountsparse",
            Family::MapCountDense => "mapcountdense",
        };
        assert_eq!(records[0].family, family);
        assert_eq!(records[0].mean_ns, 1000);
    }
}

#[test]
fn the_hash_of_nothing() {
    // BLAKE3 of the empty input starts with af 13 49 b9 f5 f9 a1 a6
    assert_eq!(Blake3::new().finish(), 0xa6a1_f9f5_b949_13af);
    assert_eq!(Blake3::default().finish(), 0xa6a1_f9f5_b949_13af);
}

#[test]
fn finish_reads_the_first_eight_bytes_little_endian() {
    let mut hasher = Blake3::new();
    hasher.write(b"hello world");
    let mut head = [0u8; 8];
    head.copy_from_slice(&blake3::hash(b"hello world").as_bytes()[..8]);
    assert_eq!(hasher.finish(), u64::from_le_bytes(head));
}

#[test]
fn writes_add_up() {
    let mut split = Blake3::new();
    split.write(b"foo");
    split.write(b"");
    split.write(b"barbaz");
    let mut whole = Blake3::new();
    whole.write(b"foobarbaz");
    assert_eq!(split.finish(), whole.finish());
    assert_ne!(whole.finish(), Blake3::new().finish());
}

#[test]
fn finishing_leaves_the_hasher_as_it_was() {
    let mut hasher = Blake3::new();
    hasher.write(&[1, 2, 3]);
    let first = hasher.finish();
    assert_eq!(hasher.finish(), first);
    hasher.write(&[4]);
    let mut head = [0u8; 8];
    head.copy_from_slice(&blake3::hash(&[1, 2, 3, 4]).as_bytes()[..8]);
    assert_eq!(hasher.finish(), u64::from_le_bytes(head));
}
