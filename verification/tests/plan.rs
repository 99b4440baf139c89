use s3mem_run::plan::{plan_download, plan_ranges, ByteRange};

#[test]
fn ten_megabyte_scenario() {
    // A 10,000,000-byte object: the ideal chunk (~133 KB) clamps to the
    // 4 MiB minimum, three ranges cover the object, and the size stays small
    // enough for the minimum concurrency.
    let plan = plan_download(10_000_000);
    assert_eq!(plan.total_size, 10_000_000);
    assert_eq!(plan.chunk_size, 4_194_304);
    assert_eq!(plan.concurrency, 4);
    assert_eq!(
        plan.ranges,
        vec![
            ByteRange { start: 0, end: 4_194_303 },
            ByteRange { start: 4_194_304, end: 8_388_607 },
            ByteRange { start: 8_388_608, end: 9_999_999 },
        ]
    );
}

#[test]
fn plan_is_idempotent() {
    // Planning twice for the same size gives identical plans.
    let first = plan_download(123_456_789);
    let second = plan_download(123_456_789);
    assert_eq!(first.total_size, second.total_size);
    assert_eq!(first.chunk_size, second.chunk_size);
    assert_eq!(first.concurrency, second.concurrency);
    assert_eq!(first.ranges, second.ranges);
}

#[test]
fn partition_covers_exactly() {
    for total in [1, 2, 4_194_304, 4_194_305, 8_388_608, 10_000_000, 999_999_937] {
        let plan = plan_download(total);
        let ranges = &plan.ranges;
        let expected_count =
            ((total + plan.chunk_size - 1) / plan.chunk_size) as usize;
        assert_eq!(ranges.len(), expected_count);
        assert_eq!(ranges[0].start, 0);
        assert_eq!(ranges[ranges.len() - 1].end, total - 1);
        let mut sum = 0;
        for (k, r) in ranges.iter().enumerate() {
            assert!(r.start <= r.end);
            if k > 0 {
                assert_eq!(r.start, ranges[k - 1].end + 1);
            }
            sum += r.end - r.start + 1;
        }
        assert_eq!(sum, total);
    }
}

#[test]
fn one_byte_object() {
    let ranges = plan_ranges(1, 4_194_304);
    assert_eq!(ranges, vec![ByteRange { start: 0, end: 0 }]);
}

#[test]
fn exact_multiple_of_chunk() {
    // An object of exactly two chunks gets two full ranges, no empty tail.
    let ranges = plan_ranges(8_388_608, 4_194_304);
    assert_eq!(
        ranges,
        vec![
            ByteRange { start: 0, end: 4_194_303 },
            ByteRange { start: 4_194_304, end: 8_388_607 },
        ]
    );
}
