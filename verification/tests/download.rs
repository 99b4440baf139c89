use s3mem_run::download::{range_header, ChunkResult, Download, RunError};
use s3mem_run::plan::plan_download;

#[test]
fn short_body_fails_the_run() {
    // One ranged fetch returns a short body: the run fails with a transfer
    // error naming the range, and the buffer is never handed over.
    let plan = plan_download(10_000_000);
    let mut run = Download::begin(plan);
    let short = ChunkResult { offset: 0, bytes: vec![7u8; 100] };
    let err = run.accept(0, &short).unwrap_err();
    assert_eq!(
        err,
        RunError::Transfer { start: 0, end: 4_194_303, offset: 0, got: 100 }
    );
    assert!(!run.is_complete());
    assert!(run.finalize().is_err());
}

#[test]
fn misplaced_body_fails_the_run() {
    // A body of the right length at the wrong offset is rejected too.
    let plan = plan_download(10_000_000);
    let mut run = Download::begin(plan);
    let misplaced = ChunkResult { offset: 1, bytes: vec![7u8; 4_194_304] };
    let err = run.accept(0, &misplaced).unwrap_err();
    assert_eq!(
        err,
        RunError::Transfer { start: 0, end: 4_194_303, offset: 1, got: 4_194_304 }
    );
    assert!(run.finalize().is_err());
}

#[test]
fn complete_run_hands_over_the_object() {
    // A small object fits one range; delivering it completes the run and the
    // buffer holds the object byte for byte.
    let plan = plan_download(5);
    assert_eq!(plan.ranges.len(), 1);
    let mut run = Download::begin(plan);
    let body = vec![10u8, 20, 30, 40, 50];
    let chunk = ChunkResult { offset: 0, bytes: body.clone() };
    run.accept(0, &chunk).unwrap();
    assert!(run.is_complete());
    let buffer = run.finalize().unwrap();
    assert_eq!(buffer.contents(), &body);
}

#[test]
fn out_of_order_deliveries_assemble_the_object() {
    // Three ranges delivered last-first still assemble the exact object.
    let total: usize = 10_000_000;
    let plan = plan_download(total as i64);
    let ranges = plan.ranges.clone();
    assert_eq!(ranges.len(), 3);
    let object: Vec<u8> = (0..total).map(|i| (i % 251) as u8).collect();
    let mut run = Download::begin(plan);
    for index in [2, 1, 0] {
        let r = ranges[index];
        let body = object[r.start as usize..=r.end as usize].to_vec();
        run.accept(index, &ChunkResult { offset: r.start as u64, bytes: body })
            .unwrap();
    }
    assert!(run.is_complete());
    let buffer = run.finalize().unwrap();
    assert_eq!(buffer.contents(), &object);
}

#[test]
fn unfinished_run_cannot_finalize() {
    let plan = plan_download(10_000_000);
    let run = Download::begin(plan);
    assert!(!run.is_complete());
    assert!(run.finalize().is_err());
}

#[test]
fn range_header_formats_bounds() {
    assert_eq!(range_header(0, 4_194_303), "bytes=0-4194303");
    assert_eq!(range_header(8_388_608, 9_999_999), "bytes=8388608-9999999");
    assert_eq!(range_header(0, 0), "bytes=0-0");
}

#[test]
fn zero_byte_object_completes_at_once() {
    // A zero-size object has an empty partition: the run is complete before
    // any delivery and hands over an empty buffer.
    let plan = plan_download(0);
    assert_eq!(plan.ranges.len(), 0);
    let run = Download::begin(plan);
    assert!(run.is_complete());
    let buffer = run.finalize().unwrap();
    assert_eq!(buffer.size(), 0);
}
