use s3mem_run::sizing::{
    calculate_optimal_chunk_size, calculate_optimal_concurrency, MAX_CHUNK_SIZE,
    MAX_CONCURRENT_DOWNLOADS, MIN_CHUNK_SIZE, MIN_CONCURRENT_DOWNLOADS,
};

#[test]
fn test_calculate_optimal_chunk_size() {
    // Test with small file (512MB)
    let small_file_size = 512 * 1024 * 1024;
    let small_chunk_size = calculate_optimal_chunk_size(small_file_size);
    assert!(small_chunk_size >= MIN_CHUNK_SIZE);
    assert!(small_chunk_size <= MAX_CHUNK_SIZE);

    // Test with medium file (2GB)
    let medium_file_size = 2 * 1024 * 1024 * 1024;
    let medium_chunk_size = calculate_optimal_chunk_size(medium_file_size);
    assert!(medium_chunk_size >= MIN_CHUNK_SIZE);
    assert!(medium_chunk_size <= MAX_CHUNK_SIZE);

    // Test with large file (10GB)
    let large_file_size = 10 * 1024 * 1024 * 1024;
    let large_chunk_size = calculate_optimal_chunk_size(large_file_size);
    assert!(large_chunk_size >= MIN_CHUNK_SIZE);
    assert!(large_chunk_size <= MAX_CHUNK_SIZE);

    // Verify that larger files get larger chunks
    assert!(large_chunk_size > small_chunk_size);
}

#[test]
fn test_calculate_optimal_concurrency() {
    // Test with small file (512MB)
    let small_file_size = 512 * 1024 * 1024;
    let small_concurrency = calculate_optimal_concurrency(small_file_size);
    assert_eq!(small_concurrency, MIN_CONCURRENT_DOWNLOADS);

    // Test with large file (10GB)
    let large_file_size = 10 * 1024 * 1024 * 1024;
    let large_concurrency = calculate_optimal_concurrency(large_file_size);
    assert_eq!(large_concurrency, MAX_CONCURRENT_DOWNLOADS);

    // Test with medium file (5GB) - should be somewhere in between
    let medium_file_size = 5 * 1024 * 1024 * 1024;
    let medium_concurrency = calculate_optimal_concurrency(medium_file_size);
    assert!(medium_concurrency > MIN_CONCURRENT_DOWNLOADS);
    assert!(medium_concurrency < MAX_CONCURRENT_DOWNLOADS);
}

#[test]
fn chunk_size_exact_values() {
    // Below 300 MiB the ideal chunk falls under the clamp: 10 MB / 75 < 4 MiB.
    assert_eq!(calculate_optimal_chunk_size(10_000_000), 4 * 1024 * 1024);
    // A zero-size object still gets the minimum chunk size.
    assert_eq!(calculate_optimal_chunk_size(0), 4 * 1024 * 1024);
    // In the middle the ideal chunk is exactly one seventy-fifth.
    assert_eq!(calculate_optimal_chunk_size(750 * 1024 * 1024), 10 * 1024 * 1024);
    // Past 9600 MiB the ideal chunk hits the upper clamp.
    assert_eq!(calculate_optimal_chunk_size(20 * 1024 * 1024 * 1024), 128 * 1024 * 1024);
}

#[test]
fn concurrency_exact_values() {
    // At the lower edge and just past it the interpolation rounds to zero steps.
    assert_eq!(calculate_optimal_concurrency(0), 4);
    assert_eq!(calculate_optimal_concurrency(512 * 1024 * 1024), 4);
    assert_eq!(calculate_optimal_concurrency(512 * 1024 * 1024 + 1), 4);
    // 5 GiB earns 6 of the 12 steps: 4 + round(12 * 4.5 / 9.5) = 10.
    assert_eq!(calculate_optimal_concurrency(5 * 1024 * 1024 * 1024), 10);
    // At and past the upper edge the maximum applies.
    assert_eq!(calculate_optimal_concurrency(10 * 1024 * 1024 * 1024), 16);
    assert_eq!(calculate_optimal_concurrency(i64::MAX), 16);
}

#[test]
fn concurrency_monotonic_samples() {
    let gib = 1024 * 1024 * 1024;
    let mut last = 0;
    for s in [0, gib / 2, gib, 2 * gib, 5 * gib, 9 * gib, 10 * gib, 12 * gib] {
        let c = calculate_optimal_concurrency(s);
        assert!(c >= last);
        last = c;
    }
}
