//! Sizing policy: pure functions from the total object size to the chunk size
//! of each ranged fetch and to the number of fetches allowed in flight.

use vstd::prelude::*;
use vstd::arithmetic::div_mod::{
    lemma_div_is_ordered,
    lemma_div_pos_is_pos,
    lemma_fundamental_div_mod_converse_div,
};

verus! {

/// Smallest chunk a ranged fetch may ask for: 4 MiB.
pub const MIN_CHUNK_SIZE: i64 = 4 * 1024 * 1024;

/// Largest chunk a ranged fetch may ask for: 128 MiB.
pub const MAX_CHUNK_SIZE: i64 = 128 * 1024 * 1024;

/// Fewest fetches allowed in flight at once.
pub const MIN_CONCURRENT_DOWNLOADS: usize = 4;

/// Most fetches allowed in flight at once.
pub const MAX_CONCURRENT_DOWNLOADS: usize = 16;

/// Aim for about this many chunks per object.
pub const TARGET_CHUNKS_PER_FILE: i64 = 75;

/// Object size below or at which the minimum concurrency applies: 0.5 GiB.
pub const CONCURRENCY_LOW_SIZE: i64 = 512 * 1024 * 1024;

/// Object size at or above which the maximum concurrency applies: 10 GiB.
pub const CONCURRENCY_HIGH_SIZE: i64 = 10 * 1024 * 1024 * 1024;

/// Width of the interpolation band between the two bounds: 9.5 GiB.
pub const CONCURRENCY_SPAN: i64 = 10 * 1024 * 1024 * 1024 - 512 * 1024 * 1024;

/// The chunk size chosen for an object of `file_size` bytes: one
/// seventy-fifth of the object, clamped to [4 MiB, 128 MiB].
pub open spec fn chunk_size_spec(file_size: int) -> int {
    let ideal = file_size / (TARGET_CHUNKS_PER_FILE as int);
    if ideal < MIN_CHUNK_SIZE as int {
        MIN_CHUNK_SIZE as int
    } else if ideal > MAX_CHUNK_SIZE as int {
        MAX_CHUNK_SIZE as int
    } else {
        ideal
    }
}

/// How many of the twelve steps between minimum and maximum concurrency an
/// object of `file_size` bytes earns: `12 * (file_size - low) / span`,
/// rounded to the nearest integer (the `+ span` before the halved division
/// rounds instead of truncating).
pub open spec fn concurrency_steps_spec(file_size: int) -> int {
    (24 * (file_size - CONCURRENCY_LOW_SIZE as int) + CONCURRENCY_SPAN as int) / (2
        * CONCURRENCY_SPAN as int)
}

/// The concurrency chosen for an object of `file_size` bytes: 4 below
/// 0.5 GiB, 16 above 10 GiB, and in between a linear interpolation rounded
/// to the nearest integer.
pub open spec fn concurrency_spec(file_size: int) -> int {
    if file_size <= CONCURRENCY_LOW_SIZE as int {
        MIN_CONCURRENT_DOWNLOADS as int
    } else if file_size >= CONCURRENCY_HIGH_SIZE as int {
        MAX_CONCURRENT_DOWNLOADS as int
    } else {
        MIN_CONCURRENT_DOWNLOADS as int + concurrency_steps_spec(file_size)
    }
}

/// Chunk size for one ranged fetch, from the total object size.
pub fn calculate_optimal_chunk_size(file_size: i64) -> (chunk: i64)
    requires
        file_size >= 0,
    ensures
        chunk == chunk_size_spec(file_size as int),
        MIN_CHUNK_SIZE <= chunk <= MAX_CHUNK_SIZE,
{
    let ideal = file_size / TARGET_CHUNKS_PER_FILE;
    if ideal < MIN_CHUNK_SIZE {
        MIN_CHUNK_SIZE
    } else if ideal > MAX_CHUNK_SIZE {
        MAX_CHUNK_SIZE
    } else {
        ideal
    }
}

/// Number of fetches allowed in flight at once, from the total object size.
pub fn calculate_optimal_concurrency(file_size: i64) -> (concurrency: usize)
    requires
        file_size >= 0,
    ensures
        concurrency == concurrency_spec(file_size as int),
        MIN_CONCURRENT_DOWNLOADS <= concurrency <= MAX_CONCURRENT_DOWNLOADS,
{
    if file_size <= CONCURRENCY_LOW_SIZE {
        MIN_CONCURRENT_DOWNLOADS
    } else if file_size >= CONCURRENCY_HIGH_SIZE {
        MAX_CONCURRENT_DOWNLOADS
    } else {
        let numerator: i64 = 24 * (file_size - CONCURRENCY_LOW_SIZE) + CONCURRENCY_SPAN;
        let denominator: i64 = 2 * CONCURRENCY_SPAN;
        let steps: i64 = numerator / denominator;
        assert(0 <= steps <= 12) by (nonlinear_arith)
            requires
                steps == numerator / denominator,
                0 <= numerator,
                numerator < 13 * denominator,
                denominator > 0,
        ;
        MIN_CONCURRENT_DOWNLOADS + (steps as usize)
    }
}

/// The chunk size always sits between its two clamps.
pub proof fn lemma_chunk_size_bounds(size: int)
    ensures
        MIN_CHUNK_SIZE <= chunk_size_spec(size) <= MAX_CHUNK_SIZE,
{
}

/// A bigger object never gets a smaller chunk.
pub proof fn lemma_chunk_size_monotonic(size1: int, size2: int)
    requires
        size1 <= size2,
    ensures
        chunk_size_spec(size1) <= chunk_size_spec(size2),
{
    lemma_div_is_ordered(size1, size2, TARGET_CHUNKS_PER_FILE as int);
}

/// Inside the interpolation band the step count stays within the twelve
/// steps that separate the two concurrency bounds.
proof fn lemma_steps_bounds(size: int)
    requires
        CONCURRENCY_LOW_SIZE < size < CONCURRENCY_HIGH_SIZE,
    ensures
        0 <= concurrency_steps_spec(size) <= 12,
{
    let numerator = 24 * (size - CONCURRENCY_LOW_SIZE as int) + CONCURRENCY_SPAN as int;
    let denominator = 2 * CONCURRENCY_SPAN as int;
    lemma_div_pos_is_pos(numerator, denominator);
    lemma_div_is_ordered(numerator, 13 * denominator - 1, denominator);
    lemma_fundamental_div_mod_converse_div(
        13 * denominator - 1,
        denominator,
        12,
        denominator - 1,
    );
}

/// The concurrency always sits between its two bounds.
pub proof fn lemma_concurrency_bounds(size: int)
    ensures
        MIN_CONCURRENT_DOWNLOADS <= concurrency_spec(size) <= MAX_CONCURRENT_DOWNLOADS,
{
    if CONCURRENCY_LOW_SIZE < size < CONCURRENCY_HIGH_SIZE {
        lemma_steps_bounds(size);
    }
}

/// A bigger object never gets less concurrency.
pub proof fn lemma_concurrency_monotonic(size1: int, size2: int)
    requires
        size1 <= size2,
    ensures
        concurrency_spec(size1) <= concurrency_spec(size2),
{
    lemma_concurrency_bounds(size1);
    lemma_concurrency_bounds(size2);
    if CONCURRENCY_LOW_SIZE < size1 < CONCURRENCY_HIGH_SIZE && CONCURRENCY_LOW_SIZE < size2
        < CONCURRENCY_HIGH_SIZE {
        let numerator1 = 24 * (size1 - CONCURRENCY_LOW_SIZE as int) + CONCURRENCY_SPAN as int;
        let numerator2 = 24 * (size2 - CONCURRENCY_LOW_SIZE as int) + CONCURRENCY_SPAN as int;
        lemma_div_is_ordered(numerator1, numerator2, 2 * CONCURRENCY_SPAN as int);
    }
}

/// Through the middle of the interpolation band, from 1 GiB to 9 GiB, the
/// concurrency sits strictly between its bounds. Right past the 0.5 GiB edge
/// the rounded interpolation still lands on the minimum (0.5 GiB plus one
/// byte earns no step), so strictness starts later than the band itself.
pub proof fn lemma_concurrency_strict_inside(size: int)
    requires
        1024int * 1024 * 1024 <= size <= 9int * 1024 * 1024 * 1024,
    ensures
        MIN_CONCURRENT_DOWNLOADS < concurrency_spec(size) < MAX_CONCURRENT_DOWNLOADS,
{
    lemma_concurrency_monotonic(1024int * 1024 * 1024, size);
    lemma_concurrency_monotonic(size, 9int * 1024 * 1024 * 1024);
    lemma_fundamental_div_mod_converse_div(
        24 * (1024int * 1024 * 1024 - CONCURRENCY_LOW_SIZE as int) + CONCURRENCY_SPAN as int,
        2 * CONCURRENCY_SPAN as int,
        1,
        2684354560,
    );
    assert(concurrency_spec(1024int * 1024 * 1024) == 5);
    lemma_fundamental_div_mod_converse_div(
        24 * (9int * 1024 * 1024 * 1024 - CONCURRENCY_LOW_SIZE as int) + CONCURRENCY_SPAN as int,
        2 * CONCURRENCY_SPAN as int,
        11,
        4831838208,
    );
    assert(concurrency_spec(9int * 1024 * 1024 * 1024) == 15);
}

} // verus!
