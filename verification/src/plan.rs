//! Partitioning an object into contiguous, disjoint byte ranges, and the
//! immutable plan that one download run follows.

use vstd::prelude::*;
use vstd::arithmetic::div_mod::{
    lemma_fundamental_div_mod,
    lemma_fundamental_div_mod_converse_div,
};
use vstd::arithmetic::mul::{
    lemma_mul_inequality,
    lemma_mul_is_distributive_add_other_way,
    lemma_mul_is_distributive_sub_other_way,
};
use crate::sizing::{
    calculate_optimal_chunk_size,
    calculate_optimal_concurrency,
    chunk_size_spec,
    concurrency_spec,
    MAX_CHUNK_SIZE,
};

verus! {

/// Names one remote object: a bucket and a key within it.
#[derive(Clone, Debug)]
pub struct ObjectLocator {
    pub bucket: String,
    pub key: String,
}

/// One ranged fetch's byte span, with inclusive bounds.
#[derive(Clone, Copy, Debug, PartialEq, Eq, Structural)]
pub struct ByteRange {
    pub start: i64,
    pub end: i64,
}

/// The partition of one object into ranged fetches, plus the concurrency to
/// apply. Built once per run and never changed.
#[derive(Clone, Debug)]
pub struct DownloadPlan {
    pub total_size: i64,
    pub chunk_size: i64,
    pub concurrency: usize,
    pub ranges: Vec<ByteRange>,
}

/// Number of bytes a range spans.
pub open spec fn range_len(r: ByteRange) -> int {
    r.end - r.start + 1
}

/// How many ranges a partition of `total` bytes into `chunk`-byte pieces has:
/// `total / chunk`, rounded up.
pub open spec fn range_count_spec(total: int, chunk: int) -> int {
    (total + chunk - 1) / chunk
}

/// The inclusive upper bound of the `k`-th range: one before the next chunk
/// boundary, truncated to the last byte of the object.
pub open spec fn range_end_spec(total: int, chunk: int, k: int) -> int {
    if (k + 1) * chunk - 1 <= total - 1 {
        (k + 1) * chunk - 1
    } else {
        total - 1
    }
}

/// `rs` is the partition of `[0, total)` into `chunk`-byte pieces: the `k`-th
/// range starts at `k * chunk` and ends just before the next one, with the
/// last range truncated to the end of the object.
pub open spec fn ranges_wf(rs: Seq<ByteRange>, total: int, chunk: int) -> bool {
    &&& rs.len() == range_count_spec(total, chunk)
    &&& forall|k: int|
        0 <= k < rs.len() ==> (#[trigger] rs[k]).start == k * chunk && rs[k].end == range_end_spec(
            total,
            chunk,
            k,
        )
}

/// A plan for an object of `total` bytes, with the chunk size and concurrency
/// the sizing policy assigns to that object and the partition they induce.
pub open spec fn plan_matches(p: DownloadPlan, total: int) -> bool {
    &&& total >= 0
    &&& p.total_size == total
    &&& p.chunk_size == chunk_size_spec(total)
    &&& p.concurrency == concurrency_spec(total)
    &&& ranges_wf(p.ranges@, total, p.chunk_size as int)
}

/// A well-formed plan: an object size, a positive chunk size, and the
/// partition those two induce. A zero-size object has an empty partition.
pub open spec fn plan_wf(p: DownloadPlan) -> bool {
    &&& p.total_size >= 0
    &&& p.chunk_size >= 1
    &&& ranges_wf(p.ranges@, p.total_size as int, p.chunk_size as int)
}

/// The rounded-up count sits against the object size: the last chunk reaches
/// `total` and the one before it falls short.
proof fn lemma_ceil_count_bounds(total: int, chunk: int)
    requires
        total >= 1,
        chunk >= 1,
    ensures
        range_count_spec(total, chunk) >= 1,
        (range_count_spec(total, chunk) - 1) * chunk < total,
        total <= range_count_spec(total, chunk) * chunk,
{
    let n = range_count_spec(total, chunk);
    lemma_fundamental_div_mod(total + chunk - 1, chunk);
    let r = (total + chunk - 1) % chunk;
    assert(total + chunk - 1 == chunk * n + r);
    lemma_mul_is_distributive_sub_other_way(chunk, n, 1);
    assert((n - 1) * chunk == n * chunk - chunk);
    if n < 1 {
        assert(n * chunk <= 0) by (nonlinear_arith)
            requires
                n <= 0,
                chunk >= 1,
        ;
    }
}

/// A total that lands between two successive multiples of `chunk` has the
/// larger multiplier as its rounded-up count.
proof fn lemma_count_from_bounds(total: int, chunk: int, n: int)
    requires
        chunk >= 1,
        n >= 1,
        (n - 1) * chunk < total,
        total <= n * chunk,
    ensures
        range_count_spec(total, chunk) == n,
{
    lemma_mul_is_distributive_sub_other_way(chunk, n, 1);
    let r = total + chunk - 1 - n * chunk;
    assert(total + chunk - 1 == n * chunk + r);
    lemma_fundamental_div_mod_converse_div(total + chunk - 1, chunk, n, r);
}

/// Partition `[0, total_size)` into contiguous inclusive ranges of
/// `chunk_size` bytes, the last truncated to fit exactly.
pub fn plan_ranges(total_size: i64, chunk_size: i64) -> (ranges: Vec<ByteRange>)
    requires
        total_size >= 0,
        chunk_size >= 1,
        total_size + chunk_size <= i64::MAX,
    ensures
        ranges_wf(ranges@, total_size as int, chunk_size as int),
{
    let ghost total: int = total_size as int;
    let ghost chunk: int = chunk_size as int;
    let mut ranges: Vec<ByteRange> = Vec::new();
    let mut start: i64 = 0;
    proof {
        assert(ranges@.len() * chunk == 0) by (nonlinear_arith)
            requires
                ranges@.len() == 0,
        ;
    }
    while start < total_size
        invariant
            total == total_size as int,
            chunk == chunk_size as int,
            total_size >= 0,
            chunk_size >= 1,
            total_size + chunk_size <= i64::MAX,
            0 <= start <= total_size,
            start == ranges@.len() * chunk || start == total,
            start <= ranges@.len() * chunk,
            ranges@.len() == 0 ==> start == 0,
            ranges@.len() >= 1 ==> (ranges@.len() - 1) * chunk < start,
            forall|k: int|
                0 <= k < ranges@.len() ==> (#[trigger] ranges@[k]).start == k * chunk
                    && ranges@[k].end == range_end_spec(total, chunk, k),
        decreases total_size - start,
    {
        let ghost n = ranges@.len() as int;
        proof {
            if start as int != n * chunk {
                assert(start == total);
                assert(false);
            }
            lemma_mul_is_distributive_add_other_way(chunk, n, 1);
            assert((n + 1) * chunk == n * chunk + chunk);
        }
        let end: i64 = if total_size - 1 - start >= chunk_size - 1 {
            start + (chunk_size - 1)
        } else {
            total_size - 1
        };
        ranges.push(ByteRange { start, end });
        start = end + 1;
    }
    proof {
        let n = ranges@.len() as int;
        assert(start == total);
        if n == 0 {
            assert(total == 0);
            lemma_fundamental_div_mod_converse_div(chunk - 1, chunk, 0, chunk - 1);
        } else {
            lemma_mul_is_distributive_add_other_way(chunk, n - 1, 1);
            assert(n * chunk == (n - 1) * chunk + chunk);
            assert(total <= n * chunk);
            lemma_count_from_bounds(total, chunk, n);
        }
    }
    ranges
}

/// Build the plan for an object of `total_size` bytes: the sizing policy's
/// chunk size and concurrency, and the partition they induce.
pub fn plan_download(total_size: i64) -> (p: DownloadPlan)
    requires
        0 <= total_size,
        total_size + MAX_CHUNK_SIZE <= i64::MAX,
    ensures
        plan_matches(p, total_size as int),
        plan_wf(p),
{
    let chunk_size = calculate_optimal_chunk_size(total_size);
    let concurrency = calculate_optimal_concurrency(total_size);
    let ranges = plan_ranges(total_size, chunk_size);
    DownloadPlan { total_size, chunk_size, concurrency, ranges }
}

/// A partition with at least one range belongs to a positive object size: a
/// zero-size object has no ranges at all.
pub proof fn lemma_nonempty_partition_means_positive_total(
    rs: Seq<ByteRange>,
    total: int,
    chunk: int,
)
    requires
        total >= 0,
        chunk >= 1,
        ranges_wf(rs, total, chunk),
        rs.len() >= 1,
    ensures
        total >= 1,
{
    if total == 0 {
        lemma_fundamental_div_mod_converse_div(chunk - 1, chunk, 0, chunk - 1);
    }
}

/// Planning is a function of the object size alone: two plans built for the
/// same size agree in every field, range by range.
pub proof fn lemma_plan_idempotent(p1: DownloadPlan, p2: DownloadPlan, total: int)
    requires
        plan_matches(p1, total),
        plan_matches(p2, total),
    ensures
        p1.total_size == p2.total_size,
        p1.chunk_size == p2.chunk_size,
        p1.concurrency == p2.concurrency,
        p1.ranges@ == p2.ranges@,
{
    assert(p1.ranges@ =~= p2.ranges@);
}

/// Sum of the byte lengths of the first `m` ranges.
pub open spec fn sum_range_lens(rs: Seq<ByteRange>, m: int) -> int
    decreases m,
{
    if m <= 0 {
        0
    } else {
        sum_range_lens(rs, m - 1) + range_len(rs[m - 1])
    }
}

/// Over a contiguous run of ranges that starts at byte 0, the lengths add up
/// to one past the last range's upper bound.
proof fn lemma_sum_contiguous(rs: Seq<ByteRange>, m: int)
    requires
        0 <= m <= rs.len(),
        rs.len() >= 1 ==> rs[0].start == 0,
        forall|k: int| 0 <= k < rs.len() - 1 ==> (#[trigger] rs[k + 1]).start == rs[k].end + 1,
    ensures
        sum_range_lens(rs, m) == if m == 0 {
            0
        } else {
            rs[m - 1].end + 1
        },
    decreases m,
{
    if m > 0 {
        lemma_sum_contiguous(rs, m - 1);
        if m >= 2 {
            assert(rs[m - 2 + 1].start == rs[m - 2].end + 1);
        }
    }
}

/// The partition invariant, spelled out: the ranges of a well-formed
/// partition are non-empty spans that start at 0, touch end to start, never
/// overlap, finish at the last byte, and together cover the object exactly.
pub proof fn lemma_partition_properties(rs: Seq<ByteRange>, total: int, chunk: int)
    requires
        total >= 1,
        chunk >= 1,
        ranges_wf(rs, total, chunk),
    ensures
        1 <= rs.len(),
        rs.len() == range_count_spec(total, chunk),
        rs[0].start == 0,
        rs[rs.len() - 1].end == total - 1,
        forall|k: int| 0 <= k < rs.len() ==> 0 <= (#[trigger] rs[k]).start <= rs[k].end < total,
        forall|k: int| 0 <= k < rs.len() - 1 ==> (#[trigger] rs[k + 1]).start == rs[k].end + 1,
        forall|j: int, k: int|
            0 <= j < k < rs.len() ==> (#[trigger] rs[j]).end < (#[trigger] rs[k]).start,
        sum_range_lens(rs, rs.len() as int) == total,
{
    let n = rs.len() as int;
    lemma_ceil_count_bounds(total, chunk);
    assert forall|k: int| 0 <= k < n implies 0 <= (#[trigger] rs[k]).start <= rs[k].end < total by {
        lemma_mul_inequality(0, k, chunk);
        lemma_mul_inequality(k, n - 1, chunk);
        lemma_mul_is_distributive_add_other_way(chunk, k, 1);
        assert((k + 1) * chunk == k * chunk + chunk);
    }
    assert forall|k: int| 0 <= k < n - 1 implies (#[trigger] rs[k + 1]).start == rs[k].end + 1 by {
        lemma_mul_inequality(k + 1, n - 1, chunk);
        lemma_mul_is_distributive_add_other_way(chunk, k, 1);
        assert((k + 1) * chunk == k * chunk + chunk);
    }
    assert forall|j: int, k: int|
        0 <= j < k < n implies (#[trigger] rs[j]).end < (#[trigger] rs[k]).start by {
        lemma_mul_is_distributive_add_other_way(chunk, j, 1);
        assert((j + 1) * chunk == j * chunk + chunk);
        lemma_mul_inequality(j + 1, k, chunk);
    }
    assert(rs[n - 1].end == total - 1) by {
        lemma_mul_is_distributive_add_other_way(chunk, n - 1, 1);
        assert(n * chunk == (n - 1) * chunk + chunk);
    }
    assert(rs[0].start == 0 * chunk);
    lemma_sum_contiguous(rs, n);
}

} // verus!
