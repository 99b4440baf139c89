//! The bookkeeping of one download run: a fresh pre-sized buffer, one
//! delivery per planned range, and an all-or-nothing handover of the filled
//! buffer.
//!
//! The fetches themselves are network work and run with the caller, under
//! whatever scheduling it likes: correctness never rests on the order in
//! which deliveries arrive, only on the disjointness of the planned ranges.

use vstd::prelude::*;
use vstd::arithmetic::div_mod::lemma_fundamental_div_mod;
use vstd::string::StringExecFns;
use crate::buffer::{
    apply_chunks, chunk_covers, chunks_in_bounds, lemma_apply_chunks_pointwise, spec_write,
    ChunkWrite, MemoryBuffer,
};
use crate::plan::{
    lemma_nonempty_partition_means_positive_total, lemma_partition_properties, plan_wf, range_len,
    ByteRange, DownloadPlan,
};
use crate::text::{dec_digits, push_char, push_decimal};

verus! {

/// The range request header for the inclusive span `[start, end]`.
pub open spec fn range_header_spec(start: nat, end: nat) -> Seq<char> {
    "bytes="@ + dec_digits(start) + "-"@ + dec_digits(end)
}

/// Format the header of one ranged fetch, `bytes=<start>-<end>`.
pub fn range_header(start: i64, end: i64) -> (header: String)
    requires
        0 <= start,
        0 <= end,
    ensures
        header@ == range_header_spec(start as nat, end as nat),
{
    let mut header = String::from_str("bytes=");
    push_decimal(&mut header, start as u64);
    push_char(&mut header, '-');
    push_decimal(&mut header, end as u64);
    proof {
        assert(seq!['-'] =~= Seq::<char>::empty().push('-'));
        assert("-"@ =~= seq!['-']) by {
            reveal_strlit("-");
        }
        assert(header@ =~= range_header_spec(start as nat, end as nat));
    }
    header
}

/// The chunk that delivers range `k` of the partition `rs` out of `object`:
/// it sits at the range's start and holds the object's bytes for the range.
pub open spec fn delivery_of(rs: Seq<ByteRange>, object: Seq<u8>, k: int) -> ChunkWrite {
    (rs[k].start as int, object.subrange(rs[k].start as int, rs[k].end + 1))
}

/// A complete delivery reconstructs the object: writing one chunk per range,
/// each holding the object's bytes for its range, turns a pre-sized buffer of
/// any prior contents into the object exactly. Together with the order
/// independence of disjoint writes, the delivery may arrive in any order.
pub proof fn lemma_complete_delivery_reconstructs(
    s: Seq<u8>,
    object: Seq<u8>,
    rs: Seq<ByteRange>,
    cs: Seq<ChunkWrite>,
    total: int,
    chunk: int,
)
    requires
        total >= 1,
        chunk >= 1,
        crate::plan::ranges_wf(rs, total, chunk),
        s.len() == total,
        object.len() == total,
        cs.len() == rs.len(),
        forall|k: int| 0 <= k < cs.len() ==> cs[k] == delivery_of(rs, object, k),
    ensures
        apply_chunks(s, cs) == object,
{
    lemma_partition_properties(rs, total, chunk);
    assert(chunks_in_bounds(cs, total));
    assert forall|j: int, k: int|
        0 <= j < k < cs.len() implies crate::buffer::chunks_disjoint(cs[j], cs[k]) by {
        assert(rs[j].end < rs[k].start);
    }
    lemma_apply_chunks_pointwise(s, cs);
    let out = apply_chunks(s, cs);
    assert forall|i: int| 0 <= i < total implies out[i] == object[i] by {
        let k = i / chunk;
        lemma_fundamental_div_mod(i, chunk);
        vstd::arithmetic::div_mod::lemma_mod_bound(i, chunk);
        vstd::arithmetic::mul::lemma_mul_is_commutative(chunk, k);
        vstd::arithmetic::mul::lemma_mul_is_distributive_add_other_way(chunk, k, 1);
        assert(i == chunk * (i / chunk) + i % chunk);
        assert((k + 1) * chunk == k * chunk + chunk);
        assert(k * chunk <= i < (k + 1) * chunk);
        assert(k < rs.len()) by {
            let n = rs.len() as int;
            if k >= n {
                vstd::arithmetic::mul::lemma_mul_inequality(n, k, chunk);
                assert(n * chunk <= k * chunk);
            }
        }
        assert(rs[k].start == k * chunk);
        assert(rs[k].end + 1 > i) by {
            assert(rs[k].end == crate::plan::range_end_spec(total, chunk, k));
        }
        assert(chunk_covers(cs[k], i));
        assert(out[i] == cs[k].1[i - cs[k].0]);
        assert(cs[k].1[i - rs[k].start] == object[i]);
    }
    assert(out =~= object);
}

/// Why a run failed, with the stage and the offending bounds.
#[derive(Clone, Copy, Debug, PartialEq, Eq, Structural)]
pub enum RunError {
    /// The object's size could not be obtained.
    Metadata,
    /// The buffer could not be created or pre-sized.
    Allocation,
    /// A ranged fetch failed, or its body did not match the requested range:
    /// `got` bytes arrived at `offset` for the range `[start, end]`.
    Transfer { start: i64, end: i64, offset: u64, got: u64 },
    /// A positioned write into the buffer failed at `offset`.
    Write { offset: u64 },
    /// The image replacement failed.
    Exec,
}

/// One settled ranged fetch: the bytes and the offset they belong at.
pub struct ChunkResult {
    pub offset: u64,
    pub bytes: Vec<u8>,
}

/// The state of one run: the plan, the buffer being filled, and which ranges
/// have been delivered.
pub struct Download {
    pub plan: DownloadPlan,
    pub buffer: MemoryBuffer,
    pub done: Vec<bool>,
    pub failure: Option<RunError>,
}

/// The delivery `chunk` settles range `k` of `plan`: it sits at the range's
/// start and spans exactly the range.
pub open spec fn chunk_fits(plan: DownloadPlan, k: int, chunk: ChunkResult) -> bool {
    &&& chunk.offset == plan.ranges@[k].start as u64
    &&& chunk.bytes@.len() == range_len(plan.ranges@[k])
}

/// The run's bookkeeping is sound: the plan is well formed, the buffer is
/// pre-sized to the whole object, and there is one delivery flag per range.
pub open spec fn download_wf(d: Download) -> bool {
    &&& plan_wf(d.plan)
    &&& d.plan.total_size <= usize::MAX
    &&& d.buffer@.len() == d.plan.total_size
    &&& d.done@.len() == d.plan.ranges@.len()
}

/// Every range has been delivered and nothing failed: the buffer holds the
/// whole object.
pub open spec fn download_complete(d: Download) -> bool {
    &&& d.failure is None
    &&& forall|k: int| 0 <= k < d.done@.len() ==> d.done@[k]
}

impl Download {
    /// Open a run for `plan`: a fresh buffer pre-sized to the object, no
    /// range delivered yet.
    pub fn begin(plan: DownloadPlan) -> (d: Download)
        requires
            plan_wf(plan),
            plan.total_size <= usize::MAX,
        ensures
            download_wf(d),
            d.plan == plan,
            d.buffer@ == Seq::new(plan.total_size as nat, |i: int| 0u8),
            d.failure is None,
            forall|k: int| 0 <= k < d.done@.len() ==> !d.done@[k],
    {
        let mut buffer = MemoryBuffer::create("s3_file");
        buffer.preallocate(plan.total_size as usize);
        let n = plan.ranges.len();
        let mut done: Vec<bool> = Vec::new();
        let mut k: usize = 0;
        while k < n
            invariant
                k <= n,
                done@.len() == k,
                forall|j: int| 0 <= j < k ==> !done@[j],
            decreases n - k,
        {
            done.push(false);
            k = k + 1;
        }
        Download { plan, buffer, done, failure: None }
    }

    /// Take one settled fetch. A body that sits at the range's start and
    /// spans exactly the range is written into the buffer at its offset and
    /// the range is marked delivered; anything else is a transfer failure
    /// that leaves the buffer untouched and poisons the run.
    pub fn accept(&mut self, index: usize, chunk: &ChunkResult) -> (r: Result<(), RunError>)
        requires
            download_wf(*old(self)),
            index < old(self).plan.ranges@.len(),
            !old(self).done@[index as int],
        ensures
            download_wf(*final(self)),
            final(self).plan == old(self).plan,
            chunk_fits(old(self).plan, index as int, *chunk) ==> {
                &&& r is Ok
                &&& final(self).buffer@ == spec_write(
                    old(self).buffer@,
                    old(self).plan.ranges@[index as int].start as int,
                    chunk.bytes@,
                )
                &&& final(self).done@ == old(self).done@.update(index as int, true)
                &&& final(self).failure == old(self).failure
            },
            !chunk_fits(old(self).plan, index as int, *chunk) ==> {
                &&& r == Err::<(), RunError>(
                    RunError::Transfer {
                        start: old(self).plan.ranges@[index as int].start,
                        end: old(self).plan.ranges@[index as int].end,
                        offset: chunk.offset,
                        got: chunk.bytes@.len() as u64,
                    },
                )
                &&& final(self).buffer@ == old(self).buffer@
                &&& final(self).done@ == old(self).done@
                &&& final(self).failure == Some(
                    RunError::Transfer {
                        start: old(self).plan.ranges@[index as int].start,
                        end: old(self).plan.ranges@[index as int].end,
                        offset: chunk.offset,
                        got: chunk.bytes@.len() as u64,
                    },
                )
            },
    {
        proof {
            lemma_nonempty_partition_means_positive_total(
                self.plan.ranges@,
                self.plan.total_size as int,
                self.plan.chunk_size as int,
            );
            lemma_partition_properties(
                self.plan.ranges@,
                self.plan.total_size as int,
                self.plan.chunk_size as int,
            );
        }
        let range = self.plan.ranges[index];
        let want: u64 = (range.end - range.start + 1) as u64;
        let got: u64 = chunk.bytes.len() as u64;
        if chunk.offset == range.start as u64 && got == want {
            self.buffer.write_at(chunk.bytes.as_slice(), range.start as usize);
            self.done.set(index, true);
            Ok(())
        } else {
            let err = RunError::Transfer { start: range.start, end: range.end, offset: chunk.offset, got };
            self.failure = Some(err);
            Err(err)
        }
    }

    /// Whether every range has been delivered and nothing failed.
    pub fn is_complete(&self) -> (r: bool)
        requires
            download_wf(*self),
        ensures
            r == download_complete(*self),
    {
        if self.failure.is_some() {
            return false;
        }
        let n = self.done.len();
        let mut k: usize = 0;
        while k < n
            invariant
                k <= n,
                n == self.done@.len(),
                forall|j: int| 0 <= j < k ==> self.done@[j],
            decreases n - k,
        {
            if !self.done[k] {
                return false;
            }
            k = k + 1;
        }
        true
    }

    /// Hand the filled buffer over. Success comes exactly on a complete run;
    /// a poisoned or unfinished run keeps its first failure, and a run where
    /// a range simply never arrived reports that range as a transfer failure
    /// with no bytes.
    pub fn finalize(self) -> (r: Result<MemoryBuffer, RunError>)
        requires
            download_wf(self),
        ensures
            download_complete(self) ==> r == Ok::<MemoryBuffer, RunError>(self.buffer),
            !download_complete(self) ==> r is Err,
            r is Ok ==> download_complete(self),
            self.failure matches Some(e) ==> r == Err::<MemoryBuffer, RunError>(e),
    {
        if let Some(err) = self.failure {
            return Err(err);
        }
        let n = self.done.len();
        let mut k: usize = 0;
        while k < n
            invariant
                k <= n,
                n == self.done@.len(),
                download_wf(self),
                self.failure is None,
                forall|j: int| 0 <= j < k ==> self.done@[j],
            decreases n - k,
        {
            if !self.done[k] {
                proof {
                    lemma_nonempty_partition_means_positive_total(
                        self.plan.ranges@,
                        self.plan.total_size as int,
                        self.plan.chunk_size as int,
                    );
                    lemma_partition_properties(
                        self.plan.ranges@,
                        self.plan.total_size as int,
                        self.plan.chunk_size as int,
                    );
                }
                let range = self.plan.ranges[k];
                return Err(
                    RunError::Transfer {
                        start: range.start,
                        end: range.end,
                        offset: range.start as u64,
                        got: 0,
                    },
                );
            }
            k = k + 1;
        }
        Ok(self.buffer)
    }
}

} // verus!
