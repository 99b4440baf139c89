//! The in-memory byte store that one run fills: size fixed up front, written
//! by positioned writes into disjoint ranges.
//!
//! On the target platform the store is an anonymous memory-backed file; the
//! caller owning that descriptor mirrors each write here. This type carries
//! the byte contents themselves, which is what the download's correctness
//! argument is about: positioned writes into pairwise disjoint ranges land
//! the same final contents in every completion order.

use vstd::prelude::*;
use vstd::seq_lib::group_to_multiset_ensures;

verus! {

/// A size-fixed, randomly writable byte store.
pub struct MemoryBuffer {
    data: Vec<u8>,
}

/// The contents after writing `data` at `offset` into `s`: the bytes of the
/// written range are replaced, all others kept.
pub open spec fn spec_write(s: Seq<u8>, offset: int, data: Seq<u8>) -> Seq<u8> {
    Seq::new(s.len(), |i: int| if offset <= i < offset + data.len() {
        data[i - offset]
    } else {
        s[i]
    })
}

impl View for MemoryBuffer {
    type V = Seq<u8>;

    closed spec fn view(&self) -> Seq<u8> {
        self.data@
    }
}

impl MemoryBuffer {
    /// A fresh, still empty store. The name only labels the store for
    /// diagnosis; it does not enter a directory namespace.
    pub fn create(name: &str) -> (buffer: MemoryBuffer)
        ensures
            buffer@ == Seq::<u8>::empty(),
    {
        MemoryBuffer { data: Vec::new() }
    }

    /// Fix the logical size up front, so that no writer ever grows the store:
    /// after this call the store holds `size` zero bytes.
    pub fn preallocate(&mut self, size: usize)
        requires
            old(self)@.len() == 0,
        ensures
            final(self)@ == Seq::new(size as nat, |i: int| 0u8),
    {
        let mut k: usize = 0;
        while k < size
            invariant
                k <= size,
                self@.len() == k,
                forall|i: int| 0 <= i < k ==> self@[i] == 0u8,
            decreases size - k,
        {
            self.data.push(0u8);
            k = k + 1;
        }
        proof {
            assert(self@ =~= Seq::new(size as nat, |i: int| 0u8));
        }
    }

    /// How many bytes the store holds.
    pub fn size(&self) -> (n: usize)
        ensures
            n == self@.len(),
    {
        self.data.len()
    }

    /// Read the whole contents.
    pub fn contents(&self) -> (bytes: &Vec<u8>)
        ensures
            bytes@ == self@,
    {
        &self.data
    }

    /// Positioned write: replace the bytes at `[offset, offset + data.len())`
    /// with `data`, leaving every other byte as it was.
    pub fn write_at(&mut self, data: &[u8], offset: usize)
        requires
            offset + data@.len() <= old(self)@.len(),
        ensures
            final(self)@ == spec_write(old(self)@, offset as int, data@),
    {
        let len = data.len();
        let total_len = self.data.len();
        let mut j: usize = 0;
        while j < len
            invariant
                len == data@.len(),
                j <= len,
                offset + len <= total_len,
                self@.len() == total_len,
                self@.len() == old(self)@.len(),
                forall|i: int|
                    0 <= i < self@.len() && !(offset <= i < offset + j) ==> self@[i] == old(
                        self,
                    )@[i],
                forall|i: int| offset <= i < offset + j ==> self@[i] == data@[i - offset],
            decreases len - j,
        {
            self.data.set(offset + j, data[j]);
            j = j + 1;
        }
        proof {
            assert(self@ =~= spec_write(old(self)@, offset as int, data@));
        }
    }
}

/// A pending positioned write, as a pair of its offset and its bytes.
pub type ChunkWrite = (int, Seq<u8>);

/// `i` lies in the span the write covers.
pub open spec fn chunk_covers(c: ChunkWrite, i: int) -> bool {
    c.0 <= i < c.0 + c.1.len()
}

/// The two writes touch no common byte.
pub open spec fn chunks_disjoint(a: ChunkWrite, b: ChunkWrite) -> bool {
    a.0 + a.1.len() <= b.0 || b.0 + b.1.len() <= a.0
}

/// No two of the writes touch a common byte.
pub open spec fn chunks_pairwise_disjoint(cs: Seq<ChunkWrite>) -> bool {
    forall|j: int, k: int| 0 <= j < k < cs.len() ==> chunks_disjoint(cs[j], cs[k])
}

/// Every write lies inside a store of `len` bytes.
pub open spec fn chunks_in_bounds(cs: Seq<ChunkWrite>, len: int) -> bool {
    forall|k: int| 0 <= k < cs.len() ==> 0 <= (#[trigger] cs[k]).0 && cs[k].0 + cs[k].1.len() <= len
}

/// The contents after performing the writes of `cs` on `s`, first to last.
pub open spec fn apply_chunks(s: Seq<u8>, cs: Seq<ChunkWrite>) -> Seq<u8>
    decreases cs.len(),
{
    if cs.len() == 0 {
        s
    } else {
        apply_chunks(spec_write(s, cs[0].0, cs[0].1), cs.drop_first())
    }
}

/// After disjoint in-bounds writes, each byte is pinned with no regard to the
/// order the writes came in: a byte some write covers holds that write's
/// byte, every other byte holds its original value.
pub proof fn lemma_apply_chunks_pointwise(s: Seq<u8>, cs: Seq<ChunkWrite>)
    requires
        chunks_in_bounds(cs, s.len() as int),
        chunks_pairwise_disjoint(cs),
    ensures
        apply_chunks(s, cs).len() == s.len(),
        forall|i: int|
            0 <= i < s.len() && !(exists|k: int|
                0 <= k < cs.len() && chunk_covers(#[trigger] cs[k], i)) ==> apply_chunks(s, cs)[i]
                == s[i],
        forall|k: int, i: int|
            0 <= k < cs.len() && #[trigger] chunk_covers(cs[k], i) ==> apply_chunks(s, cs)[i]
                == cs[k].1[i - cs[k].0],
    decreases cs.len(),
{
    if cs.len() > 0 {
        let c = cs[0];
        let s1 = spec_write(s, c.0, c.1);
        let rest = cs.drop_first();
        assert(s1.len() == s.len());
        assert(chunks_in_bounds(rest, s1.len() as int)) by {
            assert(forall|k: int| 0 <= k < rest.len() ==> rest[k] == cs[k + 1]);
        }
        assert(chunks_pairwise_disjoint(rest)) by {
            assert(forall|j: int, k: int|
                0 <= j < k < rest.len() ==> rest[j] == cs[j + 1] && rest[k] == cs[k + 1]);
        }
        lemma_apply_chunks_pointwise(s1, rest);
        let out = apply_chunks(s, cs);
        assert(out == apply_chunks(s1, rest));
        assert forall|i: int|
            0 <= i < s.len() && !(exists|k: int|
                0 <= k < cs.len() && chunk_covers(#[trigger] cs[k], i)) implies out[i] == s[i] by {
            assert(!chunk_covers(cs[0], i));
            assert(!(exists|k: int| 0 <= k < rest.len() && chunk_covers(#[trigger] rest[k], i)))
                by {
                if exists|k: int| 0 <= k < rest.len() && chunk_covers(#[trigger] rest[k], i) {
                    let k = choose|k: int|
                        0 <= k < rest.len() && chunk_covers(#[trigger] rest[k], i);
                    assert(rest[k] == cs[k + 1]);
                    assert(chunk_covers(cs[k + 1], i));
                }
            }
            assert(s1[i] == s[i]);
        }
        assert forall|k: int, i: int|
            0 <= k < cs.len() && #[trigger] chunk_covers(cs[k], i) implies out[i] == cs[k].1[i
            - cs[k].0] by {
            if k == 0 {
                assert(0 <= i < s.len());
                assert(!(exists|m: int|
                    0 <= m < rest.len() && chunk_covers(#[trigger] rest[m], i))) by {
                    if exists|m: int| 0 <= m < rest.len() && chunk_covers(#[trigger] rest[m], i) {
                        let m = choose|m: int|
                            0 <= m < rest.len() && chunk_covers(#[trigger] rest[m], i);
                        assert(rest[m] == cs[m + 1]);
                        assert(chunks_disjoint(cs[0], cs[m + 1]));
                    }
                }
                assert(out[i] == s1[i]);
                assert(s1[i] == c.1[i - c.0]);
            } else {
                assert(rest[k - 1] == cs[k]);
                assert(chunk_covers(rest[k - 1], i));
            }
        }
    }
}

/// Writing one set of disjoint chunks lands the same final contents in any
/// order: two write sequences that hold the same chunks, each pairwise
/// disjoint and in bounds, leave the store byte-identical.
pub proof fn lemma_apply_chunks_order_independent(
    s: Seq<u8>,
    cs1: Seq<ChunkWrite>,
    cs2: Seq<ChunkWrite>,
)
    requires
        chunks_in_bounds(cs1, s.len() as int),
        chunks_pairwise_disjoint(cs1),
        chunks_in_bounds(cs2, s.len() as int),
        chunks_pairwise_disjoint(cs2),
        cs1.to_multiset() == cs2.to_multiset(),
    ensures
        apply_chunks(s, cs1) == apply_chunks(s, cs2),
{
    broadcast use group_to_multiset_ensures;

    lemma_apply_chunks_pointwise(s, cs1);
    lemma_apply_chunks_pointwise(s, cs2);
    let r1 = apply_chunks(s, cs1);
    let r2 = apply_chunks(s, cs2);
    assert forall|i: int| 0 <= i < s.len() implies r1[i] == r2[i] by {
        if exists|k: int| 0 <= k < cs1.len() && chunk_covers(#[trigger] cs1[k], i) {
            let k = choose|k: int| 0 <= k < cs1.len() && chunk_covers(#[trigger] cs1[k], i);
            let c = cs1[k];
            assert(cs1.contains(c));
            assert(cs2.to_multiset().count(c) > 0);
            assert(cs2.contains(c));
            let m = choose|m: int| 0 <= m < cs2.len() && cs2[m] == c;
            assert(chunk_covers(cs2[m], i));
            assert(r1[i] == c.1[i - c.0]);
            assert(r2[i] == c.1[i - c.0]);
        } else {
            assert(r1[i] == s[i]);
            assert(!(exists|m: int| 0 <= m < cs2.len() && chunk_covers(#[trigger] cs2[m], i)))
                by {
                if exists|m: int| 0 <= m < cs2.len() && chunk_covers(#[trigger] cs2[m], i) {
                    let m = choose|m: int|
                        0 <= m < cs2.len() && chunk_covers(#[trigger] cs2[m], i);
                    let c = cs2[m];
                    assert(cs2.contains(c));
                    assert(cs1.to_multiset().count(c) > 0);
                    assert(cs1.contains(c));
                    let k = choose|k: int| 0 <= k < cs1.len() && cs1[k] == c;
                    assert(chunk_covers(cs1[k], i));
                }
            }
            assert(r2[i] == s[i]);
        }
    }
    assert(r1 =~= r2);
}

} // verus!
