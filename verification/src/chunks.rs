//! Chunk planning for the remote path: the ordered test cases are cut into
//! contiguous chunks, one remote job per chunk.

use vstd::prelude::*;

verus! {

/// A contiguous sub-range of the ordered test-case sequence, with inclusive
/// bounds, assigned to one remote batch job.
#[derive(Debug, Clone, Copy, PartialEq, Eq, Structural)]
pub struct Chunk {
    pub start: usize,
    pub end: usize,
}

/// The number of test cases a chunk carries.
pub open spec fn chunk_len(c: Chunk) -> int {
    c.end - c.start + 1
}

pub open spec fn min_int(a: int, b: int) -> int {
    if a < b {
        a
    } else {
        b
    }
}

/// The common chunk size: the total split over `min(parallel, total)`
/// chunks, rounded up.
pub open spec fn chunk_size(total: int, parallel: int) -> int {
    (total + min_int(parallel, total) - 1) / min_int(parallel, total)
}

/// The shape of a chunk plan over `total` cases with common size `size`:
/// chunks sit back to back from index `0` through `total - 1`, every chunk
/// but the last carries exactly `size` cases, and none carries more.
pub open spec fn chunks_consecutive(cs: Seq<Chunk>, total: int, size: int) -> bool {
    &&& cs.len() > 0
    &&& cs[0].start == 0
    &&& cs[cs.len() - 1].end == total - 1
    &&& forall|i: int| 0 <= i < cs.len() ==> (#[trigger] cs[i]).start <= cs[i].end < total
    &&& forall|i: int| 0 <= i < cs.len() - 1 ==> (#[trigger] cs[i]).end + 1 == cs[i + 1].start
    &&& forall|i: int| 0 <= i < cs.len() - 1 ==> chunk_len(#[trigger] cs[i]) == size
    &&& forall|i: int| 0 <= i < cs.len() ==> chunk_len(#[trigger] cs[i]) <= size
}

/// A plan that covers `[0, total)`: nothing when there is nothing to run,
/// otherwise consecutive chunks of the common size.
pub open spec fn chunks_partition(cs: Seq<Chunk>, total: int, parallel: int) -> bool {
    if total == 0 {
        cs.len() == 0
    } else {
        chunks_consecutive(cs, total, chunk_size(total, parallel))
    }
}

/// Chunks earlier in a consecutive plan end before later ones start.
pub proof fn lemma_chunks_ordered(cs: Seq<Chunk>, total: int, size: int, i: int, j: int)
    requires
        chunks_consecutive(cs, total, size),
        0 <= i < j < cs.len(),
    ensures
        cs[i].end < cs[j].start,
    decreases j - i,
{
    if j == i + 1 {
    } else {
        lemma_chunks_ordered(cs, total, size, i, j - 1);
    }
}

proof fn lemma_chunks_cover_from(cs: Seq<Chunk>, total: int, size: int, i: int, k: int)
    requires
        chunks_consecutive(cs, total, size),
        0 <= i < cs.len(),
        cs[i].start <= k <= total - 1,
    ensures
        exists|m: int| i <= m < cs.len() && (#[trigger] cs[m]).start <= k <= cs[m].end,
    decreases cs.len() - i,
{
    if k <= cs[i].end {
        assert(cs[i].start <= k <= cs[i].end);
    } else {
        assert(i + 1 < cs.len());
        lemma_chunks_cover_from(cs, total, size, i + 1, k);
    }
}

/// Whether some chunk of the plan carries index `k`.
pub open spec fn chunk_covers(cs: Seq<Chunk>, k: int) -> bool {
    exists|m: int| 0 <= m < cs.len() && (#[trigger] cs[m]).start <= k <= cs[m].end
}

/// Law: the chunk plan covers every index in `[0, total)` exactly once — no
/// index is dropped and none is assigned to two chunks.
pub proof fn lemma_chunks_cover_exactly_once(cs: Seq<Chunk>, total: int, parallel: int)
    requires
        chunks_partition(cs, total, parallel),
    ensures
        forall|k: int| 0 <= k < total ==> #[trigger] chunk_covers(cs, k),
        forall|m1: int, m2: int|
            0 <= m1 < m2 < cs.len() ==> (#[trigger] cs[m1]).end < (#[trigger] cs[m2]).start,
{
    if total > 0 {
        let size = chunk_size(total, parallel);
        assert forall|k: int| 0 <= k < total implies #[trigger] chunk_covers(cs, k) by {
            lemma_chunks_cover_from(cs, total, size, 0, k);
        }
        assert forall|m1: int, m2: int| 0 <= m1 < m2 < cs.len() implies (
        #[trigger] cs[m1]).end < (#[trigger] cs[m2]).start by {
            lemma_chunks_ordered(cs, total, size, m1, m2);
        }
    }
}

/// Partitions `total` test cases into consecutive chunks: at most
/// `min(parallel, total)` of them, each of `ceil(total / min(parallel,
/// total))` cases except a possibly smaller final one.
pub fn plan_chunks(total: usize, parallel: usize) -> (r: Vec<Chunk>)
    requires
        parallel >= 1,
    ensures
        chunks_partition(r@, total as int, parallel as int),
{
    let mut chunks: Vec<Chunk> = Vec::new();
    if total == 0 {
        return chunks;
    }
    let count = if parallel < total {
        parallel
    } else {
        total
    };
    let size = (total - 1) / count + 1;
    proof {
        let t = total as int;
        let k = count as int;
        assert(size == chunk_size(total as int, parallel as int)) by {
            vstd::arithmetic::div_mod::lemma_mod_add_multiples_vanish(t - 1, k);
            vstd::arithmetic::div_mod::lemma_fundamental_div_mod(t - 1 + k, k);
            vstd::arithmetic::div_mod::lemma_fundamental_div_mod(t - 1, k);
            vstd::arithmetic::div_mod::lemma_mod_bound(t - 1, k);
            vstd::arithmetic::div_mod::lemma_mod_bound(t - 1 + k, k);
            assert((t - 1 + k) / k == (t - 1) / k + 1) by (nonlinear_arith)
                requires
                    k >= 1,
                    t >= 1,
                    t - 1 + k == k * ((t - 1 + k) / k) + (t - 1 + k) % k,
                    t - 1 == k * ((t - 1) / k) + (t - 1) % k,
                    (t - 1 + k) % k == (t - 1) % k,
                    0 <= (t - 1) % k < k,
            ;
        }
    }
    let mut start: usize = 0;
    while start < total
        invariant
            1 <= size,
            0 <= start <= total,
            start < total ==> (chunks@.len() == 0 ==> start == 0),
            chunks@.len() > 0 ==> chunks@[0].start == 0,
            chunks@.len() > 0 ==> chunks@[chunks@.len() - 1].end + 1 == start,
            forall|i: int|
                0 <= i < chunks@.len() ==> (#[trigger] chunks@[i]).start <= chunks@[i].end
                    < total,
            forall|i: int|
                0 <= i < chunks@.len() - 1 ==> (#[trigger] chunks@[i]).end + 1 == chunks@[i
                    + 1].start,
            forall|i: int|
                0 <= i < chunks@.len() - 1 ==> chunk_len(#[trigger] chunks@[i]) == size as int,
            forall|i: int|
                0 <= i < chunks@.len() ==> chunk_len(#[trigger] chunks@[i]) <= size as int,
            chunks@.len() > 0 && start < total ==> chunk_len(chunks@[chunks@.len() - 1])
                == size as int,
            start == total ==> chunks@.len() > 0,
        decreases total - start,
    {
        let end = if total - start > size {
            start + size - 1
        } else {
            total - 1
        };
        chunks.push(Chunk { start, end });
        start = end + 1;
    }
    chunks
}

proof fn lemma_chunk_starts(cs: Seq<Chunk>, total: int, size: int, i: int)
    requires
        chunks_consecutive(cs, total, size),
        0 <= i < cs.len(),
    ensures
        cs[i].start == i * size,
    decreases i,
{
    if i == 0 {
    } else {
        lemma_chunk_starts(cs, total, size, i - 1);
        assert(cs[i].start == cs[i - 1].start + size);
        assert((i - 1) * size + size == i * size) by (nonlinear_arith);
    }
}

/// Law: the plan makes `min(parallel, total)` chunks whenever that many
/// chunks of the common (rounded-up) size are all nonempty — that is, unless
/// rounding already exhausts the cases with fewer chunks.
pub proof fn lemma_chunk_count_is_min(cs: Seq<Chunk>, total: int, parallel: int)
    requires
        total > 0,
        parallel >= 1,
        chunks_partition(cs, total, parallel),
        (min_int(parallel, total) - 1) * chunk_size(total, parallel) < total,
    ensures
        cs.len() == min_int(parallel, total),
{
    let c = min_int(parallel, total);
    let size = chunk_size(total, parallel);
    let n = cs.len() as int;
    assert(size >= 1 && c >= 1) by {
        vstd::arithmetic::div_mod::lemma_fundamental_div_mod(total + c - 1, c);
        vstd::arithmetic::div_mod::lemma_mod_bound(total + c - 1, c);
        assert(size * c >= total) by (nonlinear_arith)
            requires
                c >= 1,
                total + c - 1 == c * size + (total + c - 1) % c,
                0 <= (total + c - 1) % c < c,
        ;
        assert(size >= 1) by (nonlinear_arith)
            requires
                size * c >= total,
                total >= 1,
                c >= 1,
                total >= c,
        ;
    }
    // the last chunk begins at (n - 1) * size and is nonempty, so the first
    // n - 1 chunks hold (n - 1) * size < total cases
    lemma_chunk_starts(cs, total, size, n - 1);
    assert((n - 1) * size < total);
    // all n chunks together reach total - 1, so n * size >= total
    assert(cs[n - 1].end - cs[n - 1].start + 1 <= size);
    assert(total - (n - 1) * size <= size);
    assert((n - 1) * size + size == n * size) by (nonlinear_arith);
    assert(total <= n * size);
    // c satisfies the same two bounds, and the bounds pin the value
    assert(size * c >= total) by {
        vstd::arithmetic::div_mod::lemma_fundamental_div_mod(total + c - 1, c);
        vstd::arithmetic::div_mod::lemma_mod_bound(total + c - 1, c);
        assert(size * c >= total) by (nonlinear_arith)
            requires
                c >= 1,
                total + c - 1 == c * size + (total + c - 1) % c,
                0 <= (total + c - 1) % c < c,
        ;
    }
    assert(n == c) by (nonlinear_arith)
        requires
            (n - 1) * size < total,
            total <= n * size,
            (c - 1) * size < total,
            total <= c * size,
            size >= 1,
    ;
}

} // verus!
