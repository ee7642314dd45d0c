//! The work partitioner: an index range cut into contiguous chunks of one
//! size, the last one clipped.

use vstd::prelude::*;

verus! {

/// The half-open index range `[start, end)`.
#[derive(Clone, Copy, Debug, PartialEq, Eq)]
pub struct WorkChunk {
    pub start: usize,
    pub end: usize,
}

/// How many chunks of `chunk_size` the range `[start_idx, size)` is cut into.
pub open spec fn chunk_count(size: int, start_idx: int, chunk_size: int) -> int {
    if start_idx >= size {
        0
    } else {
        (size - start_idx + chunk_size - 1) / chunk_size
    }
}

/// Where chunk `k` starts.
pub open spec fn chunk_start(start_idx: int, chunk_size: int, k: int) -> int {
    start_idx + k * chunk_size
}

/// Where chunk `k` ends: a full chunk past its start, or at `size` where
/// that comes first.
pub open spec fn chunk_end(size: int, start_idx: int, chunk_size: int, k: int) -> int {
    if chunk_start(start_idx, chunk_size, k) + chunk_size < size {
        chunk_start(start_idx, chunk_size, k) + chunk_size
    } else {
        size
    }
}

/// `chunks` is the partition of `[start_idx, size)` into chunks of
/// `chunk_size`, in ascending order.
pub open spec fn is_partition(
    chunks: Seq<WorkChunk>,
    size: int,
    start_idx: int,
    chunk_size: int,
) -> bool {
    &&& chunks.len() == chunk_count(size, start_idx, chunk_size)
    &&& forall|k: int|
        0 <= k < chunks.len() ==> (#[trigger] chunks[k]).start == chunk_start(
            start_idx,
            chunk_size,
            k,
        ) && chunks[k].end == chunk_end(size, start_idx, chunk_size, k)
}

/// The count is the one number of chunks that reaches `size` and not
/// further than needed.
pub proof fn lemma_chunk_count(size: int, start_idx: int, chunk_size: int, k: int)
    requires
        chunk_size >= 1,
        k >= 0,
        start_idx + k * chunk_size >= size,
        k > 0 ==> start_idx + (k - 1) * chunk_size < size,
    ensures
        chunk_count(size, start_idx, chunk_size) == k,
{
    if start_idx < size {
        let d = size - start_idx;
        assert(k == (d + chunk_size - 1) / chunk_size) by (nonlinear_arith)
            requires
                chunk_size >= 1,
                k > 0,
                k * chunk_size >= d,
                (k - 1) * chunk_size < d,
        ;
    } else {
        assert(k == 0) by (nonlinear_arith)
            requires
                chunk_size >= 1,
                k >= 0,
                start_idx >= size,
                k > 0 ==> start_idx + (k - 1) * chunk_size < size,
        ;
    }
}

/// Every chunk lies in `[start_idx, size)`, holds at least one index and at
/// most `chunk_size` of them.
pub proof fn lemma_chunk_within(size: int, start_idx: int, chunk_size: int, k: int)
    requires
        chunk_size >= 1,
        0 <= start_idx,
        0 <= k < chunk_count(size, start_idx, chunk_size),
    ensures
        start_idx <= chunk_start(start_idx, chunk_size, k) < chunk_end(
            size,
            start_idx,
            chunk_size,
            k,
        ) <= size,
        chunk_end(size, start_idx, chunk_size, k) - chunk_start(start_idx, chunk_size, k)
            <= chunk_size,
{
    let d = size - start_idx;
    assert(k * chunk_size < d && k * chunk_size >= 0) by (nonlinear_arith)
        requires
            chunk_size >= 1,
            d > 0,
            0 <= k < (d + chunk_size - 1) / chunk_size,
    ;
}

/// Chunks are pairwise disjoint: an earlier chunk ends where a later one
/// starts, or before.
pub proof fn lemma_chunks_disjoint(size: int, start_idx: int, chunk_size: int, j: int, k: int)
    requires
        chunk_size >= 1,
        0 <= j < k,
    ensures
        chunk_end(size, start_idx, chunk_size, j) <= chunk_start(start_idx, chunk_size, k),
{
    assert((j + 1) * chunk_size <= k * chunk_size) by (nonlinear_arith)
        requires
            chunk_size >= 1,
            j + 1 <= k,
    ;
    assert((j + 1) * chunk_size == j * chunk_size + chunk_size) by (nonlinear_arith);
}

/// The chunks cover the range: every index of `[start_idx, size)` lies in
/// one of them.
pub proof fn lemma_chunks_cover(size: int, start_idx: int, chunk_size: int, i: int)
    requires
        chunk_size >= 1,
        start_idx <= i < size,
    ensures
        0 <= (i - start_idx) / chunk_size < chunk_count(size, start_idx, chunk_size),
        chunk_start(start_idx, chunk_size, (i - start_idx) / chunk_size) <= i < chunk_end(
            size,
            start_idx,
            chunk_size,
            (i - start_idx) / chunk_size,
        ),
{
    let d = size - start_idx;
    let x = i - start_idx;
    let k = x / chunk_size;
    assert(0 <= k && k * chunk_size <= x < k * chunk_size + chunk_size && k < (d + chunk_size - 1)
        / chunk_size) by (nonlinear_arith)
        requires
            chunk_size >= 1,
            0 <= x < d,
            k == x / chunk_size,
    ;
}

/// Index `i` lies in one of the chunks.
pub open spec fn in_some_chunk(chunks: Seq<WorkChunk>, i: int) -> bool {
    exists|k: int| 0 <= k < chunks.len() && (#[trigger] chunks[k]).start <= i < chunks[k].end
}

/// The chunks of a partition are pairwise disjoint, and an index lies in
/// one of them exactly where it lies in `[start_idx, size)`.
pub proof fn lemma_partition_disjoint_and_complete(
    chunks: Seq<WorkChunk>,
    size: int,
    start_idx: int,
    chunk_size: int,
)
    requires
        chunk_size >= 1,
        0 <= start_idx,
        is_partition(chunks, size, start_idx, chunk_size),
    ensures
        forall|j: int, k: int|
            0 <= j < k < chunks.len() ==> (#[trigger] chunks[j]).end <= (#[trigger] chunks[k]).start,
        forall|i: int| start_idx <= i < size <==> #[trigger] in_some_chunk(chunks, i),
{
    assert forall|j: int, k: int| 0 <= j < k < chunks.len() implies (#[trigger] chunks[j]).end <= (
    #[trigger] chunks[k]).start by {
        lemma_chunks_disjoint(size, start_idx, chunk_size, j, k);
    }
    assert forall|i: int| start_idx <= i < size implies #[trigger] in_some_chunk(chunks, i) by {
        lemma_chunks_cover(size, start_idx, chunk_size, i);
        let k = (i - start_idx) / chunk_size;
        assert(chunks[k].start <= i < chunks[k].end);
    }
    assert forall|i: int| #[trigger] in_some_chunk(chunks, i) implies start_idx <= i < size by {
        let k = choose|k: int|
            0 <= k < chunks.len() && (#[trigger] chunks[k]).start <= i < chunks[k].end;
        lemma_chunk_within(size, start_idx, chunk_size, k);
    }
}

/// Cuts `[start_idx, size)` into chunks of `chunk_size` indices, in
/// ascending order; the last chunk ends at `size`. An empty range gives no
/// chunk.
pub fn partition(size: usize, start_idx: usize, chunk_size: usize) -> (chunks: Vec<WorkChunk>)
    requires
        chunk_size >= 1,
    ensures
        is_partition(chunks@, size as int, start_idx as int, chunk_size as int),
{
    let mut chunks: Vec<WorkChunk> = Vec::new();
    let mut start: usize = start_idx;
    let ghost mut k: int = 0;
    while start < size
        invariant
            chunk_size >= 1,
            k == chunks@.len(),
            start_idx <= start,
            start < size ==> start == chunk_start(start_idx as int, chunk_size as int, k),
            start >= size ==> start_idx + k * chunk_size >= size,
            k > 0 ==> start_idx + (k - 1) * chunk_size < size,
            forall|j: int|
                0 <= j < k ==> (#[trigger] chunks@[j]).start == chunk_start(
                    start_idx as int,
                    chunk_size as int,
                    j,
                ) && chunks@[j].end == chunk_end(
                    size as int,
                    start_idx as int,
                    chunk_size as int,
                    j,
                ),
        decreases size - start,
    {
        let end: usize = if chunk_size < size - start {
            start + chunk_size
        } else {
            size
        };
        chunks.push(WorkChunk { start, end });
        proof {
            assert((k + 1) * chunk_size == k * chunk_size + chunk_size) by (nonlinear_arith);
            assert((k + 1 - 1) * chunk_size == k * chunk_size) by (nonlinear_arith);
            k = k + 1;
        }
        start = end;
    }
    proof {
        lemma_chunk_count(size as int, start_idx as int, chunk_size as int, k);
    }
    chunks
}

} // verus!
