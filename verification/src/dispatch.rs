//! The producer's side of a phase: the population cut into chunks, each
//! packed into a message for a worker.

use crate::individual::Individual;
use crate::messages::ProcessCrossoverIndividuals;
use crate::messages::ProcessIndividuals;
use crate::partition::chunk_count;
use crate::partition::chunk_end;
use crate::partition::chunk_start;
use crate::partition::is_partition;
use crate::partition::lemma_chunk_within;
use crate::partition::partition;
use crate::partition::WorkChunk;
use vstd::prelude::*;

verus! {

/// The chunk lies within a population of `size` individuals.
pub open spec fn chunk_within(chunk: WorkChunk, size: int) -> bool {
    chunk.start <= chunk.end <= size
}

/// `work` is the range `[start_idx, population.len())` of `population` cut
/// into chunks of `chunk_size`: message `k` carries a copy of chunk `k` and
/// names the index at which that chunk starts.
pub open spec fn is_chunked_work<const N: usize>(
    work: Seq<ProcessIndividuals<N>>,
    population: Seq<Individual<N>>,
    start_idx: int,
    chunk_size: int,
) -> bool {
    &&& work.len() == chunk_count(population.len() as int, start_idx, chunk_size)
    &&& forall|k: int|
        0 <= k < work.len() ==> (#[trigger] work[k]).idx == chunk_start(start_idx, chunk_size, k)
            && work[k].population@ == population.subrange(
            chunk_start(start_idx, chunk_size, k),
            chunk_end(population.len() as int, start_idx, chunk_size, k),
        )
}

/// As `is_chunked_work`, for the messages of the crossover phase, which
/// also name the chunk size.
pub open spec fn is_chunked_crossover_work<const N: usize>(
    work: Seq<ProcessCrossoverIndividuals<N>>,
    population: Seq<Individual<N>>,
    start_idx: int,
    chunk_size: int,
) -> bool {
    &&& work.len() == chunk_count(population.len() as int, start_idx, chunk_size)
    &&& forall|k: int|
        0 <= k < work.len() ==> (#[trigger] work[k]).idx == chunk_start(start_idx, chunk_size, k)
            && work[k].chunk_size == chunk_size && work[k].population@ == population.subrange(
            chunk_start(start_idx, chunk_size, k),
            chunk_end(population.len() as int, start_idx, chunk_size, k),
        )
}

/// Copies the individuals of one chunk out of the population.
pub fn copy_range<const N: usize>(population: &[Individual<N>], chunk: WorkChunk) -> (copy: Vec<
    Individual<N>,
>)
    requires
        chunk_within(chunk, population@.len() as int),
    ensures
        copy@ == population@.subrange(chunk.start as int, chunk.end as int),
{
    let mut copy: Vec<Individual<N>> = Vec::new();
    for i in chunk.start..chunk.end
        invariant
            chunk_within(chunk, population@.len() as int),
            copy@ == population@.subrange(chunk.start as int, i as int),
    {
        copy.push(population[i]);
        assert(copy@ =~= population@.subrange(chunk.start as int, i + 1));
    }
    copy
}

/// Cuts `[start_idx, population.len())` into chunks of `chunk_size` and
/// packs a copy of each into a message, in ascending order.
pub fn chunk_requests<const N: usize>(
    population: &[Individual<N>],
    start_idx: usize,
    chunk_size: usize,
) -> (work: Vec<ProcessIndividuals<N>>)
    requires
        chunk_size >= 1,
    ensures
        is_chunked_work(work@, population@, start_idx as int, chunk_size as int),
{
    let chunks = partition(population.len(), start_idx, chunk_size);
    let mut work: Vec<ProcessIndividuals<N>> = Vec::new();
    for k in 0..chunks.len()
        invariant
            chunk_size >= 1,
            is_partition(
                chunks@,
                population@.len() as int,
                start_idx as int,
                chunk_size as int,
            ),
            work@.len() == k,
            forall|j: int|
                0 <= j < k ==> (#[trigger] work@[j]).idx == chunks@[j].start
                    && work@[j].population@ == population@.subrange(
                    chunks@[j].start as int,
                    chunks@[j].end as int,
                ),
    {
        let chunk = chunks[k];
        proof {
            lemma_chunk_within(
                population@.len() as int,
                start_idx as int,
                chunk_size as int,
                k as int,
            );
        }
        let copy = copy_range(population, chunk);
        work.push(ProcessIndividuals { idx: chunk.start, population: copy });
    }
    work
}

/// As `chunk_requests`, packing the messages of the crossover phase.
pub fn crossover_requests<const N: usize>(
    population: &[Individual<N>],
    start_idx: usize,
    chunk_size: usize,
) -> (work: Vec<ProcessCrossoverIndividuals<N>>)
    requires
        chunk_size >= 1,
    ensures
        is_chunked_crossover_work(work@, population@, start_idx as int, chunk_size as int),
{
    let chunks = partition(population.len(), start_idx, chunk_size);
    let mut work: Vec<ProcessCrossoverIndividuals<N>> = Vec::new();
    for k in 0..chunks.len()
        invariant
            chunk_size >= 1,
            is_partition(
                chunks@,
                population@.len() as int,
                start_idx as int,
                chunk_size as int,
            ),
            work@.len() == k,
            forall|j: int|
                0 <= j < k ==> (#[trigger] work@[j]).idx == chunks@[j].start
                    && work@[j].chunk_size == chunk_size && work@[j].population@
                    == population@.subrange(chunks@[j].start as int, chunks@[j].end as int),
    {
        let chunk = chunks[k];
        proof {
            lemma_chunk_within(
                population@.len() as int,
                start_idx as int,
                chunk_size as int,
                k as int,
            );
        }
        let copy = copy_range(population, chunk);
        work.push(ProcessCrossoverIndividuals { idx: chunk.start, chunk_size, population: copy });
    }
    work
}

} // verus!
