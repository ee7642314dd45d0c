//! What a pass of a parallel engine comes to as a whole: where every chunk
//! of the pass comes back, once each and in whatever order, the population
//! is what the sequential engine would have made of it.

use crate::catalog::Catalog;
use crate::dispatch::chunk_within;
use crate::dispatch::is_chunked_crossover_work;
use crate::dispatch::is_chunked_work;
use crate::individual::Individual;
use crate::knapsack_ga::best_index;
use crate::knapsack_ga::is_descendant;
use crate::knapsack_ga::is_mutation_outcome;
use crate::knapsack_ga::is_next_generation;
use crate::knapsack_ga::is_offspring;
use crate::knapsack_ga::measured;
use crate::messages::ProcessCrossoverIndividuals;
use crate::messages::ProcessIndividuals;
use crate::messages::ProcessedCrossoverIndividuals;
use crate::messages::ProcessedIndividuals;
use crate::partition::chunk_count;
use crate::partition::chunk_end;
use crate::partition::chunk_start;
use crate::partition::is_partition;
use crate::partition::lemma_chunk_within;
use crate::partition::lemma_chunks_cover;
use crate::partition::lemma_chunks_disjoint;
use crate::partition::WorkChunk;
use crate::reassembly::are_inverse_orders;
use crate::reassembly::covers;
use crate::reassembly::fits;
use crate::reassembly::lemma_patched_len;
use crate::reassembly::lemma_patched_untouched;
use crate::reassembly::lemma_patched_written;
use crate::reassembly::offspring_patches_of;
use crate::reassembly::patched;
use crate::reassembly::patches_of;
use crate::reassembly::Patch;
use crate::worker::is_bred_reply;
use crate::worker::is_bred_unit;
use crate::worker::is_measured_reply;
use crate::worker::is_measured_unit;
use crate::worker::is_mutated_reply;
use crate::worker::is_mutated_unit;
use crate::worker::units_within;
use vstd::prelude::*;

verus! {

/// The order in which result `k` answers chunk `k`.
pub open spec fn in_order(n: int) -> Seq<int> {
    Seq::new(n as nat, |k: int| k)
}

/// Results that come back in the order of the work are in an order.
pub proof fn lemma_in_order(n: int)
    requires
        0 <= n,
    ensures
        are_inverse_orders(in_order(n), in_order(n), n),
{
}

/// The chunks of a partition lie within the range that was cut.
pub proof fn lemma_partition_within(
    chunks: Seq<WorkChunk>,
    size: int,
    start_idx: int,
    chunk_size: int,
)
    requires
        chunk_size >= 1,
        0 <= start_idx,
        is_partition(chunks, size, start_idx, chunk_size),
    ensures
        units_within(chunks, size),
{
    assert forall|k: int| 0 <= k < chunks.len() implies chunk_within(#[trigger] chunks[k], size) by {
        lemma_chunk_within(size, start_idx, chunk_size, k);
    }
}

/// There is one patch for each chunk of `[start_idx, size)`: patch `k`
/// starts where chunk `order[k]` starts, and is as long.
pub open spec fn patches_tile<T>(
    patches: Seq<Patch<T>>,
    size: int,
    start_idx: int,
    chunk_size: int,
    order: Seq<int>,
) -> bool {
    &&& patches.len() == chunk_count(size, start_idx, chunk_size)
    &&& forall|k: int|
        0 <= k < patches.len() ==> (#[trigger] patches[k]).0 == chunk_start(
            start_idx,
            chunk_size,
            order[k],
        ) && patches[k].1.len() == chunk_end(size, start_idx, chunk_size, order[k]) - chunk_start(
            start_idx,
            chunk_size,
            order[k],
        )
}

/// Where the patches tile `[start_idx, dest.len())`, every index of that
/// range holds, after patching, the item of the one patch that answers its
/// chunk, in whatever order the patches come.
pub proof fn lemma_patched_tiles<T>(
    dest: Seq<T>,
    lo: int,
    patches: Seq<Patch<T>>,
    start_idx: int,
    chunk_size: int,
    order: Seq<int>,
    place: Seq<int>,
    i: int,
)
    requires
        0 <= lo <= start_idx,
        chunk_size >= 1,
        are_inverse_orders(order, place, patches.len() as int),
        patches_tile(patches, dest.len() as int, start_idx, chunk_size, order),
        start_idx <= i < dest.len(),
    ensures
        0 <= (i - start_idx) / chunk_size < patches.len(),
        0 <= place[(i - start_idx) / chunk_size] < patches.len(),
        order[place[(i - start_idx) / chunk_size]] == (i - start_idx) / chunk_size,
        covers(patches[place[(i - start_idx) / chunk_size]], i),
        patched(dest, lo, patches)[i] == patches[place[(i - start_idx) / chunk_size]].1[i
            - chunk_start(start_idx, chunk_size, (i - start_idx) / chunk_size)],
{
    let size = dest.len() as int;
    let c = (i - start_idx) / chunk_size;
    lemma_chunks_cover(size, start_idx, chunk_size, i);
    let k = place[c];
    assert(order[k] == c);
    lemma_chunk_within(size, start_idx, chunk_size, c);
    assert(patches[k].0 == chunk_start(start_idx, chunk_size, c));
    assert(fits(size, lo, patches[k]));
    assert(covers(patches[k], i));
    assert forall|j: int| 0 <= j < patches.len() && j != k implies !(fits(
        size,
        lo,
        #[trigger] patches[j],
    ) && covers(patches[j], i)) by {
        let d = order[j];
        assert(place[d] == j);
        assert(d != c);
        if d < c {
            lemma_chunks_disjoint(size, start_idx, chunk_size, d, c);
        } else {
            lemma_chunks_disjoint(size, start_idx, chunk_size, c, d);
        }
    }
    lemma_patched_written(dest, lo, patches, k, i);
}

/// The fitness pass of the worker pool: where every message of the work is
/// answered once, the population after reassembly is the population with
/// every fitness measured.
pub proof fn lemma_fitness_pass<const N: usize>(
    population: Seq<Individual<N>>,
    catalog: Catalog<N>,
    chunk_size: int,
    work: Seq<ProcessIndividuals<N>>,
    replies: Seq<ProcessedIndividuals<N>>,
    order: Seq<int>,
    place: Seq<int>,
)
    requires
        chunk_size >= 1,
        is_chunked_work(work, population, 0, chunk_size),
        are_inverse_orders(order, place, work.len() as int),
        replies.len() == work.len(),
        forall|k: int|
            0 <= k < replies.len() ==> is_measured_reply(work[order[k]], catalog, #[trigger] replies[k]),
    ensures
        patched(population, 0, patches_of(replies, 0)) == measured(population, catalog),
{
    let patches = patches_of(replies, 0);
    let size = population.len() as int;
    let after = patched(population, 0, patches);
    lemma_patched_len(population, 0, patches);
    assert forall|k: int| 0 <= k < patches.len() implies (#[trigger] patches[k]).0 == chunk_start(
        0,
        chunk_size,
        order[k],
    ) && patches[k].1.len() == chunk_end(size, 0, chunk_size, order[k]) - chunk_start(
        0,
        chunk_size,
        order[k],
    ) by {
        assert(is_measured_reply(work[order[k]], catalog, replies[k]));
        lemma_chunk_within(size, 0, chunk_size, order[k]);
    }
    assert forall|i: int| 0 <= i < size implies after[i] == measured(population, catalog)[i] by {
        lemma_patched_tiles(population, 0, patches, 0, chunk_size, order, place, i);
        let c = i / chunk_size;
        let k = place[c];
        assert(is_measured_reply(work[order[k]], catalog, replies[k]));
        lemma_chunk_within(size, 0, chunk_size, c);
    }
    assert(after =~= measured(population, catalog));
}

/// The crossover pass of the worker pool: where every message of the work
/// is answered once, the next population after reassembly holds an
/// offspring of `parents` at every index past 0, and at index 0 what stood
/// there.
pub proof fn lemma_crossover_pass<const N: usize>(
    parents: Seq<Individual<N>>,
    next: Seq<Individual<N>>,
    chunk_size: int,
    work: Seq<ProcessCrossoverIndividuals<N>>,
    replies: Seq<ProcessedCrossoverIndividuals<N>>,
    order: Seq<int>,
    place: Seq<int>,
)
    requires
        chunk_size >= 1,
        next.len() >= 1,
        is_chunked_crossover_work(work, next, 1, chunk_size),
        are_inverse_orders(order, place, work.len() as int),
        replies.len() == work.len(),
        forall|k: int|
            0 <= k < replies.len() ==> is_bred_reply(parents, work[order[k]], #[trigger] replies[k]),
    ensures
        patched(next, 1, offspring_patches_of(replies)).len() == next.len(),
        patched(next, 1, offspring_patches_of(replies))[0] == next[0],
        forall|i: int|
            1 <= i < next.len() ==> is_offspring(
                parents,
                #[trigger] patched(next, 1, offspring_patches_of(replies))[i],
            ),
{
    let patches = offspring_patches_of(replies);
    let size = next.len() as int;
    let after = patched(next, 1, patches);
    lemma_patched_len(next, 1, patches);
    lemma_patched_untouched(next, 1, patches, 0);
    assert forall|k: int| 0 <= k < patches.len() implies (#[trigger] patches[k]).0 == chunk_start(
        1,
        chunk_size,
        order[k],
    ) && patches[k].1.len() == chunk_end(size, 1, chunk_size, order[k]) - chunk_start(
        1,
        chunk_size,
        order[k],
    ) by {
        assert(is_bred_reply(parents, work[order[k]], replies[k]));
        lemma_chunk_within(size, 1, chunk_size, order[k]);
    }
    assert forall|i: int| 1 <= i < size implies is_offspring(parents, #[trigger] after[i]) by {
        lemma_patched_tiles(next, 1, patches, 1, chunk_size, order, place, i);
        let c = (i - 1) / chunk_size;
        let k = place[c];
        assert(is_bred_reply(parents, work[order[k]], replies[k]));
        let j = i - chunk_start(1, chunk_size, c);
        assert(is_offspring(parents, replies[k].population@[j]));
    }
}

/// The mutation pass of the worker pool: where every message of the work
/// is answered once, every individual past index 0 of the next population
/// is, after reassembly, what the mutation step can leave of it, and index
/// 0 holds what stood there.
pub proof fn lemma_mutation_pass<const N: usize>(
    next: Seq<Individual<N>>,
    chunk_size: int,
    work: Seq<ProcessIndividuals<N>>,
    replies: Seq<ProcessedIndividuals<N>>,
    order: Seq<int>,
    place: Seq<int>,
)
    requires
        chunk_size >= 1,
        next.len() >= 1,
        is_chunked_work(work, next.subrange(1, next.len() as int), 0, chunk_size),
        are_inverse_orders(order, place, work.len() as int),
        replies.len() == work.len(),
        forall|k: int|
            0 <= k < replies.len() ==> is_mutated_reply(work[order[k]], #[trigger] replies[k]),
    ensures
        patched(next, 1, patches_of(replies, 1)).len() == next.len(),
        patched(next, 1, patches_of(replies, 1))[0] == next[0],
        forall|i: int|
            1 <= i < next.len() ==> is_mutation_outcome(
                next[i],
                #[trigger] patched(next, 1, patches_of(replies, 1))[i],
            ),
{
    let patches = patches_of(replies, 1);
    let size = next.len() as int;
    let tail = next.subrange(1, size);
    let after = patched(next, 1, patches);
    lemma_patched_len(next, 1, patches);
    lemma_patched_untouched(next, 1, patches, 0);
    assert(chunk_count(size - 1, 0, chunk_size) == chunk_count(size, 1, chunk_size));
    assert forall|k: int| 0 <= k < patches.len() implies (#[trigger] patches[k]).0 == chunk_start(
        1,
        chunk_size,
        order[k],
    ) && patches[k].1.len() == chunk_end(size, 1, chunk_size, order[k]) - chunk_start(
        1,
        chunk_size,
        order[k],
    ) by {
        assert(is_mutated_reply(work[order[k]], replies[k]));
        lemma_chunk_within(size - 1, 0, chunk_size, order[k]);
    }
    assert forall|i: int| 1 <= i < size implies is_mutation_outcome(
        next[i],
        #[trigger] after[i],
    ) by {
        lemma_patched_tiles(next, 1, patches, 1, chunk_size, order, place, i);
        let c = (i - 1) / chunk_size;
        let k = place[c];
        assert(is_mutated_reply(work[order[k]], replies[k]));
        lemma_chunk_within(size - 1, 0, chunk_size, c);
        let j = i - chunk_start(1, chunk_size, c);
        assert(is_mutation_outcome(work[c].population@[j], replies[k].population@[j]));
        assert(work[c].population@[j] == tail[chunk_start(0, chunk_size, c) + j]);
    }
}

/// The fitness pass of the task scheduler: where every unit comes back
/// once, the population after reassembly is the population with every
/// fitness measured.
pub proof fn lemma_fitness_units<const N: usize>(
    population: Seq<Individual<N>>,
    catalog: Catalog<N>,
    chunk_size: int,
    units: Seq<WorkChunk>,
    replies: Seq<ProcessedIndividuals<N>>,
    order: Seq<int>,
    place: Seq<int>,
)
    requires
        chunk_size >= 1,
        is_partition(units, population.len() as int, 0, chunk_size),
        are_inverse_orders(order, place, units.len() as int),
        replies.len() == units.len(),
        forall|k: int|
            0 <= k < replies.len() ==> is_measured_unit(
                population,
                units[order[k]],
                catalog,
                #[trigger] replies[k],
            ),
    ensures
        patched(population, 0, patches_of(replies, 0)) == measured(population, catalog),
{
    let patches = patches_of(replies, 0);
    let size = population.len() as int;
    let after = patched(population, 0, patches);
    lemma_patched_len(population, 0, patches);
    assert forall|k: int| 0 <= k < patches.len() implies (#[trigger] patches[k]).0 == chunk_start(
        0,
        chunk_size,
        order[k],
    ) && patches[k].1.len() == chunk_end(size, 0, chunk_size, order[k]) - chunk_start(
        0,
        chunk_size,
        order[k],
    ) by {
        assert(is_measured_unit(population, units[order[k]], catalog, replies[k]));
        lemma_chunk_within(size, 0, chunk_size, order[k]);
    }
    assert forall|i: int| 0 <= i < size implies after[i] == measured(population, catalog)[i] by {
        lemma_patched_tiles(population, 0, patches, 0, chunk_size, order, place, i);
        let c = i / chunk_size;
        let k = place[c];
        assert(is_measured_unit(population, units[order[k]], catalog, replies[k]));
        lemma_chunk_within(size, 0, chunk_size, c);
    }
    assert(after =~= measured(population, catalog));
}

/// The crossover pass of the task scheduler: where every unit comes back
/// once, the next population after reassembly holds an offspring of
/// `parents` at every index past 0, and at index 0 what stood there.
pub proof fn lemma_crossover_units<const N: usize>(
    parents: Seq<Individual<N>>,
    next: Seq<Individual<N>>,
    chunk_size: int,
    units: Seq<WorkChunk>,
    replies: Seq<ProcessedIndividuals<N>>,
    order: Seq<int>,
    place: Seq<int>,
)
    requires
        chunk_size >= 1,
        next.len() >= 1,
        is_partition(units, next.len() as int, 1, chunk_size),
        are_inverse_orders(order, place, units.len() as int),
        replies.len() == units.len(),
        forall|k: int|
            0 <= k < replies.len() ==> is_bred_unit(parents, units[order[k]], #[trigger] replies[k]),
    ensures
        patched(next, 1, patches_of(replies, 0)).len() == next.len(),
        patched(next, 1, patches_of(replies, 0))[0] == next[0],
        forall|i: int|
            1 <= i < next.len() ==> is_offspring(
                parents,
                #[trigger] patched(next, 1, patches_of(replies, 0))[i],
            ),
{
    let patches = patches_of(replies, 0);
    let size = next.len() as int;
    let after = patched(next, 1, patches);
    lemma_patched_len(next, 1, patches);
    lemma_patched_untouched(next, 1, patches, 0);
    assert forall|k: int| 0 <= k < patches.len() implies (#[trigger] patches[k]).0 == chunk_start(
        1,
        chunk_size,
        order[k],
    ) && patches[k].1.len() == chunk_end(size, 1, chunk_size, order[k]) - chunk_start(
        1,
        chunk_size,
        order[k],
    ) by {
        assert(is_bred_unit(parents, units[order[k]], replies[k]));
    }
    assert forall|i: int| 1 <= i < size implies is_offspring(parents, #[trigger] after[i]) by {
        lemma_patched_tiles(next, 1, patches, 1, chunk_size, order, place, i);
        let c = (i - 1) / chunk_size;
        let k = place[c];
        assert(is_bred_unit(parents, units[order[k]], replies[k]));
        let j = i - chunk_start(1, chunk_size, c);
        assert(is_offspring(parents, replies[k].population@[j]));
    }
}

/// The mutation pass of the task scheduler: where every unit comes back
/// once, every individual past index 0 of the next population is, after
/// reassembly, what the mutation step can leave of it, and index 0 holds
/// what stood there.
pub proof fn lemma_mutation_units<const N: usize>(
    next: Seq<Individual<N>>,
    chunk_size: int,
    units: Seq<WorkChunk>,
    replies: Seq<ProcessedIndividuals<N>>,
    order: Seq<int>,
    place: Seq<int>,
)
    requires
        chunk_size >= 1,
        next.len() >= 1,
        is_partition(units, next.len() as int, 1, chunk_size),
        are_inverse_orders(order, place, units.len() as int),
        replies.len() == units.len(),
        forall|k: int|
            0 <= k < replies.len() ==> is_mutated_unit(next, units[order[k]], #[trigger] replies[k]),
    ensures
        patched(next, 1, patches_of(replies, 0)).len() == next.len(),
        patched(next, 1, patches_of(replies, 0))[0] == next[0],
        forall|i: int|
            1 <= i < next.len() ==> is_mutation_outcome(
                next[i],
                #[trigger] patched(next, 1, patches_of(replies, 0))[i],
            ),
{
    let patches = patches_of(replies, 0);
    let size = next.len() as int;
    let after = patched(next, 1, patches);
    lemma_patched_len(next, 1, patches);
    lemma_patched_untouched(next, 1, patches, 0);
    assert forall|k: int| 0 <= k < patches.len() implies (#[trigger] patches[k]).0 == chunk_start(
        1,
        chunk_size,
        order[k],
    ) && patches[k].1.len() == chunk_end(size, 1, chunk_size, order[k]) - chunk_start(
        1,
        chunk_size,
        order[k],
    ) by {
        assert(is_mutated_unit(next, units[order[k]], replies[k]));
        lemma_chunk_within(size, 1, chunk_size, order[k]);
    }
    assert forall|i: int| 1 <= i < size implies is_mutation_outcome(
        next[i],
        #[trigger] after[i],
    ) by {
        lemma_patched_tiles(next, 1, patches, 1, chunk_size, order, place, i);
        let c = (i - 1) / chunk_size;
        let k = place[c];
        assert(is_mutated_unit(next, units[order[k]], replies[k]));
        lemma_chunk_within(size, 1, chunk_size, c);
        let j = i - chunk_start(1, chunk_size, c);
        let slice = next.subrange(units[c].start as int, units[c].end as int);
        assert(is_mutation_outcome(slice[j], replies[k].population@[j]));
    }
}

/// The three passes make a generation: measure, carry the elite over and
/// breed, mutate. Whatever engine ran the passes, what comes out is a
/// generation later than what went in.
pub proof fn lemma_passes_make_generation<const N: usize>(
    before: Seq<Individual<N>>,
    catalog: Catalog<N>,
    seeded: Seq<Individual<N>>,
    bred: Seq<Individual<N>>,
    mutated: Seq<Individual<N>>,
)
    requires
        before.len() >= 1,
        seeded.len() == before.len(),
        seeded[0] == measured(before, catalog)[best_index(measured(before, catalog))],
        bred.len() == seeded.len(),
        bred[0] == seeded[0],
        forall|i: int|
            1 <= i < bred.len() ==> is_offspring(measured(before, catalog), #[trigger] bred[i]),
        mutated.len() == bred.len(),
        mutated[0] == bred[0],
        forall|i: int|
            1 <= i < mutated.len() ==> is_mutation_outcome(bred[i], #[trigger] mutated[i]),
    ensures
        is_next_generation(before, catalog, mutated),
{
    assert forall|i: int| 1 <= i < mutated.len() implies is_descendant(
        measured(before, catalog),
        #[trigger] mutated[i],
    ) by {
        assert(is_offspring(measured(before, catalog), bred[i]));
        assert(is_mutation_outcome(bred[i], mutated[i]));
    }
}

} // verus!
