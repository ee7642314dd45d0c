//! The worker's side of a phase: what is done to one chunk. A worker of the
//! pool takes its chunk from a message; a unit of the task scheduler reads
//! its chunk out of the population it was shown. Both hand back a message
//! that names where the chunk belongs.

use crate::catalog::Catalog;
use crate::dispatch::chunk_within;
use crate::dispatch::copy_range;
use crate::individual::Individual;
use crate::knapsack_ga::bred_from;
use crate::knapsack_ga::is_mutation_outcome;
use crate::knapsack_ga::is_offspring;
use crate::knapsack_ga::is_tournament_pick;
use crate::knapsack_ga::measured;
use crate::knapsack_ga::measured_one;
use crate::knapsack_ga::tournament;
use crate::knapsack_ga::PROB_MUTATION_DENOMINATOR;
use crate::knapsack_ga::PROB_MUTATION_NUMERATOR;
use crate::individual::crossover_genes;
use crate::messages::ProcessCrossoverIndividuals;
use crate::messages::ProcessIndividuals;
use crate::messages::ProcessedCrossoverIndividuals;
use crate::messages::ProcessedIndividuals;
use crate::partition::WorkChunk;
use rand::rngs::StdRng;
use vstd::prelude::*;

verus! {

/// `done` is the chunk of `work`, measured.
pub open spec fn is_measured_reply<const N: usize>(
    work: ProcessIndividuals<N>,
    catalog: Catalog<N>,
    done: ProcessedIndividuals<N>,
) -> bool {
    &&& done.idx == work.idx
    &&& done.population@ == measured(work.population@, catalog)
}

/// Every individual of `after` is an offspring of `parents`.
pub open spec fn all_offspring<const N: usize>(
    parents: Seq<Individual<N>>,
    after: Seq<Individual<N>>,
) -> bool {
    forall|j: int| 0 <= j < after.len() ==> is_offspring(parents, #[trigger] after[j])
}

/// `after` is what the mutation step can leave of `before`, individual by
/// individual.
pub open spec fn all_mutation_outcomes<const N: usize>(
    before: Seq<Individual<N>>,
    after: Seq<Individual<N>>,
) -> bool {
    &&& after.len() == before.len()
    &&& forall|j: int| 0 <= j < after.len() ==> is_mutation_outcome(before[j], #[trigger] after[j])
}

/// `done` is the chunk of `work`, filled with offspring of `parents`.
pub open spec fn is_bred_reply<const N: usize>(
    parents: Seq<Individual<N>>,
    work: ProcessCrossoverIndividuals<N>,
    done: ProcessedCrossoverIndividuals<N>,
) -> bool {
    &&& done.idx == work.idx
    &&& done.chunk_size == work.chunk_size
    &&& done.population@.len() == work.population@.len()
    &&& all_offspring(parents, done.population@)
}

/// `done` is the chunk of `work` after the mutation step.
pub open spec fn is_mutated_reply<const N: usize>(
    work: ProcessIndividuals<N>,
    done: ProcessedIndividuals<N>,
) -> bool {
    &&& done.idx == work.idx
    &&& all_mutation_outcomes(work.population@, done.population@)
}

/// `done` is chunk `unit` of `population`, measured.
pub open spec fn is_measured_unit<const N: usize>(
    population: Seq<Individual<N>>,
    unit: WorkChunk,
    catalog: Catalog<N>,
    done: ProcessedIndividuals<N>,
) -> bool {
    &&& done.idx == unit.start
    &&& done.population@ == measured(
        population.subrange(unit.start as int, unit.end as int),
        catalog,
    )
}

/// `done` holds one offspring of `parents` for every index of `unit`.
pub open spec fn is_bred_unit<const N: usize>(
    parents: Seq<Individual<N>>,
    unit: WorkChunk,
    done: ProcessedIndividuals<N>,
) -> bool {
    &&& done.idx == unit.start
    &&& done.population@.len() == unit.end - unit.start
    &&& all_offspring(parents, done.population@)
}

/// `done` is chunk `unit` of `population` after the mutation step.
pub open spec fn is_mutated_unit<const N: usize>(
    population: Seq<Individual<N>>,
    unit: WorkChunk,
    done: ProcessedIndividuals<N>,
) -> bool {
    &&& done.idx == unit.start
    &&& all_mutation_outcomes(
        population.subrange(unit.start as int, unit.end as int),
        done.population@,
    )
}

/// Measures every individual of the chunk.
pub fn measure_chunk<const N: usize>(work: ProcessIndividuals<N>, catalog: &Catalog<N>) -> (done:
    ProcessedIndividuals<N>)
    requires
        catalog.wf(),
    ensures
        is_measured_reply(work, *catalog, done),
{
    let idx = work.idx;
    let mut population = work.population;
    let ghost before = population@;
    let count = population.len();
    for i in 0..count
        invariant
            catalog.wf(),
            count == before.len(),
            population@.len() == before.len(),
            forall|j: int| 0 <= j < i ==> population@[j] == measured_one(before[j], *catalog),
            forall|j: int| i <= j < before.len() ==> population@[j] == before[j],
    {
        population[i].measure_fitness(catalog);
    }
    assert(population@ =~= measured(before, *catalog));
    ProcessedIndividuals { idx, population }
}

/// One offspring: two parents, each the winner of a tournament over
/// `parents`, crossed at a cut point drawn from `[0, N)`.
pub fn breed<const N: usize>(parents: &[Individual<N>], r: &mut StdRng) -> (child: Individual<N>)
    requires
        N > 0,
        parents@.len() > 0,
    ensures
        is_offspring(parents@, child),
{
    let parent1 = tournament(r, parents);
    let parent2 = tournament(r, parents);
    let child = parent1.crossover_with(parent2, r);
    proof {
        let first = choose|entrants: Seq<usize>| #[trigger]
            is_tournament_pick(parents@, entrants, *parent1);
        let second = choose|entrants: Seq<usize>| #[trigger]
            is_tournament_pick(parents@, entrants, *parent2);
        let cut = choose|cut: int|
            0 <= cut < N && child.selected_items@ == #[trigger] crossover_genes(
                parent1.selected_items@,
                parent2.selected_items@,
                cut,
            );
        assert(bred_from(parents@, first, second, cut, child));
    }
    child
}

/// Fills every slot of the chunk with an offspring of `parents`.
pub fn breed_chunk<const N: usize>(
    parents: &[Individual<N>],
    work: ProcessCrossoverIndividuals<N>,
    r: &mut StdRng,
) -> (done: ProcessedCrossoverIndividuals<N>)
    requires
        N > 0,
        parents@.len() > 0,
    ensures
        is_bred_reply(parents@, work, done),
{
    let idx = work.idx;
    let chunk_size = work.chunk_size;
    let mut population = work.population;
    let count = population.len();
    for i in 0..count
        invariant
            N > 0,
            parents@.len() > 0,
            population@.len() == count,
            forall|j: int| 0 <= j < i ==> is_offspring(parents@, #[trigger] population@[j]),
    {
        population[i] = breed(parents, r);
    }
    ProcessedCrossoverIndividuals { idx, chunk_size, population }
}

/// Puts every individual of the chunk through the mutation step: with the
/// chance that the run parameters name, one of its bits is inverted.
pub fn mutate_chunk<const N: usize>(work: ProcessIndividuals<N>, r: &mut StdRng) -> (done:
    ProcessedIndividuals<N>)
    requires
        N > 0,
    ensures
        is_mutated_reply(work, done),
{
    let idx = work.idx;
    let mut population = work.population;
    let ghost before = population@;
    let count = population.len();
    for i in 0..count
        invariant
            N > 0,
            count == before.len(),
            population@.len() == before.len(),
            forall|j: int|
                0 <= j < i ==> is_mutation_outcome(before[j], #[trigger] population@[j]),
            forall|j: int| i <= j < before.len() ==> population@[j] == before[j],
    {
        population[i].mutate_by_chance(r, PROB_MUTATION_NUMERATOR, PROB_MUTATION_DENOMINATOR);
    }
    ProcessedIndividuals { idx, population }
}

/// Measures the individuals of one chunk of `population`.
pub fn measure_unit<const N: usize>(
    population: &[Individual<N>],
    unit: WorkChunk,
    catalog: &Catalog<N>,
) -> (done: ProcessedIndividuals<N>)
    requires
        catalog.wf(),
        chunk_within(unit, population@.len() as int),
    ensures
        is_measured_unit(population@, unit, *catalog, done),
{
    let copy = copy_range(population, unit);
    measure_chunk(ProcessIndividuals { idx: unit.start, population: copy }, catalog)
}

/// Breeds one offspring of `parents` for every index of the chunk.
pub fn breed_unit<const N: usize>(parents: &[Individual<N>], unit: WorkChunk, r: &mut StdRng) -> (done:
    ProcessedIndividuals<N>)
    requires
        N > 0,
        parents@.len() > 0,
        unit.start <= unit.end,
    ensures
        is_bred_unit(parents@, unit, done),
{
    let mut population: Vec<Individual<N>> = Vec::new();
    for i in unit.start..unit.end
        invariant
            N > 0,
            parents@.len() > 0,
            unit.start <= unit.end,
            population@.len() == i - unit.start,
            forall|j: int|
                0 <= j < population@.len() ==> is_offspring(parents@, #[trigger] population@[j]),
    {
        let child = breed(parents, r);
        population.push(child);
    }
    ProcessedIndividuals { idx: unit.start, population }
}

/// Puts the individuals of one chunk of `population` through the mutation
/// step.
pub fn mutate_unit<const N: usize>(population: &[Individual<N>], unit: WorkChunk, r: &mut StdRng) -> (done:
    ProcessedIndividuals<N>)
    requires
        N > 0,
        chunk_within(unit, population@.len() as int),
    ensures
        is_mutated_unit(population@, unit, done),
{
    let copy = copy_range(population, unit);
    mutate_chunk(ProcessIndividuals { idx: unit.start, population: copy }, r)
}

/// Works off a queue of chunks to measure, first in, first out, as a worker
/// does that has the queue to itself. Result `k` answers message `k`.
pub fn measure_queue<const N: usize>(work: Vec<ProcessIndividuals<N>>, catalog: &Catalog<N>) -> (replies:
    Vec<ProcessedIndividuals<N>>)
    requires
        catalog.wf(),
    ensures
        replies@.len() == work@.len(),
        forall|k: int|
            0 <= k < replies@.len() ==> is_measured_reply(work@[k], *catalog, #[trigger] replies@[k]),
{
    let mut replies: Vec<ProcessedIndividuals<N>> = Vec::new();
    let ghost packed = work@;
    for message in it: work
        invariant
            catalog.wf(),
            it.seq() == packed,
            replies@.len() == it.index(),
            forall|k: int|
                0 <= k < replies@.len() ==> is_measured_reply(
                    packed[k],
                    *catalog,
                    #[trigger] replies@[k],
                ),
    {
        let done = measure_chunk(message, catalog);
        replies.push(done);
    }
    replies
}

/// Works off a queue of chunks to fill with offspring, first in, first out.
/// Result `k` answers message `k`.
pub fn breed_queue<const N: usize>(
    parents: &[Individual<N>],
    work: Vec<ProcessCrossoverIndividuals<N>>,
    r: &mut StdRng,
) -> (replies: Vec<ProcessedCrossoverIndividuals<N>>)
    requires
        N > 0,
        parents@.len() > 0,
    ensures
        replies@.len() == work@.len(),
        forall|k: int|
            0 <= k < replies@.len() ==> is_bred_reply(parents@, work@[k], #[trigger] replies@[k]),
{
    let mut replies: Vec<ProcessedCrossoverIndividuals<N>> = Vec::new();
    let ghost packed = work@;
    for message in it: work
        invariant
            N > 0,
            parents@.len() > 0,
            it.seq() == packed,
            replies@.len() == it.index(),
            forall|k: int|
                0 <= k < replies@.len() ==> is_bred_reply(
                    parents@,
                    packed[k],
                    #[trigger] replies@[k],
                ),
    {
        let done = breed_chunk(parents, message, r);
        replies.push(done);
    }
    replies
}

/// Works off a queue of chunks to mutate, first in, first out. Result `k`
/// answers message `k`.
pub fn mutate_queue<const N: usize>(work: Vec<ProcessIndividuals<N>>, r: &mut StdRng) -> (replies:
    Vec<ProcessedIndividuals<N>>)
    requires
        N > 0,
    ensures
        replies@.len() == work@.len(),
        forall|k: int|
            0 <= k < replies@.len() ==> is_mutated_reply(work@[k], #[trigger] replies@[k]),
{
    let mut replies: Vec<ProcessedIndividuals<N>> = Vec::new();
    let ghost packed = work@;
    for message in it: work
        invariant
            N > 0,
            it.seq() == packed,
            replies@.len() == it.index(),
            forall|k: int|
                0 <= k < replies@.len() ==> is_mutated_reply(packed[k], #[trigger] replies@[k]),
    {
        let done = mutate_chunk(message, r);
        replies.push(done);
    }
    replies
}

/// Every unit lies within a population of `size` individuals.
pub open spec fn units_within(units: Seq<WorkChunk>, size: int) -> bool {
    forall|k: int| 0 <= k < units.len() ==> chunk_within(#[trigger] units[k], size)
}

/// Runs the units of a fitness pass one after the other. Result `k` answers
/// unit `k`.
pub fn measure_units<const N: usize>(
    population: &[Individual<N>],
    units: &Vec<WorkChunk>,
    catalog: &Catalog<N>,
) -> (replies: Vec<ProcessedIndividuals<N>>)
    requires
        catalog.wf(),
        units_within(units@, population@.len() as int),
    ensures
        replies@.len() == units@.len(),
        forall|k: int|
            0 <= k < replies@.len() ==> is_measured_unit(
                population@,
                units@[k],
                *catalog,
                #[trigger] replies@[k],
            ),
{
    let mut replies: Vec<ProcessedIndividuals<N>> = Vec::new();
    for k in 0..units.len()
        invariant
            catalog.wf(),
            units_within(units@, population@.len() as int),
            replies@.len() == k,
            forall|j: int|
                0 <= j < k ==> is_measured_unit(
                    population@,
                    units@[j],
                    *catalog,
                    #[trigger] replies@[j],
                ),
    {
        let done = measure_unit(population, units[k], catalog);
        replies.push(done);
    }
    replies
}

/// Runs the units of a crossover pass one after the other. Result `k`
/// answers unit `k`.
pub fn breed_units<const N: usize>(
    parents: &[Individual<N>],
    units: &Vec<WorkChunk>,
    r: &mut StdRng,
) -> (replies: Vec<ProcessedIndividuals<N>>)
    requires
        N > 0,
        parents@.len() > 0,
        forall|k: int| 0 <= k < units@.len() ==> (#[trigger] units@[k]).start <= units@[k].end,
    ensures
        replies@.len() == units@.len(),
        forall|k: int|
            0 <= k < replies@.len() ==> is_bred_unit(parents@, units@[k], #[trigger] replies@[k]),
{
    let mut replies: Vec<ProcessedIndividuals<N>> = Vec::new();
    for k in 0..units.len()
        invariant
            N > 0,
            parents@.len() > 0,
            forall|j: int| 0 <= j < units@.len() ==> (#[trigger] units@[j]).start <= units@[j].end,
            replies@.len() == k,
            forall|j: int|
                0 <= j < k ==> is_bred_unit(parents@, units@[j], #[trigger] replies@[j]),
    {
        let done = breed_unit(parents, units[k], r);
        replies.push(done);
    }
    replies
}

/// Runs the units of a mutation pass one after the other. Result `k`
/// answers unit `k`.
pub fn mutate_units<const N: usize>(
    population: &[Individual<N>],
    units: &Vec<WorkChunk>,
    r: &mut StdRng,
) -> (replies: Vec<ProcessedIndividuals<N>>)
    requires
        N > 0,
        units_within(units@, population@.len() as int),
    ensures
        replies@.len() == units@.len(),
        forall|k: int|
            0 <= k < replies@.len() ==> is_mutated_unit(
                population@,
                units@[k],
                #[trigger] replies@[k],
            ),
{
    let mut replies: Vec<ProcessedIndividuals<N>> = Vec::new();
    for k in 0..units.len()
        invariant
            N > 0,
            units_within(units@, population@.len() as int),
            replies@.len() == k,
            forall|j: int|
                0 <= j < k ==> is_mutated_unit(population@, units@[j], #[trigger] replies@[j]),
    {
        let done = mutate_unit(population, units[k], r);
        replies.push(done);
    }
    replies
}

} // verus!
