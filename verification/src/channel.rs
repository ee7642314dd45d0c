//! The worker-pool engine. Each of the three passes of a generation is cut
//! into chunks that a pool of workers takes from a queue; what the workers
//! send back is written into place by the chunk's index, so the order in
//! which results arrive is of no account.
//!
//! The engine holds the state and decides: it packs the work of a pass and
//! stores the results. Running the pool is left to the caller, which takes
//! each message to [`crate::worker`] and hands the results back.

use crate::catalog::Catalog;
use crate::dispatch::chunk_requests;
use crate::dispatch::crossover_requests;
use crate::dispatch::is_chunked_crossover_work;
use crate::dispatch::is_chunked_work;
use crate::individual::new_individual_random;
use crate::individual::Individual;
use crate::knapsack_ga::best_index;
use crate::knapsack_ga::best_of;
use crate::knapsack_ga::is_next_generation;
use crate::knapsack_ga::POP_SIZE;
use crate::messages::ProcessCrossoverIndividuals;
use crate::messages::ProcessIndividuals;
use crate::messages::ProcessedCrossoverIndividuals;
use crate::messages::ProcessedIndividuals;
use crate::passes::in_order;
use crate::passes::lemma_crossover_pass;
use crate::passes::lemma_fitness_pass;
use crate::passes::lemma_in_order;
use crate::passes::lemma_mutation_pass;
use crate::passes::lemma_passes_make_generation;
use crate::reassembly::lemma_patched_untouched;
use crate::reassembly::offspring_patches_of;
use crate::reassembly::patched;
use crate::reassembly::patches_of;
use crate::reassembly::reassemble;
use crate::reassembly::reassemble_offspring;
use crate::worker::breed_queue;
use crate::worker::measure_queue;
use crate::worker::mutate_queue;
use rand::rngs::StdRng;
use vstd::prelude::*;
use vstd::slice::slice_subrange;

verus! {

/// The population, the population of the generation in the making, the
/// catalog, and the shape of the pool: how many workers, how large a chunk.
pub struct KnapsackGAChannel<const N: usize> {
    population: Vec<Individual<N>>,
    next: Vec<Individual<N>>,
    n_workers: usize,
    chunk_size: usize,
    catalog: Catalog<N>,
}

/// The engine over a population drawn from `r`, for a pool of `n_workers`
/// workers and chunks of `chunk_size` individuals.
pub fn new_knapsack_ga_channel<const N: usize>(
    catalog: Catalog<N>,
    n_workers: usize,
    chunk_size: usize,
    r: &mut StdRng,
) -> (ga: KnapsackGAChannel<N>)
    requires
        catalog.wf(),
        N > 0,
        chunk_size >= 1,
    ensures
        ga.wf(),
        ga.catalog_of() == catalog,
        ga.workers() == n_workers,
        ga.chunk_size_of() == chunk_size,
        ga.individuals().len() == POP_SIZE,
        forall|i: int| 0 <= i < POP_SIZE ==> (#[trigger] ga.individuals()[i]).fitness == 0,
{
    let population: Vec<Individual<N>> = vec![Individual::blank(); POP_SIZE];
    let next: Vec<Individual<N>> = vec![Individual::blank(); POP_SIZE];
    let mut ga = KnapsackGAChannel { population, next, n_workers, chunk_size, catalog };
    ga.populate_initial_population_randomly(r);
    ga
}

impl<const N: usize> KnapsackGAChannel<N> {
    /// Both populations hold `POP_SIZE` individuals, a chunk holds at least
    /// one, the catalog is well formed, and a gene has at least one bit.
    pub closed spec fn wf(&self) -> bool {
        &&& self.population@.len() == POP_SIZE
        &&& self.next@.len() == POP_SIZE
        &&& self.chunk_size >= 1
        &&& self.catalog.wf()
        &&& N > 0
    }

    /// The population, in index order.
    pub closed spec fn individuals(&self) -> Seq<Individual<N>> {
        self.population@
    }

    /// The population of the generation in the making.
    pub closed spec fn upcoming(&self) -> Seq<Individual<N>> {
        self.next@
    }

    /// The catalog that the engine measures against.
    pub closed spec fn catalog_of(&self) -> Catalog<N> {
        self.catalog
    }

    /// The number of workers of the pool.
    pub closed spec fn workers(&self) -> usize {
        self.n_workers
    }

    /// The number of individuals of a chunk.
    pub closed spec fn chunk_size_of(&self) -> usize {
        self.chunk_size
    }

    /// Everything but the two populations is as in `other`.
    pub open spec fn same_setup(&self, other: &Self) -> bool {
        &&& self.catalog_of() == other.catalog_of()
        &&& self.workers() == other.workers()
        &&& self.chunk_size_of() == other.chunk_size_of()
    }

    /// A well-formed engine holds `POP_SIZE` individuals in either
    /// population, and cuts chunks of at least one.
    pub proof fn lemma_population_size(&self)
        requires
            self.wf(),
        ensures
            self.individuals().len() == POP_SIZE,
            self.upcoming().len() == POP_SIZE,
            self.chunk_size_of() >= 1,
            self.catalog_of().wf(),
            N > 0,
    {
    }

    /// The engine over a population that the caller names; `None` where the
    /// population does not hold `POP_SIZE` individuals, the chunk size is
    /// zero, the catalog is not well formed or a gene has no bit.
    pub fn from_population(
        catalog: Catalog<N>,
        population: Vec<Individual<N>>,
        n_workers: usize,
        chunk_size: usize,
    ) -> (made: Option<Self>)
        ensures
            made is Some <==> population@.len() == POP_SIZE && chunk_size >= 1 && catalog.wf() && N
                > 0,
            made matches Some(ga) ==> ga.wf() && ga.individuals() == population@ && ga.catalog_of()
                == catalog && ga.workers() == n_workers && ga.chunk_size_of() == chunk_size,
    {
        if population.len() == POP_SIZE && chunk_size >= 1 && catalog.is_valid() && N > 0 {
            let next: Vec<Individual<N>> = vec![Individual::blank(); POP_SIZE];
            Some(KnapsackGAChannel { population, next, n_workers, chunk_size, catalog })
        } else {
            None
        }
    }

    /// Read access to the population.
    pub fn population(&self) -> (population: &Vec<Individual<N>>)
        ensures
            population@ == self.individuals(),
    {
        &self.population
    }

    /// Read access to the population of the generation in the making.
    pub fn next_population(&self) -> (next: &Vec<Individual<N>>)
        ensures
            next@ == self.upcoming(),
    {
        &self.next
    }

    /// Read access to the catalog.
    pub fn catalog(&self) -> (catalog: &Catalog<N>)
        ensures
            *catalog == self.catalog_of(),
    {
        &self.catalog
    }

    /// The number of workers of the pool.
    pub fn n_workers(&self) -> (n_workers: usize)
        ensures
            n_workers == self.workers(),
    {
        self.n_workers
    }

    /// The number of individuals of a chunk.
    pub fn chunk_size(&self) -> (chunk_size: usize)
        ensures
            chunk_size == self.chunk_size_of(),
    {
        self.chunk_size
    }

    /// Replaces every individual by one drawn at random, in index order.
    pub fn populate_initial_population_randomly(&mut self, r: &mut StdRng)
        requires
            old(self).wf(),
        ensures
            final(self).wf(),
            final(self).same_setup(old(self)),
            final(self).upcoming() == old(self).upcoming(),
            forall|i: int| 0 <= i < POP_SIZE ==> (#[trigger] final(self).individuals()[i]).fitness == 0,
    {
        for i in 0..POP_SIZE
            invariant
                self.wf(),
                self.catalog == old(self).catalog,
                self.n_workers == old(self).n_workers,
                self.chunk_size == old(self).chunk_size,
                self.next == old(self).next,
                forall|j: int| 0 <= j < i ==> (#[trigger] self.population@[j]).fitness == 0,
        {
            self.population[i] = new_individual_random(r);
        }
    }

    /// The elite: the first individual that none exceeds in fitness.
    pub fn best_of_population(&self) -> (best: &Individual<N>)
        requires
            self.wf(),
        ensures
            *best == self.individuals()[best_index(self.individuals())],
    {
        best_of(self.population.as_slice())
    }

    /// The work of the fitness pass: the whole population, cut into chunks.
    pub fn fitness_work(&self) -> (work: Vec<ProcessIndividuals<N>>)
        requires
            self.wf(),
        ensures
            is_chunked_work(work@, self.individuals(), 0, self.chunk_size_of() as int),
    {
        chunk_requests(self.population.as_slice(), 0, self.chunk_size)
    }

    /// Ends the fitness pass: writes the measured chunks into the
    /// population, each at the index it names.
    pub fn store_fitness(&mut self, replies: &Vec<ProcessedIndividuals<N>>)
        requires
            old(self).wf(),
        ensures
            final(self).wf(),
            final(self).same_setup(old(self)),
            final(self).upcoming() == old(self).upcoming(),
            final(self).individuals() == patched(
                old(self).individuals(),
                0,
                patches_of(replies@, 0),
            ),
            final(self).individuals().len() == POP_SIZE,
    {
        reassemble(&mut self.population, 0, 0, replies);
    }

    /// Opens the crossover pass: fills the next population with copies of
    /// the elite and cuts all of it but index 0 into chunks, for the workers
    /// to fill with offspring.
    pub fn begin_crossover(&mut self) -> (work: Vec<ProcessCrossoverIndividuals<N>>)
        requires
            old(self).wf(),
        ensures
            final(self).wf(),
            final(self).same_setup(old(self)),
            final(self).individuals() == old(self).individuals(),
            final(self).upcoming().len() == POP_SIZE,
            forall|i: int|
                0 <= i < POP_SIZE ==> #[trigger] final(self).upcoming()[i] == old(
                    self,
                ).individuals()[best_index(old(self).individuals())],
            is_chunked_crossover_work(
                work@,
                final(self).upcoming(),
                1,
                old(self).chunk_size_of() as int,
            ),
    {
        let best = *best_of(self.population.as_slice());
        self.next = vec![best; POP_SIZE];
        crossover_requests(self.next.as_slice(), 1, self.chunk_size)
    }

    /// Ends the crossover pass: writes the chunks of offspring into the next
    /// population, each at the index it names. Index 0, where the elite
    /// stands, is closed to writing.
    pub fn store_offspring(&mut self, replies: &Vec<ProcessedCrossoverIndividuals<N>>)
        requires
            old(self).wf(),
        ensures
            final(self).wf(),
            final(self).same_setup(old(self)),
            final(self).individuals() == old(self).individuals(),
            final(self).upcoming() == patched(
                old(self).upcoming(),
                1,
                offspring_patches_of(replies@),
            ),
            final(self).upcoming()[0] == old(self).upcoming()[0],
    {
        proof {
            lemma_patched_untouched(self.next@, 1, offspring_patches_of(replies@), 0);
        }
        reassemble_offspring(&mut self.next, 1, replies);
    }

    /// The work of the mutation pass: the next population without its index
    /// 0, cut into chunks. A message names the index of its chunk within
    /// that tail, one below its index in the population.
    pub fn mutation_work(&self) -> (work: Vec<ProcessIndividuals<N>>)
        requires
            self.wf(),
        ensures
            is_chunked_work(
                work@,
                self.upcoming().subrange(1, POP_SIZE as int),
                0,
                self.chunk_size_of() as int,
            ),
    {
        let tail = slice_subrange(self.next.as_slice(), 1, POP_SIZE);
        chunk_requests(tail, 0, self.chunk_size)
    }

    /// Ends the mutation pass: writes the mutated chunks into the next
    /// population, each one above the index it names. Index 0, where the
    /// elite stands, is closed to writing.
    pub fn store_mutants(&mut self, replies: &Vec<ProcessedIndividuals<N>>)
        requires
            old(self).wf(),
        ensures
            final(self).wf(),
            final(self).same_setup(old(self)),
            final(self).individuals() == old(self).individuals(),
            final(self).upcoming() == patched(old(self).upcoming(), 1, patches_of(replies@, 1)),
            final(self).upcoming()[0] == old(self).upcoming()[0],
    {
        proof {
            lemma_patched_untouched(self.next@, 1, patches_of(replies@, 1), 0);
        }
        reassemble(&mut self.next, 1, 1, replies);
    }

    /// Ends the generation: the next population takes the place of the
    /// population. Returns the individual at index 0.
    pub fn finish_generation(&mut self) -> (elite: Individual<N>)
        requires
            old(self).wf(),
        ensures
            final(self).wf(),
            final(self).same_setup(old(self)),
            final(self).individuals() == old(self).upcoming(),
            final(self).individuals().len() == POP_SIZE,
            elite == final(self).individuals()[0],
    {
        std::mem::swap(&mut self.population, &mut self.next);
        self.population[0]
    }

    /// One generation with the pool left out: the three passes in turn,
    /// every chunk of a pass worked on the calling thread, first in, first
    /// out, with one random source for all of them. Returns the elite.
    pub fn evolve_inline(&mut self, r: &mut StdRng) -> (elite: Individual<N>)
        requires
            old(self).wf(),
        ensures
            final(self).wf(),
            final(self).same_setup(old(self)),
            final(self).individuals().len() == POP_SIZE,
            is_next_generation(
                old(self).individuals(),
                old(self).catalog_of(),
                final(self).individuals(),
            ),
            elite == final(self).individuals()[0],
    {
        let ghost before = self.population@;
        let ghost catalog = self.catalog;
        let ghost chunk_size = self.chunk_size as int;

        let work = self.fitness_work();
        let ghost packed = work@;
        let replies = measure_queue(work, &self.catalog);
        proof {
            lemma_in_order(packed.len() as int);
            lemma_fitness_pass(
                before,
                catalog,
                chunk_size,
                packed,
                replies@,
                in_order(packed.len() as int),
                in_order(packed.len() as int),
            );
        }
        self.store_fitness(&replies);
        let ghost parents = self.population@;

        let work = self.begin_crossover();
        let ghost seeded = self.next@;
        let ghost packed = work@;
        let replies = breed_queue(self.population.as_slice(), work, r);
        proof {
            lemma_in_order(packed.len() as int);
            lemma_crossover_pass(
                parents,
                seeded,
                chunk_size,
                packed,
                replies@,
                in_order(packed.len() as int),
                in_order(packed.len() as int),
            );
        }
        self.store_offspring(&replies);
        let ghost bred = self.next@;

        let work = self.mutation_work();
        let ghost packed = work@;
        let replies = mutate_queue(work, r);
        proof {
            lemma_in_order(packed.len() as int);
            lemma_mutation_pass(
                bred,
                chunk_size,
                packed,
                replies@,
                in_order(packed.len() as int),
                in_order(packed.len() as int),
            );
        }
        self.store_mutants(&replies);
        proof {
            lemma_passes_make_generation(before, catalog, seeded, bred, self.next@);
        }
        self.finish_generation()
    }
}

} // verus!
