//! The task-scheduler engine. Each chunk of a pass becomes one unit of
//! work; all units of a pass are launched together, and the pass ends when
//! every one of them has come back. How many run at a time is up to the
//! scheduler: the engine names no number of workers.
//!
//! The engine holds the state and decides: it names the units of a pass and
//! stores the results. Launching and joining the units is left to the
//! caller, which takes each unit to [`crate::worker`] and hands the results
//! back.

use crate::catalog::Catalog;
use crate::individual::new_individual_random;
use crate::individual::Individual;
use crate::knapsack_ga::best_index;
use crate::knapsack_ga::best_of;
use crate::knapsack_ga::is_next_generation;
use crate::knapsack_ga::POP_SIZE;
use crate::messages::ProcessedIndividuals;
use crate::partition::is_partition;
use crate::partition::partition;
use crate::partition::WorkChunk;
use crate::passes::in_order;
use crate::passes::lemma_crossover_units;
use crate::passes::lemma_fitness_units;
use crate::passes::lemma_in_order;
use crate::passes::lemma_mutation_units;
use crate::passes::lemma_partition_within;
use crate::passes::lemma_passes_make_generation;
use crate::reassembly::lemma_patched_untouched;
use crate::reassembly::patched;
use crate::reassembly::patches_of;
use crate::reassembly::reassemble;
use crate::worker::breed_units;
use crate::worker::measure_units;
use crate::worker::mutate_units;
use rand::rngs::StdRng;
use vstd::prelude::*;

verus! {

/// The population, the population of the generation in the making, the
/// catalog, and the size of a unit.
pub struct KnapsackGACoroutine<const N: usize> {
    population: Vec<Individual<N>>,
    next: Vec<Individual<N>>,
    chunk_size: usize,
    catalog: Catalog<N>,
}

/// The engine over a population drawn from `r`, for units of `chunk_size`
/// individuals.
pub fn new_knapsack_ga_coroutine<const N: usize>(
    catalog: Catalog<N>,
    chunk_size: usize,
    r: &mut StdRng,
) -> (ga: KnapsackGACoroutine<N>)
    requires
        catalog.wf(),
        N > 0,
        chunk_size >= 1,
    ensures
        ga.wf(),
        ga.catalog_of() == catalog,
        ga.chunk_size_of() == chunk_size,
        ga.individuals().len() == POP_SIZE,
        forall|i: int| 0 <= i < POP_SIZE ==> (#[trigger] ga.individuals()[i]).fitness == 0,
{
    let population: Vec<Individual<N>> = vec![Individual::blank(); POP_SIZE];
    let next: Vec<Individual<N>> = vec![Individual::blank(); POP_SIZE];
    let mut ga = KnapsackGACoroutine { population, next, chunk_size, catalog };
    ga.populate_initial_population_randomly(r);
    ga
}

impl<const N: usize> KnapsackGACoroutine<N> {
    /// Both populations hold `POP_SIZE` individuals, a unit holds at least
    /// one, the catalog is well formed, and a gene has at least one bit.
    pub closed spec fn wf(&self) -> bool {
        &&& self.population@.len() == POP_SIZE
        &&& self.next@.len() == POP_SIZE
        &&& self.chunk_size >= 1
        &&& self.catalog.wf()
        &&& N > 0
    }

    /// The population, in index order.
    pub closed spec fn individuals(&self) -> Seq<Individual<N>> {
        self.population@
    }

    /// The population of the generation in the making.
    pub closed spec fn upcoming(&self) -> Seq<Individual<N>> {
        self.next@
    }

    /// The catalog that the engine measures against.
    pub closed spec fn catalog_of(&self) -> Catalog<N> {
        self.catalog
    }

    /// The number of individuals of a unit.
    pub closed spec fn chunk_size_of(&self) -> usize {
        self.chunk_size
    }

    /// Everything but the two populations is as in `other`.
    pub open spec fn same_setup(&self, other: &Self) -> bool {
        &&& self.catalog_of() == other.catalog_of()
        &&& self.chunk_size_of() == other.chunk_size_of()
    }

    /// A well-formed engine holds `POP_SIZE` individuals in either
    /// population, and cuts units of at least one.
    pub proof fn lemma_population_size(&self)
        requires
            self.wf(),
        ensures
            self.individuals().len() == POP_SIZE,
            self.upcoming().len() == POP_SIZE,
            self.chunk_size_of() >= 1,
            self.catalog_of().wf(),
            N > 0,
    {
    }

    /// The engine over a population that the caller names; `None` where the
    /// population does not hold `POP_SIZE` individuals, the chunk size is
    /// zero, the catalog is not well formed or a gene has no bit.
    pub fn from_population(catalog: Catalog<N>, population: Vec<Individual<N>>, chunk_size: usize) -> (made:
        Option<Self>)
        ensures
            made is Some <==> population@.len() == POP_SIZE && chunk_size >= 1 && catalog.wf() && N
                > 0,
            made matches Some(ga) ==> ga.wf() && ga.individuals() == population@ && ga.catalog_of()
                == catalog && ga.chunk_size_of() == chunk_size,
    {
        if population.len() == POP_SIZE && chunk_size >= 1 && catalog.is_valid() && N > 0 {
            let next: Vec<Individual<N>> = vec![Individual::blank(); POP_SIZE];
            Some(KnapsackGACoroutine { population, next, chunk_size, catalog })
        } else {
            None
        }
    }

    /// Read access to the population.
    pub fn population(&self) -> (population: &Vec<Individual<N>>)
        ensures
            population@ == self.individuals(),
    {
        &self.population
    }

    /// Read access to the population of the generation in the making.
    pub fn next_population(&self) -> (next: &Vec<Individual<N>>)
        ensures
            next@ == self.upcoming(),
    {
        &self.next
    }

    /// Read access to the catalog.
    pub fn catalog(&self) -> (catalog: &Catalog<N>)
        ensures
            *catalog == self.catalog_of(),
    {
        &self.catalog
    }

    /// The number of individuals of a unit.
    pub fn chunk_size(&self) -> (chunk_size: usize)
        ensures
            chunk_size == self.chunk_size_of(),
    {
        self.chunk_size
    }

    /// Replaces every individual by one drawn at random, in index order.
    pub fn populate_initial_population_randomly(&mut self, r: &mut StdRng)
        requires
            old(self).wf(),
        ensures
            final(self).wf(),
            final(self).same_setup(old(self)),
            final(self).upcoming() == old(self).upcoming(),
            forall|i: int| 0 <= i < POP_SIZE ==> (#[trigger] final(self).individuals()[i]).fitness == 0,
    {
        for i in 0..POP_SIZE
            invariant
                self.wf(),
                self.catalog == old(self).catalog,
                self.chunk_size == old(self).chunk_size,
                self.next == old(self).next,
                forall|j: int| 0 <= j < i ==> (#[trigger] self.population@[j]).fitness == 0,
        {
            self.population[i] = new_individual_random(r);
        }
    }

    /// The elite: the first individual that none exceeds in fitness.
    pub fn best_of_population(&self) -> (best: &Individual<N>)
        requires
            self.wf(),
        ensures
            *best == self.individuals()[best_index(self.individuals())],
    {
        best_of(self.population.as_slice())
    }

    /// The units of the fitness pass: the whole index range, cut into
    /// chunks.
    pub fn fitness_units(&self) -> (units: Vec<WorkChunk>)
        requires
            self.wf(),
        ensures
            is_partition(units@, POP_SIZE as int, 0, self.chunk_size_of() as int),
    {
        partition(POP_SIZE, 0, self.chunk_size)
    }

    /// Ends the fitness pass: writes the measured chunks into the
    /// population, each at the index it names.
    pub fn store_fitness(&mut self, replies: &Vec<ProcessedIndividuals<N>>)
        requires
            old(self).wf(),
        ensures
            final(self).wf(),
            final(self).same_setup(old(self)),
            final(self).upcoming() == old(self).upcoming(),
            final(self).individuals() == patched(
                old(self).individuals(),
                0,
                patches_of(replies@, 0),
            ),
            final(self).individuals().len() == POP_SIZE,
    {
        reassemble(&mut self.population, 0, 0, replies);
    }

    /// Opens the crossover pass: fills the next population with copies of
    /// the elite and names the units, which cut the index range past index
    /// 0 into chunks.
    pub fn begin_crossover(&mut self) -> (units: Vec<WorkChunk>)
        requires
            old(self).wf(),
        ensures
            final(self).wf(),
            final(self).same_setup(old(self)),
            final(self).individuals() == old(self).individuals(),
            final(self).upcoming().len() == POP_SIZE,
            forall|i: int|
                0 <= i < POP_SIZE ==> #[trigger] final(self).upcoming()[i] == old(
                    self,
                ).individuals()[best_index(old(self).individuals())],
            is_partition(units@, POP_SIZE as int, 1, old(self).chunk_size_of() as int),
    {
        let best = *best_of(self.population.as_slice());
        self.next = vec![best; POP_SIZE];
        partition(POP_SIZE, 1, self.chunk_size)
    }

    /// The units of the mutation pass: the index range past index 0, cut
    /// into chunks.
    pub fn mutation_units(&self) -> (units: Vec<WorkChunk>)
        requires
            self.wf(),
        ensures
            is_partition(units@, POP_SIZE as int, 1, self.chunk_size_of() as int),
    {
        partition(POP_SIZE, 1, self.chunk_size)
    }

    /// Ends the crossover pass or the mutation pass: writes the chunks into
    /// the next population, each at the index it names. Index 0, where the
    /// elite stands, is closed to writing.
    pub fn store_variation(&mut self, replies: &Vec<ProcessedIndividuals<N>>)
        requires
            old(self).wf(),
        ensures
            final(self).wf(),
            final(self).same_setup(old(self)),
            final(self).individuals() == old(self).individuals(),
            final(self).upcoming() == patched(old(self).upcoming(), 1, patches_of(replies@, 0)),
            final(self).upcoming()[0] == old(self).upcoming()[0],
    {
        proof {
            lemma_patched_untouched(self.next@, 1, patches_of(replies@, 0), 0);
        }
        reassemble(&mut self.next, 1, 0, replies);
    }

    /// Ends the generation: the next population takes the place of the
    /// population. Returns the individual at index 0.
    pub fn finish_generation(&mut self) -> (elite: Individual<N>)
        requires
            old(self).wf(),
        ensures
            final(self).wf(),
            final(self).same_setup(old(self)),
            final(self).individuals() == old(self).upcoming(),
            final(self).individuals().len() == POP_SIZE,
            elite == final(self).individuals()[0],
    {
        std::mem::swap(&mut self.population, &mut self.next);
        self.population[0]
    }

    /// One generation with the scheduler left out: the three passes in
    /// turn, the units of a pass run one after the other on the calling
    /// thread, with one random source for all of them. Returns the elite.
    pub fn evolve_inline(&mut self, r: &mut StdRng) -> (elite: Individual<N>)
        requires
            old(self).wf(),
        ensures
            final(self).wf(),
            final(self).same_setup(old(self)),
            final(self).individuals().len() == POP_SIZE,
            is_next_generation(
                old(self).individuals(),
                old(self).catalog_of(),
                final(self).individuals(),
            ),
            elite == final(self).individuals()[0],
    {
        let ghost before = self.population@;
        let ghost catalog = self.catalog;
        let ghost chunk_size = self.chunk_size as int;

        let units = self.fitness_units();
        proof {
            lemma_partition_within(units@, POP_SIZE as int, 0, chunk_size);
        }
        let replies = measure_units(self.population.as_slice(), &units, &self.catalog);
        proof {
            lemma_in_order(units@.len() as int);
            lemma_fitness_units(
                before,
                catalog,
                chunk_size,
                units@,
                replies@,
                in_order(units@.len() as int),
                in_order(units@.len() as int),
            );
        }
        self.store_fitness(&replies);
        let ghost parents = self.population@;

        let units = self.begin_crossover();
        let ghost seeded = self.next@;
        proof {
            lemma_partition_within(units@, POP_SIZE as int, 1, chunk_size);
        }
        let replies = breed_units(self.population.as_slice(), &units, r);
        proof {
            lemma_in_order(units@.len() as int);
            lemma_crossover_units(
                parents,
                seeded,
                chunk_size,
                units@,
                replies@,
                in_order(units@.len() as int),
                in_order(units@.len() as int),
            );
        }
        self.store_variation(&replies);
        let ghost bred = self.next@;

        let units = self.mutation_units();
        proof {
            lemma_partition_within(units@, POP_SIZE as int, 1, chunk_size);
        }
        let replies = mutate_units(self.next.as_slice(), &units, r);
        proof {
            lemma_in_order(units@.len() as int);
            lemma_mutation_units(
                bred,
                chunk_size,
                units@,
                replies@,
                in_order(units@.len() as int),
                in_order(units@.len() as int),
            );
        }
        self.store_variation(&replies);
        proof {
            lemma_passes_make_generation(before, catalog, seeded, bred, self.next@);
        }
        self.finish_generation()
    }
}

} // verus!
