//! The sequential engine: one thread, one random source seeded with a fixed
//! value, every pass in index order.

use crate::catalog::Catalog;
use crate::individual::new_individual_random;
use crate::individual::Individual;
use crate::knapsack_ga::best_index;
use crate::knapsack_ga::best_of;
use crate::knapsack_ga::is_descendant;
use crate::knapsack_ga::is_descended;
use crate::knapsack_ga::is_lineage;
use crate::knapsack_ga::is_mutation_outcome;
use crate::knapsack_ga::is_next_generation;
use crate::knapsack_ga::is_offspring;
use crate::knapsack_ga::measured;
use crate::knapsack_ga::measured_one;
use crate::knapsack_ga::N_GENERATIONS;
use crate::knapsack_ga::POP_SIZE;
use crate::knapsack_ga::PROB_MUTATION_DENOMINATOR;
use crate::knapsack_ga::PROB_MUTATION_NUMERATOR;
use crate::rng::seeded_rng;
use crate::worker::breed;
use rand::rngs::StdRng;
use vstd::prelude::*;

verus! {

/// The seed of the sequential engine's random source.
pub const SEED: u64 = 0;

/// The population, the catalog it is measured against, and the one random
/// source that every draw of a run comes from.
pub struct KnapsackGASequential<const N: usize> {
    r: StdRng,
    population: Vec<Individual<N>>,
    catalog: Catalog<N>,
}

/// The engine over a population drawn from its own random source.
pub fn new_knapsack_ga_sequential<const N: usize>(catalog: Catalog<N>) -> (ga:
    KnapsackGASequential<N>)
    requires
        catalog.wf(),
        N > 0,
    ensures
        ga.wf(),
        ga.catalog_of() == catalog,
        ga.individuals().len() == POP_SIZE,
        forall|i: int| 0 <= i < POP_SIZE ==> (#[trigger] ga.individuals()[i]).fitness == 0,
{
    let r = seeded_rng(SEED);
    let population: Vec<Individual<N>> = vec![Individual::blank(); POP_SIZE];
    let mut ga = KnapsackGASequential { r, population, catalog };
    ga.populate_initial_population_randomly();
    ga
}

impl<const N: usize> KnapsackGASequential<N> {
    /// The population holds `POP_SIZE` individuals, the catalog is well
    /// formed, and a gene has at least one bit.
    pub closed spec fn wf(&self) -> bool {
        &&& self.population@.len() == POP_SIZE
        &&& self.catalog.wf()
        &&& N > 0
    }

    /// The population, in index order.
    pub closed spec fn individuals(&self) -> Seq<Individual<N>> {
        self.population@
    }

    /// The catalog that the engine measures against.
    pub closed spec fn catalog_of(&self) -> Catalog<N> {
        self.catalog
    }

    /// A well-formed engine holds `POP_SIZE` individuals.
    pub proof fn lemma_population_size(&self)
        requires
            self.wf(),
        ensures
            self.individuals().len() == POP_SIZE,
    {
    }

    /// The engine over a population that the caller names, with a random
    /// source seeded with `seed`; `None` where the population does not hold
    /// `POP_SIZE` individuals, the catalog is not well formed or a gene has
    /// no bit.
    pub fn from_population(catalog: Catalog<N>, population: Vec<Individual<N>>, seed: u64) -> (made:
        Option<Self>)
        ensures
            made is Some <==> population@.len() == POP_SIZE && catalog.wf() && N > 0,
            made matches Some(ga) ==> ga.wf() && ga.individuals() == population@ && ga.catalog_of()
                == catalog,
    {
        if population.len() == POP_SIZE && catalog.is_valid() && N > 0 {
            Some(KnapsackGASequential { r: seeded_rng(seed), population, catalog })
        } else {
            None
        }
    }

    /// Read access to the population.
    pub fn population(&self) -> (population: &Vec<Individual<N>>)
        ensures
            population@ == self.individuals(),
    {
        &self.population
    }

    /// Replaces every individual by one drawn at random, in index order.
    pub fn populate_initial_population_randomly(&mut self)
        requires
            old(self).wf(),
        ensures
            final(self).wf(),
            final(self).catalog_of() == old(self).catalog_of(),
            forall|i: int| 0 <= i < POP_SIZE ==> (#[trigger] final(self).individuals()[i]).fitness == 0,
    {
        for i in 0..POP_SIZE
            invariant
                self.wf(),
                self.catalog == old(self).catalog,
                forall|j: int| 0 <= j < i ==> (#[trigger] self.population@[j]).fitness == 0,
        {
            self.population[i] = new_individual_random(&mut self.r);
        }
    }

    /// The elite: the first individual that none exceeds in fitness.
    pub fn best_of_population(&self) -> (best: &Individual<N>)
        requires
            self.wf(),
        ensures
            *best == self.individuals()[best_index(self.individuals())],
    {
        best_of(self.population.as_slice())
    }

    /// One generation: measures every fitness, carries the elite over to
    /// index 0 of the next population, fills every other index with an
    /// offspring of two tournament winners, and puts each of those through
    /// the mutation step. Returns the elite.
    pub fn evolve(&mut self) -> (best: Individual<N>)
        requires
            old(self).wf(),
        ensures
            final(self).wf(),
            final(self).catalog_of() == old(self).catalog_of(),
            final(self).individuals().len() == POP_SIZE,
            is_next_generation(
                old(self).individuals(),
                old(self).catalog_of(),
                final(self).individuals(),
            ),
            best == final(self).individuals()[0],
    {
        let ghost before = self.population@;
        let ghost catalog = self.catalog;
        for i in 0..POP_SIZE
            invariant
                self.wf(),
                self.catalog == catalog,
                forall|j: int| 0 <= j < i ==> self.population@[j] == measured_one(before[j], catalog),
                forall|j: int| i <= j < POP_SIZE ==> self.population@[j] == before[j],
        {
            self.population[i].measure_fitness(&self.catalog);
        }
        let ghost parents = self.population@;
        assert(parents =~= measured(before, catalog));

        let best = *best_of(self.population.as_slice());
        let mut new_population: Vec<Individual<N>> = vec![best; POP_SIZE];

        for i in 1..POP_SIZE
            invariant
                self.wf(),
                self.catalog == catalog,
                self.population@ == parents,
                new_population@.len() == POP_SIZE,
                new_population@[0] == best,
                forall|j: int| 1 <= j < i ==> is_offspring(parents, #[trigger] new_population@[j]),
        {
            new_population[i] = breed(self.population.as_slice(), &mut self.r);
        }

        let ghost bred = new_population@;
        for i in 1..POP_SIZE
            invariant
                self.wf(),
                self.catalog == catalog,
                self.population@ == parents,
                new_population@.len() == POP_SIZE,
                bred.len() == POP_SIZE,
                new_population@[0] == best,
                forall|j: int| 1 <= j < POP_SIZE ==> is_offspring(parents, #[trigger] bred[j]),
                forall|j: int|
                    1 <= j < i ==> is_mutation_outcome(bred[j], #[trigger] new_population@[j]),
                forall|j: int| i <= j < POP_SIZE ==> new_population@[j] == bred[j],
        {
            new_population[i].mutate_by_chance(
                &mut self.r,
                PROB_MUTATION_NUMERATOR,
                PROB_MUTATION_DENOMINATOR,
            );
        }
        proof {
            assert forall|j: int| 1 <= j < POP_SIZE implies is_descendant(
                parents,
                #[trigger] new_population@[j],
            ) by {
                assert(is_offspring(parents, bred[j]));
                assert(is_mutation_outcome(bred[j], new_population@[j]));
            }
        }
        self.population = new_population;
        best
    }

    /// Runs `generations` generations and returns the individual at index
    /// 0, which the mutation step never touches.
    pub fn run_generations(&mut self, generations: usize) -> (elite: Individual<N>)
        requires
            old(self).wf(),
        ensures
            final(self).wf(),
            final(self).catalog_of() == old(self).catalog_of(),
            final(self).individuals().len() == POP_SIZE,
            is_descended(
                old(self).individuals(),
                old(self).catalog_of(),
                final(self).individuals(),
                generations as nat,
            ),
            elite == final(self).individuals()[0],
    {
        let ghost before = self.population@;
        let ghost catalog = self.catalog;
        let ghost mut chain: Seq<Seq<Individual<N>>> = seq![before];
        for generation in 0..generations
            invariant
                self.wf(),
                self.catalog == catalog,
                chain.len() == generation + 1,
                chain[0] == before,
                chain.last() == self.population@,
                is_lineage(chain, catalog),
        {
            self.evolve();
            proof {
                let ghost longer = chain.push(self.population@);
                assert forall|g: int| 0 <= g < longer.len() - 1 implies is_next_generation(
                    #[trigger] longer[g],
                    catalog,
                    longer[g + 1],
                ) by {
                    if g < chain.len() - 1 {
                        assert(longer[g] == chain[g]);
                        assert(longer[g + 1] == chain[g + 1]);
                    }
                }
                chain = longer;
            }
        }
        self.population[0]
    }

    /// Runs `N_GENERATIONS` generations and returns the individual at index
    /// 0.
    pub fn run(&mut self) -> (elite: Individual<N>)
        requires
            old(self).wf(),
        ensures
            final(self).wf(),
            final(self).catalog_of() == old(self).catalog_of(),
            final(self).individuals().len() == POP_SIZE,
            is_descended(
                old(self).individuals(),
                old(self).catalog_of(),
                final(self).individuals(),
                N_GENERATIONS as nat,
            ),
            elite == final(self).individuals()[0],
    {
        self.run_generations(N_GENERATIONS)
    }
}

} // verus!
