//! What the three engines share: the run parameters, tournament selection
//! and the choice of the elite.

use crate::catalog::Catalog;
use crate::individual::crossover_genes;
use crate::individual::flipped;
use crate::individual::Individual;
use crate::rng::random_below;
use rand::rngs::StdRng;
use vstd::prelude::*;

verus! {

/// Generations of one run.
pub const N_GENERATIONS: usize = 500;

/// Individuals of a population, in every generation.
pub const POP_SIZE: usize = 100000;

/// An individual past the elite is mutated with a chance of
/// `PROB_MUTATION_NUMERATOR` in `PROB_MUTATION_DENOMINATOR`.
pub const PROB_MUTATION_NUMERATOR: u32 = 1;

pub const PROB_MUTATION_DENOMINATOR: u32 = 2;

/// Individuals sampled for one tournament.
pub const TOURNAMENT_SIZE: usize = 3;

/// Every entrant is an index into a population of `size` individuals.
pub open spec fn entrants_within(entrants: Seq<usize>, size: int) -> bool {
    forall|k: int| 0 <= k < entrants.len() ==> #[trigger] entrants[k] < size
}

/// The index that wins among `entrants`, taken in order: an entrant replaces
/// the incumbent only where it is strictly fitter, so of equally fit
/// entrants the one seen first wins.
pub open spec fn tournament_winner<const N: usize>(
    population: Seq<Individual<N>>,
    entrants: Seq<usize>,
) -> int
    decreases entrants.len(),
{
    if entrants.len() == 0 {
        0
    } else if entrants.len() == 1 {
        entrants[0] as int
    } else {
        let incumbent = tournament_winner(population, entrants.drop_last());
        let challenger = entrants.last() as int;
        if population[challenger].fitness > population[incumbent].fitness {
            challenger
        } else {
            incumbent
        }
    }
}

/// `winner` is what a tournament over `population` with these entrants
/// returns.
pub open spec fn is_tournament_pick<const N: usize>(
    population: Seq<Individual<N>>,
    entrants: Seq<usize>,
    winner: Individual<N>,
) -> bool {
    &&& entrants.len() == TOURNAMENT_SIZE
    &&& entrants_within(entrants, population.len() as int)
    &&& winner == population[tournament_winner(population, entrants)]
}

/// The winner of a tournament is one of its entrants, and no entrant is
/// fitter.
pub proof fn lemma_tournament_winner<const N: usize>(
    population: Seq<Individual<N>>,
    entrants: Seq<usize>,
)
    requires
        entrants.len() > 0,
        entrants_within(entrants, population.len() as int),
    ensures
        exists|k: int|
            0 <= k < entrants.len() && #[trigger] entrants[k] == tournament_winner(
                population,
                entrants,
            ),
        0 <= tournament_winner(population, entrants) < population.len(),
        forall|k: int|
            0 <= k < entrants.len() ==> population[#[trigger] entrants[k] as int].fitness
                <= population[tournament_winner(population, entrants)].fitness,
    decreases entrants.len(),
{
    if entrants.len() == 1 {
        assert(entrants[0] == tournament_winner(population, entrants));
    } else {
        let rest = entrants.drop_last();
        lemma_tournament_winner(population, rest);
        let k0 = choose|k: int|
            0 <= k < rest.len() && #[trigger] rest[k] == tournament_winner(population, rest);
        assert(entrants[k0] == rest[k0]);
        let last = entrants.len() - 1;
        assert(entrants[last] == entrants.last());
        assert forall|k: int| 0 <= k < entrants.len() implies population[#[trigger] entrants[k] as int].fitness
            <= population[tournament_winner(population, entrants)].fitness by {
            if k < rest.len() {
                assert(entrants[k] == rest[k]);
            }
        }
    }
}

/// The tournament over entrants that the caller names: the fittest of them,
/// the one named first among equals.
pub fn tournament_among<'a, const N: usize>(
    population: &'a [Individual<N>],
    entrants: &[usize],
) -> (winner: &'a Individual<N>)
    requires
        entrants@.len() > 0,
        entrants_within(entrants@, population@.len() as int),
    ensures
        *winner == population@[tournament_winner(population@, entrants@)],
{
    let mut best = &population[entrants[0]];
    let ghost mut seen: Seq<usize> = seq![entrants@[0]];
    for k in 1..entrants.len()
        invariant
            entrants_within(entrants@, population@.len() as int),
            seen == entrants@.take(k as int),
            0 <= tournament_winner(population@, seen) < population@.len(),
            *best == population@[tournament_winner(population@, seen)],
    {
        let other = &population[entrants[k]];
        proof {
            seen = seen.push(entrants@[k as int]);
            assert(seen.drop_last() == entrants@.take(k as int));
            assert(seen == entrants@.take(k + 1));
        }
        if other.fitness > best.fitness {
            best = other;
        }
    }
    proof {
        assert(entrants@.take(entrants@.len() as int) == entrants@);
    }
    best
}

/// Tournament selection: samples `TOURNAMENT_SIZE` individuals, each drawn
/// from the whole population and independently of the others, and returns
/// the fittest of them, the one drawn first among equals.
pub fn tournament<'a, const N: usize>(r: &mut StdRng, population: &'a [Individual<N>]) -> (winner:
    &'a Individual<N>)
    requires
        population@.len() > 0,
    ensures
        exists|entrants: Seq<usize>| #[trigger] is_tournament_pick(population@, entrants, *winner),
{
    let first = random_below(r, population.len());
    let mut best = &population[first];
    let ghost mut seen: Seq<usize> = seq![first];
    for k in 1..TOURNAMENT_SIZE
        invariant
            seen.len() == k,
            entrants_within(seen, population@.len() as int),
            0 <= tournament_winner(population@, seen) < population@.len(),
            *best == population@[tournament_winner(population@, seen)],
    {
        let drawn = random_below(r, population.len());
        let other = &population[drawn];
        proof {
            let ghost before = seen;
            seen = seen.push(drawn);
            assert(seen.drop_last() == before);
        }
        if other.fitness > best.fitness {
            best = other;
        }
    }
    proof {
        assert(is_tournament_pick(population@, seen, *best));
    }
    best
}

/// The index of the elite: the first index whose fitness no other index
/// exceeds.
pub open spec fn best_index<const N: usize>(population: Seq<Individual<N>>) -> int
    decreases population.len(),
{
    if population.len() <= 1 {
        0
    } else {
        let incumbent = best_index(population.drop_last());
        if population.last().fitness > population[incumbent].fitness {
            population.len() - 1
        } else {
            incumbent
        }
    }
}

/// The elite is fitter than everything before it and at least as fit as
/// everything after it.
pub proof fn lemma_best_index<const N: usize>(population: Seq<Individual<N>>)
    requires
        population.len() > 0,
    ensures
        0 <= best_index(population) < population.len(),
        forall|i: int|
            0 <= i < population.len() ==> (#[trigger] population[i]).fitness
                <= population[best_index(population)].fitness,
        forall|i: int|
            0 <= i < best_index(population) ==> (#[trigger] population[i]).fitness
                < population[best_index(population)].fitness,
    decreases population.len(),
{
    if population.len() > 1 {
        let rest = population.drop_last();
        lemma_best_index(rest);
        assert forall|i: int| 0 <= i < population.len() implies (#[trigger] population[i]).fitness
            <= population[best_index(population)].fitness by {
            if i < rest.len() {
                assert(population[i] == rest[i]);
            }
        }
        assert forall|i: int| 0 <= i < best_index(population) implies (#[trigger] population[i]).fitness
            < population[best_index(population)].fitness by {
            if i < rest.len() {
                assert(population[i] == rest[i]);
            }
        }
    }
}

/// Finds the elite by a scan in index order, in which only a strictly
/// fitter individual replaces the incumbent.
pub fn best_of<'a, const N: usize>(population: &'a [Individual<N>]) -> (best: &'a Individual<N>)
    requires
        population@.len() > 0,
    ensures
        *best == population@[best_index(population@)],
{
    let mut best = &population[0];
    assert(population@.take(1).drop_last().len() == 0);
    for i in 1..population.len()
        invariant
            0 <= best_index(population@.take(i as int)) < i,
            *best == population@[best_index(population@.take(i as int))],
    {
        proof {
            assert(population@.take(i + 1).drop_last() == population@.take(i as int));
        }
        if population[i].fitness > best.fitness {
            best = &population[i];
        }
    }
    proof {
        assert(population@.take(population@.len() as int) == population@);
    }
    best
}

/// The individual with its fitness measured against the catalog.
pub open spec fn measured_one<const N: usize>(
    individual: Individual<N>,
    catalog: Catalog<N>,
) -> Individual<N> {
    Individual {
        selected_items: individual.selected_items,
        fitness: catalog.fitness_of(individual.selected_items@) as isize,
    }
}

/// The population with every fitness measured.
pub open spec fn measured<const N: usize>(
    population: Seq<Individual<N>>,
    catalog: Catalog<N>,
) -> Seq<Individual<N>> {
    Seq::new(population.len(), |i: int| measured_one(population[i], catalog))
}

/// `child` is the crossover at `cut` of the winners of two tournaments over
/// `parents`, the first parent chosen among `first`, the second among
/// `second`. Its fitness is not measured.
pub open spec fn bred_from<const N: usize>(
    parents: Seq<Individual<N>>,
    first: Seq<usize>,
    second: Seq<usize>,
    cut: int,
    child: Individual<N>,
) -> bool {
    &&& first.len() == TOURNAMENT_SIZE
    &&& second.len() == TOURNAMENT_SIZE
    &&& entrants_within(first, parents.len() as int)
    &&& entrants_within(second, parents.len() as int)
    &&& 0 <= cut < N
    &&& child.fitness == 0
    &&& child.selected_items@ == crossover_genes(
        parents[tournament_winner(parents, first)].selected_items@,
        parents[tournament_winner(parents, second)].selected_items@,
        cut,
    )
}

/// `child` can come out of two tournaments over `parents` and a crossover.
pub open spec fn is_offspring<const N: usize>(
    parents: Seq<Individual<N>>,
    child: Individual<N>,
) -> bool {
    exists|first: Seq<usize>, second: Seq<usize>, cut: int| #[trigger]
        bred_from(parents, first, second, cut, child)
}

/// `after` is what the mutation step can leave of `before`: the same
/// individual, or the same with one bit inverted. The fitness is kept.
pub open spec fn is_mutation_outcome<const N: usize>(
    before: Individual<N>,
    after: Individual<N>,
) -> bool {
    &&& after.fitness == before.fitness
    &&& (after.selected_items@ == before.selected_items@ || exists|point: int|
        0 <= point < N && after.selected_items@ == #[trigger] flipped(
            before.selected_items@,
            point,
        ))
}

/// `individual` is an offspring of `parents` as the mutation step can leave
/// it.
pub open spec fn is_descendant<const N: usize>(
    parents: Seq<Individual<N>>,
    individual: Individual<N>,
) -> bool {
    exists|child: Individual<N>|
        is_offspring(parents, child) && #[trigger] is_mutation_outcome(child, individual)
}

/// `after` is a generation later than `before`: the elite of the measured
/// population stands at index 0, and every other index holds an offspring
/// of the measured population as the mutation step left it.
pub open spec fn is_next_generation<const N: usize>(
    before: Seq<Individual<N>>,
    catalog: Catalog<N>,
    after: Seq<Individual<N>>,
) -> bool {
    &&& after.len() == before.len()
    &&& after[0] == measured(before, catalog)[best_index(measured(before, catalog))]
    &&& forall|i: int|
        1 <= i < after.len() ==> is_descendant(measured(before, catalog), #[trigger] after[i])
}

/// Every population of the chain is a generation later than the one
/// before it.
pub open spec fn is_lineage<const N: usize>(
    chain: Seq<Seq<Individual<N>>>,
    catalog: Catalog<N>,
) -> bool {
    forall|g: int|
        0 <= g < chain.len() - 1 ==> is_next_generation(#[trigger] chain[g], catalog, chain[g + 1])
}

/// `after` is `generations` generations later than `before`.
pub open spec fn is_descended<const N: usize>(
    before: Seq<Individual<N>>,
    catalog: Catalog<N>,
    after: Seq<Individual<N>>,
    generations: nat,
) -> bool {
    exists|chain: Seq<Seq<Individual<N>>>|
        chain.len() == generations + 1 && chain[0] == before && chain.last() == after
            && #[trigger] is_lineage(chain, catalog)
}

/// Every population of a lineage has the size of the first.
pub proof fn lemma_lineage_len<const N: usize>(
    chain: Seq<Seq<Individual<N>>>,
    catalog: Catalog<N>,
    g: int,
)
    requires
        is_lineage(chain, catalog),
        0 <= g < chain.len(),
    ensures
        chain[g].len() == chain[0].len(),
    decreases g,
{
    if g > 0 {
        lemma_lineage_len(chain, catalog, g - 1);
        assert(is_next_generation(chain[g - 1], catalog, chain[g - 1 + 1]));
    }
}

/// A population keeps its size from generation to generation.
pub proof fn lemma_descended_len<const N: usize>(
    before: Seq<Individual<N>>,
    catalog: Catalog<N>,
    after: Seq<Individual<N>>,
    generations: nat,
)
    requires
        is_descended(before, catalog, after, generations),
    ensures
        after.len() == before.len(),
{
    let chain = choose|chain: Seq<Seq<Individual<N>>>|
        chain.len() == generations + 1 && chain[0] == before && chain.last() == after
            && #[trigger] is_lineage(chain, catalog);
    lemma_lineage_len(chain, catalog, generations as int);
}

} // verus!
