//! One candidate solution: which items it packs, and how fit it was found
//! to be.

use crate::catalog::Catalog;
use crate::catalog::ITEM_BOUND;
use crate::rng::random_below;
use crate::rng::random_chance;
use rand::rngs::StdRng;
use vstd::prelude::*;

verus! {

/// A gene of `N` bits and the fitness last measured for it. Changing the gene
/// does not touch the fitness: it is stale until measured again.
#[derive(Clone, Copy, Debug, PartialEq, Eq)]
pub struct Individual<const N: usize> {
    pub selected_items: [bool; N],
    pub fitness: isize,
}

/// The gene of a child cut at `c`: the first parent's bits before the cut,
/// the second parent's from the cut on.
pub open spec fn crossover_genes(first: Seq<bool>, second: Seq<bool>, c: int) -> Seq<bool> {
    Seq::new(
        first.len(),
        |i: int|
            if i < c {
                first[i]
            } else {
                second[i]
            },
    )
}

/// The gene with the bit at `point` inverted.
pub open spec fn flipped(genes: Seq<bool>, point: int) -> Seq<bool> {
    genes.update(point, !genes[point])
}

/// The two genes differ at `point` and nowhere else.
pub open spec fn differ_only_at(before: Seq<bool>, after: Seq<bool>, point: int) -> bool {
    &&& before.len() == after.len()
    &&& 0 <= point < before.len()
    &&& forall|i: int| 0 <= i < before.len() ==> (before[i] != after[i] <==> i == point)
}

/// Inverting one bit changes that bit and no other.
pub proof fn lemma_flip_changes_one_bit(genes: Seq<bool>, point: int)
    requires
        0 <= point < genes.len(),
    ensures
        differ_only_at(genes, flipped(genes, point), point),
{
}

/// A fresh individual whose bits are drawn one by one, each set with a
/// chance of one in two. Its fitness is not measured yet.
pub fn new_individual_random<const N: usize>(r: &mut StdRng) -> (made: Individual<N>)
    ensures
        made.fitness == 0,
{
    let mut selected_items: [bool; N] = [false; N];
    for i in 0..N {
        selected_items[i] = random_chance(r, 1, 2);
    }
    Individual { selected_items, fitness: 0 }
}

impl<const N: usize> Individual<N> {
    /// No item packed, fitness not measured.
    pub fn blank() -> (made: Self)
        ensures
            made.fitness == 0,
            forall|i: int| 0 <= i < N ==> !made.selected_items@[i],
    {
        Individual { selected_items: [false; N], fitness: 0 }
    }

    /// Measures the gene against the catalog and records the result. The
    /// gene stays as it is.
    pub fn measure_fitness(&mut self, catalog: &Catalog<N>)
        requires
            catalog.wf(),
        ensures
            final(self).selected_items == old(self).selected_items,
            final(self).fitness == catalog.fitness_of(old(self).selected_items@),
    {
        let mut total_value: usize = 0;
        let mut total_weight: usize = 0;
        let ghost genes = self.selected_items@;
        for i in 0..N
            invariant
                catalog.wf(),
                genes == self.selected_items@,
                total_value == catalog.total_value(genes.take(i as int)),
                total_weight == catalog.total_weight(genes.take(i as int)),
                total_value <= ITEM_BOUND * i,
                total_weight <= ITEM_BOUND * i,
        {
            proof {
                assert(genes.take(i + 1).drop_last() == genes.take(i as int));
                assert(catalog.values@[i as int] < ITEM_BOUND);
                assert(catalog.weights@[i as int] < ITEM_BOUND);
            }
            if self.selected_items[i] {
                total_value += catalog.values[i];
                total_weight += catalog.weights[i];
            }
        }
        proof {
            assert(genes.take(N as int) == genes);
        }
        if total_weight > catalog.weight_limit {
            self.fitness = -((total_weight - catalog.weight_limit) as isize);
        } else {
            self.fitness = total_value as isize;
        }
    }

    /// The child of `self` and `mate` cut at `cut`: bit `i` comes from
    /// `self` where `i < cut`, from `mate` otherwise. The child's fitness
    /// is not measured yet.
    pub fn crossover_at(&self, mate: &Individual<N>, cut: usize) -> (child: Individual<N>)
        ensures
            child.fitness == 0,
            child.selected_items@ == crossover_genes(
                self.selected_items@,
                mate.selected_items@,
                cut as int,
            ),
    {
        let mut selected_items: [bool; N] = [false; N];
        for i in 0..N
            invariant
                forall|j: int|
                    0 <= j < i ==> selected_items@[j] == crossover_genes(
                        self.selected_items@,
                        mate.selected_items@,
                        cut as int,
                    )[j],
        {
            if i < cut {
                selected_items[i] = self.selected_items[i];
            } else {
                selected_items[i] = mate.selected_items[i];
            }
        }
        Individual { selected_items, fitness: 0 }
    }

    /// Crossover at a cut point drawn from `[0, N)`.
    pub fn crossover_with(&self, mate: &Individual<N>, r: &mut StdRng) -> (child: Individual<N>)
        requires
            N > 0,
        ensures
            child.fitness == 0,
            exists|cut: int|
                0 <= cut < N && child.selected_items@ == #[trigger] crossover_genes(
                    self.selected_items@,
                    mate.selected_items@,
                    cut,
                ),
    {
        let crossover_point = random_below(r, N);
        self.crossover_at(mate, crossover_point)
    }

    /// Inverts the bit at `point`. The fitness stays as it was.
    pub fn mutate_at(&mut self, point: usize)
        requires
            point < N,
        ensures
            final(self).fitness == old(self).fitness,
            final(self).selected_items@ == flipped(old(self).selected_items@, point as int),
            differ_only_at(old(self).selected_items@, final(self).selected_items@, point as int),
    {
        self.selected_items[point] = !self.selected_items[point];
    }

    /// Inverts one bit, at a point drawn from `[0, N)`.
    pub fn mutate(&mut self, r: &mut StdRng)
        requires
            N > 0,
        ensures
            final(self).fitness == old(self).fitness,
            exists|point: int|
                0 <= point < N && final(self).selected_items@ == #[trigger] flipped(
                    old(self).selected_items@,
                    point,
                ),
            exists|point: int| #[trigger]
                differ_only_at(old(self).selected_items@, final(self).selected_items@, point),
    {
        let mutation_point = random_below(r, N);
        self.mutate_at(mutation_point);
    }

    /// Mutates with a chance of `numerator` in `denominator`, and tells
    /// whether it did. A chance of zero never mutates, a chance of one
    /// always does.
    pub fn mutate_by_chance(&mut self, r: &mut StdRng, numerator: u32, denominator: u32) -> (mutated:
        bool)
        requires
            N > 0,
            denominator > 0,
            numerator <= denominator,
        ensures
            final(self).fitness == old(self).fitness,
            mutated ==> exists|point: int|
                0 <= point < N && final(self).selected_items@ == #[trigger] flipped(
                    old(self).selected_items@,
                    point,
                ),
            !mutated ==> *final(self) == *old(self),
            numerator == denominator ==> mutated,
            numerator == 0 ==> !mutated,
    {
        let mutated = random_chance(r, numerator, denominator);
        if mutated {
            self.mutate(r);
        }
        mutated
    }
}

} // verus!
