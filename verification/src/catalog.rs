//! The item catalog: the value and the weight of each of the `N` items, and
//! the weight that a knapsack can carry.

use crate::rng::random_below;
use rand::rngs::StdRng;
use vstd::prelude::*;

verus! {

/// Number of items of the standard problem.
pub const GEN_SIZE: usize = 1000;

/// Weight that the knapsack of the standard problem carries.
pub const WEIGHT_LIMIT: usize = 300;

/// Every value and every weight of a catalog lies below this bound.
pub const ITEM_BOUND: usize = 100;

/// Two parallel tables over the same `N` items. A catalog is written once
/// and only read afterwards.
#[derive(Clone, Copy, Debug, PartialEq, Eq)]
pub struct Catalog<const N: usize> {
    pub values: [usize; N],
    pub weights: [usize; N],
    pub weight_limit: usize,
}

/// Sum of `amounts[i]` over the positions `i` at which `genes` is set.
pub open spec fn selected_sum(genes: Seq<bool>, amounts: Seq<usize>) -> int
    decreases genes.len(),
{
    if genes.len() == 0 {
        0
    } else {
        selected_sum(genes.drop_last(), amounts) + if genes.last() {
            amounts[genes.len() - 1] as int
        } else {
            0
        }
    }
}

/// Every entry among the first `upto` lies below `ITEM_BOUND`.
pub open spec fn entries_bounded(amounts: Seq<usize>, upto: int) -> bool {
    forall|i: int| 0 <= i < upto ==> #[trigger] amounts[i] < ITEM_BOUND
}

/// No selection has a negative sum.
pub proof fn lemma_selected_sum_nonnegative(genes: Seq<bool>, amounts: Seq<usize>)
    ensures
        0 <= selected_sum(genes, amounts),
    decreases genes.len(),
{
    if genes.len() > 0 {
        lemma_selected_sum_nonnegative(genes.drop_last(), amounts);
    }
}

impl<const N: usize> Catalog<N> {
    /// The entries lie in `[0, ITEM_BOUND)`, and the largest sum that a
    /// selection can reach fits the type of a fitness.
    pub open spec fn wf(&self) -> bool {
        &&& entries_bounded(self.values@, N as int)
        &&& entries_bounded(self.weights@, N as int)
        &&& N * ITEM_BOUND <= isize::MAX
    }

    /// Total value of the items that `genes` selects.
    pub open spec fn total_value(&self, genes: Seq<bool>) -> int {
        selected_sum(genes, self.values@)
    }

    /// Total weight of the items that `genes` selects.
    pub open spec fn total_weight(&self, genes: Seq<bool>) -> int {
        selected_sum(genes, self.weights@)
    }

    /// The fitness of a selection: its total value while the knapsack
    /// carries it, else the excess weight, negated.
    pub open spec fn fitness_of(&self, genes: Seq<bool>) -> int {
        if self.total_weight(genes) > self.weight_limit {
            -(self.total_weight(genes) - self.weight_limit)
        } else {
            self.total_value(genes)
        }
    }

    /// A selection that the knapsack carries has its total value as fitness,
    /// which is not negative; one that is too heavy has the negated excess
    /// weight, which is negative.
    pub proof fn lemma_fitness_sign(&self, genes: Seq<bool>)
        ensures
            self.total_weight(genes) <= self.weight_limit ==> self.fitness_of(genes)
                == self.total_value(genes) && self.fitness_of(genes) >= 0,
            self.total_weight(genes) > self.weight_limit ==> self.fitness_of(genes)
                == -(self.total_weight(genes) - self.weight_limit) && self.fitness_of(genes) < 0,
    {
        lemma_selected_sum_nonnegative(genes, self.values@);
    }

    /// Tells whether the catalog is well formed.
    pub fn is_valid(&self) -> (ok: bool)
        ensures
            ok == self.wf(),
    {
        if N > isize::MAX as usize / ITEM_BOUND {
            return false;
        }
        let mut i: usize = 0;
        while i < N
            invariant
                i <= N,
                entries_bounded(self.values@, i as int),
                entries_bounded(self.weights@, i as int),
            decreases N - i,
        {
            if self.values[i] >= ITEM_BOUND || self.weights[i] >= ITEM_BOUND {
                return false;
            }
            i += 1;
        }
        true
    }

    /// Builds a catalog from its tables, or `None` where they are not well
    /// formed.
    pub fn new(values: [usize; N], weights: [usize; N], weight_limit: usize) -> (made: Option<Self>)
        ensures
            made matches Some(c) ==> c.wf() && c.values == values && c.weights == weights
                && c.weight_limit == weight_limit,
            made is Some <==> (Catalog { values, weights, weight_limit }).wf(),
    {
        let c = Catalog { values, weights, weight_limit };
        if c.is_valid() {
            Some(c)
        } else {
            None
        }
    }

    /// Draws every value and every weight from `[0, ITEM_BOUND)`: first the
    /// values in index order, then the weights.
    pub fn random(r: &mut StdRng, weight_limit: usize) -> (c: Self)
        requires
            N * ITEM_BOUND <= isize::MAX,
        ensures
            c.wf(),
            c.weight_limit == weight_limit,
    {
        let mut values: [usize; N] = [0; N];
        for i in 0..N
            invariant
                entries_bounded(values@, i as int),
        {
            values[i] = random_below(r, ITEM_BOUND);
        }
        let mut weights: [usize; N] = [0; N];
        for i in 0..N
            invariant
                entries_bounded(weights@, i as int),
        {
            weights[i] = random_below(r, ITEM_BOUND);
        }
        Catalog { values, weights, weight_limit }
    }
}

} // verus!
