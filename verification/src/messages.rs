//! What travels between an engine and its workers: a chunk of individuals
//! to work on, and the chunk that comes back. Every message names, in
//! `idx`, the index at which its chunk starts.

use crate::individual::Individual;
use vstd::prelude::*;

verus! {

/// A chunk to measure or to mutate.
pub struct ProcessIndividuals<const N: usize> {
    pub idx: usize,
    pub population: Vec<Individual<N>>,
}

/// A chunk that was measured or mutated.
pub struct ProcessedIndividuals<const N: usize> {
    pub idx: usize,
    pub population: Vec<Individual<N>>,
}

/// A chunk of the next population to fill with offspring. `chunk_size` is
/// the size that the range was cut by; the chunk itself may be shorter.
pub struct ProcessCrossoverIndividuals<const N: usize> {
    pub idx: usize,
    pub chunk_size: usize,
    pub population: Vec<Individual<N>>,
}

/// A chunk of offspring.
pub struct ProcessedCrossoverIndividuals<const N: usize> {
    pub idx: usize,
    pub chunk_size: usize,
    pub population: Vec<Individual<N>>,
}

impl<const N: usize> ProcessedCrossoverIndividuals<N> {
    /// The same chunk at the same index, as a plain result.
    pub fn into_processed(self) -> (plain: ProcessedIndividuals<N>)
        ensures
            plain.idx == self.idx,
            plain.population@ == self.population@,
    {
        ProcessedIndividuals { idx: self.idx, population: self.population }
    }
}

} // verus!
