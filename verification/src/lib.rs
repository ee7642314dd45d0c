//! A genetic algorithm for the 0/1 knapsack problem.
//!
//! The crate holds the evolutionary core: the item catalog, the individual
//! with its fitness and variation operators, tournament selection, the work
//! partitioner, the per-chunk work of the parallel engines with the
//! reassembly of their results, and the three engines themselves. Every
//! function carries a contract that Verus proves; the few calls into the
//! `rand` crate stand behind the wrappers of the `rng` module.

pub mod rng;
pub mod catalog;
pub mod individual;
pub mod knapsack_ga;
pub mod partition;
pub mod messages;
pub mod reassembly;
pub mod dispatch;
pub mod worker;
pub mod sequential;
pub mod channel;
pub mod coroutine;
pub mod passes;
