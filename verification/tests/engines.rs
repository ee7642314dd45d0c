use knapsack::catalog::Catalog;
use knapsack::channel::{new_knapsack_ga_channel, KnapsackGAChannel};
use knapsack::coroutine::{new_knapsack_ga_coroutine, KnapsackGACoroutine};
use knapsack::individual::Individual;
use knapsack::knapsack_ga::POP_SIZE;
use knapsack::messages::{ProcessedCrossoverIndividuals, ProcessedIndividuals};
use knapsack::sequential::{new_knapsack_ga_sequential, KnapsackGASequential, SEED};
use knapsack::worker::{
    breed_chunk, breed_unit, measure_chunk, measure_unit, mutate_chunk, mutate_unit,
};
use rand::rngs::StdRng;
use rand::SeedableRng;

fn small_catalog() -> Catalog<4> {
    Catalog::new([10, 20, 30, 40], [5, 5, 5, 5], 10).expect("a well-formed catalog")
}

fn gene(code: usize) -> [bool; 4] {
    [code & 1 != 0, code & 2 != 0, code & 4 != 0, code & 8 != 0]
}

const BASE: [usize; 3] = [0b0011, 0b0100, 0b1111];

// The population cycles through three genes; the fittest of them, with
// items 2 and 3 packed, stands at index 498 and nowhere else.
fn initial_population() -> Vec<Individual<4>> {
    let mut population: Vec<Individual<4>> = (0..POP_SIZE)
        .map(|k| Individual { selected_items: gene(BASE[k % 3]), fitness: 0 })
        .collect();
    population[498].selected_items = gene(0b1100);
    population
}

fn elite() -> Individual<4> {
    Individual { selected_items: gene(0b1100), fitness: 70 }
}

fn pool_genes() -> Vec<[bool; 4]> {
    vec![gene(0b0011), gene(0b0100), gene(0b1111), gene(0b1100)]
}

fn is_cross(child: &[bool; 4]) -> bool {
    let pool = pool_genes();
    pool.iter().any(|first| {
        pool.iter().any(|second| {
            (0..4).any(|cut| (0..4).all(|i| child[i] == if i < cut { first[i] } else { second[i] }))
        })
    })
}

fn is_descendant(individual: &Individual<4>) -> bool {
    if individual.fitness != 0 {
        return false;
    }
    if is_cross(&individual.selected_items) {
        return true;
    }
    (0..4).any(|point| {
        let mut genes = individual.selected_items;
        genes[point] = !genes[point];
        is_cross(&genes)
    })
}

fn check_generation(population: &[Individual<4>]) {
    assert_eq!(population.len(), POP_SIZE);
    assert_eq!(population[0], elite());
    assert!(population[1..].iter().all(is_descendant));
    let distinct: std::collections::BTreeSet<[bool; 4]> =
        population[1..].iter().map(|individual| individual.selected_items).collect();
    assert!(distinct.len() > 4);
}

fn expected_fitness(genes: &[bool; 4]) -> isize {
    let weight = 5 * genes.iter().filter(|bit| **bit).count() as isize;
    let value: isize = (0..4).filter(|i| genes[*i]).map(|i| 10 * (i as isize + 1)).sum();
    if weight > 10 {
        -(weight - 10)
    } else {
        value
    }
}

#[test]
fn sequential_engine_starts_with_a_full_random_population() {
    let ga = new_knapsack_ga_sequential(small_catalog());
    assert_eq!(SEED, 0);
    assert_eq!(ga.population().len(), POP_SIZE);
    assert!(ga.population().iter().all(|individual| individual.fitness == 0));
    let distinct: std::collections::BTreeSet<[bool; 4]> =
        ga.population().iter().map(|individual| individual.selected_items).collect();
    assert_eq!(distinct.len(), 16);
}

#[test]
fn sequential_engine_is_repeatable() {
    let mut first = new_knapsack_ga_sequential(small_catalog());
    let mut second = new_knapsack_ga_sequential(small_catalog());
    assert_eq!(first.population(), second.population());
    let elite1 = first.run_generations(2);
    let elite2 = second.run_generations(2);
    assert_eq!(elite1, elite2);
    assert_eq!(first.population(), second.population());
}

#[test]
fn sequential_engine_refuses_a_population_of_the_wrong_size() {
    let mut population = initial_population();
    population.pop();
    assert!(KnapsackGASequential::from_population(small_catalog(), population, 1).is_none());
    let broken = Catalog { values: [100, 0, 0, 0], weights: [0; 4], weight_limit: 1 };
    assert!(KnapsackGASequential::from_population(broken, initial_population(), 1).is_none());
    let empty: Catalog<0> = Catalog { values: [], weights: [], weight_limit: 1 };
    let blank = vec![Individual { selected_items: [], fitness: 0 }; POP_SIZE];
    assert!(KnapsackGASequential::from_population(empty, blank, 1).is_none());
}

#[test]
fn sequential_generation_carries_the_elite_and_breeds_the_rest() {
    let mut ga = KnapsackGASequential::from_population(small_catalog(), initial_population(), 7)
        .expect("a well-formed engine");
    assert_eq!(*ga.best_of_population(), initial_population()[0]);
    let best = ga.evolve();
    assert_eq!(best, elite());
    check_generation(ga.population());
}

#[test]
fn sequential_run_of_no_generation_changes_nothing() {
    let mut ga = KnapsackGASequential::from_population(small_catalog(), initial_population(), 7)
        .expect("a well-formed engine");
    let first = ga.run_generations(0);
    assert_eq!(first, initial_population()[0]);
    assert_eq!(*ga.population(), initial_population());
}

#[test]
fn sequential_run_keeps_the_size_over_generations() {
    let mut ga = KnapsackGASequential::from_population(small_catalog(), initial_population(), 7)
        .expect("a well-formed engine");
    let elite_after = ga.run_generations(3);
    assert_eq!(ga.population().len(), POP_SIZE);
    assert_eq!(elite_after, ga.population()[0]);
    // the elite that is carried over was the fittest when it was measured
    assert_eq!(elite_after.fitness, expected_fitness(&elite_after.selected_items));
    assert!(elite_after.fitness >= 70);
}

#[test]
fn sequential_populate_replaces_the_population() {
    let mut ga = KnapsackGASequential::from_population(small_catalog(), initial_population(), 7)
        .expect("a well-formed engine");
    ga.populate_initial_population_randomly();
    assert_eq!(ga.population().len(), POP_SIZE);
    assert_ne!(*ga.population(), initial_population());
    assert!(ga.population().iter().all(|individual| individual.fitness == 0));
}

#[test]
fn channel_engine_starts_with_a_full_random_population() {
    let mut r = StdRng::seed_from_u64(31);
    let ga = new_knapsack_ga_channel(small_catalog(), 16, 500, &mut r);
    assert_eq!(ga.population().len(), POP_SIZE);
    assert_eq!(ga.next_population().len(), POP_SIZE);
    assert_eq!((ga.n_workers(), ga.chunk_size()), (16, 500));
    assert_eq!(*ga.catalog(), small_catalog());
    assert!(ga.population().iter().any(|individual| individual.selected_items == gene(9)));
}

#[test]
fn channel_engine_refuses_a_chunk_size_of_zero() {
    assert!(KnapsackGAChannel::from_population(small_catalog(), initial_population(), 4, 0).is_none());
    assert!(KnapsackGAChannel::from_population(small_catalog(), vec![], 4, 5).is_none());
    assert!(KnapsackGAChannel::from_population(small_catalog(), initial_population(), 0, 5).is_some());
}

#[test]
fn channel_passes_make_a_generation_in_any_order_of_arrival() {
    let mut ga = KnapsackGAChannel::from_population(small_catalog(), initial_population(), 4, 700)
        .expect("a well-formed engine");
    let catalog = small_catalog();

    let work = ga.fitness_work();
    assert_eq!(work.len(), 143);
    let mut replies: Vec<ProcessedIndividuals<4>> =
        work.into_iter().map(|message| measure_chunk(message, &catalog)).collect();
    replies.reverse();
    replies.swap(3, 77);
    ga.store_fitness(&replies);
    for (k, individual) in ga.population().iter().enumerate() {
        assert_eq!(individual.selected_items, initial_population()[k].selected_items);
        assert_eq!(individual.fitness, expected_fitness(&individual.selected_items));
    }
    assert_eq!(*ga.best_of_population(), elite());

    let work = ga.begin_crossover();
    assert!(ga.next_population().iter().all(|individual| *individual == elite()));
    assert_eq!(work[0].idx, 1);
    assert_eq!(work[0].chunk_size, 700);
    let mut workers: Vec<StdRng> = (0..4).map(|k| StdRng::seed_from_u64(100 + k)).collect();
    let mut replies: Vec<ProcessedCrossoverIndividuals<4>> = work
        .into_iter()
        .enumerate()
        .map(|(k, message)| breed_chunk(ga.population(), message, &mut workers[k % 4]))
        .collect();
    replies.rotate_left(50);
    ga.store_offspring(&replies);
    assert_eq!(ga.next_population()[0], elite());
    assert!(ga.next_population()[1..].iter().all(|child| child.fitness == 0 && is_cross(&child.selected_items)));

    let bred = ga.next_population().clone();
    let work = ga.mutation_work();
    assert_eq!(work[0].idx, 0);
    assert_eq!(work[0].population[0], bred[1]);
    let mut replies: Vec<ProcessedIndividuals<4>> = work
        .into_iter()
        .enumerate()
        .map(|(k, message)| mutate_chunk(message, &mut workers[k % 4]))
        .collect();
    replies.reverse();
    ga.store_mutants(&replies);
    let mut mutated = 0;
    for (old, new) in bred.iter().zip(ga.next_population().iter()).skip(1) {
        let changed = (0..4).filter(|i| old.selected_items[*i] != new.selected_items[*i]).count();
        assert!(changed <= 1);
        mutated += changed;
    }
    assert!(mutated > POP_SIZE / 3 && mutated < 2 * POP_SIZE / 3);
    assert_eq!(ga.next_population()[0], elite());

    assert_eq!(ga.finish_generation(), elite());
    check_generation(ga.population());
}

#[test]
fn channel_store_keeps_the_elite_against_a_stray_result() {
    let mut ga = KnapsackGAChannel::from_population(small_catalog(), initial_population(), 4, 700)
        .expect("a well-formed engine");
    let _ = ga.begin_crossover();
    let kept = ga.next_population()[0];
    let stray = Individual { selected_items: gene(0b1010), fitness: 1 };
    ga.store_offspring(&vec![
        ProcessedCrossoverIndividuals { idx: 0, chunk_size: 2, population: vec![stray; 2] },
        ProcessedCrossoverIndividuals { idx: POP_SIZE - 1, chunk_size: 2, population: vec![stray; 2] },
        ProcessedCrossoverIndividuals { idx: 5, chunk_size: 2, population: vec![stray; 2] },
    ]);
    assert_eq!(ga.next_population()[0], kept);
    assert_eq!(ga.next_population()[1], kept);
    assert_eq!(ga.next_population()[5], stray);
    assert_eq!(ga.next_population()[6], stray);
    assert_eq!(ga.next_population()[POP_SIZE - 1], kept);
    ga.store_mutants(&vec![
        ProcessedIndividuals { idx: 0, population: vec![stray] },
        ProcessedIndividuals { idx: POP_SIZE - 1, population: vec![stray] },
    ]);
    assert_eq!(ga.next_population()[0], kept);
    assert_eq!(ga.next_population()[1], stray);
    assert_eq!(ga.next_population()[POP_SIZE - 1], kept);
    assert_eq!(ga.next_population().len(), POP_SIZE);
}

#[test]
fn channel_lost_chunk_leaves_its_range_stale() {
    let mut ga = KnapsackGAChannel::from_population(small_catalog(), initial_population(), 4, 700)
        .expect("a well-formed engine");
    let catalog = small_catalog();
    let mut replies: Vec<ProcessedIndividuals<4>> =
        ga.fitness_work().into_iter().map(|message| measure_chunk(message, &catalog)).collect();
    let lost = replies.remove(1);
    assert_eq!(lost.idx, 700);
    ga.store_fitness(&replies);
    assert_eq!(ga.population().len(), POP_SIZE);
    assert_eq!(ga.population()[699].fitness, 30);
    assert!(ga.population()[700..1400].iter().all(|individual| individual.fitness == 0));
    assert_eq!(ga.population()[1403].fitness, -10);
}

#[test]
fn channel_inline_generation() {
    let mut ga = KnapsackGAChannel::from_population(small_catalog(), initial_population(), 4, 999)
        .expect("a well-formed engine");
    let mut r = StdRng::seed_from_u64(41);
    assert_eq!(ga.evolve_inline(&mut r), elite());
    check_generation(ga.population());
    ga.evolve_inline(&mut r);
    assert_eq!(ga.population().len(), POP_SIZE);
    assert!(ga.population()[0].fitness >= 70);
}

#[test]
fn channel_populate_replaces_the_population() {
    let mut ga = KnapsackGAChannel::from_population(small_catalog(), initial_population(), 4, 999)
        .expect("a well-formed engine");
    let mut r = StdRng::seed_from_u64(42);
    ga.populate_initial_population_randomly(&mut r);
    assert_eq!(ga.population().len(), POP_SIZE);
    assert_ne!(*ga.population(), initial_population());
}

#[test]
fn coroutine_engine_starts_with_a_full_random_population() {
    let mut r = StdRng::seed_from_u64(51);
    let ga = new_knapsack_ga_coroutine(small_catalog(), 500, &mut r);
    assert_eq!(ga.population().len(), POP_SIZE);
    assert_eq!(ga.next_population().len(), POP_SIZE);
    assert_eq!(ga.chunk_size(), 500);
    assert_eq!(*ga.catalog(), small_catalog());
    assert!(ga.population().iter().any(|individual| individual.selected_items == gene(6)));
}

#[test]
fn coroutine_engine_refuses_a_chunk_size_of_zero() {
    assert!(KnapsackGACoroutine::from_population(small_catalog(), initial_population(), 0).is_none());
    assert!(KnapsackGACoroutine::from_population(small_catalog(), initial_population(), 1).is_some());
}

#[test]
fn coroutine_passes_make_a_generation_in_any_order_of_completion() {
    let mut ga = KnapsackGACoroutine::from_population(small_catalog(), initial_population(), 3000)
        .expect("a well-formed engine");
    let catalog = small_catalog();

    let units = ga.fitness_units();
    assert_eq!(units.len(), 34);
    let mut replies: Vec<ProcessedIndividuals<4>> =
        units.iter().map(|unit| measure_unit(ga.population(), *unit, &catalog)).collect();
    replies.reverse();
    ga.store_fitness(&replies);
    assert!(ga
        .population()
        .iter()
        .all(|individual| individual.fitness == expected_fitness(&individual.selected_items)));
    assert_eq!(*ga.best_of_population(), elite());

    let units = ga.begin_crossover();
    assert_eq!((units[0].start, units[0].end), (1, 3001));
    assert!(ga.next_population().iter().all(|individual| *individual == elite()));
    let mut replies: Vec<ProcessedIndividuals<4>> = units
        .iter()
        .enumerate()
        .map(|(k, unit)| breed_unit(ga.population(), *unit, &mut StdRng::seed_from_u64(k as u64)))
        .collect();
    replies.swap(0, 33);
    ga.store_variation(&replies);
    assert_eq!(ga.next_population()[0], elite());
    assert!(ga.next_population()[1..].iter().all(|child| child.fitness == 0 && is_cross(&child.selected_items)));

    let units = ga.mutation_units();
    assert_eq!(units.len(), 34);
    let mut replies: Vec<ProcessedIndividuals<4>> = units
        .iter()
        .enumerate()
        .map(|(k, unit)| {
            mutate_unit(ga.next_population(), *unit, &mut StdRng::seed_from_u64(900 + k as u64))
        })
        .collect();
    replies.rotate_right(5);
    ga.store_variation(&replies);
    assert_eq!(ga.next_population()[0], elite());

    assert_eq!(ga.finish_generation(), elite());
    check_generation(ga.population());
}

#[test]
fn coroutine_inline_generation() {
    let mut ga = KnapsackGACoroutine::from_population(small_catalog(), initial_population(), 1)
        .expect("a well-formed engine");
    let mut r = StdRng::seed_from_u64(61);
    assert_eq!(ga.evolve_inline(&mut r), elite());
    check_generation(ga.population());
}

#[test]
fn coroutine_populate_replaces_the_population() {
    let mut ga = KnapsackGACoroutine::from_population(small_catalog(), initial_population(), 8)
        .expect("a well-formed engine");
    let mut r = StdRng::seed_from_u64(62);
    ga.populate_initial_population_randomly(&mut r);
    assert_eq!(ga.population().len(), POP_SIZE);
    assert_ne!(*ga.population(), initial_population());
}

#[test]
fn engines_agree_on_the_shape_of_a_generation() {
    let mut sequential =
        KnapsackGASequential::from_population(small_catalog(), initial_population(), 3)
            .expect("a well-formed engine");
    let mut channel =
        KnapsackGAChannel::from_population(small_catalog(), initial_population(), 16, 500)
            .expect("a well-formed engine");
    let mut coroutine =
        KnapsackGACoroutine::from_population(small_catalog(), initial_population(), 500)
            .expect("a well-formed engine");
    let mut r = StdRng::seed_from_u64(71);
    let elites = [sequential.evolve(), channel.evolve_inline(&mut r), coroutine.evolve_inline(&mut r)];
    assert_eq!(elites, [elite(); 3]);
    for population in [sequential.population(), channel.population(), coroutine.population()] {
        check_generation(population);
    }
}
