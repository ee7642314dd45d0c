use knapsack::catalog::{Catalog, GEN_SIZE, ITEM_BOUND, WEIGHT_LIMIT};
use knapsack::individual::{new_individual_random, Individual};
use rand::rngs::StdRng;
use rand::SeedableRng;

fn small_catalog() -> Catalog<4> {
    Catalog::new([10, 20, 30, 40], [5, 5, 5, 5], 10).expect("a well-formed catalog")
}

fn differing_bits(a: &[bool], b: &[bool]) -> usize {
    a.iter().zip(b.iter()).filter(|(x, y)| x != y).count()
}

#[test]
fn catalog_constants() {
    assert_eq!(GEN_SIZE, 1000);
    assert_eq!(WEIGHT_LIMIT, 300);
    assert_eq!(ITEM_BOUND, 100);
}

#[test]
fn catalog_new_keeps_its_tables() {
    let catalog = small_catalog();
    assert_eq!(catalog.values, [10, 20, 30, 40]);
    assert_eq!(catalog.weights, [5, 5, 5, 5]);
    assert_eq!(catalog.weight_limit, 10);
    assert!(catalog.is_valid());
}

#[test]
fn catalog_new_refuses_an_entry_at_the_bound() {
    assert!(Catalog::new([10, 100, 30, 40], [5, 5, 5, 5], 10).is_none());
    assert!(Catalog::new([10, 20, 30, 40], [5, 5, 5, 100], 10).is_none());
    assert!(Catalog::new([99, 99, 99, 99], [99, 99, 99, 99], 0).is_some());
    let broken = Catalog { values: [0, 0, 0, 250], weights: [0, 0, 0, 0], weight_limit: 1 };
    assert!(!broken.is_valid());
}

#[test]
fn catalog_random_draws_below_the_bound() {
    let mut r = StdRng::seed_from_u64(11);
    let catalog: Catalog<64> = Catalog::random(&mut r, WEIGHT_LIMIT);
    assert!(catalog.is_valid());
    assert_eq!(catalog.weight_limit, 300);
    assert!(catalog.values.iter().all(|v| *v < 100));
    assert!(catalog.weights.iter().all(|w| *w < 100));
    assert!(catalog.values.iter().any(|v| *v != catalog.values[0]));
}

#[test]
fn fitness_of_the_empty_gene_is_zero() {
    let catalog = small_catalog();
    let mut individual = Individual { selected_items: [false; 4], fitness: 99 };
    individual.measure_fitness(&catalog);
    assert_eq!(individual.fitness, 0);
}

#[test]
fn fitness_counts_only_selected_items() {
    let catalog = Catalog::new([1, 2, 4, 8], [3, 0, 6, 1], 7).expect("a well-formed catalog");
    let mut light = Individual { selected_items: [true, true, false, true], fitness: 0 };
    light.measure_fitness(&catalog);
    assert_eq!(light.fitness, 11);
    let mut at_limit = Individual { selected_items: [false, true, true, true], fitness: 0 };
    at_limit.measure_fitness(&catalog);
    assert_eq!(at_limit.fitness, 14);
    let mut heavy = Individual { selected_items: [true, false, true, false], fitness: 0 };
    heavy.measure_fitness(&catalog);
    assert_eq!(heavy.fitness, -2);
    let mut heaviest = Individual { selected_items: [true; 4], fitness: 0 };
    heaviest.measure_fitness(&catalog);
    assert_eq!(heaviest.fitness, -3);
}

#[test]
fn fitness_sign_tells_feasible_from_infeasible() {
    let catalog = small_catalog();
    for code in 0..16usize {
        let genes = [code & 1 != 0, code & 2 != 0, code & 4 != 0, code & 8 != 0];
        let mut individual = Individual { selected_items: genes, fitness: 0 };
        individual.measure_fitness(&catalog);
        let weight: usize = (0..4).filter(|i| genes[*i]).map(|i| catalog.weights[i]).sum();
        let value: usize = (0..4).filter(|i| genes[*i]).map(|i| catalog.values[i]).sum();
        if weight <= catalog.weight_limit {
            assert_eq!(individual.fitness, value as isize);
            assert!(individual.fitness >= 0);
        } else {
            assert_eq!(individual.fitness, -((weight - catalog.weight_limit) as isize));
            assert!(individual.fitness < 0);
        }
        assert_eq!(individual.selected_items, genes);
    }
}

#[test]
fn measuring_again_after_a_change_replaces_the_stale_fitness() {
    let catalog = small_catalog();
    let mut individual = Individual { selected_items: [true, false, false, false], fitness: 0 };
    individual.measure_fitness(&catalog);
    assert_eq!(individual.fitness, 10);
    individual.mutate_at(3);
    assert_eq!(individual.fitness, 10);
    individual.measure_fitness(&catalog);
    assert_eq!(individual.fitness, 50);
}

#[test]
fn blank_individual_packs_nothing() {
    let blank: Individual<6> = Individual::blank();
    assert_eq!(blank.selected_items, [false; 6]);
    assert_eq!(blank.fitness, 0);
}

#[test]
fn random_individual_is_unmeasured_and_repeatable() {
    let mut r1 = StdRng::seed_from_u64(5);
    let mut r2 = StdRng::seed_from_u64(5);
    let a: Individual<64> = new_individual_random(&mut r1);
    let b: Individual<64> = new_individual_random(&mut r2);
    assert_eq!(a, b);
    assert_eq!(a.fitness, 0);
    assert!(a.selected_items.iter().any(|bit| *bit));
    assert!(a.selected_items.iter().any(|bit| !*bit));
}

#[test]
fn crossover_takes_every_bit_from_the_right_parent() {
    let parent1 = Individual { selected_items: [true; 5], fitness: 3 };
    let parent2 = Individual { selected_items: [false; 5], fitness: 4 };
    for cut in 0..8usize {
        let child = parent1.crossover_at(&parent2, cut);
        for i in 0..5 {
            assert_eq!(child.selected_items[i], i < cut);
        }
        assert_eq!(child.fitness, 0);
    }
}

#[test]
fn crossover_at_zero_copies_the_mate() {
    let parent1 = Individual { selected_items: [true, false, true, false], fitness: 1 };
    let parent2 = Individual { selected_items: [false, true, true, true], fitness: 2 };
    assert_eq!(parent1.crossover_at(&parent2, 0).selected_items, parent2.selected_items);
    assert_eq!(parent1.crossover_at(&parent2, 4).selected_items, parent1.selected_items);
}

#[test]
fn crossover_with_cuts_inside_the_gene() {
    let parent1 = Individual { selected_items: [true; 16], fitness: 8 };
    let parent2 = Individual { selected_items: [false; 16], fitness: 9 };
    let mut r = StdRng::seed_from_u64(1);
    let mut cuts_seen = [false; 16];
    for _ in 0..400 {
        let child = parent1.crossover_with(&parent2, &mut r);
        let cut = child.selected_items.iter().filter(|bit| **bit).count();
        assert!(cut < 16);
        for i in 0..16 {
            assert_eq!(child.selected_items[i], i < cut);
        }
        assert_eq!(child.fitness, 0);
        cuts_seen[cut] = true;
    }
    assert!(cuts_seen.iter().all(|seen| *seen));
}

#[test]
fn mutate_at_flips_the_named_bit_only() {
    for point in 0..4usize {
        let mut individual = Individual { selected_items: [true, false, true, false], fitness: -3 };
        let before = individual.selected_items;
        individual.mutate_at(point);
        for i in 0..4 {
            assert_eq!(individual.selected_items[i] != before[i], i == point);
        }
        assert_eq!(individual.fitness, -3);
    }
}

#[test]
fn mutate_twice_at_one_point_restores_the_gene() {
    let mut individual = Individual { selected_items: [true, true, false, false], fitness: 0 };
    individual.mutate_at(1);
    individual.mutate_at(1);
    assert_eq!(individual.selected_items, [true, true, false, false]);
}

#[test]
fn mutate_changes_exactly_one_bit() {
    let mut r = StdRng::seed_from_u64(2);
    let mut points_seen = [false; 4];
    for _ in 0..200 {
        let mut individual = Individual { selected_items: [false, true, false, true], fitness: 6 };
        let before = individual.selected_items;
        individual.mutate(&mut r);
        assert_eq!(differing_bits(&before, &individual.selected_items), 1);
        assert_eq!(individual.fitness, 6);
        let point = (0..4).find(|i| before[*i] != individual.selected_items[*i]).expect("a point");
        points_seen[point] = true;
    }
    assert!(points_seen.iter().all(|seen| *seen));
}

#[test]
fn mutate_on_a_gene_of_one_bit_flips_it() {
    let mut r = StdRng::seed_from_u64(3);
    let mut individual = Individual { selected_items: [false], fitness: 0 };
    individual.mutate(&mut r);
    assert_eq!(individual.selected_items, [true]);
}

#[test]
fn certain_chance_always_mutates() {
    let mut r = StdRng::seed_from_u64(4);
    for _ in 0..50 {
        let mut individual = Individual { selected_items: [false; 8], fitness: 2 };
        assert!(individual.mutate_by_chance(&mut r, 1, 1));
        assert_eq!(differing_bits(&[false; 8], &individual.selected_items), 1);
        assert_eq!(individual.fitness, 2);
    }
}

#[test]
fn zero_chance_never_mutates() {
    let mut r = StdRng::seed_from_u64(4);
    for _ in 0..50 {
        let mut individual = Individual { selected_items: [true; 8], fitness: 2 };
        assert!(!individual.mutate_by_chance(&mut r, 0, 7));
        assert_eq!(individual.selected_items, [true; 8]);
    }
}

#[test]
fn even_chance_mutates_some_and_spares_some() {
    let mut r = StdRng::seed_from_u64(6);
    let mut mutated = 0;
    for _ in 0..400 {
        let mut individual = Individual { selected_items: [true; 8], fitness: 0 };
        let hit = individual.mutate_by_chance(&mut r, 1, 2);
        let changed = differing_bits(&[true; 8], &individual.selected_items);
        assert_eq!(changed, if hit { 1 } else { 0 });
        if hit {
            mutated += 1;
        }
    }
    assert!(mutated > 100 && mutated < 300);
}
