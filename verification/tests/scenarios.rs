use knapsack::catalog::Catalog;
use knapsack::individual::Individual;
use knapsack::partition::{partition, WorkChunk};

fn small_catalog() -> Catalog<4> {
    Catalog::new([10, 20, 30, 40], [5, 5, 5, 5], 10).expect("a well-formed catalog")
}

#[test]
fn feasible_gene_scores_its_value() {
    let catalog = small_catalog();
    let mut individual = Individual { selected_items: [true, true, false, false], fitness: 0 };
    individual.measure_fitness(&catalog);
    assert_eq!(individual.fitness, 30);
    assert_eq!(individual.selected_items, [true, true, false, false]);
}

#[test]
fn overweight_gene_scores_negated_excess() {
    let catalog = small_catalog();
    let mut individual = Individual { selected_items: [true, true, true, true], fitness: 0 };
    individual.measure_fitness(&catalog);
    assert_eq!(individual.fitness, -10);
}

#[test]
fn crossover_at_cut_two() {
    let parent1 = Individual { selected_items: [true, false, true, false], fitness: 7 };
    let parent2 = Individual { selected_items: [false, true, false, true], fitness: 9 };
    let child = parent1.crossover_at(&parent2, 2);
    assert_eq!(child.selected_items, [true, false, false, true]);
    assert_eq!(child.fitness, 0);
}

#[test]
fn partition_ten_by_three() {
    let chunks = partition(10, 0, 3);
    assert_eq!(
        chunks,
        vec![
            WorkChunk { start: 0, end: 3 },
            WorkChunk { start: 3, end: 6 },
            WorkChunk { start: 6, end: 9 },
            WorkChunk { start: 9, end: 10 },
        ]
    );
}

#[test]
fn mutation_at_point_two() {
    let mut individual = Individual { selected_items: [false, false, false, false], fitness: 5 };
    individual.mutate_at(2);
    assert_eq!(individual.selected_items, [false, false, true, false]);
    assert_eq!(individual.fitness, 5);
}
