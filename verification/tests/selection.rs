use knapsack::individual::Individual;
use knapsack::knapsack_ga::{
    best_of, tournament, tournament_among, N_GENERATIONS, POP_SIZE, PROB_MUTATION_DENOMINATOR,
    PROB_MUTATION_NUMERATOR, TOURNAMENT_SIZE,
};
use rand::rngs::StdRng;
use rand::SeedableRng;

fn tagged(tag: usize, fitness: isize) -> Individual<8> {
    let mut selected_items = [false; 8];
    selected_items[tag] = true;
    Individual { selected_items, fitness }
}

fn tag_of(individual: &Individual<8>) -> usize {
    individual.selected_items.iter().position(|bit| *bit).expect("a tag")
}

#[test]
fn run_parameters() {
    assert_eq!(N_GENERATIONS, 500);
    assert_eq!(POP_SIZE, 100000);
    assert_eq!(TOURNAMENT_SIZE, 3);
    assert_eq!((PROB_MUTATION_NUMERATOR, PROB_MUTATION_DENOMINATOR), (1, 2));
}

#[test]
fn tournament_among_picks_the_fittest_entrant() {
    let population = vec![tagged(0, 5), tagged(1, 9), tagged(2, -4), tagged(3, 7)];
    assert_eq!(tag_of(tournament_among(&population, &[0, 1, 2])), 1);
    assert_eq!(tag_of(tournament_among(&population, &[2, 3, 0])), 3);
    assert_eq!(tag_of(tournament_among(&population, &[2, 2, 2])), 2);
    assert_eq!(tag_of(tournament_among(&population, &[3])), 3);
}

#[test]
fn tournament_among_keeps_the_first_seen_on_a_tie() {
    let population = vec![tagged(0, 7), tagged(1, 7), tagged(2, 7), tagged(3, 1)];
    assert_eq!(tag_of(tournament_among(&population, &[1, 0, 2])), 1);
    assert_eq!(tag_of(tournament_among(&population, &[2, 1, 0])), 2);
    assert_eq!(tag_of(tournament_among(&population, &[3, 0, 1])), 0);
}

#[test]
fn tournament_returns_a_member_no_worse_than_two_others() {
    let population: Vec<Individual<8>> = (0..8).map(|tag| tagged(tag, tag as isize * 3 - 7)).collect();
    let mut r = StdRng::seed_from_u64(9);
    let mut winners = [0usize; 8];
    for _ in 0..2000 {
        let winner = tournament(&mut r, &population);
        let tag = tag_of(winner);
        assert_eq!(winner.fitness, tag as isize * 3 - 7);
        winners[tag] += 1;
    }
    assert!(winners[7] > winners[3]);
    assert!(winners[3] > winners[0]);
    assert!(winners[0] > 0);
}

#[test]
fn tournament_over_one_individual_returns_it() {
    let population = vec![tagged(5, 12)];
    let mut r = StdRng::seed_from_u64(9);
    assert_eq!(*tournament(&mut r, &population), population[0]);
}

#[test]
fn tournament_is_repeatable_for_one_seed() {
    let population: Vec<Individual<8>> = (0..8).map(|tag| tagged(tag, (tag % 3) as isize)).collect();
    let mut r1 = StdRng::seed_from_u64(21);
    let mut r2 = StdRng::seed_from_u64(21);
    for _ in 0..100 {
        assert_eq!(tournament(&mut r1, &population), tournament(&mut r2, &population));
    }
}

#[test]
fn best_of_finds_the_fittest() {
    let population = vec![tagged(0, -5), tagged(1, 30), tagged(2, 12), tagged(3, 29)];
    assert_eq!(tag_of(best_of(&population)), 1);
}

#[test]
fn best_of_keeps_the_first_index_on_a_tie() {
    let population = vec![tagged(0, 4), tagged(1, 30), tagged(2, 30), tagged(3, 30)];
    assert_eq!(tag_of(best_of(&population)), 1);
    let level = vec![tagged(4, 0), tagged(5, 0), tagged(6, 0)];
    assert_eq!(tag_of(best_of(&level)), 4);
}

#[test]
fn best_of_among_negative_fitness() {
    let population = vec![tagged(0, -40), tagged(1, -3), tagged(2, -3), tagged(3, -90)];
    assert_eq!(tag_of(best_of(&population)), 1);
}
