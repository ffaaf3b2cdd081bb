use rand::rngs::StdRng;
use rand::SeedableRng;
use stock_ga::breeding::{mutate_rows, random_row, splice_rows, transfer};
use stock_ga::config::{Configuration, Ratio};
use stock_ga::individual::{copy_rows, row_adds_up, row_inside, Individual};
use stock_ga::random::other_city;

const QUANTITIES: [i32; 5] = [30, 40, 20, 40, 20];

fn standard_with(mutation: Ratio) -> Configuration {
    Configuration::new(
        vec![30, 40, 20, 40, 20],
        vec![
            vec![1, 4, 6, 4, 4],
            vec![3, 8, 2, 5, 15],
            vec![3, 12, 3, 5, 5],
            vec![2, 6, 10, 2, 4],
            vec![10, 5, 12, 6, 3],
        ],
        20,
        5000,
        mutation,
        Ratio { numerator: 2, denominator: 1000 },
    ).unwrap()
}

fn standard() -> Configuration {
    standard_with(Ratio { numerator: 99, denominator: 100 })
}

fn conserves(genome: &Individual) -> bool {
    genome.chromosome.len() == 5
        && genome.chromosome.iter().zip(QUANTITIES.iter()).all(
        |(row, quantity)| {
            row.len() == 5 && row.iter().all(|cell| *cell >= 0) && row.iter().sum::<i32>()
                == *quantity
        },
    )
}

/// The number of cells in which two rows differ.
fn differing_cells(first: &Vec<i32>, second: &Vec<i32>) -> usize {
    first.iter().zip(second.iter()).filter(|(a, b)| a != b).count()
}

#[test]
fn random_genome_conserves_every_stock() {
    let config = standard();
    for seed in 0..200 {
        let mut rng = StdRng::seed_from_u64(seed);
        let genome = Individual::new(&config, &mut rng);
        assert!(conserves(&genome));
        assert!(genome.is_valid(&config));
        assert!(!genome.contains_sentinel());
        assert_eq!(genome.generation, 0);
        assert_eq!(genome.fitness, genome.fitness(&config));
    }
}

#[test]
fn random_genomes_differ() {
    // A source that always handed out the largest number would put every
    // stock into the first city.
    let config = standard();
    let mut rng = StdRng::seed_from_u64(17);
    let mut spread_out = false;
    let mut first_cells = Vec::new();
    for _ in 0..50 {
        let genome = Individual::new(&config, &mut rng);
        if genome.chromosome[0][0] != 30 {
            spread_out = true;
        }
        first_cells.push(genome.chromosome[0][0]);
    }
    assert!(spread_out);
    first_cells.sort();
    first_cells.dedup();
    assert!(first_cells.len() > 5);
}

#[test]
fn random_row_splits_the_quantity() {
    let mut rng = StdRng::seed_from_u64(3);
    for quantity in [0, 1, 7, 1000, i32::MAX] {
        for cities in [1usize, 2, 3, 8] {
            let row = random_row(quantity, cities, &mut rng);
            assert_eq!(row.len(), cities);
            assert!(row.iter().all(|cell| 0 <= *cell && *cell <= quantity));
            assert_eq!(row.iter().map(|cell| *cell as i64).sum::<i64>(), quantity as i64);
            assert!(row_inside(&row, quantity));
            assert!(row_adds_up(&row, quantity));
        }
    }
}

#[test]
fn zero_quantity_gives_a_row_of_zeros() {
    let config = Configuration::new(
        vec![0, 5],
        vec![vec![1, 1, 1], vec![1, 1, 1]],
        2,
        1,
        Ratio { numerator: 1, denominator: 1 },
        Ratio { numerator: 0, denominator: 1 },
    ).unwrap();
    for seed in 0..20 {
        let mut rng = StdRng::seed_from_u64(seed);
        let genome = Individual::new(&config, &mut rng);
        assert_eq!(genome.chromosome[0], vec![0, 0, 0]);
        assert_eq!(genome.chromosome[1].iter().sum::<i32>(), 5);
        assert!(genome.is_valid(&config));
    }
    let mut rng = StdRng::seed_from_u64(1);
    assert_eq!(random_row(0, 4, &mut rng), vec![0, 0, 0, 0]);
}

#[test]
fn single_city_takes_the_whole_quantity() {
    let mut rng = StdRng::seed_from_u64(5);
    assert_eq!(random_row(9, 1, &mut rng), vec![9]);
}

#[test]
fn same_seed_gives_the_same_genome() {
    let config = standard();
    for seed in [0u64, 1, 2, 99, 12345] {
        let mut first_rng = StdRng::seed_from_u64(seed);
        let mut second_rng = StdRng::seed_from_u64(seed);
        let first = Individual::new(&config, &mut first_rng);
        let second = Individual::new(&config, &mut second_rng);
        assert_eq!(first, second);
    }
}

#[test]
fn same_seed_gives_the_same_child() {
    let config = standard();
    let mut rng = StdRng::seed_from_u64(8);
    let mother = Individual::new(&config, &mut rng);
    let father = Individual::new(&config, &mut rng);
    for seed in [0u64, 4, 77] {
        let mut first_rng = StdRng::seed_from_u64(seed);
        let mut second_rng = StdRng::seed_from_u64(seed);
        let first = mother.crossover(&father, &config, &mut first_rng);
        let second = mother.crossover(&father, &config, &mut second_rng);
        assert_eq!(first, second);
    }
}

#[test]
fn same_seed_gives_the_same_mutation() {
    let config = standard();
    let mut rng = StdRng::seed_from_u64(21);
    let start = Individual::new(&config, &mut rng);
    for seed in [0u64, 5, 500] {
        let mut first = start.duplicate();
        let mut second = start.duplicate();
        let mut first_rng = StdRng::seed_from_u64(seed);
        let mut second_rng = StdRng::seed_from_u64(seed);
        first.mutate(&config, &mut first_rng);
        second.mutate(&config, &mut second_rng);
        assert_eq!(first, second);
    }
}

#[test]
fn splice_takes_the_first_rows_below_the_cut() {
    let first = vec![vec![1, 2], vec![3, 4], vec![5, 6]];
    let second = vec![vec![10, 20], vec![30, 40], vec![50, 60]];
    assert_eq!(splice_rows(&first, &second, 0), second);
    assert_eq!(splice_rows(&first, &second, 1), vec![vec![1, 2], vec![30, 40], vec![50, 60]]);
    assert_eq!(splice_rows(&first, &second, 2), vec![vec![1, 2], vec![3, 4], vec![50, 60]]);
    assert_eq!(splice_rows(&first, &second, 3), first);
    assert_eq!(splice_rows(&first, &second, 9), first);
    // the parents are left as they were
    assert_eq!(first, vec![vec![1, 2], vec![3, 4], vec![5, 6]]);
    assert_eq!(second, vec![vec![10, 20], vec![30, 40], vec![50, 60]]);
}

#[test]
fn transfer_moves_units_from_the_second_city_to_the_first() {
    let mut row = vec![4, 0, 9, 2];
    transfer(&mut row, 0, 2, 5);
    assert_eq!(row, vec![9, 0, 4, 2]);
    transfer(&mut row, 3, 0, 9);
    assert_eq!(row, vec![0, 0, 4, 11]);
    transfer(&mut row, 1, 2, 0);
    assert_eq!(row, vec![0, 0, 4, 11]);
}

#[test]
fn other_city_skips_the_first_city() {
    assert_eq!(other_city(0, 0), 1);
    assert_eq!(other_city(0, 3), 4);
    assert_eq!(other_city(2, 0), 0);
    assert_eq!(other_city(2, 1), 1);
    assert_eq!(other_city(2, 2), 3);
    assert_eq!(other_city(2, 3), 4);
    assert_eq!(other_city(4, 3), 3);
    for first in 0..5 {
        let mut seen = Vec::new();
        for drawn in 0..4 {
            let city = other_city(first, drawn);
            assert_ne!(city, first);
            assert!(city < 5);
            seen.push(city);
        }
        seen.dedup();
        assert_eq!(seen.len(), 4);
    }
}

#[test]
fn copied_rows_are_equal() {
    let rows = vec![vec![1, 2, 3], vec![], vec![-1]];
    assert_eq!(copy_rows(&rows), rows);
    assert_eq!(copy_rows(&Vec::new()), Vec::<Vec<i32>>::new());
}

#[test]
fn mutation_conserves_every_stock() {
    let config = standard();
    for seed in 0..200 {
        let mut rng = StdRng::seed_from_u64(seed);
        let mut genome = Individual::new(&config, &mut rng);
        let before = genome.duplicate();
        genome.mutate(&config, &mut rng);
        assert!(conserves(&genome));
        assert!(genome.is_allocation(&config));
        assert_eq!(genome.generation, before.generation);
        assert_eq!(genome.fitness, before.fitness);
        for stock in 0..5 {
            // one transfer in a row changes no cell or two cells
            let changed = differing_cells(&genome.chromosome[stock], &before.chromosome[stock]);
            assert!(changed == 0 || changed == 2);
        }
    }
}

#[test]
fn mutation_leaves_fitness_and_generation_alone() {
    let config = standard();
    let mut stale = false;
    for seed in 0..50 {
        let mut rng = StdRng::seed_from_u64(seed);
        let mut genome = Individual::new(&config, &mut rng);
        genome.fitness = 123_456;
        genome.generation = 9;
        genome.mutate(&config, &mut rng);
        assert_eq!(genome.fitness, 123_456);
        assert_eq!(genome.generation, 9);
        if genome.fitness(&config) != 123_456 {
            stale = true;
        }
    }
    assert!(stale);
}

#[test]
fn mutation_changes_some_genome() {
    let config = standard();
    let mut changed = false;
    for seed in 0..20 {
        let mut rng = StdRng::seed_from_u64(seed);
        let mut genome = Individual::new(&config, &mut rng);
        let before = genome.duplicate();
        genome.mutate(&config, &mut rng);
        if genome != before {
            changed = true;
        }
    }
    assert!(changed);
}

#[test]
fn mutation_with_a_single_city_changes_nothing() {
    let config = Configuration::new(
        vec![6, 2, 9],
        vec![vec![3], vec![1], vec![5]],
        3,
        2,
        Ratio { numerator: 1, denominator: 1 },
        Ratio { numerator: 0, denominator: 1 },
    ).unwrap();
    let mut rng = StdRng::seed_from_u64(2);
    let mut genome = Individual::new(&config, &mut rng);
    assert_eq!(genome.chromosome, vec![vec![6], vec![2], vec![9]]);
    let before = genome.duplicate();
    genome.mutate(&config, &mut rng);
    assert_eq!(genome, before);
    let child = genome.crossover(&before, &config, &mut rng);
    assert_eq!(child.chromosome, vec![vec![6], vec![2], vec![9]]);
    assert_eq!(child.generation, 1);
}

#[test]
fn mutation_of_rows_leaves_empty_rows_alone() {
    let config = Configuration::new(
        vec![0, 0],
        vec![vec![1, 1, 1], vec![1, 1, 1]],
        2,
        1,
        Ratio { numerator: 1, denominator: 1 },
        Ratio { numerator: 0, denominator: 1 },
    ).unwrap();
    let mut rng = StdRng::seed_from_u64(2);
    let mut rows = vec![vec![0, 0, 0], vec![0, 0, 0]];
    mutate_rows(&mut rows, &config, &mut rng);
    assert_eq!(rows, vec![vec![0, 0, 0], vec![0, 0, 0]]);
}

#[test]
fn crossover_conserves_every_stock() {
    let config = standard();
    for seed in 0..200 {
        let mut rng = StdRng::seed_from_u64(seed);
        let mother = Individual::new(&config, &mut rng);
        let father = Individual::new(&config, &mut rng);
        let child = mother.crossover(&father, &config, &mut rng);
        assert!(conserves(&child));
        assert!(child.is_valid(&config));
        assert_eq!(child.generation, 1);
        assert_eq!(child.fitness, child.fitness(&config));
    }
}

#[test]
fn crossover_leaves_the_parents_as_they_were() {
    let config = standard();
    let mut rng = StdRng::seed_from_u64(40);
    let mother = Individual::new(&config, &mut rng);
    let father = Individual::new(&config, &mut rng);
    let mother_before = mother.duplicate();
    let father_before = father.duplicate();
    let _child = mother.crossover(&father, &config, &mut rng);
    assert_eq!(mother, mother_before);
    assert_eq!(father, father_before);
}

#[test]
fn crossover_counts_one_more_generation_than_the_first_parent() {
    let config = standard();
    let mut rng = StdRng::seed_from_u64(41);
    let mut mother = Individual::new(&config, &mut rng);
    let mut father = Individual::new(&config, &mut rng);
    mother.generation = 7;
    father.generation = 100;
    let child = mother.crossover(&father, &config, &mut rng);
    assert_eq!(child.generation, 8);
    let other = father.crossover(&mother, &config, &mut rng);
    assert_eq!(other.generation, 101);
}

#[test]
fn crossover_without_mutation_is_a_splice() {
    let config = standard_with(Ratio { numerator: 0, denominator: 1 });
    let mut cuts_seen = Vec::new();
    for seed in 0..100 {
        let mut rng = StdRng::seed_from_u64(seed);
        let mother = Individual::new(&config, &mut rng);
        let father = Individual::new(&config, &mut rng);
        let child = mother.crossover(&father, &config, &mut rng);
        let cut = (0..5).find(
            |cut| child.chromosome == splice_rows(&mother.chromosome, &father.chromosome, *cut),
        );
        assert!(cut.is_some());
        cuts_seen.push(cut.unwrap());
    }
    // the cut is drawn: it is not always the last row
    cuts_seen.sort();
    cuts_seen.dedup();
    assert!(cuts_seen.len() > 1);
}

#[test]
fn crossover_with_certain_mutation_moves_units() {
    let config = standard_with(Ratio { numerator: 1, denominator: 1 });
    let mut moved = false;
    for seed in 0..50 {
        let mut rng = StdRng::seed_from_u64(seed);
        let mother = Individual::new(&config, &mut rng);
        let father = Individual::new(&config, &mut rng);
        let child = mother.crossover(&father, &config, &mut rng);
        assert!(conserves(&child));
        let spliced = (0..5).any(
            |cut| child.chromosome == splice_rows(&mother.chromosome, &father.chromosome, cut),
        );
        if !spliced {
            moved = true;
        }
        // every row is a row of one parent, with at most one transfer
        for stock in 0..5 {
            let from_mother = differing_cells(&child.chromosome[stock], &mother.chromosome[stock]);
            let from_father = differing_cells(&child.chromosome[stock], &father.chromosome[stock]);
            assert!(from_mother == 0 || from_mother == 2 || from_father == 0 || from_father == 2);
        }
    }
    assert!(moved);
}

#[test]
fn row_checks_tell_capacity_and_sum() {
    assert!(row_inside(&vec![0, 3, 10], 10));
    assert!(!row_inside(&vec![0, 3, 11], 10));
    assert!(!row_inside(&vec![0, -1, 4], 10));
    assert!(row_inside(&vec![], 10));
    assert!(row_adds_up(&vec![1, 2, 3], 6));
    assert!(!row_adds_up(&vec![1, 2, 3], 7));
    assert!(!row_adds_up(&vec![4, 4, 4], 5));
    assert!(row_adds_up(&vec![], 0));
    assert!(!row_adds_up(&vec![], 3));
}
