use rand::rngs::StdRng;
use rand::SeedableRng;
use stock_ga::config::{Configuration, Ratio};
use stock_ga::evaluation::{percentage, row_contains_sentinel};
use stock_ga::individual::Individual;

fn small() -> Configuration {
    Configuration::new(
        vec![10, 10],
        vec![vec![2, 3], vec![4, 1]],
        4,
        3,
        Ratio { numerator: 1, denominator: 2 },
        Ratio { numerator: 1, denominator: 100 },
    ).unwrap()
}

fn standard() -> Configuration {
    Configuration::new(
        vec![30, 40, 20, 40, 20],
        vec![
            vec![1, 4, 6, 4, 4],
            vec![3, 8, 2, 5, 15],
            vec![3, 12, 3, 5, 5],
            vec![2, 6, 10, 2, 4],
            vec![10, 5, 12, 6, 3],
        ],
        20,
        5000,
        Ratio { numerator: 99, denominator: 100 },
        Ratio { numerator: 2, denominator: 1000 },
    ).unwrap()
}

fn genome(config: &Configuration, rows: Vec<Vec<i32>>) -> Individual {
    Individual::with_chromosome(config, rows).unwrap()
}

#[test]
fn even_allocation_scores_every_term() {
    let config = small();
    let even = genome(&config, vec![vec![5, 5], vec![5, 5]]);
    assert_eq!(even.f_base_city(&config, 0), 30);
    assert_eq!(even.f_base_city(&config, 1), 20);
    assert_eq!(even.f_base(&config), 50);
    assert_eq!(even.f1(&config), 0);
    assert_eq!(even.f2(&config), 1000);
    assert_eq!(even.sold_in(&config, 0), 10);
    assert_eq!(even.sold_in(&config, 1), 10);
    assert_eq!(even.f3(&config), 1000);
    assert_eq!(even.fitness(&config), 7000);
    assert_eq!(even.fitness, 7000);
    assert_eq!(even.generation, 0);
}

#[test]
fn uneven_allocation_scores_every_term() {
    let config = small();
    let uneven = genome(&config, vec![vec![7, 3], vec![2, 8]]);
    assert_eq!(uneven.f_base_city(&config, 0), 22);
    assert_eq!(uneven.f_base_city(&config, 1), 17);
    assert_eq!(uneven.f_base(&config), 39);
    assert_eq!(uneven.f1(&config), 0);
    assert_eq!(uneven.f2(&config), 22 * 15 + 17 * 15);
    assert_eq!(uneven.sold_in(&config, 0), 9);
    assert_eq!(uneven.sold_in(&config, 1), 11);
    assert_eq!(uneven.f3(&config), 39 * 18);
    assert_eq!(uneven.fitness, 3900 + 585 + 702);
}

#[test]
fn one_city_for_each_stock_earns_the_coverage_bonus() {
    let config = small();
    let split = genome(&config, vec![vec![10, 0], vec![0, 10]]);
    assert_eq!(split.f_base(&config), 30);
    assert_eq!(split.f1(&config), 100);
    assert_eq!(split.f2(&config), 20 * 10 + 10 * 10);
    assert_eq!(split.f3(&config), 30 * 20);
    assert_eq!(split.fitness, 3000 + 10_000 + 300 + 600);
}

#[test]
fn coverage_bonus_needs_exactly_as_many_cells_as_cities() {
    let config = small();
    let exact = genome(&config, vec![vec![10, 0], vec![0, 10]]);
    let one_less = genome(&config, vec![vec![10, 0], vec![0, 0]]);
    let one_more = genome(&config, vec![vec![10, 0], vec![5, 5]]);
    assert_eq!(exact.f1(&config), 100);
    assert_eq!(one_less.f1(&config), 0);
    assert_eq!(one_more.f1(&config), 0);
}

#[test]
fn coverage_bonus_counts_cells_and_not_cities() {
    // Both cells lie in the first city: the second city gets nothing, and
    // the bonus is granted all the same.
    let config = small();
    let stacked = genome(&config, vec![vec![10, 0], vec![10, 0]]);
    assert_eq!(stacked.f1(&config), 100);
    // Every city gets something, from three cells: no bonus.
    let spread = genome(&config, vec![vec![5, 5], vec![0, 10]]);
    assert_eq!(spread.f1(&config), 0);
}

#[test]
fn coverage_bonus_adds_a_hundred_units_to_the_fitness() {
    let config = small();
    let stacked = genome(&config, vec![vec![10, 0], vec![10, 0]]);
    // income 20 + 40, spread 0 in the first city, cities sell 20 and 0
    assert_eq!(stacked.f_base(&config), 60);
    assert_eq!(stacked.f2(&config), 60 * 20);
    assert_eq!(stacked.f3(&config), 0);
    assert_eq!(stacked.fitness, 6000 + 10_000 + 1200);
}

#[test]
fn sentinel_makes_the_fitness_zero() {
    let config = small();
    let first = genome(&config, vec![vec![-1, 5], vec![3, 7]]);
    let last = genome(&config, vec![vec![10, 0], vec![0, -1]]);
    assert_eq!(first.fitness, 0);
    assert_eq!(last.fitness, 0);
    assert_eq!(first.fitness(&config), 0);
}

#[test]
fn sentinel_overrides_whatever_the_other_cells_hold() {
    let config = small();
    let wild = genome(&config, vec![vec![-1, i32::MAX], vec![i32::MIN, 12_345]]);
    assert_eq!(wild.fitness, 0);
    assert!(wild.contains_sentinel());
    let all = genome(&config, vec![vec![-1, -1], vec![-1, -1]]);
    assert_eq!(all.fitness, 0);
}

#[test]
fn sentinel_is_found_in_any_cell() {
    assert!(row_contains_sentinel(&vec![-1, 0, 0]));
    assert!(row_contains_sentinel(&vec![0, -1, 0]));
    assert!(row_contains_sentinel(&vec![0, 0, -1]));
    assert!(!row_contains_sentinel(&vec![0, 1, -2]));
    assert!(!row_contains_sentinel(&vec![]));
}

#[test]
fn default_genome_is_all_sentinel() {
    let config = standard();
    let blank = Individual::default(&config);
    assert_eq!(blank.chromosome, vec![vec![-1; 5]; 5]);
    assert_eq!(blank.fitness, 0);
    assert_eq!(blank.generation, 0);
    assert!(blank.contains_sentinel());
    assert!(!blank.is_valid(&config));
    assert_eq!(blank.fitness(&config), 0);
}

#[test]
fn chromosome_of_wrong_shape_is_refused() {
    let config = small();
    assert!(Individual::with_chromosome(&config, vec![vec![10, 0]]).is_none());
    assert!(Individual::with_chromosome(&config, vec![vec![10, 0], vec![0]]).is_none());
    assert!(Individual::with_chromosome(&config, vec![vec![10, 0, 0], vec![0, 10, 0]]).is_none());
    assert!(Individual::with_chromosome(&config, vec![]).is_none());
    assert!(Individual::with_chromosome(&config, vec![vec![-1], vec![0, 10]]).is_none());
}

#[test]
fn cell_outside_the_capacity_is_refused() {
    let config = small();
    assert!(Individual::with_chromosome(&config, vec![vec![11, 0], vec![0, 10]]).is_none());
    assert!(Individual::with_chromosome(&config, vec![vec![-2, 0], vec![0, 10]]).is_none());
    assert!(Individual::with_chromosome(&config, vec![vec![10, 10], vec![10, 10]]).is_some());
}

#[test]
fn diagonal_allocation_of_the_standard_market() {
    let config = standard();
    let diagonal = genome(
        &config,
        vec![
            vec![30, 0, 0, 0, 0],
            vec![0, 40, 0, 0, 0],
            vec![0, 0, 20, 0, 0],
            vec![0, 0, 0, 40, 0],
            vec![0, 0, 0, 0, 20],
        ],
    );
    assert_eq!(diagonal.f_base_city(&config, 0), 30);
    assert_eq!(diagonal.f_base_city(&config, 1), 320);
    assert_eq!(diagonal.f_base_city(&config, 2), 60);
    assert_eq!(diagonal.f_base_city(&config, 3), 80);
    assert_eq!(diagonal.f_base_city(&config, 4), 60);
    assert_eq!(diagonal.f_base(&config), 550);
    assert_eq!(diagonal.f1(&config), 100);
    assert_eq!(diagonal.f2(&config), 0);
    assert_eq!(diagonal.f3(&config), 0);
    assert_eq!(diagonal.fitness, 65_000);
    assert!(diagonal.is_valid(&config));
}

#[test]
fn balanced_allocation_of_the_standard_market() {
    let config = standard();
    let balanced = genome(
        &config,
        vec![
            vec![6, 6, 6, 6, 6],
            vec![8, 8, 8, 8, 8],
            vec![4, 4, 4, 4, 4],
            vec![8, 8, 8, 8, 8],
            vec![4, 4, 4, 4, 4],
        ],
    );
    // city incomes: 6*p0 + 8*p1 + 4*p2 + 8*p3 + 4*p4 for each column
    let incomes: [u64; 5] = [
        6 + 24 + 12 + 16 + 40,
        24 + 64 + 48 + 48 + 20,
        36 + 16 + 12 + 80 + 48,
        24 + 40 + 20 + 16 + 24,
        24 + 120 + 20 + 32 + 12,
    ];
    let mut total: u64 = 0;
    for city in 0..5 {
        assert_eq!(balanced.f_base_city(&config, city), incomes[city]);
        total += incomes[city];
    }
    assert_eq!(total, 826);
    assert_eq!(balanced.f_base(&config), 826);
    assert_eq!(balanced.f1(&config), 0);
    // every column spreads from 4 to 8: sixteen percent of each city income
    assert_eq!(balanced.f2(&config), 826 * 16);
    // every city sells 30: twenty percent of the whole income
    assert_eq!(balanced.f3(&config), 826 * 20);
    assert_eq!(balanced.fitness, 82_600 + 826 * 16 + 826 * 20);
    assert!(balanced.is_valid(&config));
}

#[test]
fn spread_of_twenty_or_more_earns_nothing() {
    assert_eq!(percentage(0), 20);
    assert_eq!(percentage(1), 19);
    assert_eq!(percentage(19), 1);
    assert_eq!(percentage(20), 0);
    assert_eq!(percentage(21), 0);
    assert_eq!(percentage(u128::MAX), 0);
}

#[test]
fn fitness_at_the_income_limit_fits_the_scale() {
    let config = Configuration::new(
        vec![30_678_266],
        vec![vec![1]],
        1,
        1,
        Ratio { numerator: 1, denominator: 2 },
        Ratio { numerator: 1, denominator: 2 },
    ).unwrap();
    let full = genome(&config, vec![vec![30_678_266]]);
    assert_eq!(full.f_base(&config), 30_678_266);
    assert_eq!(full.f1(&config), 100);
    assert_eq!(full.f2(&config), 20 * 30_678_266);
    assert_eq!(full.f3(&config), 20 * 30_678_266);
    assert_eq!(full.fitness, 4_294_967_240);
}

#[test]
fn validity_asks_for_conservation_and_the_score() {
    let config = small();
    let whole = genome(&config, vec![vec![7, 3], vec![2, 8]]);
    assert!(whole.is_valid(&config));
    assert!(whole.has_shape(&config));
    assert!(whole.inside_capacity(&config));
    assert!(whole.conserves(&config));
    let short = genome(&config, vec![vec![7, 2], vec![2, 8]]);
    assert!(short.inside_capacity(&config));
    assert!(!short.conserves(&config));
    assert!(!short.is_valid(&config));
    let long = genome(&config, vec![vec![7, 4], vec![2, 8]]);
    assert!(!long.conserves(&config));
    let mut stale = genome(&config, vec![vec![7, 3], vec![2, 8]]);
    stale.fitness += 1;
    assert!(!stale.is_valid(&config));
    let sentinel = genome(&config, vec![vec![-1, 11], vec![0, 10]]);
    assert!(!sentinel.is_valid(&config));
}

#[test]
fn duplicate_stands_for_the_same_genome() {
    let config = small();
    let mut first = genome(&config, vec![vec![7, 3], vec![2, 8]]);
    first.generation = 4;
    let second = first.duplicate();
    assert_eq!(first, second);
    assert_eq!(second.chromosome, vec![vec![7, 3], vec![2, 8]]);
    assert_eq!(second.fitness, 5187);
    assert_eq!(second.generation, 4);
}

/// The fitness in hundredths, computed cell by cell from the formulas.
fn expected_fitness(rows: &Vec<Vec<i32>>, prices: &Vec<Vec<i32>>) -> i64 {
    let stocks = rows.len();
    let cities = rows[0].len();
    if rows.iter().any(|row| row.iter().any(|cell| *cell == -1)) {
        return 0;
    }
    let mut income: i64 = 0;
    let mut evenness: i64 = 0;
    let mut sold: Vec<i64> = Vec::new();
    let mut cells: usize = 0;
    for city in 0..cities {
        let column: Vec<i64> = (0..stocks).map(|stock| rows[stock][city] as i64).collect();
        let earned: i64 = (0..stocks).map(|stock| column[stock] * prices[stock][city] as i64).sum();
        let spread = column.iter().max().unwrap() - column.iter().min().unwrap();
        income += earned;
        evenness += earned * std::cmp::max(20 - spread, 0);
        sold.push(column.iter().sum());
        cells += column.iter().filter(|cell| **cell != 0).count();
    }
    let spread = sold.iter().max().unwrap() - sold.iter().min().unwrap();
    let fairness = income * std::cmp::max(20 - spread, 0);
    let coverage: i64 = if cells == cities { 100 } else { 0 };
    100 * income + 100 * coverage + evenness + fairness
}

#[test]
fn fitness_of_random_genomes_follows_the_formulas() {
    let config = standard();
    let prices = vec![
        vec![1, 4, 6, 4, 4],
        vec![3, 8, 2, 5, 15],
        vec![3, 12, 3, 5, 5],
        vec![2, 6, 10, 2, 4],
        vec![10, 5, 12, 6, 3],
    ];
    let mut rng = StdRng::seed_from_u64(11);
    let mut bonuses = 0;
    for _ in 0..500 {
        let genome = Individual::new(&config, &mut rng);
        assert_eq!(genome.fitness as i64, expected_fitness(&genome.chromosome, &prices));
        let sum = 100 * genome.f_base(&config) + 100 * genome.f1(&config) + genome.f2(&config)
            + genome.f3(&config);
        assert_eq!(genome.fitness as u64, sum);
        if genome.f2(&config) > 0 || genome.f3(&config) > 0 {
            bonuses += 1;
        }
    }
    assert!(bonuses > 0);
}

#[test]
fn fitness_of_small_genomes_follows_the_formulas() {
    let config = small();
    let prices = vec![vec![2, 3], vec![4, 1]];
    for first in 0..=10 {
        for second in 0..=10 {
            let rows = vec![vec![first, 10 - first], vec![second, 10 - second]];
            let scored = genome(&config, rows.clone());
            assert_eq!(scored.fitness as i64, expected_fitness(&rows, &prices));
            assert!(scored.is_valid(&config));
        }
    }
}
