use rand::rngs::StdRng;
use rand::SeedableRng;
use stock_ga::config::{Configuration, Ratio};
use stock_ga::individual::Individual;
use stock_ga::simulation::Simulation;

const QUANTITIES: [i32; 5] = [30, 40, 20, 40, 20];

fn standard() -> Configuration {
    Configuration::new(
        QUANTITIES.to_vec(),
        vec![
            vec![1, 4, 6, 4, 4],
            vec![3, 8, 2, 5, 15],
            vec![3, 12, 3, 5, 5],
            vec![2, 6, 10, 2, 4],
            vec![10, 5, 12, 6, 3],
        ],
        20,
        5000,
        Ratio { numerator: 99, denominator: 100 },
        Ratio { numerator: 2, denominator: 1000 },
    ).unwrap()
}

#[test]
fn full_run_returns_a_conserving_genome_no_worse_than_the_start() {
    let mut simulation = Simulation::new(standard());
    let mut rng = StdRng::seed_from_u64(42);
    simulation.initialize(&mut rng);
    let founders: Vec<Individual> = simulation.population().clone();
    assert_eq!(founders.len(), 20);
    let best = simulation.evolve(&mut rng).unwrap();
    assert_eq!(best.chromosome.len(), 5);
    for (row, quantity) in best.chromosome.iter().zip(QUANTITIES.iter()) {
        assert_eq!(row.len(), 5);
        assert!(row.iter().all(|cell| *cell >= 0));
        assert_eq!(row.iter().sum::<i32>(), *quantity);
    }
    for founder in founders.iter() {
        assert!(founder.fitness <= best.fitness);
    }
    assert_eq!(best.fitness, best.fitness(simulation.config()));
    assert_eq!(simulation.population().len(), 100_000);
}

#[test]
fn full_run_from_scratch_terminates() {
    let mut simulation = Simulation::new(standard());
    let mut rng = StdRng::seed_from_u64(7);
    let best = simulation.run(&mut rng).unwrap();
    for (row, quantity) in best.chromosome.iter().zip(QUANTITIES.iter()) {
        assert_eq!(row.iter().sum::<i32>(), *quantity);
    }
    assert!(best.is_valid(simulation.config()));
    assert!(simulation.population().iter().all(|genome| genome.fitness <= best.fitness));
    assert_eq!(simulation.population().len(), 100_000);
}
