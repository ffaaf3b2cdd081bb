//! The genome: one candidate allocation with its fitness and the number of
//! breeding steps behind it.

use crate::config::Configuration;
use crate::fitness::score;
use crate::grid::{
    conserving,
    grid_of,
    has_sentinel,
    ints_of,
    lemma_prefix_sum_grows,
    prefix_sum,
    row_has_sentinel,
    row_sum,
    row_within,
    shaped,
    within_capacity,
    SENTINEL,
};
use vstd::prelude::*;

verus! {

/// One candidate allocation.
///
/// `chromosome` holds a row for each stock and in it a cell for each city.
/// `fitness` is held in hundredths. `generation` counts the breeding steps
/// behind the genome.
#[derive(Clone, Debug, PartialEq, Eq)]
pub struct Individual {
    pub chromosome: Vec<Vec<i32>>,
    pub fitness: u32,
    pub generation: u32,
}

/// What a genome stands for.
pub struct Genome {
    pub cells: Seq<Seq<int>>,
    pub fitness: int,
    pub generation: int,
}

impl View for Individual {
    type V = Genome;

    open spec fn view(&self) -> Genome {
        Genome {
            cells: grid_of(self.chromosome@),
            fitness: self.fitness as int,
            generation: self.generation as int,
        }
    }
}

impl Individual {
    /// The allocation as a grid of integers.
    pub open spec fn grid(&self) -> Seq<Seq<int>> {
        grid_of(self.chromosome@)
    }

    /// The chromosome has a row for each stock and a cell for each city.
    pub open spec fn fits(&self, config: &Configuration) -> bool {
        shaped(self.grid(), config.stock_count(), config.city_count())
    }

    /// The genome can be scored: it has the shape that the configuration
    /// asks for, and it holds the sentinel or stays inside the capacities.
    pub open spec fn scorable(&self, config: &Configuration) -> bool {
        &&& self.fits(config)
        &&& has_sentinel(self.grid()) || within_capacity(self.grid(), config.quantities())
    }

    /// The genome can be scored and its fitness is its score.
    pub open spec fn scored(&self, config: &Configuration) -> bool {
        &&& self.scorable(config)
        &&& self.fitness == score(self.grid(), config.prices())
    }

    /// The genome allocates every stock completely: it has the shape that the
    /// configuration asks for, no cell is negative, and every row adds up to
    /// the quantity of its stock.
    pub open spec fn allocates(&self, config: &Configuration) -> bool {
        &&& self.fits(config)
        &&& within_capacity(self.grid(), config.quantities())
        &&& conserving(self.grid(), config.quantities())
    }

    /// The genome allocates every stock completely, and its fitness is its
    /// score.
    pub open spec fn valid(&self, config: &Configuration) -> bool {
        &&& self.allocates(config)
        &&& self.fitness == score(self.grid(), config.prices())
    }
}

/// Copies the rows of a chromosome.
pub fn copy_rows(rows: &Vec<Vec<i32>>) -> (copy: Vec<Vec<i32>>)
    ensures
        grid_of(copy@) == grid_of(rows@),
{
    let mut copy: Vec<Vec<i32>> = Vec::new();
    let mut s: usize = 0;
    while s < rows.len()
        invariant
            s <= rows@.len(),
            copy@.len() == s,
            forall|i: int| 0 <= i < s ==> (#[trigger] copy@[i])@ == rows@[i]@,
        decreases rows@.len() - s,
    {
        copy.push(rows[s].clone());
        s += 1;
    }
    assert(grid_of(copy@) =~= grid_of(rows@));
    copy
}

impl Individual {
    /// A genome that stands for the same as this one.
    pub fn duplicate(&self) -> (copy: Individual)
        ensures
            copy@ == self@,
    {
        Individual {
            chromosome: copy_rows(&self.chromosome),
            fitness: self.fitness,
            generation: self.generation,
        }
    }
}

/// Tells whether the cells of a row lie between zero and `quantity`.
pub fn row_inside(row: &Vec<i32>, quantity: i32) -> (inside: bool)
    ensures
        inside == row_within(ints_of(row@), quantity as int),
{
    let ghost cells = ints_of(row@);
    let mut c: usize = 0;
    while c < row.len()
        invariant
            c <= row@.len(),
            cells == ints_of(row@),
            forall|i: int| 0 <= i < c ==> 0 <= #[trigger] cells[i] <= quantity,
        decreases row@.len() - c,
    {
        if row[c] < 0 || row[c] > quantity {
            assert(!(0 <= cells[c as int] <= quantity));
            return false;
        }
        c += 1;
    }
    true
}

/// Tells whether a row without negative cells adds up to `quantity`.
pub fn row_adds_up(row: &Vec<i32>, quantity: i32) -> (exact: bool)
    requires
        0 <= quantity,
        row_within(ints_of(row@), quantity as int),
    ensures
        exact == (row_sum(ints_of(row@)) == quantity),
{
    let ghost cells = ints_of(row@);
    let mut sum: i64 = 0;
    let mut c: usize = 0;
    while c < row.len()
        invariant
            c <= row@.len(),
            cells == ints_of(row@),
            row_within(cells, quantity as int),
            sum == prefix_sum(cells, c as int),
            0 <= sum <= quantity,
        decreases row@.len() - c,
    {
        assert(0 <= cells[c as int] <= quantity);
        sum = sum + row[c] as i64;
        c += 1;
        if sum > quantity as i64 {
            proof {
                lemma_prefix_sum_grows(cells, c as int, cells.len() as int);
            }
            return false;
        }
    }
    sum == quantity as i64
}

impl Individual {
    /// Tells whether the chromosome has a row for each stock and a cell for
    /// each city.
    pub fn has_shape(&self, config: &Configuration) -> (fitting: bool)
        ensures
            fitting == self.fits(config),
    {
        let ghost grid = self.grid();
        let cities: usize = config.cities();
        if self.chromosome.len() != config.stocks() {
            return false;
        }
        let mut s: usize = 0;
        while s < self.chromosome.len()
            invariant
                s <= self.chromosome@.len(),
                grid == self.grid(),
                cities == config.city_count(),
                grid.len() == config.stock_count(),
                forall|i: int| 0 <= i < s ==> (#[trigger] grid[i]).len() == cities,
            decreases self.chromosome@.len() - s,
        {
            if self.chromosome[s].len() != cities {
                assert(grid[s as int].len() != cities);
                return false;
            }
            s += 1;
        }
        true
    }

    /// Tells whether every cell lies between zero and the quantity of its
    /// stock.
    pub fn inside_capacity(&self, config: &Configuration) -> (inside: bool)
        requires
            self.fits(config),
        ensures
            inside == within_capacity(self.grid(), config.quantities()),
    {
        let ghost grid = self.grid();
        let ghost quantities = config.quantities();
        let stocks: usize = config.stocks();
        let mut s: usize = 0;
        while s < stocks
            invariant
                s <= stocks,
                stocks == config.stock_count(),
                grid == self.grid(),
                quantities == config.quantities(),
                self.fits(config),
                forall|i: int| 0 <= i < s ==> row_within(#[trigger] grid[i], quantities[i]),
            decreases stocks - s,
        {
            if !row_inside(&self.chromosome[s], config.quantity(s)) {
                assert(!row_within(grid[s as int], quantities[s as int]));
                return false;
            }
            s += 1;
        }
        true
    }

    /// Tells whether every row adds up to the quantity of its stock.
    pub fn conserves(&self, config: &Configuration) -> (exact: bool)
        requires
            self.fits(config),
            within_capacity(self.grid(), config.quantities()),
        ensures
            exact == conserving(self.grid(), config.quantities()),
    {
        let ghost grid = self.grid();
        let ghost quantities = config.quantities();
        let stocks: usize = config.stocks();
        let mut s: usize = 0;
        while s < stocks
            invariant
                s <= stocks,
                stocks == config.stock_count(),
                grid == self.grid(),
                quantities == config.quantities(),
                self.fits(config),
                within_capacity(grid, quantities),
                forall|i: int| 0 <= i < s ==> row_sum(#[trigger] grid[i]) == quantities[i],
            decreases stocks - s,
        {
            assert(row_within(grid[s as int], quantities[s as int]));
            if !row_adds_up(&self.chromosome[s], config.quantity(s)) {
                assert(row_sum(grid[s as int]) != quantities[s as int]);
                return false;
            }
            s += 1;
        }
        true
    }

    /// Tells whether the genome allocates every stock completely.
    pub fn is_allocation(&self, config: &Configuration) -> (complete: bool)
        ensures
            complete == self.allocates(config),
    {
        self.has_shape(config) && self.inside_capacity(config) && self.conserves(config)
    }

    /// Tells whether the genome allocates every stock completely and carries
    /// its score.
    pub fn is_valid(&self, config: &Configuration) -> (valid: bool)
        ensures
            valid == self.valid(config),
    {
        self.is_allocation(config) && self.fitness == self.fitness(config)
    }

    /// Scores a chromosome and makes a genome of it, with no breeding step
    /// behind it.
    ///
    /// Gives nothing if the chromosome does not have a row for each stock and
    /// a cell for each city, or if it holds no sentinel and a cell outside
    /// the capacity of its stock.
    pub fn with_chromosome(config: &Configuration, chromosome: Vec<Vec<i32>>) -> (made: Option<
        Individual,
    >)
        ensures
            made is Some <==> {
                &&& shaped(grid_of(chromosome@), config.stock_count(), config.city_count())
                &&& has_sentinel(grid_of(chromosome@)) || within_capacity(
                    grid_of(chromosome@),
                    config.quantities(),
                )
            },
            made matches Some(genome) ==> {
                &&& genome.chromosome == chromosome
                &&& genome.generation == 0
                &&& genome.scored(config)
            },
    {
        let mut genome = Individual { chromosome, fitness: 0, generation: 0 };
        if !genome.has_shape(config) {
            return None;
        }
        if !genome.contains_sentinel() && !genome.inside_capacity(config) {
            return None;
        }
        genome.fitness = genome.fitness(config);
        Some(genome)
    }

    /// The genome that stands for "not initialised": every cell holds the
    /// sentinel, and the fitness is zero.
    pub fn default(config: &Configuration) -> (genome: Individual)
        ensures
            genome.scored(config),
            genome.fitness == 0,
            genome.generation == 0,
            forall|s: int, c: int|
                0 <= s < config.stock_count() && 0 <= c < config.city_count()
                    ==> #[trigger] genome.grid()[s][c] == SENTINEL,
    {
        let stocks: usize = config.stocks();
        let cities: usize = config.cities();
        let mut chromosome: Vec<Vec<i32>> = Vec::new();
        let mut s: usize = 0;
        while s < stocks
            invariant
                s <= stocks,
                1 <= cities,
                chromosome@.len() == s,
                forall|i: int| 0 <= i < s ==> (#[trigger] chromosome@[i])@.len() == cities,
                forall|i: int, c: int|
                    0 <= i < s && 0 <= c < cities ==> #[trigger] chromosome@[i]@[c] == SENTINEL,
            decreases stocks - s,
        {
            let mut row: Vec<i32> = Vec::new();
            let mut c: usize = 0;
            while c < cities
                invariant
                    c <= cities,
                    row@.len() == c,
                    forall|i: int| 0 <= i < c ==> #[trigger] row@[i] == SENTINEL,
                decreases cities - c,
            {
                row.push(SENTINEL);
                c += 1;
            }
            chromosome.push(row);
            s += 1;
        }
        let genome = Individual { chromosome, fitness: 0, generation: 0 };
        proof {
            let grid = genome.grid();
            assert(grid[0][0] == SENTINEL);
            assert(row_has_sentinel(grid[0]));
            assert(has_sentinel(grid));
        }
        genome
    }
}

} // verus!
