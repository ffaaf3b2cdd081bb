//! Computing the fitness of a genome.

use crate::config::{market, scorable, Configuration};
use crate::fitness::{
    city_income,
    city_income_prefix,
    column_max_prefix,
    column_min_prefix,
    coverage_bonus,
    evenness,
    evenness_prefix,
    fairness,
    income,
    income_prefix,
    lemma_city_income_bounds,
    lemma_column_extremes,
    lemma_product_bounds,
    lemma_window_bounds,
    sold_spread,
    lemma_evenness_bounds,
    lemma_fertile_income,
    lemma_full_city_income_grows,
    lemma_full_income_grows,
    lemma_income_bounds,
    lemma_sold_extremes,
    nonzero_cells,
    nonzero_prefix,
    row_nonzero_prefix,
    score,
    sold,
    sold_max_prefix,
    sold_min_prefix,
    sold_prefix,
    width,
    window,
    COVERAGE_BONUS,
    INCOME_LIMIT,
    SCALE,
    WINDOW,
};
use crate::grid::{
    has_sentinel,
    ints_of,
    lemma_capacity_excludes_sentinel,
    row_has_sentinel,
    row_within,
    shaped,
    within_capacity,
    SENTINEL,
};
use crate::individual::Individual;
use vstd::prelude::*;

verus! {

/// Inside the capacities of a scorable market, what the first `n` stocks earn
/// in a city lies between zero and the income limit.
pub proof fn lemma_city_income_limit(
    grid: Seq<Seq<int>>,
    quantities: Seq<int>,
    prices: Seq<Seq<int>>,
    city: int,
    n: int,
)
    requires
        market(quantities, prices),
        scorable(quantities, prices),
        shaped(grid, quantities.len() as int, width(prices)),
        within_capacity(grid, quantities),
        0 <= city < width(prices),
        0 <= n <= quantities.len(),
    ensures
        0 <= city_income_prefix(grid, prices, city, n) <= INCOME_LIMIT,
{
    let stocks: int = quantities.len() as int;
    lemma_city_income_bounds(grid, quantities, prices, city, n);
    lemma_full_city_income_grows(quantities, prices, city, n, stocks);
    lemma_full_income_grows(quantities, prices, city + 1, width(prices));
    lemma_full_income_grows(quantities, prices, city, city);
}

/// Inside the capacities of a scorable market, the income of the first `n`
/// cities lies between zero and the income limit.
pub proof fn lemma_income_limit(
    grid: Seq<Seq<int>>,
    quantities: Seq<int>,
    prices: Seq<Seq<int>>,
    n: int,
)
    requires
        market(quantities, prices),
        scorable(quantities, prices),
        shaped(grid, quantities.len() as int, width(prices)),
        within_capacity(grid, quantities),
        0 <= n <= width(prices),
    ensures
        0 <= income_prefix(grid, prices, n) <= INCOME_LIMIT,
{
    lemma_income_bounds(grid, quantities, prices, n);
    lemma_full_income_grows(quantities, prices, n, width(prices));
}

/// Inside the capacities of a scorable market, the evenness bonus of the
/// first `n` cities lies between zero and twenty times the income limit.
pub proof fn lemma_evenness_limit(
    grid: Seq<Seq<int>>,
    quantities: Seq<int>,
    prices: Seq<Seq<int>>,
    n: int,
)
    requires
        market(quantities, prices),
        scorable(quantities, prices),
        shaped(grid, quantities.len() as int, width(prices)),
        within_capacity(grid, quantities),
        0 <= n <= width(prices),
    ensures
        0 <= evenness_prefix(grid, prices, n) <= WINDOW * INCOME_LIMIT,
{
    lemma_evenness_bounds(grid, quantities, prices, n);
    lemma_income_limit(grid, quantities, prices, n);
}

/// Inside the capacities of a scorable market the score of a grid is the
/// value of an unsigned 32-bit integer: it lies between a hundred times the
/// income and a hundred and forty times the income limit plus the coverage
/// bonus.
pub proof fn lemma_score_fits(grid: Seq<Seq<int>>, quantities: Seq<int>, prices: Seq<Seq<int>>)
    requires
        market(quantities, prices),
        scorable(quantities, prices),
        shaped(grid, quantities.len() as int, width(prices)),
        within_capacity(grid, quantities),
    ensures
        0 <= SCALE * income(grid, prices) <= score(grid, prices) <= 140 * INCOME_LIMIT + SCALE
            * COVERAGE_BONUS <= u32::MAX,
{
    let cities: int = width(prices);
    assert(width(grid) == cities);
    lemma_capacity_excludes_sentinel(grid, quantities);
    lemma_income_limit(grid, quantities, prices, cities);
    lemma_evenness_limit(grid, quantities, prices, cities);
    lemma_evenness_bounds(grid, quantities, prices, cities);
    lemma_sold_extremes(grid, cities);
    lemma_window_bounds(sold_spread(grid));
    lemma_product_bounds(window(sold_spread(grid)), WINDOW as int, income(grid, prices));
    assert(income(grid, prices) * window(sold_spread(grid)) == window(sold_spread(grid)) * income(
        grid,
        prices,
    )) by (nonlinear_arith);
}

/// In a fertile market every genome that allocates every stock completely
/// and carries its score has a fitness above zero.
pub proof fn lemma_fertile_fitness(genome: Individual, config: &Configuration)
    requires
        config.wf(),
        config.is_fertile(),
        genome.valid(config),
    ensures
        0 < genome.fitness,
{
    lemma_fertile_income(genome.grid(), config.quantities(), config.prices());
    lemma_score_fits(genome.grid(), config.quantities(), config.prices());
}

/// The percentage that a spread earns.
pub fn percentage(spread: u128) -> (share: u64)
    ensures
        share == window(spread as int),
        share <= WINDOW,
{
    if spread < 20 {
        20 - spread as u64
    } else {
        0
    }
}

/// Tells whether a cell of the row holds the sentinel.
pub fn row_contains_sentinel(row: &Vec<i32>) -> (found: bool)
    ensures
        found == row_has_sentinel(ints_of(row@)),
{
    let ghost cells = ints_of(row@);
    let mut c: usize = 0;
    while c < row.len()
        invariant
            c <= row@.len(),
            cells == ints_of(row@),
            forall|i: int| 0 <= i < c ==> #[trigger] cells[i] != SENTINEL,
        decreases row@.len() - c,
    {
        if row[c] == SENTINEL {
            assert(cells[c as int] == SENTINEL);
            return true;
        }
        c += 1;
    }
    false
}

impl Individual {
    /// Tells whether a cell of the chromosome holds the sentinel.
    pub fn contains_sentinel(&self) -> (found: bool)
        ensures
            found == has_sentinel(self.grid()),
    {
        let ghost grid = self.grid();
        let mut s: usize = 0;
        while s < self.chromosome.len()
            invariant
                s <= self.chromosome@.len(),
                grid == self.grid(),
                forall|i: int| 0 <= i < s ==> !row_has_sentinel(#[trigger] grid[i]),
            decreases self.chromosome@.len() - s,
        {
            if row_contains_sentinel(&self.chromosome[s]) {
                assert(row_has_sentinel(grid[s as int]));
                return true;
            }
            s += 1;
        }
        false
    }

    /// The income that the allocation earns in one city.
    pub fn f_base_city(&self, config: &Configuration, city: usize) -> (earned: u64)
        requires
            self.fits(config),
            within_capacity(self.grid(), config.quantities()),
            city < config.city_count(),
        ensures
            earned == city_income(self.grid(), config.prices(), city as int),
            earned <= INCOME_LIMIT,
    {
        proof {
            use_type_invariant(config);
        }
        let ghost grid = self.grid();
        let ghost quantities = config.quantities();
        let ghost prices = config.prices();
        let stocks: usize = config.stocks();
        let mut earned: u64 = 0;
        let mut s: usize = 0;
        while s < stocks
            invariant
                s <= stocks,
                stocks == config.stock_count(),
                grid == self.grid(),
                quantities == config.quantities(),
                prices == config.prices(),
                config.wf(),
                self.fits(config),
                within_capacity(grid, quantities),
                city < config.city_count(),
                earned == city_income_prefix(grid, prices, city as int, s as int),
            decreases stocks - s,
        {
            proof {
                lemma_city_income_limit(grid, quantities, prices, city as int, s as int + 1);
                assert(row_within(grid[s as int], quantities[s as int]));
                assert(0 <= grid[s as int][city as int]);
                assert(grid[s as int][city as int] == self.chromosome@[s as int]@[city as int]);
            }
            let cell: u64 = self.chromosome[s][city] as u64;
            let price: u64 = config.price(s, city) as u64;
            assert(cell * price <= 0x7fff_ffff * 0x7fff_ffff) by (nonlinear_arith)
                requires
                    cell <= 0x7fff_ffff,
                    price <= 0x7fff_ffff,
            ;
            earned = earned + cell * price;
            s += 1;
        }
        proof {
            lemma_city_income_limit(grid, quantities, prices, city as int, stocks as int);
        }
        earned
    }

    /// The base income of the allocation.
    pub fn f_base(&self, config: &Configuration) -> (earned: u64)
        requires
            self.fits(config),
            within_capacity(self.grid(), config.quantities()),
        ensures
            earned == income(self.grid(), config.prices()),
            earned <= INCOME_LIMIT,
    {
        proof {
            use_type_invariant(config);
        }
        let ghost grid = self.grid();
        let ghost quantities = config.quantities();
        let ghost prices = config.prices();
        let cities: usize = config.cities();
        let mut earned: u64 = 0;
        let mut c: usize = 0;
        while c < cities
            invariant
                c <= cities,
                cities == config.city_count(),
                grid == self.grid(),
                quantities == config.quantities(),
                prices == config.prices(),
                config.wf(),
                self.fits(config),
                within_capacity(grid, quantities),
                earned == income_prefix(grid, prices, c as int),
            decreases cities - c,
        {
            proof {
                lemma_income_limit(grid, quantities, prices, c as int + 1);
            }
            let here: u64 = self.f_base_city(config, c);
            earned = earned + here;
            c += 1;
        }
        proof {
            lemma_income_limit(grid, quantities, prices, cities as int);
            assert(width(grid) == cities);
        }
        earned
    }

    /// The coverage bonus in units of income: a hundred if as many cells are
    /// not zero as there are cities, else nothing.
    pub fn f1(&self, config: &Configuration) -> (bonus: u64)
        requires
            self.fits(config),
        ensures
            bonus == coverage_bonus(self.grid()),
            bonus == if nonzero_cells(self.grid()) == config.city_count() {
                COVERAGE_BONUS
            } else {
                0
            },
    {
        let ghost grid = self.grid();
        let stocks: usize = config.stocks();
        let cities: usize = config.cities();
        let mut visited: u128 = 0;
        let mut s: usize = 0;
        while s < stocks
            invariant
                s <= stocks,
                stocks == config.stock_count(),
                cities == config.city_count(),
                grid == self.grid(),
                self.fits(config),
                visited == nonzero_prefix(grid, s as int),
                visited <= s * 0xffff_ffff_ffff_ffff,
            decreases stocks - s,
        {
            let ghost row = grid[s as int];
            let mut in_row: usize = 0;
            let mut c: usize = 0;
            while c < cities
                invariant
                    c <= cities,
                    s < stocks,
                    stocks == config.stock_count(),
                    cities == config.city_count(),
                    grid == self.grid(),
                    row == grid[s as int],
                    self.fits(config),
                    in_row == row_nonzero_prefix(row, c as int),
                    in_row <= c,
                decreases cities - c,
            {
                assert(row[c as int] == self.chromosome@[s as int]@[c as int]);
                if self.chromosome[s][c] != 0 {
                    in_row += 1;
                }
                c += 1;
            }
            visited = visited + in_row as u128;
            s += 1;
        }
        assert(width(grid) == cities);
        if visited == cities as u128 {
            COVERAGE_BONUS
        } else {
            0
        }
    }

    /// The evenness bonus in hundredths: for each city its income times the
    /// percentage that the spread between its largest and its smallest
    /// allocation earns.
    pub fn f2(&self, config: &Configuration) -> (bonus: u64)
        requires
            self.fits(config),
            within_capacity(self.grid(), config.quantities()),
        ensures
            bonus == evenness(self.grid(), config.prices()),
            bonus <= WINDOW * INCOME_LIMIT,
    {
        proof {
            use_type_invariant(config);
        }
        let ghost grid = self.grid();
        let ghost quantities = config.quantities();
        let ghost prices = config.prices();
        let stocks: usize = config.stocks();
        let cities: usize = config.cities();
        let mut bonus: u64 = 0;
        let mut c: usize = 0;
        while c < cities
            invariant
                c <= cities,
                stocks == config.stock_count(),
                cities == config.city_count(),
                grid == self.grid(),
                quantities == config.quantities(),
                prices == config.prices(),
                config.wf(),
                self.fits(config),
                within_capacity(grid, quantities),
                bonus == evenness_prefix(grid, prices, c as int),
            decreases cities - c,
        {
            assert(grid[0][c as int] == self.chromosome@[0]@[c as int]);
            let mut highest: i32 = self.chromosome[0][c];
            let mut lowest: i32 = self.chromosome[0][c];
            let mut s: usize = 1;
            while s < stocks
                invariant
                    1 <= s <= stocks,
                    c < cities,
                    stocks == config.stock_count(),
                    cities == config.city_count(),
                    grid == self.grid(),
                    self.fits(config),
                    highest == column_max_prefix(grid, c as int, s as int),
                    lowest == column_min_prefix(grid, c as int, s as int),
                decreases stocks - s,
            {
                assert(grid[s as int][c as int] == self.chromosome@[s as int]@[c as int]);
                let cell: i32 = self.chromosome[s][c];
                if cell > highest {
                    highest = cell;
                }
                if cell < lowest {
                    lowest = cell;
                }
                s += 1;
            }
            proof {
                lemma_column_extremes(grid, quantities, cities as int, c as int, stocks as int);
                lemma_evenness_limit(grid, quantities, prices, c as int + 1);
                lemma_evenness_limit(grid, quantities, prices, c as int);
            }
            let spread: i64 = highest as i64 - lowest as i64;
            let share: u64 = percentage(spread as u128);
            let here: u64 = self.f_base_city(config, c);
            assert(here * share <= INCOME_LIMIT * WINDOW) by (nonlinear_arith)
                requires
                    here <= INCOME_LIMIT,
                    share <= WINDOW,
            ;
            bonus = bonus + here * share;
            c += 1;
        }
        proof {
            lemma_evenness_limit(grid, quantities, prices, cities as int);
            assert(width(grid) == cities);
        }
        bonus
    }

    /// The units that all stocks together sell in one city.
    pub fn sold_in(&self, config: &Configuration, city: usize) -> (units: u128)
        requires
            self.fits(config),
            within_capacity(self.grid(), config.quantities()),
            city < config.city_count(),
        ensures
            units == sold(self.grid(), city as int),
    {
        let ghost grid = self.grid();
        let ghost quantities = config.quantities();
        let stocks: usize = config.stocks();
        let mut units: u128 = 0;
        let mut s: usize = 0;
        while s < stocks
            invariant
                s <= stocks,
                stocks == config.stock_count(),
                grid == self.grid(),
                quantities == config.quantities(),
                self.fits(config),
                within_capacity(grid, quantities),
                city < config.city_count(),
                units == sold_prefix(grid, city as int, s as int),
                units <= s * 0x7fff_ffff,
            decreases stocks - s,
        {
            proof {
                assert(row_within(grid[s as int], quantities[s as int]));
                assert(0 <= grid[s as int][city as int]);
                assert(grid[s as int][city as int] == self.chromosome@[s as int]@[city as int]);
            }
            units = units + self.chromosome[s][city] as u128;
            s += 1;
        }
        units
    }

    /// The fairness bonus in hundredths: the base income times the percentage
    /// that the spread between the busiest and the quietest city earns.
    pub fn f3(&self, config: &Configuration) -> (bonus: u64)
        requires
            self.fits(config),
            within_capacity(self.grid(), config.quantities()),
        ensures
            bonus == fairness(self.grid(), config.prices()),
            bonus <= WINDOW * INCOME_LIMIT,
    {
        let ghost grid = self.grid();
        let stocks: usize = config.stocks();
        let cities: usize = config.cities();
        let mut most: u128 = self.sold_in(config, 0);
        let mut least: u128 = most;
        let mut c: usize = 1;
        while c < cities
            invariant
                1 <= c <= cities,
                1 <= stocks == config.stock_count(),
                cities == config.city_count(),
                grid == self.grid(),
                self.fits(config),
                within_capacity(grid, config.quantities()),
                most == sold_max_prefix(grid, c as int),
                least == sold_min_prefix(grid, c as int),
            decreases cities - c,
        {
            let units: u128 = self.sold_in(config, c);
            if units > most {
                most = units;
            }
            if units < least {
                least = units;
            }
            c += 1;
        }
        proof {
            lemma_sold_extremes(grid, cities as int);
            assert(width(grid) == cities);
        }
        let share: u64 = percentage(most - least);
        let earned: u64 = self.f_base(config);
        assert(earned * share <= INCOME_LIMIT * WINDOW) by (nonlinear_arith)
            requires
                earned <= INCOME_LIMIT,
                share <= WINDOW,
        ;
        earned * share
    }

    /// The fitness of the genome in hundredths: nothing if a cell holds the
    /// sentinel, else the base income and the three bonuses together.
    pub fn fitness(&self, config: &Configuration) -> (fitness: u32)
        requires
            self.scorable(config),
        ensures
            fitness == score(self.grid(), config.prices()),
            has_sentinel(self.grid()) ==> fitness == 0,
    {
        if self.contains_sentinel() {
            return 0;
        }
        let earned: u64 = self.f_base(config);
        let coverage: u64 = self.f1(config);
        let evenness: u64 = self.f2(config);
        let fairness: u64 = self.f3(config);
        let total: u64 = SCALE * earned + SCALE * coverage + evenness + fairness;
        total as u32
    }
}

} // verus!
