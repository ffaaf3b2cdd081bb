//! The configuration of a search: what there is to allocate, what it earns,
//! and how the population evolves.

use crate::error::SearchError;
use crate::fitness::{
    fertile,
    full_city_income_prefix,
    full_income,
    full_income_prefix,
    lemma_full_city_income_grows,
    lemma_full_income_grows,
    prices_not_negative,
    quantities_not_negative,
    width,
    INCOME_LIMIT,
};
use crate::grid::{grid_of, ints_of, shaped};
use vstd::prelude::*;

verus! {

/// A probability, given as a fraction.
#[derive(Clone, Copy, Debug, PartialEq, Eq, Structural)]
pub struct Ratio {
    pub numerator: u32,
    pub denominator: u32,
}

impl Ratio {
    /// The fraction lies between zero and one.
    pub open spec fn valid(self) -> bool {
        0 < self.denominator && self.numerator <= self.denominator
    }

    /// Tells whether the fraction lies between zero and one.
    pub fn is_valid(&self) -> (valid: bool)
        ensures
            valid == self.valid(),
    {
        0 < self.denominator && self.numerator <= self.denominator
    }
}

/// There is a stock and a city, the price table has a row for each stock and
/// a cell for each city, and no quantity or price is negative.
pub open spec fn market(quantities: Seq<int>, prices: Seq<Seq<int>>) -> bool {
    &&& quantities.len() >= 1
    &&& width(prices) >= 1
    &&& shaped(prices, quantities.len() as int, width(prices))
    &&& quantities_not_negative(quantities)
    &&& prices_not_negative(prices)
}

/// No allocation inside the capacities earns more than the fitness scale can
/// hold.
pub open spec fn scorable(quantities: Seq<int>, prices: Seq<Seq<int>>) -> bool {
    full_income(quantities, prices) <= INCOME_LIMIT
}

/// What a search is configured with. A value of this type is always valid.
pub struct Configuration {
    stocks: Vec<i32>,
    prices: Vec<Vec<i32>>,
    population_size: usize,
    generation_limit: u32,
    mutation_rate: Ratio,
    weak_acceptance_rate: Ratio,
}

impl Configuration {
    /// The quantity of each stock.
    pub closed spec fn quantities(&self) -> Seq<int> {
        ints_of(self.stocks@)
    }

    /// The price of each stock in each city.
    pub closed spec fn prices(&self) -> Seq<Seq<int>> {
        grid_of(self.prices@)
    }

    /// The number of stocks.
    pub open spec fn stock_count(&self) -> int {
        self.quantities().len() as int
    }

    /// The number of cities.
    pub open spec fn city_count(&self) -> int {
        width(self.prices())
    }

    /// The number of genomes in a population.
    pub closed spec fn spec_population_size(&self) -> usize {
        self.population_size
    }

    /// The number of generations of a run.
    pub closed spec fn spec_generation_limit(&self) -> u32 {
        self.generation_limit
    }

    /// The probability that a child is mutated.
    pub closed spec fn spec_mutation_rate(&self) -> Ratio {
        self.mutation_rate
    }

    /// The probability that a candidate is accepted though it is no better.
    pub closed spec fn spec_weak_acceptance_rate(&self) -> Ratio {
        self.weak_acceptance_rate
    }

    /// The market is fertile: some stock has a quantity to sell and a price
    /// above zero in every city.
    pub open spec fn is_fertile(&self) -> bool {
        fertile(self.quantities(), self.prices())
    }

    /// What holds of every configuration.
    pub open spec fn wf(&self) -> bool {
        &&& market(self.quantities(), self.prices())
        &&& scorable(self.quantities(), self.prices())
        &&& self.spec_mutation_rate().valid()
        &&& self.spec_weak_acceptance_rate().valid()
    }

    #[verifier::type_invariant]
    pub open spec fn inv(self) -> bool {
        self.wf()
    }

    /// Every quantity is the value of a 32-bit integer.
    pub proof fn lemma_quantities_fit(&self, stock: int)
        requires
            0 <= stock < self.stock_count(),
        ensures
            self.quantities()[stock] <= i32::MAX,
    {
    }

    /// Checks the values and makes a configuration of them.
    ///
    /// The values are refused as invalid if there is no stock or no city, if
    /// the price table does not have a row for each stock and a cell for each
    /// city, if a quantity or a price is negative, or if a rate is no
    /// probability. They are refused as beyond the fitness scale if every
    /// stock, sold whole in every city, would earn more than `INCOME_LIMIT`.
    pub fn new(
        stocks: Vec<i32>,
        prices: Vec<Vec<i32>>,
        population_size: usize,
        generation_limit: u32,
        mutation_rate: Ratio,
        weak_acceptance_rate: Ratio,
    ) -> (made: Result<Configuration, SearchError>)
        ensures
            made is Ok <==> {
                &&& market(ints_of(stocks@), grid_of(prices@))
                &&& mutation_rate.valid()
                &&& weak_acceptance_rate.valid()
                &&& scorable(ints_of(stocks@), grid_of(prices@))
            },
            made matches Ok(config) ==> {
                &&& config.wf()
                &&& config.quantities() == ints_of(stocks@)
                &&& config.prices() == grid_of(prices@)
                &&& config.spec_population_size() == population_size
                &&& config.spec_generation_limit() == generation_limit
                &&& config.spec_mutation_rate() == mutation_rate
                &&& config.spec_weak_acceptance_rate() == weak_acceptance_rate
            },
            made matches Err(error) ==> error == if market(ints_of(stocks@), grid_of(prices@))
                && mutation_rate.valid() && weak_acceptance_rate.valid() {
                SearchError::NonFiniteFitness
            } else {
                SearchError::InvalidConfiguration
            },
    {
        if !is_market(&stocks, &prices) || !mutation_rate.is_valid()
            || !weak_acceptance_rate.is_valid() {
            return Err(SearchError::InvalidConfiguration);
        }
        if !is_scorable(&stocks, &prices) {
            return Err(SearchError::NonFiniteFitness);
        }
        Ok(
            Configuration {
                stocks,
                prices,
                population_size,
                generation_limit,
                mutation_rate,
                weak_acceptance_rate,
            },
        )
    }

    /// The number of stocks.
    pub fn stocks(&self) -> (count: usize)
        ensures
            count == self.stock_count(),
            count >= 1,
    {
        proof {
            use_type_invariant(self);
        }
        self.stocks.len()
    }

    /// The number of cities.
    pub fn cities(&self) -> (count: usize)
        ensures
            count == self.city_count(),
            count >= 1,
    {
        proof {
            use_type_invariant(self);
        }
        self.prices[0].len()
    }

    /// The quantity of one stock.
    pub fn quantity(&self, stock: usize) -> (quantity: i32)
        requires
            stock < self.stock_count(),
        ensures
            quantity == self.quantities()[stock as int],
            quantity >= 0,
    {
        proof {
            use_type_invariant(self);
            assert(0 <= self.quantities()[stock as int]);
        }
        self.stocks[stock]
    }

    /// The price of one stock in one city.
    pub fn price(&self, stock: usize, city: usize) -> (price: i32)
        requires
            stock < self.stock_count(),
            city < self.city_count(),
        ensures
            price == self.prices()[stock as int][city as int],
            price >= 0,
    {
        proof {
            use_type_invariant(self);
            assert(self.prices()[stock as int].len() == self.city_count());
            assert(0 <= self.prices()[stock as int][city as int]);
        }
        self.prices[stock][city]
    }

    /// The number of genomes in a population.
    #[verifier::when_used_as_spec(spec_population_size)]
    pub fn population_size(&self) -> (size: usize)
        ensures
            size == self.spec_population_size(),
    {
        self.population_size
    }

    /// The number of generations of a run.
    #[verifier::when_used_as_spec(spec_generation_limit)]
    pub fn generation_limit(&self) -> (limit: u32)
        ensures
            limit == self.spec_generation_limit(),
    {
        self.generation_limit
    }

    /// The probability that a child is mutated.
    #[verifier::when_used_as_spec(spec_mutation_rate)]
    pub fn mutation_rate(&self) -> (rate: Ratio)
        ensures
            rate == self.spec_mutation_rate(),
            rate.valid(),
    {
        proof {
            use_type_invariant(self);
        }
        self.mutation_rate
    }

    /// The probability that a candidate is accepted though it is no better.
    #[verifier::when_used_as_spec(spec_weak_acceptance_rate)]
    pub fn weak_acceptance_rate(&self) -> (rate: Ratio)
        ensures
            rate == self.spec_weak_acceptance_rate(),
            rate.valid(),
    {
        proof {
            use_type_invariant(self);
        }
        self.weak_acceptance_rate
    }
}

/// Tells whether no cell of a row is negative.
fn row_not_negative(cells: &Vec<i32>) -> (fine: bool)
    ensures
        fine == forall|c: int| 0 <= c < cells@.len() ==> 0 <= #[trigger] cells@[c],
{
    let mut c: usize = 0;
    while c < cells.len()
        invariant
            c <= cells@.len(),
            forall|i: int| 0 <= i < c ==> 0 <= #[trigger] cells@[i],
        decreases cells@.len() - c,
    {
        if cells[c] < 0 {
            return false;
        }
        c += 1;
    }
    true
}

/// Tells whether the quantities and the price table describe a market.
fn is_market(stocks: &Vec<i32>, prices: &Vec<Vec<i32>>) -> (fine: bool)
    ensures
        fine == market(ints_of(stocks@), grid_of(prices@)),
{
    let ghost quantities = ints_of(stocks@);
    let ghost table = grid_of(prices@);
    if stocks.len() == 0 || prices.len() != stocks.len() {
        return false;
    }
    let cities: usize = prices[0].len();
    if cities == 0 {
        return false;
    }
    if !row_not_negative(stocks) {
        proof {
            let c: int = choose|c: int| 0 <= c < stocks@.len() && !(0 <= #[trigger] stocks@[c]);
            assert(quantities[c] < 0);
        }
        return false;
    }
    let mut s: usize = 0;
    while s < prices.len()
        invariant
            s <= prices@.len(),
            table == grid_of(prices@),
            cities == width(table),
            forall|i: int| 0 <= i < s ==> (#[trigger] table[i]).len() == cities,
            forall|i: int, c: int|
                0 <= i < s && 0 <= c < table[i].len() ==> 0 <= #[trigger] table[i][c],
        decreases prices@.len() - s,
    {
        if prices[s].len() != cities {
            assert(table[s as int].len() != cities);
            return false;
        }
        if !row_not_negative(&prices[s]) {
            proof {
                let row: Seq<i32> = prices@[s as int]@;
                let c: int = choose|c: int| 0 <= c < row.len() && !(0 <= #[trigger] row[c]);
                assert(table[s as int][c] < 0);
            }
            return false;
        }
        assert forall|c: int| 0 <= c < table[s as int].len() implies 0
            <= #[trigger] table[s as int][c] by {
            assert(0 <= prices@[s as int]@[c]);
        }
        s += 1;
    }
    assert forall|i: int| 0 <= i < quantities.len() implies 0 <= #[trigger] quantities[i] by {
        assert(0 <= stocks@[i]);
    }
    true
}

/// Tells whether the full income of a market stays inside the limit.
fn is_scorable(stocks: &Vec<i32>, prices: &Vec<Vec<i32>>) -> (fine: bool)
    requires
        market(ints_of(stocks@), grid_of(prices@)),
    ensures
        fine == scorable(ints_of(stocks@), grid_of(prices@)),
{
    let ghost quantities = ints_of(stocks@);
    let ghost table = grid_of(prices@);
    let cities: usize = prices[0].len();
    let mut total: u64 = 0;
    let mut c: usize = 0;
    while c < cities
        invariant
            c <= cities,
            cities == width(table),
            quantities == ints_of(stocks@),
            table == grid_of(prices@),
            market(quantities, table),
            total == full_income_prefix(quantities, table, c as int),
            total <= INCOME_LIMIT,
        decreases cities - c,
    {
        let mut earned: u64 = 0;
        let mut s: usize = 0;
        while s < stocks.len()
            invariant
                s <= stocks@.len(),
                c < cities,
                cities == width(table),
                quantities == ints_of(stocks@),
                table == grid_of(prices@),
                market(quantities, table),
                earned == full_city_income_prefix(quantities, table, c as int, s as int),
                total == full_income_prefix(quantities, table, c as int),
                total + earned <= INCOME_LIMIT,
            decreases stocks@.len() - s,
        {
            assert(table[s as int].len() == cities);
            assert(table[s as int][c as int] == prices@[s as int]@[c as int]);
            assert(0 <= table[s as int][c as int]);
            assert(quantities[s as int] == stocks@[s as int]);
            assert(0 <= quantities[s as int]);
            let quantity: u64 = stocks[s] as u64;
            let price: u64 = prices[s][c] as u64;
            assert(quantity * price <= 0x7fff_ffff * 0x7fff_ffff) by (nonlinear_arith)
                requires
                    quantity <= 0x7fff_ffff,
                    price <= 0x7fff_ffff,
            ;
            let term: u64 = quantity * price;
            if term > INCOME_LIMIT - total - earned {
                proof {
                    let stocks_count: int = quantities.len() as int;
                    lemma_full_city_income_grows(
                        quantities,
                        table,
                        c as int,
                        s as int + 1,
                        stocks_count,
                    );
                    lemma_full_income_grows(quantities, table, c as int + 1, cities as int);
                }
                return false;
            }
            earned = earned + term;
            s += 1;
        }
        total = total + earned;
        c += 1;
    }
    true
}

} // verus!
