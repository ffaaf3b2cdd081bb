//! The fitness of a grid: its income under a table of prices, and three bonus
//! terms. Every term is stated in hundredths of a unit of income, which makes
//! each of them an integer.

use crate::grid::{
    conserving,
    has_sentinel,
    lemma_positive_cell,
    row_sum,
    row_has_sentinel,
    row_within,
    shaped,
    within_capacity,
    SENTINEL,
};
use vstd::prelude::*;

verus! {

/// Hundredths in one unit of income.
pub const SCALE: u64 = 100;

/// The coverage bonus, in units of income.
pub const COVERAGE_BONUS: u64 = 100;

/// The spread at which the evenness and fairness bonuses vanish.
pub const WINDOW: u64 = 20;

/// The largest income that a configuration may promise: with it the fitness
/// of every grid inside the capacities fits in 32 bits.
pub const INCOME_LIMIT: u64 = 30_678_266;

/// The number of cities of a grid, read from its first row.
pub open spec fn width(grid: Seq<Seq<int>>) -> int {
    if grid.len() > 0 {
        grid[0].len() as int
    } else {
        0
    }
}

/// The income that the first `n` stocks earn in `city`.
pub open spec fn city_income_prefix(
    grid: Seq<Seq<int>>,
    prices: Seq<Seq<int>>,
    city: int,
    n: int,
) -> int
    decreases n,
{
    if n <= 0 {
        0
    } else {
        city_income_prefix(grid, prices, city, n - 1) + grid[n - 1][city] * prices[n - 1][city]
    }
}

/// The income that all stocks earn in `city`.
pub open spec fn city_income(grid: Seq<Seq<int>>, prices: Seq<Seq<int>>, city: int) -> int {
    city_income_prefix(grid, prices, city, grid.len() as int)
}

/// The income of the first `n` cities.
pub open spec fn income_prefix(grid: Seq<Seq<int>>, prices: Seq<Seq<int>>, n: int) -> int
    decreases n,
{
    if n <= 0 {
        0
    } else {
        income_prefix(grid, prices, n - 1) + city_income(grid, prices, n - 1)
    }
}

/// The base income: allocation times price, over every stock and city.
pub open spec fn income(grid: Seq<Seq<int>>, prices: Seq<Seq<int>>) -> int {
    income_prefix(grid, prices, width(grid))
}

/// How many of the first `n` cells of a row are not zero.
pub open spec fn row_nonzero_prefix(row: Seq<int>, n: int) -> int
    decreases n,
{
    if n <= 0 {
        0
    } else {
        row_nonzero_prefix(row, n - 1) + if row[n - 1] != 0 {
            1int
        } else {
            0int
        }
    }
}

/// How many cells of the first `n` rows are not zero.
pub open spec fn nonzero_prefix(grid: Seq<Seq<int>>, n: int) -> int
    decreases n,
{
    if n <= 0 {
        0
    } else {
        nonzero_prefix(grid, n - 1) + row_nonzero_prefix(grid[n - 1], grid[n - 1].len() as int)
    }
}

/// How many cells of the grid are not zero.
pub open spec fn nonzero_cells(grid: Seq<Seq<int>>) -> int {
    nonzero_prefix(grid, grid.len() as int)
}

/// The coverage bonus in units of income: granted when the number of cells
/// that are not zero equals the number of cities, and in no other case.
pub open spec fn coverage_bonus(grid: Seq<Seq<int>>) -> int {
    if nonzero_cells(grid) == width(grid) {
        COVERAGE_BONUS as int
    } else {
        0
    }
}

/// The largest allocation that one of the first `n` stocks has in `city`.
pub open spec fn column_max_prefix(grid: Seq<Seq<int>>, city: int, n: int) -> int
    decreases n,
{
    if n <= 1 {
        grid[0][city]
    } else {
        let rest = column_max_prefix(grid, city, n - 1);
        if grid[n - 1][city] > rest {
            grid[n - 1][city]
        } else {
            rest
        }
    }
}

/// The smallest allocation that one of the first `n` stocks has in `city`.
pub open spec fn column_min_prefix(grid: Seq<Seq<int>>, city: int, n: int) -> int
    decreases n,
{
    if n <= 1 {
        grid[0][city]
    } else {
        let rest = column_min_prefix(grid, city, n - 1);
        if grid[n - 1][city] < rest {
            grid[n - 1][city]
        } else {
            rest
        }
    }
}

/// The difference between the largest and the smallest allocation in `city`.
pub open spec fn column_spread(grid: Seq<Seq<int>>, city: int) -> int {
    column_max_prefix(grid, city, grid.len() as int) - column_min_prefix(
        grid,
        city,
        grid.len() as int,
    )
}

/// The percentage that a spread earns: twenty less the spread, and never less
/// than zero.
pub open spec fn window(spread: int) -> int {
    if spread < WINDOW as int {
        WINDOW as int - spread
    } else {
        0
    }
}

/// The evenness bonus of the first `n` cities, in hundredths.
pub open spec fn evenness_prefix(grid: Seq<Seq<int>>, prices: Seq<Seq<int>>, n: int) -> int
    decreases n,
{
    if n <= 0 {
        0
    } else {
        evenness_prefix(grid, prices, n - 1) + city_income(grid, prices, n - 1) * window(
            column_spread(grid, n - 1),
        )
    }
}

/// The evenness bonus in hundredths: for each city its income times the
/// percentage that the spread of its column earns.
pub open spec fn evenness(grid: Seq<Seq<int>>, prices: Seq<Seq<int>>) -> int {
    evenness_prefix(grid, prices, width(grid))
}

/// The units that the first `n` stocks sell in `city`.
pub open spec fn sold_prefix(grid: Seq<Seq<int>>, city: int, n: int) -> int
    decreases n,
{
    if n <= 0 {
        0
    } else {
        sold_prefix(grid, city, n - 1) + grid[n - 1][city]
    }
}

/// The units that all stocks sell in `city`.
pub open spec fn sold(grid: Seq<Seq<int>>, city: int) -> int {
    sold_prefix(grid, city, grid.len() as int)
}

/// The most that one of the first `n` cities sells.
pub open spec fn sold_max_prefix(grid: Seq<Seq<int>>, n: int) -> int
    decreases n,
{
    if n <= 1 {
        sold(grid, 0)
    } else {
        let rest = sold_max_prefix(grid, n - 1);
        if sold(grid, n - 1) > rest {
            sold(grid, n - 1)
        } else {
            rest
        }
    }
}

/// The least that one of the first `n` cities sells.
pub open spec fn sold_min_prefix(grid: Seq<Seq<int>>, n: int) -> int
    decreases n,
{
    if n <= 1 {
        sold(grid, 0)
    } else {
        let rest = sold_min_prefix(grid, n - 1);
        if sold(grid, n - 1) < rest {
            sold(grid, n - 1)
        } else {
            rest
        }
    }
}

/// The difference between what the busiest and the quietest city sell.
pub open spec fn sold_spread(grid: Seq<Seq<int>>) -> int {
    sold_max_prefix(grid, width(grid)) - sold_min_prefix(grid, width(grid))
}

/// The fairness bonus in hundredths: the whole income times the percentage
/// that the spread between the cities earns.
pub open spec fn fairness(grid: Seq<Seq<int>>, prices: Seq<Seq<int>>) -> int {
    income(grid, prices) * window(sold_spread(grid))
}

/// The fitness of a grid in hundredths: zero if a cell holds the sentinel,
/// else the sum of income, coverage bonus, evenness bonus and fairness bonus.
pub open spec fn score(grid: Seq<Seq<int>>, prices: Seq<Seq<int>>) -> int {
    if has_sentinel(grid) {
        0
    } else {
        SCALE as int * income(grid, prices) + SCALE as int * coverage_bonus(grid) + evenness(
            grid,
            prices,
        ) + fairness(grid, prices)
    }
}

/// Sentinel law: a grid with the sentinel in some cell scores zero, whatever
/// the other cells hold and whatever the prices are.
pub proof fn lemma_sentinel_scores_zero(
    grid: Seq<Seq<int>>,
    prices: Seq<Seq<int>>,
    stock: int,
    city: int,
)
    requires
        0 <= stock < grid.len(),
        0 <= city < grid[stock].len(),
        grid[stock][city] == SENTINEL,
    ensures
        score(grid, prices) == 0,
{
    assert(row_has_sentinel(grid[stock]));
    assert(has_sentinel(grid));
}

/// Coverage law: a grid in which as many cells are not zero as there are
/// cities earns the bonus of a hundred units; a grid with one such cell less
/// or more, or any other number of them, earns none. In the score of a grid
/// without sentinel the bonus counts a hundred hundredths for each unit.
pub proof fn lemma_coverage_bonus_exact(grid: Seq<Seq<int>>, prices: Seq<Seq<int>>)
    ensures
        nonzero_cells(grid) == width(grid) ==> coverage_bonus(grid) == 100,
        nonzero_cells(grid) == width(grid) - 1 ==> coverage_bonus(grid) == 0,
        nonzero_cells(grid) == width(grid) + 1 ==> coverage_bonus(grid) == 0,
        nonzero_cells(grid) != width(grid) ==> coverage_bonus(grid) == 0,
        !has_sentinel(grid) ==> score(grid, prices) == 100 * income(grid, prices) + evenness(
            grid,
            prices,
        ) + fairness(grid, prices) + if nonzero_cells(grid) == width(grid) {
            10_000int
        } else {
            0int
        },
{
}

/// No price is negative.
pub open spec fn prices_not_negative(prices: Seq<Seq<int>>) -> bool {
    forall|s: int, c: int|
        0 <= s < prices.len() && 0 <= c < prices[s].len() ==> 0 <= #[trigger] prices[s][c]
}

/// No quantity is negative.
pub open spec fn quantities_not_negative(quantities: Seq<int>) -> bool {
    forall|s: int| 0 <= s < quantities.len() ==> 0 <= #[trigger] quantities[s]
}

/// What the first `n` stocks would earn in `city` if each sold its whole
/// quantity there.
pub open spec fn full_city_income_prefix(
    quantities: Seq<int>,
    prices: Seq<Seq<int>>,
    city: int,
    n: int,
) -> int
    decreases n,
{
    if n <= 0 {
        0
    } else {
        full_city_income_prefix(quantities, prices, city, n - 1) + quantities[n - 1] * prices[n
            - 1][city]
    }
}

/// What the first `n` cities would earn if every stock sold its whole
/// quantity in each of them.
pub open spec fn full_income_prefix(quantities: Seq<int>, prices: Seq<Seq<int>>, n: int) -> int
    decreases n,
{
    if n <= 0 {
        0
    } else {
        full_income_prefix(quantities, prices, n - 1) + full_city_income_prefix(
            quantities,
            prices,
            n - 1,
            quantities.len() as int,
        )
    }
}

/// An income that no grid inside the capacities exceeds.
pub open spec fn full_income(quantities: Seq<int>, prices: Seq<Seq<int>>) -> int {
    full_income_prefix(quantities, prices, width(prices))
}

/// The product of two numbers that are not negative is not negative, and
/// grows with its first factor.
pub proof fn lemma_product_bounds(a: int, limit: int, b: int)
    requires
        0 <= a <= limit,
        0 <= b,
    ensures
        0 <= a * b <= limit * b,
{
    assert(0 <= a * b <= limit * b) by (nonlinear_arith)
        requires
            0 <= a <= limit,
            0 <= b,
    ;
}

/// The income of a city lies between zero and what the full quantities would
/// earn there.
pub proof fn lemma_city_income_bounds(
    grid: Seq<Seq<int>>,
    quantities: Seq<int>,
    prices: Seq<Seq<int>>,
    city: int,
    n: int,
)
    requires
        shaped(grid, quantities.len() as int, width(prices)),
        shaped(prices, quantities.len() as int, width(prices)),
        within_capacity(grid, quantities),
        prices_not_negative(prices),
        0 <= city < width(prices),
        0 <= n <= quantities.len(),
    ensures
        0 <= city_income_prefix(grid, prices, city, n) <= full_city_income_prefix(
            quantities,
            prices,
            city,
            n,
        ),
    decreases n,
{
    if n > 0 {
        lemma_city_income_bounds(grid, quantities, prices, city, n - 1);
        assert(row_within(grid[n - 1], quantities[n - 1]));
        assert(0 <= grid[n - 1][city] <= quantities[n - 1]);
        assert(0 <= prices[n - 1][city]);
        lemma_product_bounds(grid[n - 1][city], quantities[n - 1], prices[n - 1][city]);
    }
}

/// What the full quantities would earn grows with the number of stocks and
/// is never negative.
pub proof fn lemma_full_city_income_grows(
    quantities: Seq<int>,
    prices: Seq<Seq<int>>,
    city: int,
    n: int,
    m: int,
)
    requires
        shaped(prices, quantities.len() as int, width(prices)),
        quantities_not_negative(quantities),
        prices_not_negative(prices),
        0 <= city < width(prices),
        0 <= n <= m <= quantities.len(),
    ensures
        0 <= full_city_income_prefix(quantities, prices, city, n) <= full_city_income_prefix(
            quantities,
            prices,
            city,
            m,
        ),
    decreases m,
{
    if n < m {
        lemma_full_city_income_grows(quantities, prices, city, n, m - 1);
        assert(0 <= prices[m - 1][city]);
        lemma_product_bounds(quantities[m - 1], quantities[m - 1], prices[m - 1][city]);
    } else if n > 0 {
        lemma_full_city_income_grows(quantities, prices, city, n - 1, n - 1);
        assert(0 <= prices[n - 1][city]);
        lemma_product_bounds(quantities[n - 1], quantities[n - 1], prices[n - 1][city]);
    }
}

/// What the full quantities would earn grows with the number of cities and
/// is never negative.
pub proof fn lemma_full_income_grows(quantities: Seq<int>, prices: Seq<Seq<int>>, n: int, m: int)
    requires
        shaped(prices, quantities.len() as int, width(prices)),
        quantities_not_negative(quantities),
        prices_not_negative(prices),
        0 <= n <= m <= width(prices),
    ensures
        0 <= full_income_prefix(quantities, prices, n) <= full_income_prefix(quantities, prices, m),
    decreases m,
{
    let stocks: int = quantities.len() as int;
    if n < m {
        lemma_full_income_grows(quantities, prices, n, m - 1);
        lemma_full_city_income_grows(quantities, prices, m - 1, stocks, stocks);
    } else if n > 0 {
        lemma_full_income_grows(quantities, prices, n - 1, n - 1);
        lemma_full_city_income_grows(quantities, prices, n - 1, stocks, stocks);
    }
}

/// The income of the first `n` cities lies between zero and what the full
/// quantities would earn in them.
pub proof fn lemma_income_bounds(
    grid: Seq<Seq<int>>,
    quantities: Seq<int>,
    prices: Seq<Seq<int>>,
    n: int,
)
    requires
        shaped(grid, quantities.len() as int, width(prices)),
        shaped(prices, quantities.len() as int, width(prices)),
        within_capacity(grid, quantities),
        prices_not_negative(prices),
        0 <= n <= width(prices),
    ensures
        0 <= income_prefix(grid, prices, n) <= full_income_prefix(quantities, prices, n),
    decreases n,
{
    if n > 0 {
        lemma_income_bounds(grid, quantities, prices, n - 1);
        lemma_city_income_bounds(grid, quantities, prices, n - 1, quantities.len() as int);
    }
}

/// Inside the capacities the smallest allocation in a column is not negative,
/// the largest is no smaller than the smallest, and no larger than the
/// largest quantity.
pub proof fn lemma_column_extremes(
    grid: Seq<Seq<int>>,
    quantities: Seq<int>,
    cities: int,
    city: int,
    n: int,
)
    requires
        shaped(grid, quantities.len() as int, cities),
        within_capacity(grid, quantities),
        0 <= city < cities,
        1 <= n <= grid.len(),
    ensures
        0 <= column_min_prefix(grid, city, n) <= column_max_prefix(grid, city, n)
            <= quantity_ceiling(quantities, n),
    decreases n,
{
    assert(row_within(grid[n - 1], quantities[n - 1]));
    assert(0 <= grid[n - 1][city] <= quantities[n - 1]);
    if n > 1 {
        lemma_column_extremes(grid, quantities, cities, city, n - 1);
    } else {
        lemma_quantity_ceiling(quantities, 0);
    }
}

/// Every cell of a row is more than zero.
pub open spec fn all_positive(row: Seq<int>) -> bool {
    forall|c: int| 0 <= c < row.len() ==> 0 < #[trigger] row[c]
}

/// The market is fertile: some stock has a quantity to sell and a price
/// above zero in every city, so that every complete allocation earns
/// something.
pub open spec fn fertile(quantities: Seq<int>, prices: Seq<Seq<int>>) -> bool {
    exists|s: int|
        0 <= s < quantities.len() && 0 < #[trigger] quantities[s] && all_positive(prices[s])
}

/// What one stock earns in a city is no more than what the first `n` stocks
/// earn there, if the stock is among them.
pub proof fn lemma_city_income_holds_term(
    grid: Seq<Seq<int>>,
    quantities: Seq<int>,
    prices: Seq<Seq<int>>,
    city: int,
    stock: int,
    n: int,
)
    requires
        shaped(grid, quantities.len() as int, width(prices)),
        shaped(prices, quantities.len() as int, width(prices)),
        within_capacity(grid, quantities),
        prices_not_negative(prices),
        0 <= city < width(prices),
        0 <= stock < n <= quantities.len(),
    ensures
        grid[stock][city] * prices[stock][city] <= city_income_prefix(grid, prices, city, n),
    decreases n,
{
    if stock == n - 1 {
        lemma_city_income_bounds(grid, quantities, prices, city, n - 1);
    } else {
        lemma_city_income_holds_term(grid, quantities, prices, city, stock, n - 1);
        assert(row_within(grid[n - 1], quantities[n - 1]));
        assert(0 <= grid[n - 1][city] <= quantities[n - 1]);
        assert(0 <= prices[n - 1][city]);
        lemma_product_bounds(grid[n - 1][city], quantities[n - 1], prices[n - 1][city]);
    }
}

/// What one city earns is no more than what the first `n` cities earn, if
/// the city is among them.
pub proof fn lemma_income_holds_city(
    grid: Seq<Seq<int>>,
    quantities: Seq<int>,
    prices: Seq<Seq<int>>,
    city: int,
    n: int,
)
    requires
        shaped(grid, quantities.len() as int, width(prices)),
        shaped(prices, quantities.len() as int, width(prices)),
        within_capacity(grid, quantities),
        prices_not_negative(prices),
        0 <= city < n <= width(prices),
    ensures
        city_income(grid, prices, city) <= income_prefix(grid, prices, n),
    decreases n,
{
    if city == n - 1 {
        lemma_income_bounds(grid, quantities, prices, n - 1);
    } else {
        lemma_income_holds_city(grid, quantities, prices, city, n - 1);
        lemma_city_income_bounds(grid, quantities, prices, n - 1, quantities.len() as int);
    }
}

/// In a fertile market every complete allocation earns something.
pub proof fn lemma_fertile_income(
    grid: Seq<Seq<int>>,
    quantities: Seq<int>,
    prices: Seq<Seq<int>>,
)
    requires
        quantities.len() >= 1,
        width(prices) >= 1,
        shaped(grid, quantities.len() as int, width(prices)),
        shaped(prices, quantities.len() as int, width(prices)),
        within_capacity(grid, quantities),
        conserving(grid, quantities),
        prices_not_negative(prices),
        fertile(quantities, prices),
    ensures
        0 < income(grid, prices),
{
    let stock: int = choose|s: int|
        0 <= s < quantities.len() && 0 < #[trigger] quantities[s] && all_positive(prices[s]);
    let row = grid[stock];
    assert(row_within(row, quantities[stock]));
    assert(row_sum(row) == quantities[stock]);
    let city: int = lemma_positive_cell(row, row.len() as int);
    assert(0 < prices[stock][city]);
    assert(0 < grid[stock][city] * prices[stock][city]) by (nonlinear_arith)
        requires
            0 < grid[stock][city],
            0 < prices[stock][city],
    ;
    lemma_city_income_holds_term(
        grid,
        quantities,
        prices,
        city,
        stock,
        quantities.len() as int,
    );
    lemma_income_holds_city(grid, quantities, prices, city, width(prices));
    assert(width(grid) == width(prices));
}

/// The most that a city sells is no less than the least that a city sells.
pub proof fn lemma_sold_extremes(grid: Seq<Seq<int>>, n: int)
    requires
        1 <= n,
    ensures
        sold_min_prefix(grid, n) <= sold_max_prefix(grid, n),
    decreases n,
{
    if n > 1 {
        lemma_sold_extremes(grid, n - 1);
    }
}

/// The percentage that a spread earns lies between zero and twenty when the
/// spread is not negative.
pub proof fn lemma_window_bounds(spread: int)
    requires
        0 <= spread,
    ensures
        0 <= window(spread) <= WINDOW,
{
}

/// The evenness bonus of the first `n` cities lies between zero and twenty
/// times their income.
pub proof fn lemma_evenness_bounds(
    grid: Seq<Seq<int>>,
    quantities: Seq<int>,
    prices: Seq<Seq<int>>,
    n: int,
)
    requires
        quantities.len() >= 1,
        shaped(grid, quantities.len() as int, width(prices)),
        shaped(prices, quantities.len() as int, width(prices)),
        within_capacity(grid, quantities),
        prices_not_negative(prices),
        0 <= n <= width(prices),
    ensures
        0 <= evenness_prefix(grid, prices, n) <= WINDOW * income_prefix(grid, prices, n),
    decreases n,
{
    if n > 0 {
        let stocks: int = quantities.len() as int;
        lemma_evenness_bounds(grid, quantities, prices, n - 1);
        lemma_city_income_bounds(grid, quantities, prices, n - 1, stocks);
        lemma_column_extremes(grid, quantities, width(prices), n - 1, stocks);
        lemma_window_bounds(column_spread(grid, n - 1));
        lemma_product_bounds(
            window(column_spread(grid, n - 1)),
            WINDOW as int,
            city_income(grid, prices, n - 1),
        );
        assert(city_income(grid, prices, n - 1) * window(column_spread(grid, n - 1)) == window(
            column_spread(grid, n - 1),
        ) * city_income(grid, prices, n - 1)) by (nonlinear_arith);
    }
}

/// The largest of the first `n` quantities, or zero.
pub open spec fn quantity_ceiling(quantities: Seq<int>, n: int) -> int
    decreases n,
{
    if n <= 0 {
        0
    } else {
        let rest = quantity_ceiling(quantities, n - 1);
        if quantities[n - 1] > rest {
            quantities[n - 1]
        } else {
            rest
        }
    }
}

/// The ceiling of the quantities is not negative.
pub proof fn lemma_quantity_ceiling(quantities: Seq<int>, n: int)
    ensures
        0 <= quantity_ceiling(quantities, n),
    decreases n,
{
    if n > 0 {
        lemma_quantity_ceiling(quantities, n - 1);
    }
}

} // verus!
