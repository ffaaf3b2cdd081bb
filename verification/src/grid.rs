//! The mathematical model of a chromosome: a grid of integers with one row for
//! each stock and one cell for each city, and the relations between grids that
//! crossover and mutation establish.

use vstd::prelude::*;

verus! {

/// The cell value that marks a genome as not initialised.
pub const SENTINEL: i32 = -1;

/// The cells of one row as integers.
pub open spec fn ints_of(cells: Seq<i32>) -> Seq<int> {
    Seq::new(cells.len(), |c: int| cells[c] as int)
}

/// The grid that a vector of rows stands for.
pub open spec fn grid_of(rows: Seq<Vec<i32>>) -> Seq<Seq<int>> {
    Seq::new(rows.len(), |s: int| ints_of(rows[s]@))
}

/// The grid has `stocks` rows of `cities` cells each.
pub open spec fn shaped(grid: Seq<Seq<int>>, stocks: int, cities: int) -> bool {
    &&& grid.len() == stocks
    &&& forall|s: int| 0 <= s < grid.len() ==> (#[trigger] grid[s]).len() == cities
}

/// The sum of the first `n` cells of a row.
pub open spec fn prefix_sum(row: Seq<int>, n: int) -> int
    decreases n,
{
    if n <= 0 {
        0
    } else {
        prefix_sum(row, n - 1) + row[n - 1]
    }
}

/// The sum of all cells of a row.
pub open spec fn row_sum(row: Seq<int>) -> int {
    prefix_sum(row, row.len() as int)
}

/// Every row adds up to the quantity of its stock.
pub open spec fn conserving(grid: Seq<Seq<int>>, quantities: Seq<int>) -> bool {
    &&& grid.len() == quantities.len()
    &&& forall|s: int| 0 <= s < grid.len() ==> row_sum(#[trigger] grid[s]) == quantities[s]
}

/// Every cell of the row lies between zero and `quantity`.
pub open spec fn row_within(row: Seq<int>, quantity: int) -> bool {
    forall|c: int| 0 <= c < row.len() ==> 0 <= #[trigger] row[c] <= quantity
}

/// Every cell lies between zero and the quantity of its stock.
pub open spec fn within_capacity(grid: Seq<Seq<int>>, quantities: Seq<int>) -> bool {
    &&& grid.len() == quantities.len()
    &&& forall|s: int| 0 <= s < grid.len() ==> row_within(#[trigger] grid[s], quantities[s])
}

/// Some cell of the row holds the sentinel.
pub open spec fn row_has_sentinel(row: Seq<int>) -> bool {
    exists|c: int| 0 <= c < row.len() && #[trigger] row[c] == SENTINEL
}

/// Some cell of the grid holds the sentinel.
pub open spec fn has_sentinel(grid: Seq<Seq<int>>) -> bool {
    exists|s: int| 0 <= s < grid.len() && row_has_sentinel(#[trigger] grid[s])
}

/// The row after `amount` units went from city `from` to city `to`.
pub open spec fn moved(row: Seq<int>, to: int, from: int, amount: int) -> Seq<int> {
    row.update(from, row[from] - amount).update(to, row[to] + amount)
}

/// `after` is `before`, or `before` with part of one city's allocation moved
/// to another city.
pub open spec fn is_transfer_of(after: Seq<int>, before: Seq<int>) -> bool {
    ||| after == before
    ||| exists|to: int, from: int, amount: int|
        {
            &&& 0 <= to < before.len()
            &&& 0 <= from < before.len()
            &&& to != from
            &&& 0 <= amount <= before[from]
            &&& after == #[trigger] moved(before, to, from, amount)
        }
}

/// Row by row, `after` is a transfer of `before`.
pub open spec fn is_mutation_of(after: Seq<Seq<int>>, before: Seq<Seq<int>>) -> bool {
    &&& after.len() == before.len()
    &&& forall|s: int| 0 <= s < before.len() ==> is_transfer_of(#[trigger] after[s], before[s])
}

/// The rows of `first` below `cut`, followed by the rows of `second` from
/// `cut` on.
pub open spec fn spliced(first: Seq<Seq<int>>, second: Seq<Seq<int>>, cut: int) -> Seq<Seq<int>> {
    Seq::new(
        first.len(),
        |s: int|
            if s < cut {
                first[s]
            } else {
                second[s]
            },
    )
}

/// `child` is a splice of its parents at some row, possibly mutated.
pub open spec fn is_offspring(
    child: Seq<Seq<int>>,
    first: Seq<Seq<int>>,
    second: Seq<Seq<int>>,
) -> bool {
    exists|cut: int|
        0 <= cut < first.len() && is_mutation_of(child, #[trigger] spliced(first, second, cut))
}

/// A grid with every cell inside the capacity of its stock holds no
/// sentinel.
pub proof fn lemma_capacity_excludes_sentinel(grid: Seq<Seq<int>>, quantities: Seq<int>)
    requires
        within_capacity(grid, quantities),
    ensures
        !has_sentinel(grid),
{
    assert forall|s: int| 0 <= s < grid.len() implies !row_has_sentinel(#[trigger] grid[s]) by {
        assert(row_within(grid[s], quantities[s]));
    }
}

/// Two rows that agree on their first `n` cells have the same prefix sum.
pub proof fn lemma_prefix_sum_agrees(a: Seq<int>, b: Seq<int>, n: int)
    requires
        0 <= n <= a.len(),
        n <= b.len(),
        forall|i: int| 0 <= i < n ==> a[i] == b[i],
    ensures
        prefix_sum(a, n) == prefix_sum(b, n),
    decreases n,
{
    if n > 0 {
        lemma_prefix_sum_agrees(a, b, n - 1);
    }
}

/// Changing one cell changes a prefix sum by the difference, if the prefix
/// reaches the cell.
pub proof fn lemma_prefix_sum_update(row: Seq<int>, at: int, value: int, n: int)
    requires
        0 <= at < row.len(),
        0 <= n <= row.len(),
    ensures
        prefix_sum(row.update(at, value), n) == prefix_sum(row, n) + if at < n {
            value - row[at]
        } else {
            0
        },
    decreases n,
{
    if n > 0 {
        lemma_prefix_sum_update(row, at, value, n - 1);
    }
}

/// A prefix sum of cells that are not negative is not negative.
pub proof fn lemma_prefix_sum_not_negative(row: Seq<int>, n: int)
    requires
        0 <= n <= row.len(),
        forall|c: int| 0 <= c < row.len() ==> 0 <= #[trigger] row[c],
    ensures
        0 <= prefix_sum(row, n),
    decreases n,
{
    if n > 0 {
        lemma_prefix_sum_not_negative(row, n - 1);
    }
}

/// In a row without negative cells a longer prefix adds up to no less than a
/// shorter one.
pub proof fn lemma_prefix_sum_grows(row: Seq<int>, n: int, m: int)
    requires
        0 <= n <= m <= row.len(),
        forall|c: int| 0 <= c < row.len() ==> 0 <= #[trigger] row[c],
    ensures
        prefix_sum(row, n) <= prefix_sum(row, m),
    decreases m,
{
    if n < m {
        lemma_prefix_sum_grows(row, n, m - 1);
    }
}

/// A row without negative cells whose first `n` cells add up to more than
/// zero has a cell among them that holds something.
pub proof fn lemma_positive_cell(row: Seq<int>, n: int) -> (c: int)
    requires
        0 <= n <= row.len(),
        forall|i: int| 0 <= i < row.len() ==> 0 <= #[trigger] row[i],
        prefix_sum(row, n) > 0,
    ensures
        0 <= c < n,
        row[c] > 0,
    decreases n,
{
    if row[n - 1] > 0 {
        n - 1
    } else {
        lemma_positive_cell(row, n - 1)
    }
}

/// In a row without negative cells, two different cells together hold no more
/// than the whole row.
pub proof fn lemma_two_cells_below_sum(row: Seq<int>, i: int, j: int)
    requires
        0 <= i < row.len(),
        0 <= j < row.len(),
        i != j,
        forall|c: int| 0 <= c < row.len() ==> 0 <= #[trigger] row[c],
    ensures
        row[i] + row[j] <= row_sum(row),
{
    let n: int = row.len() as int;
    let without_i: Seq<int> = row.update(i, 0);
    let without_both: Seq<int> = without_i.update(j, 0);
    lemma_prefix_sum_update(row, i, 0, n);
    lemma_prefix_sum_update(without_i, j, 0, n);
    lemma_prefix_sum_not_negative(without_both, n);
}

/// Moving units between two cities of a row keeps the sum of the row.
pub proof fn lemma_moved_keeps_sum(row: Seq<int>, to: int, from: int, amount: int)
    requires
        0 <= to < row.len(),
        0 <= from < row.len(),
        to != from,
    ensures
        row_sum(moved(row, to, from, amount)) == row_sum(row),
        moved(row, to, from, amount).len() == row.len(),
{
    let n: int = row.len() as int;
    let taken: Seq<int> = row.update(from, row[from] - amount);
    lemma_prefix_sum_update(row, from, row[from] - amount, n);
    lemma_prefix_sum_update(taken, to, row[to] + amount, n);
}

/// A transfer inside a row that adds up to `quantity` and has no negative
/// cell gives such a row again.
pub proof fn lemma_transfer_conserves(after: Seq<int>, before: Seq<int>, quantity: int)
    requires
        is_transfer_of(after, before),
        row_within(before, quantity),
        row_sum(before) == quantity,
    ensures
        after.len() == before.len(),
        row_within(after, quantity),
        row_sum(after) == quantity,
{
    if after != before {
        let (to, from, amount): (int, int, int) = choose|to: int, from: int, amount: int|
            {
                &&& 0 <= to < before.len()
                &&& 0 <= from < before.len()
                &&& to != from
                &&& 0 <= amount <= before[from]
                &&& after == #[trigger] moved(before, to, from, amount)
            };
        lemma_moved_keeps_sum(before, to, from, amount);
        lemma_two_cells_below_sum(before, to, from);
        assert forall|c: int| 0 <= c < after.len() implies 0 <= #[trigger] after[c] <= quantity by {
            assert(0 <= before[c] <= quantity);
        }
    }
}

/// Conservation law of mutation: a mutation of a grid that conserves the
/// quantities, with every cell inside its stock's capacity, is such a grid
/// again, of the same shape.
pub proof fn lemma_mutation_conserves(
    after: Seq<Seq<int>>,
    before: Seq<Seq<int>>,
    quantities: Seq<int>,
    cities: int,
)
    requires
        is_mutation_of(after, before),
        shaped(before, quantities.len() as int, cities),
        within_capacity(before, quantities),
        conserving(before, quantities),
    ensures
        shaped(after, quantities.len() as int, cities),
        within_capacity(after, quantities),
        conserving(after, quantities),
{
    assert forall|s: int| 0 <= s < after.len() implies (#[trigger] after[s]).len() == cities
        && row_within(after[s], quantities[s]) && row_sum(after[s]) == quantities[s] by {
        assert(row_within(before[s], quantities[s]));
        assert(row_sum(before[s]) == quantities[s]);
        lemma_transfer_conserves(after[s], before[s], quantities[s]);
    }
}

/// Conservation law of splicing: a splice of two grids that conserve the
/// quantities, with every cell inside its stock's capacity, is such a grid
/// again.
pub proof fn lemma_splice_conserves(
    first: Seq<Seq<int>>,
    second: Seq<Seq<int>>,
    cut: int,
    quantities: Seq<int>,
    cities: int,
)
    requires
        shaped(first, quantities.len() as int, cities),
        shaped(second, quantities.len() as int, cities),
        within_capacity(first, quantities),
        within_capacity(second, quantities),
        conserving(first, quantities),
        conserving(second, quantities),
    ensures
        shaped(spliced(first, second, cut), quantities.len() as int, cities),
        within_capacity(spliced(first, second, cut), quantities),
        conserving(spliced(first, second, cut), quantities),
{
    let child: Seq<Seq<int>> = spliced(first, second, cut);
    assert forall|s: int| 0 <= s < child.len() implies (#[trigger] child[s]).len() == cities
        && row_within(child[s], quantities[s]) && row_sum(child[s]) == quantities[s] by {
        assert(row_within(first[s], quantities[s]));
        assert(row_within(second[s], quantities[s]));
        assert(row_sum(first[s]) == quantities[s]);
        assert(row_sum(second[s]) == quantities[s]);
    }
}

/// Conservation law of crossover: the offspring of two grids that conserve
/// the quantities, with every cell inside its stock's capacity, is such a grid
/// again.
pub proof fn lemma_offspring_conserves(
    child: Seq<Seq<int>>,
    first: Seq<Seq<int>>,
    second: Seq<Seq<int>>,
    quantities: Seq<int>,
    cities: int,
)
    requires
        is_offspring(child, first, second),
        shaped(first, quantities.len() as int, cities),
        shaped(second, quantities.len() as int, cities),
        within_capacity(first, quantities),
        within_capacity(second, quantities),
        conserving(first, quantities),
        conserving(second, quantities),
    ensures
        shaped(child, quantities.len() as int, cities),
        within_capacity(child, quantities),
        conserving(child, quantities),
{
    let cut: int = choose|cut: int|
        0 <= cut < first.len() && is_mutation_of(child, #[trigger] spliced(first, second, cut));
    lemma_splice_conserves(first, second, cut, quantities, cities);
    lemma_mutation_conserves(child, spliced(first, second, cut), quantities, cities);
}

} // verus!
