//! Making genomes: random construction, crossover and mutation.
//!
//! Each of them draws from the random source and leaves the rest to a
//! function that takes what was drawn: `splice_rows` takes the cut of a
//! crossover, `transfer` the two cities and the amount of a mutation.

use crate::config::Configuration;
use crate::grid::{
    conserving,
    grid_of,
    has_sentinel,
    ints_of,
    is_mutation_of,
    lemma_capacity_excludes_sentinel,
    is_offspring,
    is_transfer_of,
    lemma_mutation_conserves,
    lemma_offspring_conserves,
    lemma_prefix_sum_agrees,
    lemma_splice_conserves,
    lemma_two_cells_below_sum,
    moved,
    prefix_sum,
    row_sum,
    row_within,
    shaped,
    spliced,
    within_capacity,
};
use crate::individual::Individual;
use crate::random::{chance, draw_up_to, other_city};
use rand::rngs::StdRng;
use vstd::prelude::*;

verus! {

/// `child` is a splice of its parents at some row.
pub open spec fn is_splice(
    child: Seq<Seq<int>>,
    first: Seq<Seq<int>>,
    second: Seq<Seq<int>>,
) -> bool {
    exists|cut: int| 0 <= cut < first.len() && child == #[trigger] spliced(first, second, cut)
}

/// Conservation law of breeding: whatever the cut of a crossover and
/// whatever a mutation moves, the offspring of two genomes that allocate
/// every stock completely allocates every stock completely: each of its rows
/// adds up to the quantity of its stock.
pub proof fn lemma_offspring_allocates(
    child: Individual,
    first: Individual,
    second: Individual,
    config: &Configuration,
)
    requires
        first.allocates(config),
        second.allocates(config),
        is_offspring(child.grid(), first.grid(), second.grid()),
    ensures
        child.allocates(config),
{
    lemma_offspring_conserves(
        child.grid(),
        first.grid(),
        second.grid(),
        config.quantities(),
        config.city_count(),
    );
}

/// Conservation law of mutation: a mutation of a genome that allocates every
/// stock completely allocates every stock completely.
pub proof fn lemma_mutation_allocates(after: Individual, before: Individual, config: &Configuration)
    requires
        before.allocates(config),
        is_mutation_of(after.grid(), before.grid()),
    ensures
        after.allocates(config),
{
    lemma_mutation_conserves(
        after.grid(),
        before.grid(),
        config.quantities(),
        config.city_count(),
    );
}

/// Splits `quantity` at random over `cities` cities: each city but the last
/// gets a number drawn between zero and what is left, the last city gets the
/// rest.
pub fn random_row(quantity: i32, cities: usize, rng: &mut StdRng) -> (row: Vec<i32>)
    requires
        0 <= quantity,
        1 <= cities,
    ensures
        row@.len() == cities,
        row_within(ints_of(row@), quantity as int),
        row_sum(ints_of(row@)) == quantity,
{
    let mut row: Vec<i32> = Vec::new();
    let mut remaining: i32 = quantity;
    let mut c: usize = 0;
    while c < cities - 1
        invariant
            c <= cities - 1,
            row@.len() == c,
            0 <= remaining <= quantity,
            prefix_sum(ints_of(row@), c as int) + remaining == quantity,
            row_within(ints_of(row@), quantity as int),
        decreases cities - c,
    {
        let ghost before = ints_of(row@);
        let drawn: i32 = draw_up_to(rng, remaining as usize) as i32;
        row.push(drawn);
        remaining = remaining - drawn;
        c += 1;
        proof {
            let after = ints_of(row@);
            lemma_prefix_sum_agrees(before, after, c as int - 1);
            assert forall|i: int| 0 <= i < after.len() implies 0 <= #[trigger] after[i]
                <= quantity by {
                if i < c - 1 {
                    assert(after[i] == before[i]);
                }
            }
        }
    }
    let ghost before = ints_of(row@);
    row.push(remaining);
    proof {
        let after = ints_of(row@);
        lemma_prefix_sum_agrees(before, after, c as int);
        assert forall|i: int| 0 <= i < after.len() implies 0 <= #[trigger] after[i]
            <= quantity by {
            if i < c {
                assert(after[i] == before[i]);
            }
        }
    }
    row
}

/// The rows of `first` below `cut`, followed by the rows of `second` from
/// `cut` on.
pub fn splice_rows(first: &Vec<Vec<i32>>, second: &Vec<Vec<i32>>, cut: usize) -> (rows: Vec<
    Vec<i32>,
>)
    requires
        first@.len() == second@.len(),
    ensures
        grid_of(rows@) == spliced(grid_of(first@), grid_of(second@), cut as int),
{
    let mut rows: Vec<Vec<i32>> = Vec::new();
    let mut s: usize = 0;
    while s < first.len()
        invariant
            s <= first@.len(),
            first@.len() == second@.len(),
            rows@.len() == s,
            forall|i: int|
                0 <= i < s ==> (#[trigger] rows@[i])@ == if i < cut {
                    first@[i]@
                } else {
                    second@[i]@
                },
        decreases first@.len() - s,
    {
        if s < cut {
            rows.push(first[s].clone());
        } else {
            rows.push(second[s].clone());
        }
        s += 1;
    }
    assert(grid_of(rows@) =~= spliced(grid_of(first@), grid_of(second@), cut as int));
    rows
}

/// Moves `amount` units of a row from city `from` to city `to`.
pub fn transfer(row: &mut Vec<i32>, to: usize, from: usize, amount: i32)
    requires
        to < old(row)@.len(),
        from < old(row)@.len(),
        to != from,
        0 <= amount <= old(row)@[from as int],
        old(row)@[to as int] + amount <= i32::MAX,
    ensures
        ints_of(final(row)@) == moved(ints_of(old(row)@), to as int, from as int, amount as int),
{
    let left: i32 = row[from] - amount;
    let grown: i32 = row[to] + amount;
    row[from] = left;
    row[to] = grown;
    assert(ints_of(row@) =~= moved(ints_of(old(row)@), to as int, from as int, amount as int));
}

/// Mutates every row of a chromosome: two different cities are drawn, and
/// unless both hold nothing, a number drawn between zero and what the second
/// holds moves from the second to the first. With a single city there is
/// nothing to draw, and the rows stay as they are.
pub fn mutate_rows(rows: &mut Vec<Vec<i32>>, config: &Configuration, rng: &mut StdRng)
    requires
        shaped(grid_of(old(rows)@), config.stock_count(), config.city_count()),
        within_capacity(grid_of(old(rows)@), config.quantities()),
        conserving(grid_of(old(rows)@), config.quantities()),
    ensures
        is_mutation_of(grid_of(final(rows)@), grid_of(old(rows)@)),
        config.city_count() < 2 ==> grid_of(final(rows)@) == grid_of(old(rows)@),
        shaped(grid_of(final(rows)@), config.stock_count(), config.city_count()),
        within_capacity(grid_of(final(rows)@), config.quantities()),
        conserving(grid_of(final(rows)@), config.quantities()),
{
    let ghost start = grid_of(rows@);
    let ghost quantities = config.quantities();
    let stocks: usize = config.stocks();
    let cities: usize = config.cities();
    if cities >= 2 {
        let mut s: usize = 0;
        while s < stocks
            invariant
                s <= stocks,
                2 <= cities,
                stocks == config.stock_count(),
                cities == config.city_count(),
                quantities == config.quantities(),
                start == grid_of(old(rows)@),
                shaped(start, stocks as int, cities as int),
                within_capacity(start, quantities),
                conserving(start, quantities),
                rows@.len() == stocks,
                forall|i: int| 0 <= i < s ==> is_transfer_of(#[trigger] grid_of(rows@)[i], start[i]),
                forall|i: int| s <= i < stocks ==> #[trigger] grid_of(rows@)[i] == start[i],
            decreases stocks - s,
        {
            let ghost before = grid_of(rows@);
            let ghost row = before[s as int];
            assert(row == start[s as int]);
            assert(row.len() == cities);
            assert(row_within(row, quantities[s as int]));
            assert(row_sum(row) == quantities[s as int]);
            let to: usize = draw_up_to(rng, cities - 1);
            let from: usize = other_city(to, draw_up_to(rng, cities - 2));
            proof {
                lemma_two_cells_below_sum(row, to as int, from as int);
                assert(row[to as int] == rows@[s as int]@[to as int]);
                assert(row[from as int] == rows@[s as int]@[from as int]);
                config.lemma_quantities_fit(s as int);
            }
            let held: i32 = rows[s][from];
            let both: i32 = rows[s][to] + held;
            if both != 0 {
                let amount: i32 = draw_up_to(rng, held as usize) as i32;
                transfer(&mut rows[s], to, from, amount);
                proof {
                    let after = grid_of(rows@);
                    assert(after[s as int] == moved(row, to as int, from as int, amount as int));
                    assert(is_transfer_of(after[s as int], start[s as int]));
                    assert forall|i: int| 0 <= i < s implies is_transfer_of(
                        #[trigger] after[i],
                        start[i],
                    ) by {
                        assert(after[i] == before[i]);
                    }
                    assert forall|i: int| s < i < stocks implies #[trigger] after[i]
                        == start[i] by {
                        assert(after[i] == before[i]);
                    }
                }
            }
            s += 1;
        }
    }
    proof {
        lemma_mutation_conserves(grid_of(rows@), start, quantities, config.city_count());
    }
}

impl Individual {
    /// Builds a genome at random: for each stock the quantity is split over
    /// the cities, each city but the last taking a number drawn between zero
    /// and what is left, the last city taking the rest.
    pub fn new(config: &Configuration, rng: &mut StdRng) -> (genome: Individual)
        ensures
            genome.valid(config),
            genome.generation == 0,
            !has_sentinel(genome.grid()),
    {
        let ghost quantities = config.quantities();
        let stocks: usize = config.stocks();
        let cities: usize = config.cities();
        let mut chromosome: Vec<Vec<i32>> = Vec::new();
        let mut s: usize = 0;
        while s < stocks
            invariant
                s <= stocks,
                1 <= cities,
                stocks == config.stock_count(),
                cities == config.city_count(),
                quantities == config.quantities(),
                chromosome@.len() == s,
                forall|i: int|
                    #![trigger chromosome@[i]]
                    0 <= i < s ==> {
                        &&& chromosome@[i]@.len() == cities
                        &&& row_within(ints_of(chromosome@[i]@), quantities[i])
                        &&& row_sum(ints_of(chromosome@[i]@)) == quantities[i]
                    },
            decreases stocks - s,
        {
            let row: Vec<i32> = random_row(config.quantity(s), cities, rng);
            chromosome.push(row);
            s += 1;
        }
        let mut genome = Individual { chromosome, fitness: 0, generation: 0 };
        proof {
            let grid = genome.grid();
            assert forall|i: int| 0 <= i < grid.len() implies (#[trigger] grid[i]).len() == cities
                && row_within(grid[i], quantities[i]) && row_sum(grid[i]) == quantities[i] by {
                assert(grid[i] == ints_of(genome.chromosome@[i]@));
            }
        }
        genome.fitness = genome.fitness(config);
        proof {
            lemma_capacity_excludes_sentinel(genome.grid(), quantities);
        }
        genome
    }

    /// Mutates the chromosome in place. Fitness and generation stay as they
    /// are: the genome is scored when it is made, and a caller that mutates
    /// it scores it again.
    ///
    /// For every row two different cities are drawn; unless both hold
    /// nothing, a number drawn between zero and what the second holds moves
    /// from the second to the first.
    pub fn mutate(&mut self, config: &Configuration, rng: &mut StdRng)
        requires
            old(self).allocates(config),
        ensures
            final(self).allocates(config),
            final(self).fitness == old(self).fitness,
            final(self).generation == old(self).generation,
            is_mutation_of(final(self).grid(), old(self).grid()),
            config.city_count() < 2 ==> final(self).grid() == old(self).grid(),
    {
        mutate_rows(&mut self.chromosome, config, rng);
    }

    /// Breeds a child of this genome and another.
    ///
    /// A row is drawn as the cut: the child has this genome's rows below the
    /// cut and the other's from the cut on. With the configured probability
    /// the child is mutated. It has one breeding step more behind it than
    /// this genome, and carries its own score.
    pub fn crossover(&self, other: &Individual, config: &Configuration, rng: &mut StdRng) -> (child:
        Individual)
        requires
            self.allocates(config),
            other.allocates(config),
            self.generation < u32::MAX,
        ensures
            child.valid(config),
            child.generation == self.generation + 1,
            is_offspring(child.grid(), self.grid(), other.grid()),
            config.mutation_rate().numerator == 0 ==> is_splice(
                child.grid(),
                self.grid(),
                other.grid(),
            ),
    {
        let ghost quantities = config.quantities();
        let stocks: usize = config.stocks();
        let cut: usize = draw_up_to(rng, stocks - 1);
        let mut chromosome: Vec<Vec<i32>> = splice_rows(&self.chromosome, &other.chromosome, cut);
        let ghost mixed = grid_of(chromosome@);
        proof {
            lemma_splice_conserves(
                self.grid(),
                other.grid(),
                cut as int,
                quantities,
                config.city_count(),
            );
        }
        let rate = config.mutation_rate();
        if chance(rng, rate.numerator, rate.denominator) {
            mutate_rows(&mut chromosome, config, rng);
        } else {
            assert(is_mutation_of(mixed, mixed));
        }
        let mut child = Individual { chromosome, fitness: 0, generation: self.generation + 1 };
        child.fitness = child.fitness(config);
        child
    }
}

} // verus!
