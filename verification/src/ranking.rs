//! Ordering a population by fitness and finding its best genome.

use crate::individual::Individual;
use vstd::multiset::Multiset;
use vstd::prelude::*;

verus! {

/// No genome is fitter than one behind it.
pub open spec fn ascending(population: Seq<Individual>) -> bool {
    forall|i: int, j: int|
        0 <= i <= j < population.len() ==> (#[trigger] population[i]).fitness <= (
        #[trigger] population[j]).fitness
}

/// No genome is less fit than one behind it.
pub open spec fn descending(population: Seq<Individual>) -> bool {
    forall|i: int, j: int|
        0 <= i <= j < population.len() ==> (#[trigger] population[i]).fitness >= (
        #[trigger] population[j]).fitness
}

/// No genome of `low` is fitter than a genome of `high`.
pub open spec fn all_below(low: Seq<Individual>, high: Seq<Individual>) -> bool {
    forall|i: int, j: int|
        0 <= i < low.len() && 0 <= j < high.len() ==> (#[trigger] low[i]).fitness <= (
        #[trigger] high[j]).fitness
}

/// The genomes of the given fitness, in their order.
pub open spec fn of_fitness(population: Seq<Individual>, fitness: int) -> Seq<Individual>
    decreases population.len(),
{
    if population.len() == 0 {
        Seq::empty()
    } else {
        let earlier = of_fitness(population.drop_last(), fitness);
        if population.last().fitness == fitness {
            earlier.push(population.last())
        } else {
            earlier
        }
    }
}

/// Genomes of equal fitness stand in `after` in the order in which they
/// stand in `before`.
pub open spec fn keeps_order(after: Seq<Individual>, before: Seq<Individual>) -> bool {
    forall|fitness: int|
        #![trigger of_fitness(after, fitness)]
        of_fitness(after, fitness) == of_fitness(before, fitness)
}

/// `after` holds the genomes of `before`, each as often as `before` holds
/// it, ordered by fitness, and genomes of equal fitness in the order in
/// which they stand in `before`.
pub open spec fn is_sort_of(after: Seq<Individual>, before: Seq<Individual>) -> bool {
    &&& after.to_multiset() == before.to_multiset()
    &&& ascending(after)
    &&& keeps_order(after, before)
}

/// A genome that is added at the end is the last of its fitness, and changes
/// nothing for another fitness.
pub proof fn lemma_of_fitness_push(population: Seq<Individual>, genome: Individual, fitness: int)
    ensures
        of_fitness(population.push(genome), fitness) == if genome.fitness == fitness {
            of_fitness(population, fitness).push(genome)
        } else {
            of_fitness(population, fitness)
        },
{
    assert(population.push(genome).drop_last() =~= population);
}

/// The genomes of a fitness in two populations in a row are those of the
/// first followed by those of the second.
pub proof fn lemma_of_fitness_concat(first: Seq<Individual>, second: Seq<Individual>, fitness: int)
    ensures
        of_fitness(first + second, fitness) == of_fitness(first, fitness) + of_fitness(
            second,
            fitness,
        ),
    decreases second.len(),
{
    if second.len() == 0 {
        assert(first + second =~= first);
        assert(of_fitness(first, fitness) + of_fitness(second, fitness) =~= of_fitness(
            first,
            fitness,
        ));
    } else {
        let shorter = second.drop_last();
        assert((first + second).drop_last() =~= first + shorter);
        lemma_of_fitness_concat(first, shorter, fitness);
        assert(of_fitness(first + second, fitness) =~= of_fitness(first, fitness) + of_fitness(
            second,
            fitness,
        ));
    }
}

/// A population without a genome of the fitness has none to show.
pub proof fn lemma_of_fitness_none(population: Seq<Individual>, fitness: int)
    requires
        forall|i: int| 0 <= i < population.len() ==> (#[trigger] population[i]).fitness != fitness,
    ensures
        of_fitness(population, fitness) == Seq::<Individual>::empty(),
    decreases population.len(),
{
    if population.len() > 0 {
        let shorter = population.drop_last();
        assert forall|i: int| 0 <= i < shorter.len() implies (#[trigger] shorter[i]).fitness
            != fitness by {
            assert(shorter[i] == population[i]);
        }
        lemma_of_fitness_none(shorter, fitness);
        assert(population.last() == population[population.len() - 1]);
    }
}

/// A genome that is put in front is the first of its fitness, and changes
/// nothing for another fitness.
pub proof fn lemma_of_fitness_front(genome: Individual, population: Seq<Individual>, fitness: int)
    ensures
        of_fitness(seq![genome] + population, fitness) == if genome.fitness == fitness {
            seq![genome] + of_fitness(population, fitness)
        } else {
            of_fitness(population, fitness)
        },
{
    let nothing = Seq::<Individual>::empty();
    lemma_of_fitness_concat(seq![genome], population, fitness);
    lemma_of_fitness_push(nothing, genome, fitness);
    assert(nothing.push(genome) =~= seq![genome]);
    assert(of_fitness(nothing, fitness) =~= nothing);
    if genome.fitness == fitness {
        assert(of_fitness(seq![genome], fitness) =~= seq![genome]);
    } else {
        assert(nothing + of_fitness(population, fitness) =~= of_fitness(population, fitness));
    }
}

/// An empty population holds no genome.
proof fn lemma_nothing_held(population: Seq<Individual>)
    requires
        population.len() == 0,
    ensures
        population.to_multiset() == Multiset::<Individual>::empty(),
{
    vstd::seq_lib::to_multiset_len(population);
    vstd::multiset::lemma_multiset_empty_len(population.to_multiset());
}

/// Takes the last genome of a population that is not empty.
fn take_last(population: &mut Vec<Individual>) -> (last: Individual)
    requires
        old(population)@.len() > 0,
    ensures
        old(population)@ == final(population)@.push(last),
        old(population)@.to_multiset() == final(population)@.to_multiset().insert(last),
        ascending(old(population)@) ==> ascending(final(population)@),
        descending(old(population)@) ==> descending(final(population)@),
{
    let ghost before = population@;
    let last: Individual = population.pop().unwrap();
    proof {
        assert(before =~= population@.push(last));
        vstd::seq_lib::to_multiset_build(population@, last);
        assert forall|i: int, j: int| 0 <= i <= j < population@.len() implies (
        #[trigger] population@[i]) == before[i] && (#[trigger] population@[j]) == before[j] by {}
    }
    last
}

/// A population in the reverse order.
fn reversed(population: Vec<Individual>) -> (turned: Vec<Individual>)
    requires
        descending(population@),
    ensures
        ascending(turned@),
        turned@.to_multiset() == population@.to_multiset(),
        turned@.len() == population@.len(),
        forall|i: int|
            0 <= i < turned@.len() ==> #[trigger] turned@[i] == population@[population@.len() - 1
                - i],
{
    let ghost whole = population@.to_multiset();
    let ghost start = population@;
    let mut rest: Vec<Individual> = population;
    let mut turned: Vec<Individual> = Vec::new();
    proof {
        lemma_nothing_held(turned@);
        assert(turned@.to_multiset().add(rest@.to_multiset()) =~= whole);
    }
    while rest.len() > 0
        invariant
            descending(rest@),
            ascending(turned@),
            all_below(turned@, rest@),
            turned@.to_multiset().add(rest@.to_multiset()) == whole,
            rest@.len() + turned@.len() == start.len(),
            forall|i: int| 0 <= i < rest@.len() ==> #[trigger] rest@[i] == start[i],
            forall|i: int|
                0 <= i < turned@.len() ==> #[trigger] turned@[i] == start[start.len() - 1 - i],
        decreases rest@.len(),
    {
        let ghost rest_before = rest@;
        let ghost turned_before = turned@;
        let genome: Individual = take_last(&mut rest);
        turned.push(genome);
        proof {
            vstd::seq_lib::to_multiset_build(turned_before, genome);
            assert(turned@.to_multiset().add(rest@.to_multiset()) =~= whole);
            assert forall|i: int, j: int| 0 <= i <= j < turned@.len() implies (
            #[trigger] turned@[i]).fitness <= (#[trigger] turned@[j]).fitness by {
                if j == turned_before.len() {
                    if i < j {
                        assert(turned_before[i].fitness <= rest_before[rest_before.len()
                            - 1].fitness);
                    }
                }
            }
            assert forall|i: int, j: int|
                0 <= i < turned@.len() && 0 <= j < rest@.len() implies (
            #[trigger] turned@[i]).fitness <= (#[trigger] rest@[j]).fitness by {
                assert(rest@[j] == rest_before[j]);
                if i == turned_before.len() {
                    assert(rest_before[j].fitness >= rest_before[rest_before.len() - 1].fitness);
                } else {
                    assert(turned_before[i].fitness <= rest_before[j].fitness);
                }
            }
            assert forall|i: int| 0 <= i < rest@.len() implies #[trigger] rest@[i] == start[i] by {
                assert(rest@[i] == rest_before[i]);
            }
            assert forall|i: int| 0 <= i < turned@.len() implies #[trigger] turned@[i]
                == start[start.len() - 1 - i] by {
                if i < turned_before.len() {
                    assert(turned@[i] == turned_before[i]);
                } else {
                    assert(genome == rest_before[rest_before.len() - 1]);
                }
            }
        }
    }
    proof {
        lemma_nothing_held(rest@);
        assert(turned@.to_multiset() =~= whole);
    }
    turned
}

/// Merges two populations that are ordered by fitness into one. Of genomes
/// of equal fitness those of `left` come first, and each side keeps its
/// order.
fn merge(left: Vec<Individual>, right: Vec<Individual>) -> (merged: Vec<Individual>)
    requires
        ascending(left@),
        ascending(right@),
    ensures
        ascending(merged@),
        merged@.to_multiset() == left@.to_multiset().add(right@.to_multiset()),
        forall|fitness: int|
            #![trigger of_fitness(merged@, fitness)]
            of_fitness(merged@, fitness) == of_fitness(left@, fitness) + of_fitness(
                right@,
                fitness,
            ),
{
    let ghost whole = left@.to_multiset().add(right@.to_multiset());
    let ghost left_start = left@;
    let ghost right_start = right@;
    let ghost mut taken: Seq<Individual> = Seq::empty();
    let mut left: Vec<Individual> = left;
    let mut right: Vec<Individual> = right;
    let mut falling: Vec<Individual> = Vec::new();
    proof {
        lemma_nothing_held(falling@);
        assert(falling@.to_multiset().add(left@.to_multiset()).add(right@.to_multiset()) =~= whole);
        assert forall|fitness: int| #![trigger of_fitness(taken, fitness)]
            of_fitness(left_start, fitness) + of_fitness(right_start, fitness) == of_fitness(
                left@,
                fitness,
            ) + of_fitness(right@, fitness) + of_fitness(taken, fitness) by {
            assert(of_fitness(left@, fitness) + of_fitness(right@, fitness) + of_fitness(
                taken,
                fitness,
            ) =~= of_fitness(left@, fitness) + of_fitness(right@, fitness));
        }
    }
    while left.len() > 0 || right.len() > 0
        invariant
            ascending(left@),
            ascending(right@),
            descending(falling@),
            all_below(left@, falling@),
            all_below(right@, falling@),
            falling@.to_multiset().add(left@.to_multiset()).add(right@.to_multiset()) == whole,
            taken.len() == falling@.len(),
            forall|i: int|
                0 <= i < taken.len() ==> #[trigger] taken[i] == falling@[falling@.len() - 1 - i],
            forall|fitness: int|
                #![trigger of_fitness(taken, fitness)]
                of_fitness(left_start, fitness) + of_fitness(right_start, fitness) == of_fitness(
                    left@,
                    fitness,
                ) + of_fitness(right@, fitness) + of_fitness(taken, fitness),
        decreases left@.len() + right@.len(),
    {
        let ghost left_before = left@;
        let ghost right_before = right@;
        let ghost falling_before = falling@;
        let ghost taken_before = taken;
        let from_right: bool = if left.len() == 0 {
            true
        } else if right.len() == 0 {
            false
        } else {
            right[right.len() - 1].fitness >= left[left.len() - 1].fitness
        };
        let genome: Individual = if from_right {
            take_last(&mut right)
        } else {
            take_last(&mut left)
        };
        falling.push(genome);
        proof {
            vstd::seq_lib::to_multiset_build(falling_before, genome);
            assert(falling@.to_multiset().add(left@.to_multiset()).add(right@.to_multiset())
                =~= whole);
            assert forall|i: int, j: int| 0 <= i <= j < falling@.len() implies (
            #[trigger] falling@[i]).fitness >= (#[trigger] falling@[j]).fitness by {
                if j == falling_before.len() && i < j {
                    if from_right {
                        assert(right_before[right_before.len() - 1].fitness
                            <= falling_before[i].fitness);
                    } else {
                        assert(left_before[left_before.len() - 1].fitness
                            <= falling_before[i].fitness);
                    }
                }
            }
            assert forall|i: int, j: int|
                0 <= i < left@.len() && 0 <= j < falling@.len() implies (
            #[trigger] left@[i]).fitness <= (#[trigger] falling@[j]).fitness by {
                assert(left@[i] == left_before[i]);
                if j == falling_before.len() {
                    assert(left_before[i].fitness <= left_before[left_before.len() - 1].fitness);
                } else {
                    assert(left_before[i].fitness <= falling_before[j].fitness);
                }
            }
            assert forall|i: int, j: int|
                0 <= i < right@.len() && 0 <= j < falling@.len() implies (
            #[trigger] right@[i]).fitness <= (#[trigger] falling@[j]).fitness by {
                assert(right@[i] == right_before[i]);
                if j == falling_before.len() {
                    assert(right_before[i].fitness <= right_before[right_before.len()
                        - 1].fitness);
                } else {
                    assert(right_before[i].fitness <= falling_before[j].fitness);
                }
            }
            taken = seq![genome] + taken_before;
            assert forall|i: int| 0 <= i < taken.len() implies #[trigger] taken[i]
                == falling@[falling@.len() - 1 - i] by {
                if i > 0 {
                    assert(taken[i] == taken_before[i - 1]);
                    assert(falling@[falling@.len() - 1 - i] == falling_before[falling_before.len()
                        - 1 - (i - 1)]);
                }
            }
            assert forall|fitness: int| #![trigger of_fitness(taken, fitness)]
                of_fitness(left_start, fitness) + of_fitness(right_start, fitness) == of_fitness(
                    left@,
                    fitness,
                ) + of_fitness(right@, fitness) + of_fitness(taken, fitness) by {
                let held = of_fitness(left_start, fitness) + of_fitness(right_start, fitness);
                assert(held == of_fitness(left_before, fitness) + of_fitness(
                    right_before,
                    fitness,
                ) + of_fitness(taken_before, fitness));
                lemma_of_fitness_front(genome, taken_before, fitness);
                if from_right {
                    assert(left@ == left_before);
                    lemma_of_fitness_push(right@, genome, fitness);
                } else {
                    assert(right@ == right_before);
                    lemma_of_fitness_push(left@, genome, fitness);
                    if genome.fitness == fitness {
                        assert forall|i: int| 0 <= i < right@.len() implies (
                        #[trigger] right@[i]).fitness != fitness by {
                            assert(right@[i].fitness <= right@[right@.len() - 1].fitness);
                        }
                        lemma_of_fitness_none(right@, fitness);
                    }
                }
                assert(of_fitness(left@, fitness) + of_fitness(right@, fitness) + of_fitness(
                    taken,
                    fitness,
                ) =~= held);
            }
        }
    }
    proof {
        lemma_nothing_held(left@);
        lemma_nothing_held(right@);
        assert(falling@.to_multiset() =~= whole);
    }
    let merged: Vec<Individual> = reversed(falling);
    proof {
        assert(merged@ =~= taken);
        assert forall|fitness: int| #![trigger of_fitness(merged@, fitness)]
            of_fitness(merged@, fitness) == of_fitness(left_start, fitness) + of_fitness(
                right_start,
                fitness,
            ) by {
            assert(left@ =~= Seq::<Individual>::empty());
            assert(right@ =~= Seq::<Individual>::empty());
            assert(of_fitness(left@, fitness) + of_fitness(right@, fitness) + of_fitness(
                taken,
                fitness,
            ) =~= of_fitness(taken, fitness));
        }
    }
    merged
}

/// Sorts a population by fitness, the least fit first: each half is sorted,
/// and the halves are merged.
pub fn sort_by_fitness(population: Vec<Individual>) -> (sorted: Vec<Individual>)
    ensures
        is_sort_of(sorted@, population@),
    decreases population@.len(),
{
    let ghost whole = population@;
    let mut left: Vec<Individual> = population;
    if left.len() <= 1 {
        return left;
    }
    let half: usize = left.len() / 2;
    let right: Vec<Individual> = left.split_off(half);
    let ghost first = left@;
    let ghost second = right@;
    proof {
        assert(whole =~= first + second);
        vstd::seq_lib::lemma_multiset_commutative(first, second);
    }
    let left: Vec<Individual> = sort_by_fitness(left);
    let right: Vec<Individual> = sort_by_fitness(right);
    let ghost sorted_first = left@;
    let ghost sorted_second = right@;
    let sorted: Vec<Individual> = merge(left, right);
    proof {
        assert forall|fitness: int| #![trigger of_fitness(sorted@, fitness)]
            of_fitness(sorted@, fitness) == of_fitness(whole, fitness) by {
            lemma_of_fitness_concat(first, second, fitness);
            assert(of_fitness(sorted_first, fitness) == of_fitness(first, fitness));
            assert(of_fitness(sorted_second, fitness) == of_fitness(second, fitness));
        }
    }
    sorted
}

/// The position that a scan of the first `n` genomes ends on, if it moves on
/// only to a genome that is strictly fitter.
pub open spec fn first_best_prefix(population: Seq<Individual>, n: int) -> int
    decreases n,
{
    if n <= 1 {
        0
    } else {
        let rest = first_best_prefix(population, n - 1);
        if population[n - 1].fitness > population[rest].fitness {
            n - 1
        } else {
            rest
        }
    }
}

/// The position of the best genome: the first of those with the greatest
/// fitness, and zero in an empty population.
pub open spec fn first_best(population: Seq<Individual>) -> int {
    first_best_prefix(population, population.len() as int)
}

/// Tie-break law: among the first `n` genomes the scan ends on one of the
/// greatest fitness, and every genome before it is strictly less fit.
pub proof fn lemma_first_best_prefix(population: Seq<Individual>, n: int)
    requires
        1 <= n <= population.len(),
    ensures
        0 <= first_best_prefix(population, n) < n,
        forall|j: int|
            0 <= j < n ==> (#[trigger] population[j]).fitness <= population[first_best_prefix(
                population,
                n,
            )].fitness,
        forall|j: int|
            0 <= j < first_best_prefix(population, n) ==> (#[trigger] population[j]).fitness
                < population[first_best_prefix(population, n)].fitness,
    decreases n,
{
    if n > 1 {
        lemma_first_best_prefix(population, n - 1);
    }
}

/// Tie-break law: in a population that is not empty, the best position holds
/// a genome of the greatest fitness, and it is the lowest position that does.
pub proof fn lemma_first_best_is_lowest(population: Seq<Individual>)
    requires
        population.len() >= 1,
    ensures
        0 <= first_best(population) < population.len(),
        forall|j: int|
            0 <= j < population.len() ==> (#[trigger] population[j]).fitness
                <= population[first_best(population)].fitness,
        forall|j: int|
            0 <= j < first_best(population) ==> (#[trigger] population[j]).fitness
                < population[first_best(population)].fitness,
{
    lemma_first_best_prefix(population, population.len() as int);
}

/// Finds the position of the best genome: the lowest position among those
/// with the greatest fitness, and zero in an empty population.
pub fn best_index(population: &Vec<Individual>) -> (best: usize)
    ensures
        best == first_best(population@),
        population@.len() == 0 ==> best == 0,
        population@.len() > 0 ==> best < population@.len(),
        forall|j: int|
            0 <= j < population@.len() ==> (#[trigger] population@[j]).fitness
                <= population@[best as int].fitness,
        forall|j: int|
            0 <= j < best ==> (#[trigger] population@[j]).fitness < population@[best as int].fitness,
{
    let mut best: usize = 0;
    let mut i: usize = 0;
    while i < population.len()
        invariant
            i <= population@.len(),
            best == first_best_prefix(population@, i as int),
            i == 0 ==> best == 0,
            i > 0 ==> best < i,
        decreases population@.len() - i,
    {
        if population[i].fitness > population[best].fitness {
            best = i;
        }
        i += 1;
    }
    proof {
        if population@.len() > 0 {
            lemma_first_best_is_lowest(population@);
        }
    }
    best
}

/// A sorted population has the size of the population that was sorted.
pub proof fn lemma_sort_keeps_size(after: Seq<Individual>, before: Seq<Individual>)
    requires
        is_sort_of(after, before),
    ensures
        after.len() == before.len(),
{
    vstd::seq_lib::to_multiset_len(after);
    vstd::seq_lib::to_multiset_len(before);
}

/// Sorting keeps every genome: what stood at `at` before stands somewhere
/// after.
pub proof fn lemma_sort_keeps(after: Seq<Individual>, before: Seq<Individual>, at: int) -> (now:
    int)
    requires
        is_sort_of(after, before),
        0 <= at < before.len(),
    ensures
        0 <= now < after.len(),
        after[now] == before[at],
{
    assert(before.contains(before[at]));
    vstd::seq_lib::to_multiset_contains(before, before[at]);
    vstd::seq_lib::to_multiset_contains(after, before[at]);
    choose|now: int| 0 <= now < after.len() && after[now] == before[at]
}

/// Sorting brings in no genome: what stands at `now` after stood somewhere
/// before.
pub proof fn lemma_sort_came_from(after: Seq<Individual>, before: Seq<Individual>, now: int) -> (at:
    int)
    requires
        is_sort_of(after, before),
        0 <= now < after.len(),
    ensures
        0 <= at < before.len(),
        after[now] == before[at],
{
    assert(after.contains(after[now]));
    vstd::seq_lib::to_multiset_contains(after, after[now]);
    vstd::seq_lib::to_multiset_contains(before, after[now]);
    choose|at: int| 0 <= at < before.len() && before[at] == after[now]
}

} // verus!
