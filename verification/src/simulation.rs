//! The population engine: a population of genomes, the breeding of a new
//! generation, and the run over a fixed number of generations.
//!
//! Two properties of a run are deliberate. Every generation is bred from the
//! population of the start and compared with it, and what takes the ranks
//! accumulates without ever being cleared: a run of G generations over P
//! genomes leaves P times G genomes. And a child that is accepted has been
//! counted twice, once when it was bred and once when it was accepted.

use crate::config::{Configuration, Ratio};
use crate::error::SearchError;
use crate::evaluation::lemma_fertile_fitness;
use crate::breeding::{is_splice, lemma_offspring_allocates};
use crate::grid::{is_offspring, SENTINEL};
use crate::individual::{Genome, Individual};
use crate::random::{chance, pick_two_weighted};
use crate::ranking::{
    ascending,
    best_index,
    first_best,
    is_sort_of,
    lemma_first_best_is_lowest,
    lemma_sort_came_from,
    lemma_sort_keeps,
    lemma_sort_keeps_size,
    sort_by_fitness,
};
use rand::rngs::StdRng;
use vstd::prelude::*;

verus! {

/// The fitness of the first `n` genomes together.
pub open spec fn fitness_sum_prefix(population: Seq<Individual>, n: int) -> int
    decreases n,
{
    if n <= 0 {
        0
    } else {
        fitness_sum_prefix(population, n - 1) + population[n - 1].fitness
    }
}

/// The fitness of all genomes together.
pub open spec fn fitness_sum(population: Seq<Individual>) -> int {
    fitness_sum_prefix(population, population.len() as int)
}

/// The fitness of genomes never adds up to less than zero.
pub proof fn lemma_fitness_sum_not_negative(population: Seq<Individual>, n: int)
    ensures
        0 <= fitness_sum_prefix(population, n),
    decreases n,
{
    if n > 0 {
        lemma_fitness_sum_not_negative(population, n - 1);
    }
}

/// In a fertile market the fitness of a population of valid genomes adds up
/// to more than zero, unless the population is empty.
pub proof fn lemma_fertile_population(population: Seq<Individual>, config: &Configuration)
    requires
        config.wf(),
        config.is_fertile(),
        population.len() >= 1,
        forall|i: int| 0 <= i < population.len() ==> (#[trigger] population[i]).valid(config),
    ensures
        0 < fitness_sum(population),
{
    let last: int = population.len() - 1;
    assert(population[last].valid(config));
    lemma_fertile_fitness(population[last], config);
    lemma_fitness_sum_not_negative(population, last);
}

/// A generation can be bred from the population: it has a single genome,
/// which needs no parents, or two or more whose fitness adds up to more than
/// zero.
pub open spec fn can_breed(population: Seq<Individual>) -> bool {
    population.len() == 1 || (population.len() >= 2 && fitness_sum(population) > 0)
}

/// The population can be evolved: no generation is asked for, or a
/// generation can be bred from it.
pub open spec fn can_evolve(population: Seq<Individual>, config: &Configuration) -> bool {
    config.generation_limit() == 0 || can_breed(population)
}

/// `child` was bred from two different members of `population`: it is an
/// offspring of their grids, a plain splice of them if the mutation rate is
/// zero, and has one breeding step more behind it than the first of them.
pub open spec fn bred_from(
    child: Individual,
    population: Seq<Individual>,
    config: &Configuration,
) -> bool {
    exists|first: int, second: int|
        {
            &&& 0 <= first < population.len()
            &&& 0 <= second < population.len()
            &&& first != second
            &&& child.generation == (#[trigger] population[first]).generation + 1
            &&& is_offspring(child.grid(), population[first].grid(), (
            #[trigger] population[second]).grid())
            &&& config.mutation_rate().numerator == 0 ==> is_splice(
                child.grid(),
                population[first].grid(),
                population[second].grid(),
            )
        }
}

/// `next` is a generation bred from `population`: the best genome first, and
/// a child of two different members in every other place.
pub open spec fn is_next_generation(
    next: Seq<Individual>,
    population: Seq<Individual>,
    config: &Configuration,
) -> bool {
    &&& next.len() == population.len()
    &&& population.len() >= 1
    &&& next[0]@ == population[first_best(population)]@
    &&& forall|k: int| 1 <= k < next.len() ==> bred_from(#[trigger] next[k], population, config)
}

/// Conservation law of the breeding step: every genome of a generation bred
/// from genomes that allocate every stock completely allocates every stock
/// completely.
pub proof fn lemma_next_generation_allocates(
    next: Seq<Individual>,
    population: Seq<Individual>,
    config: &Configuration,
)
    requires
        is_next_generation(next, population, config),
        forall|i: int| 0 <= i < population.len() ==> (#[trigger] population[i]).allocates(config),
    ensures
        forall|k: int| 0 <= k < next.len() ==> (#[trigger] next[k]).allocates(config),
{
    lemma_first_best_is_lowest(population);
    assert forall|k: int| 0 <= k < next.len() implies (#[trigger] next[k]).allocates(config) by {
        if k == 0 {
            assert(population[first_best(population)].allocates(config));
            assert(next[0].grid() == population[first_best(population)].grid());
        } else {
            assert(bred_from(next[k], population, config));
            let (first, second): (int, int) = choose|first: int, second: int|
                {
                    &&& 0 <= first < population.len()
                    &&& 0 <= second < population.len()
                    &&& first != second
                    &&& next[k].generation == (#[trigger] population[first]).generation + 1
                    &&& is_offspring(next[k].grid(), population[first].grid(), (
                    #[trigger] population[second]).grid())
                    &&& config.mutation_rate().numerator == 0 ==> is_splice(
                        next[k].grid(),
                        population[first].grid(),
                        population[second].grid(),
                    )
                };
            lemma_offspring_allocates(next[k], population[first], population[second], config);
        }
    }
}

/// The genome with one more breeding step behind it.
pub open spec fn promoted(genome: Genome) -> Genome {
    Genome { generation: genome.generation + 1, ..genome }
}

/// What takes a rank of the accumulated population: the candidate, with one
/// more step behind it, if it is fitter than the genome that holds the rank
/// or was accepted though it is not; else the genome that holds the rank.
pub open spec fn replacement_of(candidate: Genome, current: Genome, accepted: bool) -> Genome {
    if candidate.fitness > current.fitness || accepted {
        promoted(candidate)
    } else {
        current
    }
}

/// `genome` is what takes a rank when `candidate` meets `current` under the
/// acceptance rate `rate`. A candidate that is no fitter is accepted only if
/// the rate is not zero, and is kept out only if the rate is not one.
pub open spec fn takes_rank(
    genome: Individual,
    candidate: Individual,
    current: Individual,
    rate: Ratio,
) -> bool {
    exists|accepted: bool|
        {
            &&& accepted ==> rate.numerator > 0
            &&& !accepted && candidate.fitness <= current.fitness ==> rate.numerator
                < rate.denominator
            &&& genome@ == #[trigger] replacement_of(candidate@, current@, accepted)
        }
}

/// `generation` is a generation bred from `founders`, sorted by fitness.
pub open spec fn is_sorted_generation(
    generation: Seq<Individual>,
    founders: Seq<Individual>,
    config: &Configuration,
) -> bool {
    exists|bred: Seq<Individual>|
        #[trigger] is_next_generation(bred, founders, config) && is_sort_of(generation, bred)
}

/// `block` holds, rank by rank, what takes the rank when the genome of
/// `generation` meets the genome of `founders`.
pub open spec fn is_round(
    block: Seq<Individual>,
    generation: Seq<Individual>,
    founders: Seq<Individual>,
    config: &Configuration,
) -> bool {
    &&& block.len() == founders.len()
    &&& generation.len() == founders.len()
    &&& is_sorted_generation(generation, founders, config)
    &&& forall|rank: int|
        0 <= rank < founders.len() ==> takes_rank(
            #[trigger] block[rank],
            generation[rank],
            founders[rank],
            config.weak_acceptance_rate(),
        )
}

/// `accumulated` holds one block for each of `generations`, in their order:
/// no block is ever dropped.
pub open spec fn accumulates(
    accumulated: Seq<Individual>,
    generations: Seq<Seq<Individual>>,
    founders: Seq<Individual>,
    config: &Configuration,
) -> bool
    decreases generations.len(),
{
    if generations.len() == 0 {
        accumulated.len() == 0
    } else {
        let cut = accumulated.len() - founders.len();
        &&& cut >= 0
        &&& accumulates(accumulated.subrange(0, cut), generations.drop_last(), founders, config)
        &&& is_round(
            accumulated.subrange(cut, accumulated.len() as int),
            generations.last(),
            founders,
            config,
        )
    }
}

/// `members` is what the configured number of generations leave of
/// `founders`: every generation is bred from the founders and sorted, its
/// genomes meet the founders rank by rank, and what takes the ranks
/// accumulates and is sorted by fitness at the end.
pub open spec fn is_evolution_of(
    members: Seq<Individual>,
    founders: Seq<Individual>,
    config: &Configuration,
) -> bool {
    exists|accumulated: Seq<Individual>, generations: Seq<Seq<Individual>>|
        {
            &&& generations.len() == config.generation_limit()
            &&& #[trigger] accumulates(accumulated, generations, founders, config)
            &&& is_sort_of(members, accumulated)
        }
}

/// What accumulates over the generations has one genome for every rank of
/// every generation.
pub proof fn lemma_accumulated_size(
    accumulated: Seq<Individual>,
    generations: Seq<Seq<Individual>>,
    founders: Seq<Individual>,
    config: &Configuration,
)
    requires
        accumulates(accumulated, generations, founders, config),
    ensures
        accumulated.len() == founders.len() * generations.len(),
    decreases generations.len(),
{
    if generations.len() > 0 {
        let cut: int = accumulated.len() - founders.len();
        lemma_accumulated_size(
            accumulated.subrange(0, cut),
            generations.drop_last(),
            founders,
            config,
        );
        let size: int = founders.len() as int;
        let rounds: int = generations.len() as int;
        assert(size * rounds == size * (rounds - 1) + size) by (nonlinear_arith);
    } else {
        assert(founders.len() * 0 == 0);
    }
}

/// Decides what takes a rank of the accumulated population.
pub fn replacement(candidate: &Individual, current: &Individual, accepted: bool) -> (chosen:
    Individual)
    requires
        candidate.generation < u32::MAX,
    ensures
        chosen@ == replacement_of(candidate@, current@, accepted),
{
    if candidate.fitness > current.fitness || accepted {
        let mut chosen = candidate.duplicate();
        chosen.generation = chosen.generation + 1;
        chosen
    } else {
        current.duplicate()
    }
}

/// A population with the configuration that it evolves under. Every genome
/// of the population is valid for the configuration.
pub struct Simulation {
    config: Configuration,
    population: Vec<Individual>,
}

impl Simulation {
    /// The genomes of the population, in their order.
    pub closed spec fn members(&self) -> Seq<Individual> {
        self.population@
    }

    /// The configuration.
    pub closed spec fn configuration(&self) -> Configuration {
        self.config
    }

    /// Every genome of the population is valid for the configuration.
    pub open spec fn wf(&self) -> bool {
        forall|i: int|
            0 <= i < self.members().len() ==> (#[trigger] self.members()[i]).valid(
                &self.configuration(),
            )
    }

    #[verifier::type_invariant]
    pub open spec fn inv(self) -> bool {
        self.wf()
    }

    /// A simulation with an empty population.
    pub fn new(config: Configuration) -> (simulation: Simulation)
        ensures
            simulation.configuration() == config,
            simulation.members().len() == 0,
    {
        Simulation { config, population: Vec::new() }
    }

    /// The configuration.
    pub fn config(&self) -> (config: &Configuration)
        ensures
            *config == self.configuration(),
    {
        &self.config
    }

    /// The population.
    pub fn population(&self) -> (population: &Vec<Individual>)
        ensures
            population@ == self.members(),
            self.wf(),
    {
        proof {
            use_type_invariant(self);
        }
        &self.population
    }

    /// The position of the best genome of the population: the lowest
    /// position among those with the greatest fitness, and zero in an empty
    /// population.
    pub fn best_indv(&self) -> (best: usize)
        ensures
            best == first_best(self.members()),
            self.members().len() == 0 ==> best == 0,
            self.members().len() > 0 ==> best < self.members().len(),
            forall|j: int|
                0 <= j < self.members().len() ==> (#[trigger] self.members()[j]).fitness
                    <= self.members()[best as int].fitness,
            forall|j: int|
                0 <= j < best ==> (#[trigger] self.members()[j]).fitness
                    < self.members()[best as int].fitness,
    {
        best_index(&self.population)
    }

    /// The fitness of all genomes of the population together.
    pub fn total_fitness(&self) -> (total: u128)
        ensures
            total == fitness_sum(self.members()),
    {
        let mut total: u128 = 0;
        let mut i: usize = 0;
        while i < self.population.len()
            invariant
                i <= self.population@.len(),
                total == fitness_sum_prefix(self.population@, i as int),
                total <= i * 0xffff_ffff,
            decreases self.population@.len() - i,
        {
            total = total + self.population[i].fitness as u128;
            i += 1;
        }
        total
    }

    /// The fitness of each genome of the population, in their order.
    pub fn fitness_weights(&self) -> (weights: Vec<u32>)
        ensures
            weights@.len() == self.members().len(),
            forall|i: int|
                0 <= i < weights@.len() ==> #[trigger] weights@[i] == self.members()[i].fitness,
    {
        let mut weights: Vec<u32> = Vec::new();
        let mut i: usize = 0;
        while i < self.population.len()
            invariant
                i <= self.population@.len(),
                weights@.len() == i,
                forall|k: int|
                    0 <= k < i ==> #[trigger] weights@[k] == self.population@[k].fitness,
            decreases self.population@.len() - i,
        {
            weights.push(self.population[i].fitness);
            i += 1;
        }
        weights
    }

    /// Replaces the population by one built at random, of the configured
    /// size, sorted by fitness.
    pub fn initialize(&mut self, rng: &mut StdRng)
        ensures
            final(self).configuration() == old(self).configuration(),
            final(self).wf(),
            is_founding(final(self).members(), &final(self).configuration()),
    {
        let size: usize = self.config.population_size();
        let mut fresh: Vec<Individual> = Vec::new();
        let mut i: usize = 0;
        while i < size
            invariant
                i <= size,
                fresh@.len() == i,
                forall|k: int| 0 <= k < i ==> (#[trigger] fresh@[k]).valid(&self.config),
                forall|k: int| 0 <= k < i ==> (#[trigger] fresh@[k]).generation == 0,
            decreases size - i,
        {
            fresh.push(Individual::new(&self.config, rng));
            i += 1;
        }
        let ghost unsorted = fresh@;
        let fresh: Vec<Individual> = sort_by_fitness(fresh);
        proof {
            lemma_sort_keeps_size(fresh@, unsorted);
            assert forall|k: int| 0 <= k < fresh@.len() implies (#[trigger] fresh@[k]).valid(
                &self.config,
            ) && fresh@[k].generation == 0 by {
                let at = lemma_sort_came_from(fresh@, unsorted, k);
                assert(unsorted[at].valid(&self.config));
            }
            assert(is_founding(fresh@, &self.config));
        }
        self.population = fresh;
    }

    /// Breeds a generation from the population: the best genome first, and
    /// in every other place the child of two different genomes, each picked
    /// with a likelihood in proportion to its fitness.
    ///
    /// There is no generation to breed from an empty population, or, where
    /// parents are needed, from a population whose fitness adds up to zero.
    /// From every other population a generation is bred; in a fertile market
    /// that is every population that is not empty.
    pub fn crossover_population(&self, rng: &mut StdRng) -> (bred: Result<
        Vec<Individual>,
        SearchError,
    >)
        requires
            forall|i: int|
                0 <= i < self.members().len() ==> (#[trigger] self.members()[i]).generation
                    < u32::MAX,
        ensures
            bred matches Ok(next) ==> {
                &&& is_next_generation(next@, self.members(), &self.configuration())
                &&& forall|k: int|
                    0 <= k < next@.len() ==> (#[trigger] next@[k]).valid(&self.configuration())
            },
            bred matches Err(error) ==> error == SearchError::DegenerateSample,
            bred is Ok <==> can_breed(self.members()),
            self.members().len() == 0 ==> bred is Err,
            self.members().len() == 1 ==> bred is Ok,
            self.members().len() >= 2 && fitness_sum(self.members()) == 0 ==> bred is Err,
            self.members().len() >= 2 && fitness_sum(self.members()) > 0 ==> bred is Ok,
            self.configuration().is_fertile() ==> (bred is Ok <==> self.members().len() >= 1),
    {
        proof {
            use_type_invariant(self);
            use_type_invariant(&self.config);
            if self.config.is_fertile() && self.population@.len() >= 1 {
                lemma_fertile_population(self.population@, &self.config);
            }
        }
        let size: usize = self.population.len();
        if size == 0 {
            return Err(SearchError::DegenerateSample);
        }
        let elite: usize = self.best_indv();
        let mut next: Vec<Individual> = Vec::new();
        next.push(self.population[elite].duplicate());
        if size == 1 {
            return Ok(next);
        }
        if self.total_fitness() == 0 {
            return Err(SearchError::DegenerateSample);
        }
        let weights: Vec<u32> = self.fitness_weights();
        let mut k: usize = 1;
        while k < size
            invariant
                1 <= k <= size,
                size == self.population@.len(),
                weights@.len() == size,
                next@.len() == k,
                self.wf(),
                self.members() == self.population@,
                self.configuration() == self.config,
                forall|i: int|
                    0 <= i < self.population@.len() ==> (#[trigger] self.population@[i]).generation
                        < u32::MAX,
                next@[0]@ == self.population@[first_best(self.population@)]@,
                forall|i: int|
                    1 <= i < k ==> bred_from(#[trigger] next@[i], self.population@, &self.config),
                forall|i: int| 0 <= i < k ==> (#[trigger] next@[i]).valid(&self.config),
            decreases size - k,
        {
            match pick_two_weighted(rng, &weights) {
                Ok((first, second)) => {
                    let ghost before = next@;
                    let child: Individual = self.population[first].crossover(
                        &self.population[second],
                        &self.config,
                        rng,
                    );
                    proof {
                        assert(self.population@[first as int].generation + 1 == child.generation);
                        assert(is_offspring(
                            child.grid(),
                            self.population@[first as int].grid(),
                            self.population@[second as int].grid(),
                        ));
                        assert(bred_from(child, self.population@, &self.config));
                    }
                    next.push(child);
                    proof {
                        assert forall|i: int| 1 <= i < k + 1 implies bred_from(
                            #[trigger] next@[i],
                            self.population@,
                            &self.config,
                        ) by {
                            if i < k {
                                assert(next@[i] == before[i]);
                            }
                        }
                    }
                },
                Err(_) => {
                    return Err(SearchError::DegenerateSample);
                },
            }
            k += 1;
        }
        Ok(next)
    }

    /// Settles every rank of a generation: the candidate of the rank goes
    /// to the accumulated population, with one more step behind it, if it is
    /// fitter than the member of that rank or is accepted though it is not;
    /// else the member goes there. The chance of being accepted is the
    /// configured one, and it is asked for only if the candidate is no
    /// fitter.
    pub fn settle_ranks(
        &self,
        candidates: &Vec<Individual>,
        accumulated: &mut Vec<Individual>,
        rng: &mut StdRng,
    )
        requires
            candidates@.len() == self.members().len(),
            forall|k: int|
                0 <= k < candidates@.len() ==> (#[trigger] candidates@[k]).valid(
                    &self.configuration(),
                ) && candidates@[k].generation < u32::MAX,
            forall|i: int|
                0 <= i < old(accumulated)@.len() ==> (#[trigger] old(accumulated)@[i]).valid(
                    &self.configuration(),
                ),
        ensures
            final(accumulated)@.len() == old(accumulated)@.len() + self.members().len(),
            final(accumulated)@.subrange(0, old(accumulated)@.len() as int) == old(accumulated)@,
            forall|rank: int|
                0 <= rank < self.members().len() ==> takes_rank(
                    #[trigger] final(accumulated)@[old(accumulated)@.len() + rank],
                    candidates@[rank],
                    self.members()[rank],
                    self.configuration().weak_acceptance_rate(),
                ),
            forall|i: int|
                0 <= i < final(accumulated)@.len() ==> (#[trigger] final(accumulated)@[i]).valid(
                    &self.configuration(),
                ),
    {
        proof {
            use_type_invariant(self);
        }
        let ghost start = accumulated@;
        let size: usize = self.population.len();
        let rate = self.config.weak_acceptance_rate();
        let mut rank: usize = 0;
        while rank < size
            invariant
                rank <= size,
                rate == self.config.weak_acceptance_rate(),
                rate.valid(),
                self.wf(),
                self.members() == self.population@,
                self.configuration() == self.config,
                size == self.population@.len(),
                candidates@.len() == size,
                forall|k: int|
                    0 <= k < candidates@.len() ==> (#[trigger] candidates@[k]).valid(&self.config)
                        && candidates@[k].generation < u32::MAX,
                accumulated@.len() == start.len() + rank,
                accumulated@.subrange(0, start.len() as int) == start,
                forall|r: int|
                    0 <= r < rank ==> takes_rank(
                        #[trigger] accumulated@[start.len() + r],
                        candidates@[r],
                        self.population@[r],
                        rate,
                    ),
                forall|i: int|
                    0 <= i < accumulated@.len() ==> (#[trigger] accumulated@[i]).valid(
                        &self.config,
                    ),
            decreases size - rank,
        {
            let ghost before = accumulated@;
            let fitter: bool = candidates[rank].fitness > self.population[rank].fitness;
            let lucky: bool = !fitter && chance(rng, rate.numerator, rate.denominator);
            let chosen: Individual = replacement(&candidates[rank], &self.population[rank], lucky);
            proof {
                assert(self.population@[rank as int].valid(&self.config));
                assert(candidates@[rank as int].valid(&self.config));
                lemma_same_genome_valid(
                    chosen,
                    candidates@[rank as int],
                    self.population@[rank as int],
                    &self.config,
                );
                assert(chosen@ == replacement_of(
                    candidates@[rank as int]@,
                    self.population@[rank as int]@,
                    lucky,
                ));
                assert(takes_rank(
                    chosen,
                    candidates@[rank as int],
                    self.population@[rank as int],
                    rate,
                ));
            }
            accumulated.push(chosen);
            proof {
                assert(accumulated@.subrange(0, start.len() as int) =~= start) by {
                    assert(before.subrange(0, start.len() as int) == start);
                }
                assert forall|r: int| 0 <= r < rank + 1 implies takes_rank(
                    #[trigger] accumulated@[start.len() + r],
                    candidates@[r],
                    self.population@[r],
                    rate,
                ) by {
                    if r < rank {
                        assert(accumulated@[start.len() + r] == before[start.len() + r]);
                    }
                }
                assert forall|i: int| 0 <= i < accumulated@.len() implies (
                #[trigger] accumulated@[i]).valid(&self.config) by {
                    if i < before.len() {
                        assert(accumulated@[i] == before[i]);
                    }
                }
            }
            rank += 1;
        }
    }

    /// Evolves the population over the configured number of generations and
    /// gives the best genome found.
    ///
    /// Every generation is bred from the population as it stood at the
    /// start, and sorted by fitness. Rank by rank its genome is compared to
    /// the genome of that rank at the start: the candidate goes to the
    /// accumulated population, with one more step behind it, if it is fitter
    /// or is accepted though it is not; else the genome from the start goes
    /// there. A child that is accepted has so been counted twice: when it was
    /// bred, and when it was accepted. The accumulated population is never
    /// cleared: at the end it holds one genome for every rank of every
    /// generation. It replaces the population, sorted by fitness, and its
    /// best genome is the result. A population that ends empty gives the
    /// genome that stands for "not initialised".
    ///
    /// If a generation cannot be bred, the population stays as it is.
    pub fn evolve(&mut self, rng: &mut StdRng) -> (found: Result<Individual, SearchError>)
        requires
            forall|i: int|
                0 <= i < old(self).members().len() ==> (
                #[trigger] old(self).members()[i]).generation <= u32::MAX - 2,
        ensures
            final(self).configuration() == old(self).configuration(),
            final(self).wf(),
            found matches Ok(best) ==> is_outcome_of(
                final(self).members(),
                best,
                old(self).members(),
                &old(self).configuration(),
            ),
            found matches Err(error) ==> error == SearchError::DegenerateSample && final(
                self).members() == old(self).members(),
            found is Ok <==> can_evolve(old(self).members(), &old(self).configuration()),
            old(self).configuration().generation_limit() == 0 ==> found is Ok,
            old(self).members().len() == 1 ==> found is Ok,
            old(self).members().len() >= 2 && fitness_sum(old(self).members()) > 0
                ==> found is Ok,
            old(self).configuration().is_fertile() ==> (found is Ok <==> old(
                self).configuration().generation_limit() == 0 || old(self).members().len() >= 1),
            old(self).members().len() == 0 && old(self).configuration().generation_limit() > 0
                ==> found is Err,
            old(self).members().len() >= 2 && old(self).configuration().generation_limit() > 0
                && fitness_sum(old(self).members()) == 0 ==> found is Err,
    {
        proof {
            use_type_invariant(&*self);
            use_type_invariant(&self.config);
            if self.config.is_fertile() && self.population@.len() >= 1 {
                lemma_fertile_population(self.population@, &self.config);
            }
        }
        let ghost founders = self.population@;
        let ghost mut generations: Seq<Seq<Individual>> = Seq::empty();
        let size: usize = self.population.len();
        let rounds: u32 = self.config.generation_limit();
        let mut accumulated: Vec<Individual> = Vec::new();
        let mut round: u32 = 0;
        while round < rounds
            invariant
                round <= rounds,
                rounds == self.config.generation_limit(),
                self.population@ == founders,
                self.members() == founders,
                self.configuration() == self.config,
                self.config == old(self).config,
                self.wf(),
                size == founders.len(),
                forall|i: int|
                    0 <= i < founders.len() ==> (#[trigger] founders[i]).generation <= u32::MAX
                        - 2,
                generations.len() == round,
                accumulates(accumulated@, generations, founders, &self.config),
                accumulated@.len() == size * round,
                founders == old(self).members(),
                round > 0 ==> can_breed(founders),
                forall|i: int|
                    0 <= i < accumulated@.len() ==> (#[trigger] accumulated@[i]).valid(
                        &self.config,
                    ),
                accumulated@.len() > 0 ==> exists|top: int|
                    0 <= top < accumulated@.len() && dominates(#[trigger] accumulated@[top], founders),
            decreases rounds - round,
        {
            let next: Vec<Individual> = match self.crossover_population(rng) {
                Ok(next) => next,
                Err(error) => {
                    return Err(error);
                },
            };
            let ghost bred = next@;
            let crossed: Vec<Individual> = sort_by_fitness(next);
            let ghost before = accumulated@;
            proof {
                lemma_sort_keeps_size(crossed@, bred);
                lemma_first_best_is_lowest(founders);
                assert(is_sorted_generation(crossed@, founders, &self.config));
                assert forall|k: int| 0 <= k < crossed@.len() implies (#[trigger] crossed@[k]).valid(
                    &self.config,
                ) && crossed@[k].generation < u32::MAX by {
                    let at = lemma_sort_came_from(crossed@, bred, k);
                    assert(bred[at].valid(&self.config));
                    if at > 0 {
                        assert(bred_from(bred[at], founders, &self.config));
                    }
                }
                assert(size * (round + 1) == size * round + size) by (nonlinear_arith);
            }
            self.settle_ranks(&crossed, &mut accumulated, rng);
            proof {
                let block = accumulated@.subrange(before.len() as int, accumulated@.len() as int);
                assert forall|rank: int| 0 <= rank < founders.len() implies takes_rank(
                    #[trigger] block[rank],
                    crossed@[rank],
                    founders[rank],
                    self.config.weak_acceptance_rate(),
                ) by {
                    assert(block[rank] == accumulated@[before.len() + rank]);
                }
                assert(is_round(block, crossed@, founders, &self.config));
                let longer = generations.push(crossed@);
                assert(longer.drop_last() =~= generations);
                assert(longer.last() == crossed@);
                assert(accumulates(accumulated@, longer, founders, &self.config));
                generations = longer;
                assert(block[size - 1] == accumulated@[accumulated@.len() - 1]);
                lemma_last_rank_dominates(
                    accumulated@[accumulated@.len() - 1],
                    crossed@,
                    bred,
                    founders,
                    &self.config,
                );
            }
            round += 1;
        }
        let ghost unsorted = accumulated@;
        let accumulated: Vec<Individual> = sort_by_fitness(accumulated);
        proof {
            lemma_sort_keeps_size(accumulated@, unsorted);
            assert forall|k: int| 0 <= k < accumulated@.len() implies (
            #[trigger] accumulated@[k]).valid(&self.config) by {
                let at = lemma_sort_came_from(accumulated@, unsorted, k);
                assert(unsorted[at].valid(&self.config));
            }
            assert(is_evolution_of(accumulated@, founders, &self.config));
        }
        self.population = accumulated;
        let mut best: Individual = Individual::default(&self.config);
        if self.population.len() > 0 {
            let candidate: Individual = self.population[self.best_indv()].duplicate();
            if best.fitness <= candidate.fitness {
                best = candidate;
            }
            proof {
                let top: int = choose|top: int|
                    0 <= top < unsorted.len() && dominates(#[trigger] unsorted[top], founders);
                let now = lemma_sort_keeps(self.population@, unsorted, top);
                assert(self.population@[now].fitness <= best.fitness);
                assert forall|i: int| 0 <= i < founders.len() implies (
                #[trigger] founders[i]).fitness <= best.fitness by {
                    assert(founders[i].fitness <= unsorted[top].fitness);
                }
                lemma_same_genome_valid(
                    best,
                    self.population@[first_best(self.population@)],
                    self.population@[first_best(self.population@)],
                    &self.config,
                );
            }
        }
        Ok(best)
    }

    /// Runs a search: builds a population at random and evolves it. If no
    /// generation can be bred, the population stays the one that was built.
    pub fn run(&mut self, rng: &mut StdRng) -> (found: Result<Individual, SearchError>)
        ensures
            final(self).configuration() == old(self).configuration(),
            final(self).wf(),
            found matches Ok(best) ==> exists|founders: Seq<Individual>|
                {
                    &&& is_founding(founders, &final(self).configuration())
                    &&& can_evolve(founders, &final(self).configuration())
                    &&& #[trigger] is_outcome_of(
                        final(self).members(),
                        best,
                        founders,
                        &final(self).configuration(),
                    )
                },
            found matches Err(error) ==> {
                &&& error == SearchError::DegenerateSample
                &&& is_founding(final(self).members(), &final(self).configuration())
                &&& !can_evolve(final(self).members(), &final(self).configuration())
            },
            found is Err ==> old(self).configuration().generation_limit() > 0 && (old(
                self).configuration().population_size() == 0 || fitness_sum(
                final(self).members(),
            ) == 0),
            old(self).configuration().is_fertile() ==> (found is Ok <==> old(
                self).configuration().generation_limit() == 0 || old(
                self).configuration().population_size() >= 1),
            old(self).configuration().generation_limit() == 0 ==> found is Ok,
            old(self).configuration().population_size() == 1 ==> found is Ok,
            old(self).configuration().population_size() == 0 && old(
                self).configuration().generation_limit() > 0 ==> found is Err,
    {
        self.initialize(rng);
        let ghost founders = self.members();
        let found: Result<Individual, SearchError> = self.evolve(rng);
        proof {
            if found is Ok {
                assert(is_outcome_of(
                    self.members(),
                    found->Ok_0,
                    founders,
                    &self.configuration(),
                ));
            } else {
                lemma_fitness_sum_not_negative(founders, founders.len() as int);
            }
        }
        found
    }
}

/// `founders` is a population as a run builds it: of the configured size,
/// every genome valid and without a breeding step behind it, sorted by
/// fitness.
pub open spec fn is_founding(founders: Seq<Individual>, config: &Configuration) -> bool {
    &&& founders.len() == config.population_size()
    &&& ascending(founders)
    &&& forall|i: int|
        0 <= i < founders.len() ==> (#[trigger] founders[i]).valid(config) && founders[i].generation
            == 0
}

/// `members` and `best` are what an evolution leaves that started from
/// `founders`.
///
/// The members are what the configured number of generations leave of the
/// founders, one genome for every rank of every generation, sorted by
/// fitness, and every one of them valid. If there is a member, `best` stands
/// for the first of the fittest members, and is at least as fit as every
/// founder; if there is none, `best` stands for "not initialised".
pub open spec fn is_outcome_of(
    members: Seq<Individual>,
    best: Individual,
    founders: Seq<Individual>,
    config: &Configuration,
) -> bool {
    &&& is_evolution_of(members, founders, config)
    &&& members.len() == founders.len() * config.generation_limit()
    &&& ascending(members)
    &&& forall|i: int| 0 <= i < members.len() ==> (#[trigger] members[i]).valid(config)
    &&& forall|i: int| 0 <= i < members.len() ==> (#[trigger] members[i]).fitness <= best.fitness
    &&& members.len() > 0 ==> {
        &&& best@ == members[first_best(members)]@
        &&& best.valid(config)
        &&& dominates(best, founders)
    }
    &&& members.len() == 0 ==> is_blank(best, config)
}

/// What takes the last rank of a round is at least as fit as every founder:
/// the sorted generation holds a copy of the best founder, so that its last
/// genome is at least as fit as every founder, and the founder of the last
/// rank is kept only if it is at least as fit as that genome.
pub proof fn lemma_last_rank_dominates(
    chosen: Individual,
    generation: Seq<Individual>,
    bred: Seq<Individual>,
    founders: Seq<Individual>,
    config: &Configuration,
)
    requires
        founders.len() >= 1,
        is_next_generation(bred, founders, config),
        is_sort_of(generation, bred),
        takes_rank(
            chosen,
            generation[founders.len() - 1],
            founders[founders.len() - 1],
            config.weak_acceptance_rate(),
        ),
    ensures
        dominates(chosen, founders),
{
    let last: int = founders.len() - 1;
    lemma_sort_keeps_size(generation, bred);
    lemma_first_best_is_lowest(founders);
    let elite = lemma_sort_keeps(generation, bred, 0);
    assert(generation[elite].fitness <= generation[last].fitness);
    assert(dominates(generation[last], founders)) by {
        assert forall|i: int| 0 <= i < founders.len() implies (#[trigger] founders[i]).fitness
            <= generation[last].fitness by {}
    }
    assert forall|i: int| 0 <= i < founders.len() implies (#[trigger] founders[i]).fitness
        <= chosen.fitness by {
        assert(founders[i].fitness <= generation[last].fitness);
    }
}

/// The genome is at least as fit as every genome of the population.
pub open spec fn dominates(genome: Individual, population: Seq<Individual>) -> bool {
    forall|i: int| 0 <= i < population.len() ==> (#[trigger] population[i]).fitness <= genome.fitness
}

/// The genome stands for "not initialised": it has the shape that the
/// configuration asks for, every cell holds the sentinel, and fitness and
/// generation are zero.
pub open spec fn is_blank(genome: Individual, config: &Configuration) -> bool {
    &&& genome.scored(config)
    &&& genome.fitness == 0
    &&& genome.generation == 0
    &&& forall|s: int, c: int|
        0 <= s < config.stock_count() && 0 <= c < config.city_count()
            ==> #[trigger] genome.grid()[s][c] == SENTINEL
}

/// A genome that stands for the same as a valid genome, but for the number
/// of steps behind it, is valid.
pub proof fn lemma_same_genome_valid(
    chosen: Individual,
    candidate: Individual,
    current: Individual,
    config: &Configuration,
)
    requires
        candidate.valid(config),
        current.valid(config),
        chosen.grid() == candidate.grid() && chosen.fitness == candidate.fitness || chosen.grid()
            == current.grid() && chosen.fitness == current.fitness,
    ensures
        chosen.valid(config),
{
}

} // verus!
