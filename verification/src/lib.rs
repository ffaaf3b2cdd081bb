//! Genetic search for an allocation of fixed stock quantities across cities.
//!
//! A genome is a grid of integers, one row for each stock and one cell for
//! each city. Its fitness combines the income of the allocation with three
//! bonus terms. The engine builds a random population, breeds it by weighted
//! selection and crossover for a fixed number of generations, and returns the
//! fittest genome it has seen.
//!
//! Fitness is held in hundredths, so that every term is an exact integer.
//! Randomness comes from a generator that the caller hands in.
//!
//! - `grid` and `fitness` hold the mathematical model: what a grid is, what
//!   crossover and mutation may do to it, and what it scores.
//! - `config` holds the validated configuration, `error` the failures.
//! - `individual`, `evaluation` and `breeding` hold the genome, its scoring
//!   and its making.
//! - `ranking` sorts a population and finds its best genome.
//! - `simulation` holds the population engine.
//! - `random` holds the draws from the random source.

pub mod breeding;
pub mod config;
pub mod error;
pub mod evaluation;
pub mod fitness;
pub mod grid;
pub mod individual;
pub mod random;
pub mod ranking;
pub mod simulation;
