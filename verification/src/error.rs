//! The ways in which a search can fail.

use vstd::prelude::*;

verus! {

/// Why a configuration was refused or a search could not go on.
#[derive(Clone, Copy, Debug, PartialEq, Eq, Structural)]
pub enum SearchError {
    /// The stock or city list is empty, the price table does not match them,
    /// a quantity or a price is negative, or a rate is no probability.
    InvalidConfiguration,
    /// Some allocation inside the capacities would score more than the
    /// fitness scale can hold.
    NonFiniteFitness,
    /// Parents were to be selected from an empty population, or from one
    /// whose fitness adds up to zero.
    DegenerateSample,
}

} // verus!
