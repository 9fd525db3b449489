// Estimates a two-condition count over a table from a random sample, with a
// bootstrap distribution around the scaled estimate.
//
// parser: the query grammar. query: rows and the predicate's indicators.
// numeral: exact decimal values of field text. sampling: the draw without
// replacement. bootstrap: resampling with replacement and scaled sums.
// stats: exact mean and variance of a distribution.
use vstd::prelude::*;

pub mod bootstrap;
pub mod numeral;
pub mod parser;
pub mod query;
mod random;
pub mod sampling;
pub mod stats;

verus! {

/// The ways in which an estimation step can fail.
#[derive(Clone, Copy, Debug, PartialEq, Eq, Structural)]
pub enum EstimateError {
    /// The query text does not follow the supported grammar.
    SyntaxError,
    /// An input on which the computation is undefined.
    InvalidArgument,
    /// An exact result whose terms do not fit the integer types.
    OutOfRange,
}

} // verus!
