//! What can go wrong while an index is built or queried.

use vstd::prelude::*;

verus! {

/// Why an index could not be built.
#[derive(Clone, Copy, PartialEq, Eq, Structural, Debug)]
pub enum BuildError {
    /// The documents and the texts or token lists given for them differ in
    /// number.
    CountMismatch,
    /// The sorted-token automaton refused the vocabulary, which it does
    /// where the tokens are not in strictly ascending byte order. A build
    /// hands it the tokens in that order, so that no build ends in this
    /// error.
    TokenMap,
}

/// Why a query could not be answered.
#[derive(Clone, Copy, PartialEq, Eq, Structural, Debug)]
pub enum QueryError {
    /// The automaton for a query token would grow past its limit on states.
    AutomatonTooLarge,
}

} // verus!
