//! Failure kinds of a proof construction.  Every failure is fatal to the
//! in-progress proof: no partial proof object is ever produced.
use vstd::prelude::*;

verus! {

/// The distinguishable ways a proof construction can fail.
#[derive(Clone, Copy, Debug, PartialEq, Eq, Structural)]
pub enum ProofError {
    /// A witness column's length differs from the domain size.
    WitnessShapeMismatch,
    /// A required exact polynomial division left a nonzero remainder.
    PolyDivisionFailed,
    /// A grand-product argument's terminal condition does not hold.
    ArgumentIntegrityFailed,
}

} // verus!
