use vstd::prelude::*;

verus! {

/// Every way in which an operation of this library can fail.
#[derive(Debug, Clone, Copy, PartialEq, Eq, Structural)]
pub enum TreeError {
    /// A sampler outcome was given a weight of zero.
    InvalidWeight,
    /// A sampler was asked to choose while it held no outcomes.
    EmptyPopulation,
    /// A character is not the glyph of any stick.
    UnrecognizedSymbol,
    /// A branch was closed while no branch was open.
    UnbalancedBranch,
    /// A leaf cluster was closed while no leaf origin was remembered.
    UnmatchedLeafClose,
    /// A configuration bound contradicts another one.
    InvalidConfig,
}

} // verus!
