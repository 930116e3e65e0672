//! Caller-misuse faults detected while building a vectorized sequence.

use vstd::prelude::*;

verus! {

/// The ways a vectorized sequence can fail to be built.
///
/// Every variant is a misuse of the interface, detected synchronously at the
/// offending call and reported to the caller; no degraded sequence is ever
/// produced.
#[derive(Clone, Copy, Debug, PartialEq, Eq, Structural)]
pub enum Error {
    /// A block was to be built from a collection whose length differs from
    /// the fixed lane count.
    LengthMismatch { expected: usize, got: usize },
    /// The source length is not a multiple of the lane count and no padding
    /// block was supplied.
    UnalignedWithoutPadding { lanes: usize, len: usize },
    /// The two sides of a pair decompose into different numbers of full
    /// blocks.
    BlockCountMismatch { left: usize, right: usize },
    /// Exactly one side of a pair ends in a remainder, so a partial block can
    /// be formed for one side but not the other.
    PaddingAsymmetry,
}

} // verus!
