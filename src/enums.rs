use vstd::prelude::*;

verus! {

/// The ways a verification call can fail (as opposed to returning `false`).
#[derive(Debug, Clone, PartialEq, Eq)]
pub enum KzgError {
    /// A semantic decode failure: non-canonical scalar, invalid or off-subgroup point.
    BadArgs(String),
    /// A fixed-size container or parallel arrays of mismatched lengths.
    InvalidBytesLength(String),
    /// A trusted setup that has the wrong shape or holds an invalid point.
    InvalidTrustedSetup(String),
    /// An internal invariant that should never fail.
    Unexpected(String),
}

} // verus!
