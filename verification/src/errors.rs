//! The error taxonomy of the library.

use vstd::prelude::*;

verus! {

/// Every failure a caller-facing operation can surface.
#[derive(Clone, Copy, Debug, PartialEq, Eq, Structural)]
pub enum SimError {
    /// No initial update was received, so the store could not be bootstrapped.
    InitializationFailure,
    /// A malformed address or a negative input amount.
    InvalidInput,
    /// An unresolved token address, or no pool containing both requested
    /// tokens.
    NotFound,
    /// The per-pool pricing capability rejected the request.
    ComputationFailure,
    /// A computed value exceeds the representable numeric width.
    RangeOverflow,
}

impl SimError {
    /// A short description of the failure.
    pub fn describe(&self) -> (r: &'static str)
        ensures
            r@.len() > 0,
    {
        proof {
            reveal_strlit("no initial update was received");
            reveal_strlit("malformed address or negative amount");
            reveal_strlit("unknown token or no matching pool");
            reveal_strlit("the pricing capability rejected the request");
            reveal_strlit("a computed value does not fit the numeric width");
        }
        match self {
            SimError::InitializationFailure => "no initial update was received",
            SimError::InvalidInput => "malformed address or negative amount",
            SimError::NotFound => "unknown token or no matching pool",
            SimError::ComputationFailure => "the pricing capability rejected the request",
            SimError::RangeOverflow => "a computed value does not fit the numeric width",
        }
    }
}

/// A transport-level failure of the upstream feed, as handed in by the caller
/// that drives the feed.
#[derive(Debug)]
pub struct FeedError {
    pub detail: String,
}

} // verus!
