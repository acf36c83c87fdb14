//! The opaque per-pool pricing capability.
//!
//! The per-protocol mathematics that turns a pool state into a spot price or
//! a swap outcome is an external collaborator: the core never implements it.
//! Callers supply an implementation of [`MathOracle`]; new protocol variants
//! implement the capability without touching the store or the query facade.

use vstd::prelude::*;

use crate::catalog::Token;

verus! {

/// A spot price as the capability encodes it: an opaque 64-bit numeric
/// encoding chosen by the implementation. The core carries it through
/// unexamined.
#[derive(Clone, Copy, Debug, PartialEq, Eq, Structural)]
pub struct Price {
    pub encoded: u64,
}

/// The outcome of simulating one swap: the output amount and the gas
/// estimate, as wide non-negative integers. An implementation whose raw
/// results are wider than 128 bits may clamp them; anything above the 64-bit
/// range is reported to callers as a range overflow either way.
#[derive(Clone, Copy, Debug, PartialEq, Eq, Structural)]
pub struct SwapOutcome {
    pub amount: u128,
    pub gas: u128,
}

/// The capability's own rejection of a request, e.g. insufficient liquidity.
#[derive(Debug)]
pub struct MathError {
    pub detail: String,
}

/// The per-pool pricing capability, polymorphic over the pool-state
/// representation `S`. Nothing is assumed about its results: the query facade
/// states what it returns for every possible outcome of these calls.
pub trait MathOracle<S> {
    /// The instantaneous exchange rate between `base` and `quote` implied by
    /// `state`.
    fn spot_price(&self, state: &S, base: &Token, quote: &Token) -> Result<Price, MathError>;

    /// The output amount and gas estimate of swapping `amount_in` of
    /// `token_in` for `token_out` against `state`.
    fn amount_out(
        &self,
        state: &S,
        amount_in: u64,
        token_in: &Token,
        token_out: &Token,
    ) -> Result<SwapOutcome, MathError>;
}

} // verus!
