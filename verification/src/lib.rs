//! A verified, single-process, in-memory cache of decentralized-exchange
//! liquidity-pool states, together with the query facade that prices swaps
//! against it.
//!
//! The crate models the core of a streaming simulation client: a feed adapter
//! that turns transport failures into degenerate block updates, a bounded FIFO
//! queue that hands updates to a merger, a state store that merges each update
//! atomically, and read-only query operations (`get_spot_price`,
//! `get_amount_out`) that scan the store and delegate the per-protocol pricing
//! mathematics to an opaque capability supplied by the caller.

pub mod address;
pub mod catalog;
pub mod client;
pub mod errors;
pub mod feed;
pub mod kv;
pub mod math;
pub mod queue;
pub mod store;
pub mod update;
