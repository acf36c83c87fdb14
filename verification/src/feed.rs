//! The feed adapter.
//!
//! The upstream feed is consumed by unverified driver code; each item it
//! yields — a decoded update or a transport failure — is handed to
//! [`adapt_feed_item`]. A failure is converted into a degenerate update rather
//! than propagated, so the pipeline stays alive at the cost of error
//! visibility.

use vstd::prelude::*;

use crate::errors::FeedError;
use crate::kv;
use crate::update::component_pairs;
use crate::update::is_degenerate;
use crate::update::state_pairs;
use crate::update::Update;

verus! {

/// An update that changes nothing: block number zero, all mappings empty.
pub fn degenerate_update<S>() -> (u: Update<S>)
    ensures
        u.wf(),
        is_degenerate(u@),
{
    let u = Update {
        block_number: 0u64,
        new_pairs: Vec::new(),
        states: Vec::new(),
        removed_pairs: Vec::new(),
    };
    proof {
        assert(component_pairs(u.new_pairs@) =~= Seq::<
            (Seq<char>, crate::update::PoolComponentView),
        >::empty());
        assert(state_pairs(u.states@) =~= Seq::<(Seq<char>, S)>::empty());
        assert(component_pairs(u.removed_pairs@) =~= Seq::<
            (Seq<char>, crate::update::PoolComponentView),
        >::empty());
        assert(kv::to_map(component_pairs(u.new_pairs@)) =~= Map::<
            Seq<char>,
            crate::update::PoolComponentView,
        >::empty());
        assert(kv::to_map(state_pairs(u.states@)) =~= Map::<Seq<char>, S>::empty());
        assert(kv::to_map(component_pairs(u.removed_pairs@)) =~= Map::<
            Seq<char>,
            crate::update::PoolComponentView,
        >::empty());
    }
    u
}

/// Normalizes one feed item: a delivered update passes through unchanged, a
/// transport failure becomes a degenerate update.
pub fn adapt_feed_item<S>(item: Result<Update<S>, FeedError>) -> (u: Update<S>)
    requires
        item matches Ok(up) ==> up.wf(),
    ensures
        u.wf(),
        match item {
            Ok(up) => u == up,
            Err(_) => is_degenerate(u@),
        },
{
    match item {
        Ok(up) => up,
        Err(_) => degenerate_update(),
    }
}

} // verus!
