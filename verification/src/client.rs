//! The simulation client: initialization and the query facade.
//!
//! A client owns the token catalog, the state store and the pricing
//! capability. Initialization bootstraps the store from the first update of
//! the feed, or fails when the feed yields none. The two query operations are
//! read-only: they normalize and resolve the requested addresses, scan the
//! store for pools listing both tokens, and delegate the mathematics to the
//! capability.

use vstd::prelude::*;

use crate::address::is_valid_address;
use crate::address::normalize_address;
use crate::address::normalized;
use crate::address::valid_address;
use crate::catalog::spec_catalog;
use crate::catalog::Token;
use crate::catalog::TokenCatalog;
use crate::catalog::TokenView;
use crate::errors::SimError;
use crate::math::MathOracle;
use crate::math::Price;
use crate::math::SwapOutcome;
use crate::store::spec_merge;
use crate::store::PoolEntryView;
use crate::store::Store;
use crate::update::component_lists;
use crate::update::PoolComponent;
use crate::update::PoolComponentView;
use crate::update::Update;

verus! {

/// Whether a pool's metadata lists both normalized addresses.
pub open spec fn entry_matches<S>(e: PoolEntryView<S>, a: Seq<char>, b: Seq<char>) -> bool {
    component_lists(e.comp, a) && component_lists(e.comp, b)
}

/// The identifiers of the pools listing both addresses, in scan order.
pub open spec fn matching_ids<S>(es: Seq<PoolEntryView<S>>, a: Seq<char>, b: Seq<char>) -> Seq<
    Seq<char>,
>
    decreases es.len(),
{
    if es.len() == 0 {
        Seq::empty()
    } else {
        let pre = matching_ids(es.drop_last(), a, b);
        if entry_matches(es.last(), a, b) {
            pre.push(es.last().id)
        } else {
            pre
        }
    }
}

/// No pool matches exactly when the matching-identifier sequence is empty.
pub proof fn lemma_matching_ids_empty<S>(es: Seq<PoolEntryView<S>>, a: Seq<char>, b: Seq<char>)
    ensures
        (matching_ids(es, a, b).len() == 0) <==> (forall|i: int|
            0 <= i < es.len() ==> !entry_matches(#[trigger] es[i], a, b)),
    decreases es.len(),
{
    if es.len() > 0 {
        lemma_matching_ids_empty(es.drop_last(), a, b);
        if entry_matches(es.last(), a, b) {
            assert(entry_matches(es[es.len() - 1], a, b));
        } else {
            if matching_ids(es, a, b).len() == 0 {
                assert forall|i: int| 0 <= i < es.len() implies !entry_matches(
                    #[trigger] es[i],
                    a,
                    b,
                ) by {
                    if i < es.len() - 1 {
                        assert(es.drop_last()[i] == es[i]);
                    }
                }
            } else {
                let i = choose|i: int|
                    0 <= i < es.drop_last().len() && entry_matches(
                        #[trigger] es.drop_last()[i],
                        a,
                        b,
                    );
                assert(entry_matches(es[i], a, b));
            }
        }
    }
}

/// One pool's aggregated quote: its identifier, and one output amount and
/// one gas estimate per requested input amount.
#[derive(Debug, PartialEq, Eq)]
pub struct AmountOutResult {
    pub pool: String,
    pub amounts_out: Vec<u64>,
    pub gas_used: Vec<u64>,
}

/// Narrows a swap outcome to 64-bit values: exactly when the capability's
/// amount and gas both fit, they are returned; any wider value is a range
/// overflow, never a silent truncation.
pub fn outcome_to_u64(o: &SwapOutcome) -> (r: Result<(u64, u64), SimError>)
    ensures
        o.amount <= u64::MAX && o.gas <= u64::MAX ==> r == Ok::<(u64, u64), SimError>(
            ((o.amount as u64), (o.gas as u64)),
        ),
        o.amount > u64::MAX || o.gas > u64::MAX ==> r == Err::<(u64, u64), SimError>(
            SimError::RangeOverflow,
        ),
{
    if o.amount > u64::MAX as u128 {
        return Err(SimError::RangeOverflow);
    }
    if o.gas > u64::MAX as u128 {
        return Err(SimError::RangeOverflow);
    }
    Ok((o.amount as u64, o.gas as u64))
}

/// The live, queryable snapshot: token catalog, state store and the pricing
/// capability.
pub struct SimulationClient<S, M> {
    catalog: TokenCatalog,
    store: Store<S>,
    math: M,
}

impl<S, M> SimulationClient<S, M> {
    /// The catalog as a mapping from normalized address to token metadata.
    pub closed spec fn catalog_view(&self) -> Map<Seq<char>, TokenView> {
        self.catalog@
    }

    /// The store as a mapping from pool identifier to (state, metadata).
    pub closed spec fn pools(&self) -> Map<Seq<char>, (S, PoolComponentView)> {
        self.store@
    }

    /// The stored pools in scan order.
    pub closed spec fn pool_entries(&self) -> Seq<PoolEntryView<S>> {
        self.store.entries_view()
    }

    /// Catalog and store both keep their keys unique.
    pub closed spec fn wf(&self) -> bool {
        self.catalog.wf() && self.store.wf()
    }
}

/// The client's pool mapping is exactly what its entry sequence denotes, and
/// a well-formed client keeps the entry identifiers unique: reasoning done
/// over the mapping (as after initialization or a merge) carries over to the
/// scan the queries perform.
pub proof fn lemma_pools_denoted_by_entries<S, M>(c: &SimulationClient<S, M>)
    ensures
        c.pools() == crate::kv::to_map(crate::store::entry_pairs(c.pool_entries())),
        c.wf() ==> crate::kv::unique_keys(crate::store::entry_pairs(c.pool_entries())),
{
}

impl<S: Copy, M: MathOracle<S>> SimulationClient<S, M> {
    /// Initializes the client: builds the token catalog, then bootstraps the
    /// store from the first update of the feed. Receiving no initial update
    /// is a fatal initialization error.
    pub fn new(tokens: Vec<Token>, math: M, first_update: Option<Update<S>>) -> (r: Result<
        Self,
        SimError,
    >)
        requires
            first_update matches Some(u) ==> u.wf(),
        ensures
            match r {
                Ok(c) => {
                    &&& first_update matches Some(u) && c.pools() == spec_merge(
                        Map::<Seq<char>, (S, PoolComponentView)>::empty(),
                        u@,
                    )
                    &&& c.wf()
                    &&& c.catalog_view() == spec_catalog(tokens@.map_values(|t: Token| t@))
                },
                Err(e) => first_update is None && e == SimError::InitializationFailure,
            },
    {
        match first_update {
            None => Err(SimError::InitializationFailure),
            Some(u) => {
                let catalog = TokenCatalog::build(&tokens);
                let mut store = Store::<S>::new();
                store.merge(&u);
                Ok(SimulationClient { catalog, store, math })
            },
        }
    }

    /// Merges one dequeued update into the store; the catalog is untouched.
    pub fn apply_update(&mut self, update: &Update<S>)
        requires
            old(self).wf(),
            update.wf(),
        ensures
            final(self).wf(),
            final(self).pools() == spec_merge(old(self).pools(), update@),
            final(self).catalog_view() == old(self).catalog_view(),
    {
        self.store.merge(update);
    }

    /// How many pools are stored.
    pub fn pool_count(&self) -> (n: usize)
        ensures
            n == self.pool_entries().len(),
    {
        self.store.entry_count()
    }

    /// The stored state of a pool.
    pub fn pool_state(&self, id: &String) -> (r: Option<S>)
        requires
            self.wf(),
        ensures
            match r {
                Some(s) => self.pools().contains_key(id@) && self.pools()[id@].0 == s,
                None => !self.pools().contains_key(id@),
            },
    {
        self.store.get_state(id)
    }

    /// The stored metadata of a pool.
    pub fn pool_component<'a>(&'a self, id: &String) -> (r: Option<&'a PoolComponent>)
        requires
            self.wf(),
        ensures
            match r {
                Some(c) => self.pools().contains_key(id@) && self.pools()[id@].1 == c@,
                None => !self.pools().contains_key(id@),
            },
    {
        self.store.get_component(id)
    }

    /// The spot price between two tokens, taken from the first stored pool
    /// that lists both. Fails with `InvalidInput` on a malformed address,
    /// with `NotFound` on an unresolved token or when no pool lists both,
    /// and with `ComputationFailure` when the capability rejects the pool.
    pub fn get_spot_price(&self, token0_address: String, token1_address: String) -> (r: Result<
        Price,
        SimError,
    >)
        requires
            self.wf(),
        ensures
            ({
                let a = normalized(token0_address@);
                let b = normalized(token1_address@);
                let resolved = self.catalog_view().contains_key(a)
                    && self.catalog_view().contains_key(b);
                &&& (r == Err::<Price, SimError>(SimError::InvalidInput) <==> !(valid_address(a)
                    && valid_address(b)))
                &&& (valid_address(a) && valid_address(b)) ==> {
                    &&& (r == Err::<Price, SimError>(SimError::NotFound) <==> (!resolved
                        || matching_ids(self.pool_entries(), a, b).len() == 0))
                    &&& (resolved && matching_ids(self.pool_entries(), a, b).len() > 0) ==> (
                    r matches Ok(_) || r == Err::<Price, SimError>(SimError::ComputationFailure))
                }
            }),
    {
        let na = normalize_address(token0_address.as_str());
        let nb = normalize_address(token1_address.as_str());
        if !is_valid_address(na.as_str()) || !is_valid_address(nb.as_str()) {
            return Err(SimError::InvalidInput);
        }
        let t0 = match self.catalog.lookup(&na) {
            Some(t) => t,
            None => {
                return Err(SimError::NotFound);
            },
        };
        let t1 = match self.catalog.lookup(&nb) {
            Some(t) => t,
            None => {
                return Err(SimError::NotFound);
            },
        };
        let ghost a = na@;
        let ghost b = nb@;
        let n = self.store.entry_count();
        let mut i: usize = 0;
        while i < n
            invariant
                self.wf(),
                i <= n,
                n == self.pool_entries().len(),
                a == na@,
                b == nb@,
                a == normalized(token0_address@),
                b == normalized(token1_address@),
                valid_address(a),
                valid_address(b),
                self.catalog_view().contains_key(a),
                self.catalog_view().contains_key(b),
                forall|j: int|
                    0 <= j < i ==> !entry_matches(#[trigger] self.pool_entries()[j], a, b),
            decreases n - i,
        {
            let e = self.store.entry_at(i);
            if crate::update::component_contains(&e.comp, &na) && crate::update::component_contains(
                &e.comp,
                &nb,
            ) {
                proof {
                    assert(entry_matches(self.pool_entries()[i as int], a, b));
                    lemma_matching_ids_empty(self.pool_entries(), a, b);
                }
                return match self.math.spot_price(&e.state, t0, t1) {
                    Ok(p) => Ok(p),
                    Err(_) => Err(SimError::ComputationFailure),
                };
            }
            i += 1;
        }
        proof {
            lemma_matching_ids_empty(self.pool_entries(), a, b);
        }
        Err(SimError::NotFound)
    }

    /// Quotes a swap across every stored pool that lists both tokens: for
    /// each such pool and each requested input amount, the capability's
    /// output amount and gas estimate. A negative input amount fails with
    /// `InvalidInput` before any pool is examined; a malformed address fails
    /// with `InvalidInput`; an unresolved token or an empty match set fails
    /// with `NotFound`; the whole call fails on the first capability
    /// rejection (`ComputationFailure`) or 64-bit overflow (`RangeOverflow`),
    /// with no partial result.
    pub fn get_amount_out(
        &self,
        token_in_address: String,
        token_out_address: String,
        amounts_in: Vec<i64>,
    ) -> (r: Result<Vec<AmountOutResult>, SimError>)
        requires
            self.wf(),
        ensures
            ({
                let a = normalized(token_in_address@);
                let b = normalized(token_out_address@);
                let bad_input = (exists|k: int|
                    0 <= k < amounts_in@.len() && amounts_in@[k] < 0) || !valid_address(a)
                    || !valid_address(b);
                let resolved = self.catalog_view().contains_key(a)
                    && self.catalog_view().contains_key(b);
                let ids = matching_ids(self.pool_entries(), a, b);
                &&& (r == Err::<Vec<AmountOutResult>, SimError>(SimError::InvalidInput)
                    <==> bad_input)
                &&& !bad_input ==> {
                    &&& (r == Err::<Vec<AmountOutResult>, SimError>(SimError::NotFound) <==> (
                    !resolved || ids.len() == 0))
                    &&& (resolved && ids.len() > 0) ==> (r matches Ok(_) || r == Err::<
                        Vec<AmountOutResult>,
                        SimError,
                    >(SimError::ComputationFailure) || r == Err::<Vec<AmountOutResult>, SimError>(
                        SimError::RangeOverflow,
                    ))
                    &&& r matches Ok(results) ==> {
                        &&& results@.len() == ids.len()
                        &&& forall|k: int|
                            0 <= k < results@.len() ==> (#[trigger] results@[k]).pool@ == ids[k]
                                && results@[k].amounts_out@.len() == amounts_in@.len()
                                && results@[k].gas_used@.len() == amounts_in@.len()
                    }
                }
            }),
    {
        let total = amounts_in.len();
        let mut q: usize = 0;
        while q < total
            invariant
                q <= total,
                total == amounts_in@.len(),
                forall|k: int| 0 <= k < q ==> amounts_in@[k] >= 0,
            decreases total - q,
        {
            if amounts_in[q] < 0 {
                return Err(SimError::InvalidInput);
            }
            q += 1;
        }
        let na = normalize_address(token_in_address.as_str());
        let nb = normalize_address(token_out_address.as_str());
        if !is_valid_address(na.as_str()) || !is_valid_address(nb.as_str()) {
            return Err(SimError::InvalidInput);
        }
        let t_in = match self.catalog.lookup(&na) {
            Some(t) => t,
            None => {
                return Err(SimError::NotFound);
            },
        };
        let t_out = match self.catalog.lookup(&nb) {
            Some(t) => t,
            None => {
                return Err(SimError::NotFound);
            },
        };
        let ghost a = na@;
        let ghost b = nb@;
        let mut results: Vec<AmountOutResult> = Vec::new();
        let n = self.store.entry_count();
        let mut i: usize = 0;
        proof {
            assert(self.pool_entries().subrange(0, 0) =~= Seq::<PoolEntryView<S>>::empty());
        }
        while i < n
            invariant
                self.wf(),
                i <= n,
                n == self.pool_entries().len(),
                a == na@,
                b == nb@,
                a == normalized(token_in_address@),
                b == normalized(token_out_address@),
                valid_address(a),
                valid_address(b),
                self.catalog_view().contains_key(a),
                self.catalog_view().contains_key(b),
                total == amounts_in@.len(),
                forall|k: int| 0 <= k < total ==> amounts_in@[k] >= 0,
                results@.len() == matching_ids(
                    self.pool_entries().subrange(0, i as int),
                    a,
                    b,
                ).len(),
                forall|k: int|
                    0 <= k < results@.len() ==> (#[trigger] results@[k]).pool@ == matching_ids(
                        self.pool_entries().subrange(0, i as int),
                        a,
                        b,
                    )[k] && results@[k].amounts_out@.len() == amounts_in@.len() && results@[
                        k
                    ].gas_used@.len() == amounts_in@.len(),
            decreases n - i,
        {
            let ghost prefix = self.pool_entries().subrange(0, i as int);
            let ghost prefix1 = self.pool_entries().subrange(0, i as int + 1);
            proof {
                assert(prefix1.drop_last() =~= prefix);
                assert(prefix1.last() == self.pool_entries()[i as int]);
            }
            let e = self.store.entry_at(i);
            if crate::update::component_contains(&e.comp, &na) && crate::update::component_contains(
                &e.comp,
                &nb,
            ) {
                proof {
                    assert(entry_matches(self.pool_entries()[i as int], a, b));
                    lemma_matching_ids_empty(self.pool_entries(), a, b);
                }
                let mut amounts_out: Vec<u64> = Vec::new();
                let mut gas_used: Vec<u64> = Vec::new();
                let mut q2: usize = 0;
                while q2 < total
                    invariant
                        self.wf(),
                        q2 <= total,
                        total == amounts_in@.len(),
                        a == normalized(token_in_address@),
                        b == normalized(token_out_address@),
                        valid_address(a),
                        valid_address(b),
                        self.catalog_view().contains_key(a),
                        self.catalog_view().contains_key(b),
                        matching_ids(self.pool_entries(), a, b).len() > 0,
                        forall|k: int| 0 <= k < total ==> amounts_in@[k] >= 0,
                        amounts_out@.len() == q2,
                        gas_used@.len() == q2,
                    decreases total - q2,
                {
                    let amount_in = amounts_in[q2] as u64;
                    match self.math.amount_out(&e.state, amount_in, t_in, t_out) {
                        Err(_) => {
                            return Err(SimError::ComputationFailure);
                        },
                        Ok(o) => {
                            match outcome_to_u64(&o) {
                                Err(overflow) => {
                                    return Err(overflow);
                                },
                                Ok((amt, gas)) => {
                                    amounts_out.push(amt);
                                    gas_used.push(gas);
                                },
                            }
                        },
                    }
                    q2 += 1;
                }
                let pool = e.id.clone();
                results.push(AmountOutResult { pool, amounts_out, gas_used });
                proof {
                    assert(matching_ids(prefix1, a, b) =~= matching_ids(prefix, a, b).push(
                        self.pool_entries()[i as int].id,
                    ));
                }
            } else {
                proof {
                    assert(matching_ids(prefix1, a, b) =~= matching_ids(prefix, a, b));
                }
            }
            i += 1;
        }
        proof {
            assert(self.pool_entries().subrange(0, n as int) =~= self.pool_entries());
        }
        if results.is_empty() {
            proof {
                lemma_matching_ids_empty(self.pool_entries(), a, b);
            }
            return Err(SimError::NotFound);
        }
        Ok(results)
    }
}

} // verus!
