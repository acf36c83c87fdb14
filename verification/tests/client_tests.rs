use dex_pool_cache::catalog::Token;
use dex_pool_cache::client::SimulationClient;
use dex_pool_cache::errors::SimError;
use dex_pool_cache::math::MathError;
use dex_pool_cache::math::MathOracle;
use dex_pool_cache::math::Price;
use dex_pool_cache::math::SwapOutcome;
use dex_pool_cache::update::PoolComponent;
use dex_pool_cache::update::Update;

/// A deterministic stand-in for the per-protocol mathematics: the spot price
/// echoes the pool state, the output amount is `state * amount_in`, and two
/// magic states force a rejection (99) or a too-wide result (77).
struct MockMath;

impl MathOracle<u64> for MockMath {
    fn spot_price(&self, state: &u64, _base: &Token, _quote: &Token) -> Result<Price, MathError> {
        if *state == 99 {
            Err(MathError { detail: "insufficient liquidity".to_string() })
        } else {
            Ok(Price { encoded: *state })
        }
    }

    fn amount_out(
        &self,
        state: &u64,
        amount_in: u64,
        _token_in: &Token,
        _token_out: &Token,
    ) -> Result<SwapOutcome, MathError> {
        if *state == 99 {
            return Err(MathError { detail: "insufficient liquidity".to_string() });
        }
        if *state == 77 {
            return Ok(SwapOutcome { amount: (u64::MAX as u128) + 1, gas: 1 });
        }
        Ok(SwapOutcome { amount: (*state as u128) * (amount_in as u128), gas: 21000 })
    }
}

/// A capability that must never be reached.
struct PanickingMath;

impl MathOracle<u64> for PanickingMath {
    fn spot_price(&self, _state: &u64, _base: &Token, _quote: &Token) -> Result<Price, MathError> {
        panic!("the capability must not be consulted");
    }

    fn amount_out(
        &self,
        _state: &u64,
        _amount_in: u64,
        _token_in: &Token,
        _token_out: &Token,
    ) -> Result<SwapOutcome, MathError> {
        panic!("the capability must not be consulted");
    }
}

fn tok(address: &str, symbol: &str) -> Token {
    Token { address: address.to_string(), symbol: symbol.to_string(), decimals: 18 }
}

fn tokens() -> Vec<Token> {
    vec![tok("0xaa", "X"), tok("0xbb", "Y"), tok("0xcc", "Z")]
}

fn comp(addrs: &[&str]) -> PoolComponent {
    PoolComponent {
        tokens: addrs.iter().map(|t| t.to_string()).collect(),
        protocol: "uniswap_v2".to_string(),
    }
}

fn upd(block: u64, new_pairs: Vec<(&str, PoolComponent)>, states: Vec<(&str, u64)>) -> Update<u64> {
    Update {
        block_number: block,
        new_pairs: new_pairs.into_iter().map(|(id, c)| (id.to_string(), c)).collect(),
        states: states.into_iter().map(|(id, s)| (id.to_string(), s)).collect(),
        removed_pairs: Vec::new(),
    }
}

fn bootstrapped(states: Vec<(&str, u64)>) -> SimulationClient<u64, MockMath> {
    let pools: Vec<(&str, PoolComponent)> =
        states.iter().map(|(id, _)| (*id, comp(&["0xAA", "0xBB"]))).collect();
    SimulationClient::new(tokens(), MockMath, Some(upd(1, pools, states))).unwrap()
}

#[test]
fn missing_initial_update_is_an_initialization_failure() {
    let r = SimulationClient::<u64, MockMath>::new(tokens(), MockMath, None);
    assert_eq!(r.err(), Some(SimError::InitializationFailure));
}

#[test]
fn bootstrap_miss_leaves_the_store_empty() {
    // The first update carries metadata for P but no state for it.
    let u = upd(1, vec![("p", comp(&["0xaa", "0xbb"]))], vec![]);
    let c = SimulationClient::new(tokens(), MockMath, Some(u)).unwrap();
    assert_eq!(c.pool_count(), 0);
    assert_eq!(
        c.get_spot_price("0xaa".to_string(), "0xbb".to_string()),
        Err(SimError::NotFound)
    );
}

#[test]
fn bootstrap_hit_stores_the_pool_and_prices_it() {
    let u = upd(1, vec![("p", comp(&["0xaa", "0xbb"]))], vec![("p", 5)]);
    let c = SimulationClient::new(tokens(), MockMath, Some(u)).unwrap();
    assert_eq!(c.pool_count(), 1);
    assert_eq!(c.pool_state(&"p".to_string()), Some(5));
    // The spot price is exactly what the capability computes for state 5.
    assert_eq!(
        c.get_spot_price("0xaa".to_string(), "0xbb".to_string()),
        Ok(Price { encoded: 5 })
    );
}

#[test]
fn state_refresh_replaces_state_and_keeps_the_component() {
    let mut c = bootstrapped(vec![("p", 5)]);
    let before = c.pool_component(&"p".to_string()).cloned().unwrap();
    c.apply_update(&upd(2, vec![], vec![("p", 6)]));
    assert_eq!(c.pool_state(&"p".to_string()), Some(6));
    let after = c.pool_component(&"p".to_string()).cloned().unwrap();
    assert_eq!(before, after);
    assert_eq!(
        c.get_spot_price("0xaa".to_string(), "0xbb".to_string()),
        Ok(Price { encoded: 6 })
    );
}

#[test]
fn addresses_resolve_in_any_case_and_with_or_without_marker() {
    let c = bootstrapped(vec![("p", 5)]);
    assert_eq!(
        c.get_spot_price("0XAA".to_string(), "bb".to_string()),
        Ok(Price { encoded: 5 })
    );
    assert_eq!(
        c.get_spot_price("aa".to_string(), "0xBB".to_string()),
        Ok(Price { encoded: 5 })
    );
}

#[test]
fn malformed_address_is_invalid_input() {
    let c = bootstrapped(vec![("p", 5)]);
    assert_eq!(
        c.get_spot_price("zz".to_string(), "0xbb".to_string()),
        Err(SimError::InvalidInput)
    );
    // Odd length after normalization is malformed too.
    assert_eq!(
        c.get_spot_price("0xabc".to_string(), "0xbb".to_string()),
        Err(SimError::InvalidInput)
    );
}

#[test]
fn unknown_token_is_not_found() {
    let c = bootstrapped(vec![("p", 5)]);
    assert_eq!(
        c.get_spot_price("0xdd".to_string(), "0xbb".to_string()),
        Err(SimError::NotFound)
    );
}

#[test]
fn rejected_pool_is_a_computation_failure() {
    let c = bootstrapped(vec![("p", 99)]);
    assert_eq!(
        c.get_spot_price("0xaa".to_string(), "0xbb".to_string()),
        Err(SimError::ComputationFailure)
    );
    assert_eq!(
        c.get_amount_out("0xaa".to_string(), "0xbb".to_string(), vec![10]),
        Err(SimError::ComputationFailure)
    );
}

#[test]
fn no_pool_for_the_pair_is_not_found() {
    // Z is in the catalog, but no stored pool contains both X and Z.
    let c = bootstrapped(vec![("p", 5)]);
    assert_eq!(
        c.get_amount_out("0xaa".to_string(), "0xcc".to_string(), vec![10]),
        Err(SimError::NotFound)
    );
}

#[test]
fn negative_amount_fails_before_any_pool_is_examined() {
    let u = upd(1, vec![("p", comp(&["0xaa", "0xbb"]))], vec![("p", 5)]);
    let c = SimulationClient::new(tokens(), PanickingMath, Some(u)).unwrap();
    // PanickingMath aborts the process if a pool is examined.
    assert_eq!(
        c.get_amount_out("0xaa".to_string(), "0xbb".to_string(), vec![-1]),
        Err(SimError::InvalidInput)
    );
}

#[test]
fn amount_out_aggregates_every_matching_pool() {
    let u = upd(
        1,
        vec![
            ("p", comp(&["0xaa", "0xbb"])),
            ("q", comp(&["0xAA", "0xBB", "0xcc"])),
            ("r", comp(&["0xbb", "0xcc"])),
        ],
        vec![("p", 2), ("q", 3), ("r", 4)],
    );
    let c = SimulationClient::new(tokens(), MockMath, Some(u)).unwrap();
    let results = c
        .get_amount_out("0xaa".to_string(), "0xbb".to_string(), vec![10, 20])
        .unwrap();
    assert_eq!(results.len(), 2);
    for r in &results {
        match r.pool.as_str() {
            "p" => {
                assert_eq!(r.amounts_out, vec![20, 40]);
                assert_eq!(r.gas_used, vec![21000, 21000]);
            }
            "q" => {
                assert_eq!(r.amounts_out, vec![30, 60]);
                assert_eq!(r.gas_used, vec![21000, 21000]);
            }
            other => panic!("unexpected pool {other}"),
        }
    }
}

#[test]
fn too_wide_a_result_is_a_range_overflow() {
    let c = bootstrapped(vec![("p", 77)]);
    assert_eq!(
        c.get_amount_out("0xaa".to_string(), "0xbb".to_string(), vec![1]),
        Err(SimError::RangeOverflow)
    );
}

#[test]
fn empty_amount_list_yields_empty_per_pool_lists() {
    let c = bootstrapped(vec![("p", 5)]);
    let results = c
        .get_amount_out("0xaa".to_string(), "0xbb".to_string(), vec![])
        .unwrap();
    assert_eq!(results.len(), 1);
    assert_eq!(results[0].pool, "p");
    assert!(results[0].amounts_out.is_empty());
    assert!(results[0].gas_used.is_empty());
}

#[test]
fn every_error_describes_itself() {
    for e in [
        SimError::InitializationFailure,
        SimError::InvalidInput,
        SimError::NotFound,
        SimError::ComputationFailure,
        SimError::RangeOverflow,
    ] {
        assert!(!e.describe().is_empty());
    }
}

#[test]
fn duplicate_catalog_addresses_keep_the_first_token() {
    let mut ts = tokens();
    ts.push(Token { address: "0xAA".to_string(), symbol: "X2".to_string(), decimals: 6 });
    let u = upd(1, vec![("p", comp(&["0xaa", "0xbb"]))], vec![("p", 5)]);
    let c = SimulationClient::new(ts, MockMath, Some(u)).unwrap();
    // Lookups still resolve, through the first occurrence.
    assert_eq!(
        c.get_spot_price("0xaa".to_string(), "0xbb".to_string()),
        Ok(Price { encoded: 5 })
    );
}
