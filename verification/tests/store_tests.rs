use dex_pool_cache::feed::adapt_feed_item;
use dex_pool_cache::feed::degenerate_update;
use dex_pool_cache::errors::FeedError;
use dex_pool_cache::queue::BoundedQueue;
use dex_pool_cache::store::Store;
use dex_pool_cache::update::PoolComponent;
use dex_pool_cache::update::Update;

fn comp(tokens: &[&str]) -> PoolComponent {
    PoolComponent {
        tokens: tokens.iter().map(|t| t.to_string()).collect(),
        protocol: "uniswap_v2".to_string(),
    }
}

fn upd(block: u64, new_pairs: Vec<(&str, PoolComponent)>, states: Vec<(&str, u64)>) -> Update<u64> {
    Update {
        block_number: block,
        new_pairs: new_pairs.into_iter().map(|(id, c)| (id.to_string(), c)).collect(),
        states: states.into_iter().map(|(id, s)| (id.to_string(), s)).collect(),
        removed_pairs: Vec::new(),
    }
}

#[test]
fn merging_an_update_twice_equals_merging_it_once() {
    let make = || upd(1, vec![("p", comp(&["0xaa", "0xbb"]))], vec![("p", 5), ("q", 9)]);
    let mut once: Store<u64> = Store::new();
    once.merge(&make());
    let mut twice: Store<u64> = Store::new();
    twice.merge(&make());
    twice.merge(&make());
    assert_eq!(once.entry_count(), 1);
    assert_eq!(twice.entry_count(), 1);
    let id = "p".to_string();
    assert_eq!(once.get_state(&id), Some(5));
    assert_eq!(twice.get_state(&id), Some(5));
    assert_eq!(once.get_component(&id), twice.get_component(&id));
}

#[test]
fn updates_merge_in_fifo_order_through_the_queue() {
    let u1 = upd(1, vec![("p", comp(&["0xaa", "0xbb"]))], vec![("p", 1)]);
    let u2 = upd(2, vec![], vec![("p", 2)]);
    let u3 = upd(3, vec![], vec![("p", 3)]);
    let mut q: BoundedQueue<Update<u64>> = BoundedQueue::new(100);
    assert!(q.try_enqueue(u1).is_ok());
    assert!(q.try_enqueue(u2).is_ok());
    assert!(q.try_enqueue(u3).is_ok());
    let mut store: Store<u64> = Store::new();
    while let Some(u) = q.try_dequeue() {
        store.merge(&u);
    }
    // The last block's state change lands last.
    assert_eq!(store.get_state(&"p".to_string()), Some(3));
}

#[test]
fn apply_updates_folds_in_order() {
    let u1 = upd(1, vec![("p", comp(&["0xaa", "0xbb"]))], vec![("p", 1)]);
    let u2 = upd(2, vec![], vec![("p", 2)]);
    let mut store: Store<u64> = Store::new();
    store.apply_updates(&vec![u1, u2]);
    assert_eq!(store.get_state(&"p".to_string()), Some(2));
}

#[test]
fn new_pair_without_state_is_dropped() {
    // Bootstrap miss: metadata without a matching state stores nothing.
    let mut store: Store<u64> = Store::new();
    store.merge(&upd(1, vec![("p", comp(&["0xaa", "0xbb"]))], vec![]));
    assert_eq!(store.entry_count(), 0);
    assert_eq!(store.get_state(&"p".to_string()), None);
}

#[test]
fn state_refresh_keeps_the_component() {
    let mut store: Store<u64> = Store::new();
    store.merge(&upd(1, vec![("p", comp(&["0xaa", "0xbb"]))], vec![("p", 1)]));
    let before = store.get_component(&"p".to_string()).cloned();
    store.merge(&upd(2, vec![], vec![("p", 2)]));
    assert_eq!(store.get_state(&"p".to_string()), Some(2));
    let after = store.get_component(&"p".to_string()).cloned();
    assert_eq!(before.unwrap().tokens, after.unwrap().tokens);
}

#[test]
fn removed_pairs_are_received_but_not_applied() {
    let mut store: Store<u64> = Store::new();
    store.merge(&upd(1, vec![("p", comp(&["0xaa", "0xbb"]))], vec![("p", 1)]));
    let removal = Update {
        block_number: 2,
        new_pairs: Vec::new(),
        states: Vec::new(),
        removed_pairs: vec![("p".to_string(), comp(&["0xaa", "0xbb"]))],
    };
    store.merge(&removal);
    // The pool is still present: removals are not excised.
    assert_eq!(store.get_state(&"p".to_string()), Some(1));
    assert_eq!(store.entry_count(), 1);
}

#[test]
fn states_for_unknown_pools_are_ignored() {
    let mut store: Store<u64> = Store::new();
    store.merge(&upd(1, vec![("p", comp(&["0xaa", "0xbb"]))], vec![("p", 1), ("ghostly", 8)]));
    assert_eq!(store.entry_count(), 1);
    assert_eq!(store.get_state(&"ghostly".to_string()), None);
}

#[test]
fn transport_failure_becomes_a_degenerate_update() {
    let failed: Result<Update<u64>, FeedError> =
        Err(FeedError { detail: "connection reset".to_string() });
    let u = adapt_feed_item(failed);
    assert_eq!(u.block_number, 0);
    assert!(u.new_pairs.is_empty());
    assert!(u.states.is_empty());
    assert!(u.removed_pairs.is_empty());
    // Merging it changes nothing.
    let mut store: Store<u64> = Store::new();
    store.merge(&upd(1, vec![("p", comp(&["0xaa", "0xbb"]))], vec![("p", 1)]));
    store.merge(&u);
    assert_eq!(store.entry_count(), 1);
    assert_eq!(store.get_state(&"p".to_string()), Some(1));
}

#[test]
fn delivered_updates_pass_through_the_adapter_unchanged() {
    let ok: Result<Update<u64>, FeedError> =
        Ok(upd(7, vec![("p", comp(&["0xaa", "0xbb"]))], vec![("p", 4)]));
    let u = adapt_feed_item(ok);
    assert_eq!(u.block_number, 7);
    assert_eq!(u.new_pairs.len(), 1);
    assert_eq!(u.states.len(), 1);
}

#[test]
fn degenerate_update_is_empty() {
    let u: Update<u64> = degenerate_update();
    assert_eq!(u.block_number, 0);
    assert!(u.new_pairs.is_empty() && u.states.is_empty() && u.removed_pairs.is_empty());
}
