use dex_pool_cache::queue::BoundedQueue;

#[test]
fn queue_delivers_in_fifo_order() {
    let mut q: BoundedQueue<u64> = BoundedQueue::new(100);
    assert!(q.try_enqueue(1).is_ok());
    assert!(q.try_enqueue(2).is_ok());
    assert!(q.try_enqueue(3).is_ok());
    assert_eq!(q.try_dequeue(), Some(1));
    assert_eq!(q.try_dequeue(), Some(2));
    assert_eq!(q.try_dequeue(), Some(3));
    assert_eq!(q.try_dequeue(), None);
}

#[test]
fn full_queue_refuses_and_returns_the_item() {
    let mut q: BoundedQueue<u64> = BoundedQueue::new(2);
    assert!(q.try_enqueue(10).is_ok());
    assert!(q.try_enqueue(20).is_ok());
    match q.try_enqueue(30) {
        Err(given_back) => assert_eq!(given_back, 30),
        Ok(()) => panic!("a full queue must refuse the item"),
    }
    assert_eq!(q.len(), 2);
    assert_eq!(q.try_dequeue(), Some(10));
    assert!(q.try_enqueue(30).is_ok());
    assert_eq!(q.try_dequeue(), Some(20));
    assert_eq!(q.try_dequeue(), Some(30));
}

#[test]
fn closed_queue_refuses_producers_and_drains_for_the_consumer() {
    let mut q: BoundedQueue<u64> = BoundedQueue::new(5);
    assert!(q.try_enqueue(7).is_ok());
    q.close();
    assert!(q.closed());
    match q.try_enqueue(8) {
        Err(given_back) => assert_eq!(given_back, 8),
        Ok(()) => panic!("a closed queue must refuse the item"),
    }
    assert_eq!(q.try_dequeue(), Some(7));
    assert_eq!(q.try_dequeue(), None);
}

#[test]
fn empty_queue_yields_nothing() {
    let mut q: BoundedQueue<u64> = BoundedQueue::new(3);
    assert_eq!(q.len(), 0);
    assert_eq!(q.try_dequeue(), None);
}
