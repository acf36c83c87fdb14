//! The bounded update queue.
//!
//! A bounded, ordered handoff between the feed-consuming task and the merging
//! task: items leave in exactly the order they entered, a full queue refuses
//! new items (the producer suspends and retries), an empty queue yields
//! nothing (the consumer suspends and retries), and closing the queue makes
//! the producer observe failure while the consumer drains what is left and
//! then observes closure.

use vstd::prelude::*;

verus! {

/// A bounded FIFO queue.
pub struct BoundedQueue<T> {
    items: Vec<T>,
    capacity: usize,
    closed: bool,
}

impl<T> BoundedQueue<T> {
    /// The pending items, oldest first.
    pub closed spec fn pending(&self) -> Seq<T> {
        self.items@
    }

    /// The fixed capacity the queue was created with.
    pub closed spec fn cap(&self) -> nat {
        self.capacity as nat
    }

    /// Whether the queue has been closed.
    pub closed spec fn is_closed(&self) -> bool {
        self.closed
    }

    /// Never more pending items than the capacity allows.
    pub open spec fn wf(&self) -> bool {
        self.pending().len() <= self.cap()
    }

    /// An empty, open queue of the given capacity.
    pub fn new(capacity: usize) -> (q: Self)
        ensures
            q.wf(),
            q.pending() == Seq::<T>::empty(),
            q.cap() == capacity,
            !q.is_closed(),
    {
        let q = BoundedQueue { items: Vec::new(), capacity, closed: false };
        proof {
            assert(q.pending() =~= Seq::<T>::empty());
        }
        q
    }

    /// How many items are pending.
    pub fn len(&self) -> (n: usize)
        ensures
            n == self.pending().len(),
    {
        self.items.len()
    }

    /// Whether the queue has been closed.
    pub fn closed(&self) -> (b: bool)
        ensures
            b == self.is_closed(),
    {
        self.closed
    }

    /// Hands an item to the queue. A full or closed queue refuses it and
    /// hands it back unchanged: the producer then suspends (or, on a closed
    /// queue, stops).
    pub fn try_enqueue(&mut self, item: T) -> (r: Result<(), T>)
        requires
            old(self).wf(),
        ensures
            final(self).wf(),
            final(self).cap() == old(self).cap(),
            final(self).is_closed() == old(self).is_closed(),
            match r {
                Ok(()) => !old(self).is_closed() && old(self).pending().len() < old(self).cap()
                    && final(self).pending() == old(self).pending().push(item),
                Err(given_back) => (old(self).is_closed() || old(self).pending().len()
                    >= old(self).cap()) && given_back == item && final(self).pending() == old(
                    self,
                ).pending(),
            },
    {
        if self.closed || self.items.len() >= self.capacity {
            Err(item)
        } else {
            self.items.push(item);
            Ok(())
        }
    }

    /// Takes the oldest pending item, if any. An empty queue yields nothing:
    /// the consumer then suspends, or exits once the queue is also closed.
    pub fn try_dequeue(&mut self) -> (r: Option<T>)
        requires
            old(self).wf(),
        ensures
            final(self).wf(),
            final(self).cap() == old(self).cap(),
            final(self).is_closed() == old(self).is_closed(),
            match r {
                Some(item) => old(self).pending().len() > 0 && item == old(self).pending()[0]
                    && final(self).pending() == old(self).pending().drop_first(),
                None => old(self).pending().len() == 0 && final(self).pending() == old(
                    self,
                ).pending(),
            },
    {
        if self.items.len() == 0 {
            None
        } else {
            let item = self.items.remove(0);
            proof {
                assert(self.items@ =~= old(self).pending().drop_first());
            }
            Some(item)
        }
    }

    /// Closes the queue: no further item will be accepted; pending items can
    /// still be drained.
    pub fn close(&mut self)
        requires
            old(self).wf(),
        ensures
            final(self).wf(),
            final(self).cap() == old(self).cap(),
            final(self).is_closed(),
            final(self).pending() == old(self).pending(),
    {
        self.closed = true;
    }
}

/// First in, first out: after two items enter an open queue with room for
/// both, they leave in exactly the order they entered.
pub proof fn lemma_queue_fifo<T>(q0: BoundedQueue<T>, a: T, b: T, q2: BoundedQueue<T>)
    requires
        q0.wf(),
        q0.pending().len() + 2 <= q0.cap(),
        q2.pending() == q0.pending().push(a).push(b),
    ensures
        q0.pending().len() == 0 ==> {
            &&& q2.pending()[0] == a
            &&& q2.pending().drop_first()[0] == b
            &&& q2.pending().drop_first().drop_first() =~= q0.pending()
        },
{
    if q0.pending().len() == 0 {
        assert(q2.pending()[0] == a);
        assert(q2.pending().drop_first() =~= q0.pending().push(b));
    }
}

} // verus!
