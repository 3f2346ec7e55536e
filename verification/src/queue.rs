//! The work queue: the ordered pool of pending input values, owned by the
//! dispatcher alone and never shown to a worker.
//!
//! Consumption removes from the tail, the most recently generated end, so
//! items are handed out in descending generation order. That is this
//! library's deliberate consumption policy: the next item handed out is
//! always the last of what remains in generation order.

use vstd::prelude::*;

verus! {

pub struct WorkQueue {
    items: Vec<i64>,
}

impl View for WorkQueue {
    type V = Seq<i64>;

    closed spec fn view(&self) -> Seq<i64> {
        self.items@
    }
}

impl WorkQueue {
    /// A queue holding the given values in generation order.
    pub fn new(items: Vec<i64>) -> (q: WorkQueue)
        ensures
            q@ == items@,
    {
        WorkQueue { items }
    }

    pub fn len(&self) -> (n: usize)
        ensures
            n == self@.len(),
    {
        self.items.len()
    }

    pub fn is_empty(&self) -> (b: bool)
        ensures
            b <==> self@.len() == 0,
    {
        self.items.len() == 0
    }

    /// Removes and returns the next pending item: the tail of the generation
    /// order. An underflow attempt is excluded by contract, so a verified
    /// caller can never reach one.
    pub fn pop_next(&mut self) -> (v: i64)
        requires
            old(self)@.len() > 0,
        ensures
            v == old(self)@.last(),
            final(self)@ == old(self)@.drop_last(),
    {
        let v = self.items.pop().unwrap();
        proof {
            assert(self@ =~= old(self)@.drop_last());
        }
        v
    }

    /// The pending item at one position of the generation order; the static
    /// policy reads the queue in place instead of consuming it.
    pub fn item_at(&self, i: usize) -> (v: i64)
        requires
            i < self@.len(),
        ensures
            v == self@[i as int],
    {
        self.items[i]
    }
}

} // verus!
