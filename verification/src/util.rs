//! A pool of reusable resources, handed out in first-in first-out order.
//!
//! The host keeps a pool of ready sandboxes and draws one sandbox for a
//! single run, or two distinct sandboxes for a coupled user/judge run.
//! The pool here is the sequential queue; the blocking shell that lets
//! several host threads wait on it lives outside the library.

use vstd::prelude::*;

verus! {

/// A first-in first-out queue of returned resources.
pub struct Pool<T> {
    items: Vec<T>,
}

impl<T> View for Pool<T> {
    type V = Seq<T>;

    closed spec fn view(&self) -> Seq<T> {
        self.items@
    }
}

impl<T> Pool<T> {
    /// Creates an empty pool.
    pub fn new() -> (pool: Pool<T>)
        ensures
            pool@ == Seq::<T>::empty(),
    {
        Pool { items: Vec::new() }
    }

    /// Number of resources currently in the pool.
    pub fn len(&self) -> (n: usize)
        ensures
            n == self@.len(),
    {
        self.items.len()
    }

    /// Returns a resource to the pool.
    pub fn put(&mut self, item: T)
        ensures
            final(self)@ == old(self)@.push(item),
    {
        self.items.push(item);
    }

    /// Takes the oldest resource out of the pool.
    pub fn get_one(&mut self) -> (item: T)
        requires
            old(self)@.len() >= 1,
        ensures
            item == old(self)@[0],
            final(self)@ == old(self)@.drop_first(),
    {
        let item = self.items.remove(0);
        assert(final(self)@ =~= old(self)@.drop_first());
        item
    }

    /// Takes the two oldest resources out of the pool in one step, so a
    /// caller that needs a pair never sees an interleaved draw.
    pub fn get_two(&mut self) -> (pair: (T, T))
        requires
            old(self)@.len() >= 2,
        ensures
            pair.0 == old(self)@[0],
            pair.1 == old(self)@[1],
            final(self)@ == old(self)@.skip(2),
    {
        let first = self.items.remove(0);
        let second = self.items.remove(0);
        assert(final(self)@ =~= old(self)@.skip(2));
        (first, second)
    }
}

/// Drawing a pair is one atomic step: it yields the two oldest resources,
/// which sit at distinct positions of the queue, and leaves exactly the
/// queue that two uninterrupted single draws would leave.  A second pair
/// drawer therefore sees either both items of a pair gone or neither.
pub proof fn lemma_pair_draw_atomic<T>(queue: Seq<T>)
    requires
        queue.len() >= 2,
    ensures
        queue.drop_first()[0] == queue[1],
        queue.drop_first().drop_first() == queue.skip(2),
{
    assert(queue.drop_first().drop_first() =~= queue.skip(2));
}

} // verus!
