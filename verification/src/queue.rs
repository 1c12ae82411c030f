//! A bounded FIFO queue of connection identifiers. The surrounding program
//! wraps it in its lock and maps each identifier to a live socket; the queue
//! itself fixes the order: pushes append at the back, pops take the front,
//! so connections are handed out exactly once and in arrival order. A push
//! onto a full queue is rejected, which is the backpressure signal, and a
//! closed queue accepts no further push while it can still be drained —
//! the shutdown signal the surrounding program turns into a wakeup for
//! every waiting worker.

use vstd::prelude::*;

verus! {

pub struct ConnectionQueue {
    items: Vec<u64>,
    capacity: usize,
    closed: bool,
}

impl View for ConnectionQueue {
    type V = Seq<u64>;

    closed spec fn view(&self) -> Seq<u64> {
        self.items@
    }
}

impl ConnectionQueue {
    /// The bound the queue was created with.
    pub closed spec fn spec_capacity(&self) -> nat {
        self.capacity as nat
    }

    /// Whether the shutdown signal has been given.
    pub closed spec fn spec_closed(&self) -> bool {
        self.closed
    }

    /// The queue never exceeds its bound, which is at least one.
    pub closed spec fn inv(&self) -> bool {
        1 <= self.capacity && self.items@.len() <= self.capacity
    }

    pub fn new(capacity: usize) -> (q: ConnectionQueue)
        requires
            capacity >= 1,
        ensures
            q.inv(),
            q@ == Seq::<u64>::empty(),
            q.spec_capacity() == capacity,
            !q.spec_closed(),
    {
        let q = ConnectionQueue { items: Vec::new(), capacity, closed: false };
        proof {
            assert(q@ =~= Seq::<u64>::empty());
        }
        q
    }

    pub fn len(&self) -> (r: usize)
        ensures
            r == self@.len(),
    {
        self.items.len()
    }

    pub fn capacity(&self) -> (r: usize)
        ensures
            r == self.spec_capacity(),
    {
        self.capacity
    }

    /// Appends `id` at the back; rejected exactly when the queue is full —
    /// the backpressure signal — or already closed.
    pub fn push(&mut self, id: u64) -> (r: bool)
        requires
            old(self).inv(),
        ensures
            final(self).inv(),
            final(self).spec_capacity() == old(self).spec_capacity(),
            final(self).spec_closed() == old(self).spec_closed(),
            r == (!old(self).spec_closed() && old(self)@.len() < old(self).spec_capacity()),
            r ==> final(self)@ == old(self)@.push(id),
            !r ==> final(self)@ == old(self)@,
    {
        if !self.closed && self.items.len() < self.capacity {
            self.items.push(id);
            true
        } else {
            false
        }
    }

    /// The shutdown signal: no further push is accepted, while what is
    /// already queued can still be drained.
    pub fn close(&mut self)
        requires
            old(self).inv(),
        ensures
            final(self).inv(),
            final(self).spec_capacity() == old(self).spec_capacity(),
            final(self).spec_closed(),
            final(self)@ == old(self)@,
    {
        self.closed = true;
    }

    pub fn is_closed(&self) -> (r: bool)
        ensures
            r == self.spec_closed(),
    {
        self.closed
    }

    /// Takes the oldest element, or nothing when the queue is empty.
    pub fn pop(&mut self) -> (r: Option<u64>)
        requires
            old(self).inv(),
        ensures
            final(self).inv(),
            final(self).spec_capacity() == old(self).spec_capacity(),
            final(self).spec_closed() == old(self).spec_closed(),
            match r {
                Some(id) => old(self)@.len() > 0 && id == old(self)@.first() && final(self)@
                    == old(self)@.drop_first(),
                None => old(self)@.len() == 0 && final(self)@ == old(self)@,
            },
    {
        if self.items.len() == 0 {
            None
        } else {
            let id = self.items.remove(0);
            proof {
                assert(self.items@ =~= old(self)@.drop_first());
            }
            Some(id)
        }
    }
}

} // verus!
