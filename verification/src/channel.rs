//! The bounded queue of change signals between the watcher and the render
//! loop.
//!
//! A change signal carries no value, so the queue's model is how many
//! signals are pending, bounded by the capacity it was created with. The
//! producer's send is refused, never blocked, when the queue is full; the
//! consumer drains every pending signal in one call.

use vstd::prelude::*;

verus! {

/// A bounded FIFO of valueless change signals.
#[derive(Debug)]
pub struct SignalQueue {
    pending: usize,
    capacity: usize,
}

impl SignalQueue {
    /// How many signals are pending.
    pub closed spec fn pending_count(self) -> nat {
        self.pending as nat
    }

    /// The bound the queue was created with.
    pub closed spec fn cap(self) -> nat {
        self.capacity as nat
    }

    /// Never more pending signals than the capacity allows.
    pub open spec fn wf(self) -> bool {
        self.pending_count() <= self.cap()
    }

    /// An empty queue that holds at most `capacity` pending signals.
    pub fn with_capacity(capacity: usize) -> (q: SignalQueue)
        ensures
            q.wf(),
            q.cap() == capacity,
            q.pending_count() == 0,
    {
        SignalQueue { pending: 0, capacity }
    }

    /// Offer one signal: queued when there is room, refused when the queue
    /// is full. Never blocks and never alters anything else.
    pub fn try_send(&mut self) -> (accepted: bool)
        requires
            old(self).wf(),
        ensures
            final(self).wf(),
            final(self).cap() == old(self).cap(),
            accepted == (old(self).pending_count() < old(self).cap()),
            accepted ==> final(self).pending_count() == old(self).pending_count() + 1,
            !accepted ==> final(self).pending_count() == old(self).pending_count(),
    {
        if self.pending < self.capacity {
            self.pending += 1;
            true
        } else {
            false
        }
    }

    /// Take one pending signal, if any.
    pub fn try_recv(&mut self) -> (received: bool)
        requires
            old(self).wf(),
        ensures
            final(self).wf(),
            final(self).cap() == old(self).cap(),
            received == (old(self).pending_count() > 0),
            received ==> final(self).pending_count() == old(self).pending_count() - 1,
            !received ==> final(self).pending_count() == old(self).pending_count(),
    {
        if self.pending > 0 {
            self.pending -= 1;
            true
        } else {
            false
        }
    }

    /// Take every pending signal; report whether there was at least one.
    pub fn drain(&mut self) -> (had_any: bool)
        requires
            old(self).wf(),
        ensures
            final(self).wf(),
            final(self).cap() == old(self).cap(),
            had_any == (old(self).pending_count() > 0),
            final(self).pending_count() == 0,
    {
        let had_any = self.pending > 0;
        self.pending = 0;
        had_any
    }
}

} // verus!
