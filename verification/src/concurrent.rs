//! The queue for many threads: one `RawCSQ` behind one reader-writer lock.
//!
//! Every operation takes the lock, makes one call on the queue behind it and
//! lets the lock go. Between two operations other threads may have changed
//! the queue, so a contract here can speak of one operation's own
//! bookkeeping only; what the call does to the queue that it finds is stated
//! on `RawCSQ`.

use std::hash::Hash;
use vstd::prelude::*;
use vstd::std_specs::hash::obeys_key_model;
use crate::lock::{exclusive_target, lock_exclusive, lock_shared, new_lock, shared_target};
use crate::raw::{clones_are_equal, RawCSQ};

verus! {

/// A deduplicating FIFO queue that many threads may share.
#[derive(Debug)]
#[verifier::reject_recursive_types(T)]
pub struct ConcurrentSetQueue<T> {
    inner: parking_lot::RwLock<RawCSQ<T>>,
}

/// A drain in progress: it removes values from a queue one at a time, as they
/// are asked for, until it has handed out its amount or found the queue empty.
#[verifier::reject_recursive_types(T)]
pub struct Drain<'a, T> {
    source: &'a ConcurrentSetQueue<T>,
    left: usize,
}

impl<T: Eq + Hash> Default for ConcurrentSetQueue<T> {
    fn default() -> (q: Self) {
        Self::new()
    }
}

impl<T: Eq + Hash> ConcurrentSetQueue<T> {
    /// A queue with nothing pending.
    pub fn new() -> (q: Self) {
        Self { inner: new_lock(RawCSQ::new()) }
    }

    /// Removes the oldest pending value under exclusive access and returns
    /// it, or returns `None` when it finds nothing pending.
    pub fn pop(&self) -> (r: Option<T>)
        requires
            obeys_key_model::<T>(),
    {
        let mut access = lock_exclusive(&self.inner);
        exclusive_target(&mut access).pop()
    }

    /// The number of values that were pending at the moment of the call.
    pub fn len(&self) -> (n: usize) {
        let access = lock_shared(&self.inner);
        shared_target(&access).len()
    }

    /// Whether nothing was pending at the moment of the call.
    pub fn is_empty(&self) -> (b: bool) {
        let access = lock_shared(&self.inner);
        shared_target(&access).is_empty()
    }

    /// Starts a drain of at most `amount` values. Nothing is removed until
    /// the drain is asked for a value.
    pub fn drain(&self, amount: usize) -> (d: Drain<'_, T>)
        ensures
            d.remaining() == amount,
            d.queue() == self,
    {
        Drain { source: self, left: amount }
    }
}

impl<T: Eq + Hash + Clone> ConcurrentSetQueue<T> {
    /// Makes `value` pending under exclusive access, unless it finds an equal
    /// value pending: then the call changes nothing.
    pub fn push(&self, value: T)
        requires
            obeys_key_model::<T>(),
            clones_are_equal::<T>(),
    {
        let mut access = lock_exclusive(&self.inner);
        exclusive_target(&mut access).push(value);
    }
}

impl<'a, T: Eq + Hash> Drain<'a, T> {
    /// How many values the drain may still hand out.
    pub closed spec fn remaining(&self) -> nat {
        self.left as nat
    }

    /// The queue that the drain takes from.
    pub closed spec fn queue(&self) -> &'a ConcurrentSetQueue<T> {
        self.source
    }

    /// Hands out the next value: one draw, under exclusive access, from the
    /// queue as it is at that moment. A finished drain returns `None` and
    /// leaves the queue alone; otherwise the draw pops once, and the drain is
    /// finished when the pop finds the queue empty.
    pub fn next(&mut self) -> (r: Option<T>)
        requires
            obeys_key_model::<T>(),
        ensures
            final(self).queue() == old(self).queue(),
            old(self).remaining() == 0 ==> r is None,
            r is Some ==> final(self).remaining() == old(self).remaining() - 1,
            r is None ==> final(self).remaining() == 0,
    {
        let mut access = lock_exclusive(&self.source.inner);
        let (r, left) = exclusive_target(&mut access).draw(self.left);
        self.left = left;
        r
    }
}

} // verus!
