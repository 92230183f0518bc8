//! The queue itself, for a single owner: an ordered sequence and a membership
//! set that always describe the same pending values.

use std::collections::{HashSet, VecDeque};
use std::hash::Hash;
use vstd::prelude::*;
use vstd::std_specs::hash::obeys_key_model;
use crate::laws::{lemma_dequeue_distinct, lemma_enqueue_distinct};
use crate::model::{after_draw, dequeue, drain_len, drawn, enqueue, front, left_after_draw};

verus! {

broadcast use vstd::std_specs::hash::group_hash_axioms;

/// Whether `clone` on `T` hands back a value equal to the one it was given.
/// The queue keeps one copy of a pending value in its sequence and one in its
/// membership set, and the two must stay equal.
pub open spec fn clones_are_equal<T: Clone>() -> bool {
    forall|a: T, b: T| #[trigger] cloned(a, b) ==> a == b
}

/// A deduplicating FIFO queue owned by one caller.
///
/// Its view is the sequence of pending values, oldest first. No value is
/// pending twice: every operation keeps `self@.no_duplicates()`.
#[derive(Debug)]
pub struct RawCSQ<T> {
    queue: VecDeque<T>,
    set: HashSet<T>,
}

impl<T> View for RawCSQ<T> {
    type V = Seq<T>;

    closed spec fn view(&self) -> Seq<T> {
        self.queue@
    }
}

impl<T> RawCSQ<T> {
    /// The sequence holds no value twice, and the set holds exactly the
    /// values of the sequence.
    #[verifier::type_invariant]
    spec fn consistent(self) -> bool {
        &&& self.queue@.no_duplicates()
        &&& self.set@ =~= self.queue@.to_set()
    }

    /// An empty queue.
    pub fn new() -> (q: Self)
        ensures
            q@ == Seq::<T>::empty(),
    {
        Self { queue: VecDeque::new(), set: HashSet::new() }
    }

    /// The number of pending values.
    pub fn len(&self) -> (n: usize)
        ensures
            n == self@.len(),
            self@.no_duplicates(),
    {
        proof {
            use_type_invariant(self);
        }
        self.queue.len()
    }

    /// Whether no value is pending.
    pub fn is_empty(&self) -> (b: bool)
        ensures
            b == (self@.len() == 0),
            self@.no_duplicates(),
    {
        proof {
            use_type_invariant(self);
        }
        self.queue.len() == 0
    }
}

impl<T: Eq + Hash> RawCSQ<T> {
    /// Removes the oldest pending value and returns it, or returns `None`
    /// and changes nothing when no value is pending.
    pub fn pop(&mut self) -> (r: Option<T>)
        requires
            obeys_key_model::<T>(),
        ensures
            r == front(old(self)@),
            final(self)@ == dequeue(old(self)@),
            final(self)@.no_duplicates(),
    {
        proof {
            use_type_invariant(&*self);
            lemma_dequeue_distinct(self@);
        }
        // The two collections are taken out for the change and put back
        // together, so that `self` is consistent at every step.
        let mut held = Self::new();
        std::mem::swap(self, &mut held);
        let RawCSQ { mut queue, mut set } = held;
        let r = match queue.pop_front() {
            Some(value) => {
                set.remove(&value);
                Some(value)
            },
            None => None,
        };
        assert(queue@ =~= dequeue(old(self)@));
        *self = RawCSQ { queue, set };
        r
    }

    /// One draw of a drain that may still take `left` values. A finished
    /// drain (`left` is 0) gets nothing and the queue stays as it is. Any
    /// other draw is one pop of the queue as it stands now; the count that
    /// comes back is one lower when a value was handed out, and 0 when the
    /// queue was found empty, so that the drain is finished for good.
    pub fn draw(&mut self, left: usize) -> (r: (Option<T>, usize))
        requires
            obeys_key_model::<T>(),
        ensures
            r.0 == drawn(old(self)@, left as nat),
            r.1 == left_after_draw(old(self)@, left as nat),
            final(self)@ == after_draw(old(self)@, left as nat),
            final(self)@.no_duplicates(),
    {
        proof {
            use_type_invariant(&*self);
        }
        if left == 0 {
            return (None, 0);
        }
        match self.pop() {
            Some(value) => (Some(value), left - 1),
            None => (None, 0),
        }
    }

    /// Removes up to `amount` values from the front, oldest first, and
    /// returns them in that order: the draws of one drain, made in one go.
    /// It stops early when the queue runs empty.
    pub fn drain(&mut self, amount: usize) -> (out: Vec<T>)
        requires
            obeys_key_model::<T>(),
        ensures
            out@ == old(self)@.take(drain_len(old(self)@, amount as nat)),
            final(self)@ == old(self)@.skip(drain_len(old(self)@, amount as nat)),
            final(self)@.no_duplicates(),
    {
        proof {
            use_type_invariant(&*self);
        }
        let mut out: Vec<T> = Vec::new();
        let mut left: usize = amount;
        while left > 0
            invariant
                obeys_key_model::<T>(),
                out@.len() <= amount,
                out@.len() <= old(self)@.len(),
                left == amount - out@.len() || (left == 0 && out@.len() == old(self)@.len()),
                out@ =~= old(self)@.take(out@.len() as int),
                self@ =~= old(self)@.skip(out@.len() as int),
                self@.no_duplicates(),
            decreases left,
        {
            let (value, rest) = self.draw(left);
            if let Some(v) = value {
                out.push(v);
            }
            left = rest;
        }
        out
    }
}

impl<T: Eq + Hash + Clone> RawCSQ<T> {
    /// Makes `value` pending at the back of the queue, unless an equal value
    /// is pending already: then the call changes nothing.
    pub fn push(&mut self, value: T)
        requires
            obeys_key_model::<T>(),
            clones_are_equal::<T>(),
        ensures
            final(self)@ == enqueue(old(self)@, value),
            final(self)@.no_duplicates(),
    {
        proof {
            use_type_invariant(&*self);
            lemma_enqueue_distinct(self@, value);
        }
        if !self.set.contains(&value) {
            let copy = value.clone();
            assert(cloned(value, copy));
            let mut held = Self::new();
            std::mem::swap(self, &mut held);
            let RawCSQ { mut queue, mut set } = held;
            set.insert(copy);
            queue.push_back(value);
            *self = RawCSQ { queue, set };
        }
    }
}

} // verus!
