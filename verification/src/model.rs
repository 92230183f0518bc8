//! The mathematical model of a deduplicating queue: a sequence of pending
//! values, oldest first, in which no value occurs twice.

use vstd::prelude::*;

verus! {

/// The pending sequence after `v` was offered to `s`: `v` joins at the back
/// unless it is already pending, in which case nothing changes.
pub open spec fn enqueue<T>(s: Seq<T>, v: T) -> Seq<T> {
    if s.contains(v) {
        s
    } else {
        s.push(v)
    }
}

/// The value that the next removal hands out, if any.
pub open spec fn front<T>(s: Seq<T>) -> Option<T> {
    if s.len() > 0 {
        Some(s[0])
    } else {
        None
    }
}

/// The pending sequence after one removal.
pub open spec fn dequeue<T>(s: Seq<T>) -> Seq<T> {
    if s.len() > 0 {
        s.skip(1)
    } else {
        s
    }
}

/// How many values a drain of at most `amount` takes from `s`.
pub open spec fn drain_len<T>(s: Seq<T>, amount: nat) -> int {
    if amount <= s.len() {
        amount as int
    } else {
        s.len() as int
    }
}

/// How often `v` occurs in `s`.
pub open spec fn pending<T>(s: Seq<T>, v: T) -> nat {
    s.to_multiset().count(v)
}

/// What one draw of a drain that may still take `left` values hands out from
/// a queue that holds `s`: nothing once the drain is finished, else the front.
pub open spec fn drawn<T>(s: Seq<T>, left: nat) -> Option<T> {
    if left == 0 {
        None
    } else {
        front(s)
    }
}

/// The pending sequence after such a draw: a finished drain leaves the queue
/// alone, any other draw is one removal.
pub open spec fn after_draw<T>(s: Seq<T>, left: nat) -> Seq<T> {
    if left == 0 {
        s
    } else {
        dequeue(s)
    }
}

/// How many values the drain may take after such a draw: one fewer when the
/// draw handed out a value, none when it did not.
pub open spec fn left_after_draw<T>(s: Seq<T>, left: nat) -> nat {
    if left > 0 && s.len() > 0 {
        (left - 1) as nat
    } else {
        0
    }
}

/// One call made on a queue.
pub enum Call<T> {
    Push(T),
    Pop,
}

/// The pending sequence after `call` was made on a queue that held `s`.
pub open spec fn apply<T>(s: Seq<T>, call: Call<T>) -> Seq<T> {
    match call {
        Call::Push(v) => enqueue(s, v),
        Call::Pop => dequeue(s),
    }
}

/// The pending sequence after the calls of `history` were made, one after
/// the other, on a queue that held `start`. Calls made under the queue's lock
/// by many threads take effect in some such order.
pub open spec fn replay<T>(start: Seq<T>, history: Seq<Call<T>>) -> Seq<T>
    decreases history.len(),
{
    if history.len() == 0 {
        start
    } else {
        apply(replay(start, history.drop_last()), history.last())
    }
}

/// Whether call number `at` of `history` is a push of `v` that was accepted:
/// it found no `v` pending.
pub open spec fn admits<T>(start: Seq<T>, history: Seq<Call<T>>, at: int, v: T) -> bool {
    &&& history[at] == Call::Push(v)
    &&& !replay(start, history.take(at)).contains(v)
}

/// Whether call number `at` of `history` is a pop that handed out `v`.
pub open spec fn hands_out<T>(start: Seq<T>, history: Seq<Call<T>>, at: int, v: T) -> bool {
    &&& history[at] == Call::<T>::Pop
    &&& front(replay(start, history.take(at))) == Some(v)
}

/// The number of accepted pushes of `v` in `history`.
pub open spec fn admitted<T>(start: Seq<T>, history: Seq<Call<T>>, v: T) -> nat
    decreases history.len(),
{
    if history.len() == 0 {
        0
    } else {
        admitted(start, history.drop_last(), v) + if admits(
            start,
            history,
            history.len() - 1,
            v,
        ) {
            1nat
        } else {
            0nat
        }
    }
}

/// The number of pops in `history` that handed out `v`.
pub open spec fn handed_out<T>(start: Seq<T>, history: Seq<Call<T>>, v: T) -> nat
    decreases history.len(),
{
    if history.len() == 0 {
        0
    } else {
        handed_out(start, history.drop_last(), v) + if hands_out(
            start,
            history,
            history.len() - 1,
            v,
        ) {
            1nat
        } else {
            0nat
        }
    }
}

/// Whether `history`, made on a new queue, holds a push of `v` that no later
/// pop has answered with `v`.
pub open spec fn pushed_since_last_pop<T>(history: Seq<Call<T>>, v: T) -> bool {
    exists|i: int|
        {
            &&& 0 <= i < history.len()
            &&& #[trigger] history[i] == Call::Push(v)
            &&& forall|j: int|
                i < j < history.len() ==> !#[trigger] hands_out(Seq::empty(), history, j, v)
        }
}

/// One push of each value of `values`, in order.
pub open spec fn pushes<T>(values: Seq<T>) -> Seq<Call<T>> {
    Seq::new(values.len(), |i: int| Call::Push(values[i]))
}

/// `n` pops.
pub open spec fn pops<T>(n: nat) -> Seq<Call<T>> {
    Seq::new(n, |i: int| Call::Pop)
}

} // verus!
