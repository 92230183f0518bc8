//! What holds of every deduplicating queue, proved over the model.

use vstd::prelude::*;
use crate::model::{
    admits, admitted, after_draw, apply, dequeue, drain_len, drawn, enqueue, front, handed_out,
    hands_out, left_after_draw, pending, pops, pushed_since_last_pop, pushes, replay, Call,
};

verus! {

/// Offering a value to a sequence without repeats leaves it without repeats,
/// and makes the value pending whether or not it was so before.
pub proof fn lemma_enqueue_distinct<T>(s: Seq<T>, v: T)
    requires
        s.no_duplicates(),
    ensures
        enqueue(s, v).no_duplicates(),
        enqueue(s, v).to_set() =~= s.to_set().insert(v),
{
    if !s.contains(v) {
        let t = s.push(v);
        assert forall|i: int, j: int| 0 <= i < t.len() && 0 <= j < t.len() && i != j implies t[i]
            != t[j] by {
            if i < s.len() && j < s.len() {
                assert(s[i] != s[j]);
            } else if i < s.len() {
                assert(s.contains(s[i]));
            } else {
                assert(s.contains(s[j]));
            }
        }
        assert forall|x: T| t.to_set().contains(x) <==> s.to_set().insert(v).contains(x) by {
            if t.contains(x) {
                let i = choose|i: int| 0 <= i < t.len() && t[i] == x;
                if i < s.len() {
                    assert(s[i] == x);
                }
            }
            if s.contains(x) {
                let i = choose|i: int| 0 <= i < s.len() && s[i] == x;
                assert(t[i] == x);
            }
            if x == v {
                assert(t[s.len() as int] == v);
            }
        }
    } else {
        assert(s.to_set().contains(v));
    }
}

/// Removing the front of a sequence without repeats leaves it without
/// repeats, and the removed value is no longer pending.
pub proof fn lemma_dequeue_distinct<T>(s: Seq<T>)
    requires
        s.no_duplicates(),
    ensures
        dequeue(s).no_duplicates(),
        s.len() > 0 ==> dequeue(s).to_set() =~= s.to_set().remove(s[0]),
        s.len() > 0 ==> !dequeue(s).contains(s[0]),
{
    if s.len() > 0 {
        let t = s.skip(1);
        assert forall|i: int, j: int| 0 <= i < t.len() && 0 <= j < t.len() && i != j implies t[i]
            != t[j] by {
            assert(t[i] == s[i + 1]);
            assert(t[j] == s[j + 1]);
        }
        assert forall|x: T| t.contains(x) <==> (s.contains(x) && x != s[0]) by {
            if t.contains(x) {
                let i = choose|i: int| 0 <= i < t.len() && t[i] == x;
                assert(s[i + 1] == x);
            }
            if s.contains(x) && x != s[0] {
                let i = choose|i: int| 0 <= i < s.len() && s[i] == x;
                assert(t[i - 1] == x);
            }
        }
    }
}

/// A push of a value that is pending already changes nothing, however often
/// it is repeated.
pub proof fn lemma_duplicate_push_is_dropped<T>(s: Seq<T>, v: T)
    ensures
        enqueue(enqueue(s, v), v) == enqueue(s, v),
        enqueue(s, v).contains(v),
{
    if !s.contains(v) {
        assert(s.push(v)[s.len() as int] == v);
    }
}

/// A value that was popped may enter again: pushed next, it is accepted and
/// stands at the back.
pub proof fn lemma_reentry_after_pop<T>(s: Seq<T>)
    requires
        s.no_duplicates(),
        s.len() > 0,
    ensures
        front(s) == Some(s[0]),
        enqueue(dequeue(s), s[0]) == dequeue(s).push(s[0]),
{
    lemma_dequeue_distinct(s);
}

/// Which values are pending after one call, and how often: a push adds its
/// value once unless it is pending, a pop takes the front away once, and
/// every other value stays as it was.
pub proof fn lemma_apply_pending<T>(s: Seq<T>, call: Call<T>, v: T)
    requires
        s.no_duplicates(),
    ensures
        apply(s, call).no_duplicates(),
        apply(s, call).contains(v) <==> match call {
            Call::Push(x) => s.contains(v) || x == v,
            Call::Pop => s.contains(v) && front(s) != Some(v),
        },
        pending(apply(s, call), v) == match call {
            Call::Push(x) => pending(s, v) + if x == v && !s.contains(v) {
                1int
            } else {
                0int
            },
            Call::Pop => pending(s, v) - if front(s) == Some(v) {
                1int
            } else {
                0int
            },
        },
        pending(s, v) <= 1,
{
    broadcast use vstd::seq_lib::group_to_multiset_ensures;
    broadcast use vstd::multiset::group_multiset_axioms;

    s.lemma_multiset_has_no_duplicates();
    assert(pending(s, v) <= 1) by {
        if s.to_multiset().count(v) > 0 {
            assert(s.to_multiset().contains(v));
        }
    }
    match call {
        Call::Push(x) => {
            lemma_enqueue_distinct(s, x);
            assert(enqueue(s, x).to_set().contains(v) <==> s.to_set().insert(x).contains(v));
            if !s.contains(x) {
                assert(s.push(x).to_multiset() =~= s.to_multiset().insert(x));
            }
        },
        Call::Pop => {
            lemma_dequeue_distinct(s);
            if s.len() > 0 {
                assert(dequeue(s).to_set().contains(v) <==> s.to_set().remove(s[0]).contains(v));
                assert(s.skip(1) =~= s.remove(0));
                assert(s.remove(0).to_multiset() =~= s.to_multiset().remove(s[0]));
                assert(s.contains(s[0]));
            }
        },
    }
}

/// One more call at the end of a history acts on what the history left.
pub proof fn lemma_replay_push<T>(start: Seq<T>, history: Seq<Call<T>>, call: Call<T>)
    ensures
        replay(start, history.push(call)) == apply(replay(start, history), call),
{
    assert(history.push(call).drop_last() =~= history);
}

/// No value is ever pending twice: whatever calls are made, in whatever
/// order, on a queue without repeats, it stays without repeats.
pub proof fn lemma_replay_distinct<T>(start: Seq<T>, history: Seq<Call<T>>)
    requires
        start.no_duplicates(),
    ensures
        replay(start, history).no_duplicates(),
    decreases history.len(),
{
    if history.len() > 0 {
        lemma_replay_distinct(start, history.drop_last());
        let s = replay(start, history.drop_last());
        match history.last() {
            Call::Push(v) => lemma_enqueue_distinct(s, v),
            Call::Pop => lemma_dequeue_distinct(s),
        }
    }
}

/// After any history, a value is pending once for each of its accepted pushes
/// that no pop has handed out yet, and that is at most once. So a value can
/// be popped exactly as often as it was accepted, and never twice without an
/// accepted push in between.
pub proof fn lemma_pending_balance<T>(start: Seq<T>, history: Seq<Call<T>>, v: T)
    requires
        start.no_duplicates(),
    ensures
        pending(replay(start, history), v) + handed_out(start, history, v) == pending(start, v)
            + admitted(start, history, v),
        pending(replay(start, history), v) <= 1,
        replay(start, history).no_duplicates(),
    decreases history.len(),
{
    lemma_replay_distinct(start, history);
    lemma_apply_pending(replay(start, history), Call::Pop, v);
    if history.len() > 0 {
        let prior = history.drop_last();
        lemma_pending_balance(start, prior, v);
        assert(history.take(history.len() - 1) =~= prior);
        lemma_apply_pending(replay(start, prior), history.last(), v);
    }
}

/// On a queue that started empty, the pending values are exactly those that
/// were pushed and not handed out since.
pub proof fn lemma_pending_iff_pushed_since_last_pop<T>(history: Seq<Call<T>>, v: T)
    ensures
        replay(Seq::empty(), history).contains(v) <==> pushed_since_last_pop(history, v),
    decreases history.len(),
{
    let empty = Seq::<T>::empty();
    if history.len() == 0 {
        assert(!empty.contains(v));
    } else {
        let last = history.len() - 1;
        let prior = history.drop_last();
        let s = replay(empty, prior);
        lemma_pending_iff_pushed_since_last_pop(prior, v);
        lemma_replay_distinct(empty, prior);
        assert(history.take(last) =~= prior);
        assert forall|j: int| 0 <= j < last implies (hands_out(empty, history, j, v) <==> hands_out(
            empty,
            prior,
            j,
            v,
        )) by {
            assert(history.take(j) =~= prior.take(j));
        }
        // A witness in the shorter history serves in the longer one unless the
        // last call is a pop that hands `v` out.
        if pushed_since_last_pop(prior, v) && !hands_out(empty, history, last, v) {
            let i = choose|i: int|
                {
                    &&& 0 <= i < prior.len()
                    &&& #[trigger] prior[i] == Call::Push(v)
                    &&& forall|j: int|
                        i < j < prior.len() ==> !#[trigger] hands_out(empty, prior, j, v)
                };
            assert(history[i] == Call::Push(v));
            assert forall|j: int| i < j < history.len() implies !#[trigger] hands_out(
                empty,
                history,
                j,
                v,
            ) by {
                if j < last {
                    assert(!hands_out(empty, prior, j, v));
                }
            }
            assert(pushed_since_last_pop(history, v));
        }
        // A witness in the longer history that is not its last call serves in
        // the shorter one.
        if pushed_since_last_pop(history, v) && history[last] != Call::Push(v) {
            let i = choose|i: int|
                {
                    &&& 0 <= i < history.len()
                    &&& #[trigger] history[i] == Call::Push(v)
                    &&& forall|j: int|
                        i < j < history.len() ==> !#[trigger] hands_out(empty, history, j, v)
                };
            assert(prior[i] == Call::Push(v));
            assert forall|j: int| i < j < prior.len() implies !#[trigger] hands_out(
                empty,
                prior,
                j,
                v,
            ) by {
                assert(!hands_out(empty, history, j, v));
            }
            assert(pushed_since_last_pop(prior, v));
            assert(!hands_out(empty, history, last, v));
        }
        lemma_apply_pending(s, history.last(), v);
        if history.last() == Call::Push(v) {
            assert(history[last] == Call::Push(v));
            assert(pushed_since_last_pop(history, v));
        }
    }
}

/// While every value that is pushed belongs to a finite universe, the pending
/// values belong to it too, and there are never more of them than the
/// universe has members.
pub proof fn lemma_pending_within_universe<T>(
    start: Seq<T>,
    history: Seq<Call<T>>,
    universe: Set<T>,
)
    requires
        universe.finite(),
        start.no_duplicates(),
        forall|x: T| start.contains(x) ==> universe.contains(x),
        forall|i: int|
            0 <= i < history.len() ==> match #[trigger] history[i] {
                Call::Push(x) => universe.contains(x),
                Call::Pop => true,
            },
    ensures
        forall|x: T| replay(start, history).contains(x) ==> universe.contains(x),
        replay(start, history).len() <= universe.len(),
    decreases history.len(),
{
    let now = replay(start, history);
    lemma_replay_distinct(start, history);
    if history.len() > 0 {
        let prior = history.drop_last();
        let s = replay(start, prior);
        assert forall|i: int| 0 <= i < prior.len() implies match #[trigger] prior[i] {
            Call::Push(x) => universe.contains(x),
            Call::Pop => true,
        } by {
            assert(prior[i] == history[i]);
        }
        lemma_pending_within_universe(start, prior, universe);
        lemma_replay_distinct(start, prior);
        assert(history[history.len() - 1] == history.last());
        assert forall|x: T| now.contains(x) implies universe.contains(x) by {
            lemma_apply_pending(s, history.last(), x);
        }
    }
    now.unique_seq_to_set();
    assert(now.to_set().subset_of(universe));
    vstd::set_lib::lemma_len_subset(now.to_set(), universe);
}

/// Values that differ leave in the order in which they were pushed: after
/// one push of each of them on a new queue and `k` pops, the values from
/// number `k` on are pending in their order, so the next pop hands out
/// number `k`.
pub proof fn lemma_fifo_among_distinct<T>(values: Seq<T>, k: nat)
    requires
        values.no_duplicates(),
        k <= values.len(),
    ensures
        replay(Seq::empty(), pushes(values)) == values,
        replay(Seq::empty(), pushes(values) + pops(k)) == values.skip(k as int),
        k < values.len() ==> front(replay(Seq::empty(), pushes(values) + pops(k))) == Some(
            values[k as int],
        ),
    decreases values.len() + k,
{
    let empty = Seq::<T>::empty();
    if k > 0 {
        let shorter = pushes(values) + pops::<T>((k - 1) as nat);
        lemma_fifo_among_distinct(values, (k - 1) as nat);
        assert(pushes(values) + pops::<T>(k) =~= shorter.push(Call::Pop));
        lemma_replay_push(empty, shorter, Call::Pop);
        assert(values.skip(k - 1).skip(1) =~= values.skip(k as int));
    } else {
        assert(pushes(values) + pops::<T>(0) =~= pushes(values));
        assert(values.skip(0) =~= values);
        if values.len() > 0 {
            let head = values.drop_last();
            assert(head.no_duplicates()) by {
                assert forall|i: int, j: int|
                    0 <= i < head.len() && 0 <= j < head.len() && i != j implies head[i]
                    != head[j] by {
                    assert(values[i] != values[j]);
                }
            }
            lemma_fifo_among_distinct(head, 0);
            assert(pushes(values) =~= pushes(head).push(Call::Push(values.last())));
            lemma_replay_push(empty, pushes(head), Call::Push(values.last()));
            if head.contains(values.last()) {
                let i = choose|i: int| 0 <= i < head.len() && head[i] == values.last();
                assert(values[i] == values[values.len() - 1]);
            }
            assert(head.push(values.last()) =~= values);
        }
    }
}

/// However many pushes of one value meet at a queue, one after the other in
/// any order, the outcome is that of a single push.
pub proof fn lemma_same_value_pushed_many_times<T>(start: Seq<T>, v: T, n: nat)
    requires
        n >= 1,
    ensures
        replay(start, Seq::new(n, |i: int| Call::Push(v))) == enqueue(start, v),
    decreases n,
{
    let all = Seq::new(n, |i: int| Call::Push(v));
    let fewer = Seq::new((n - 1) as nat, |i: int| Call::Push(v));
    assert(all =~= fewer.push(Call::Push(v)));
    lemma_replay_push(start, fewer, Call::Push(v));
    if n > 1 {
        lemma_same_value_pushed_many_times(start, v, (n - 1) as nat);
        lemma_duplicate_push_is_dropped(start, v);
    }
}

/// A drain is a run of pops: `amount` pops leave what a drain of `amount`
/// leaves, and pops beyond the last pending value change nothing.
pub proof fn lemma_drain_is_repeated_pop<T>(s: Seq<T>, amount: nat)
    ensures
        replay(s, pops(amount)) == s.skip(drain_len(s, amount)),
    decreases amount,
{
    if amount == 0 {
        assert(s.skip(0) =~= s);
    } else {
        let fewer = pops::<T>((amount - 1) as nat);
        lemma_drain_is_repeated_pop(s, (amount - 1) as nat);
        assert(pops::<T>(amount) =~= fewer.push(Call::Pop));
        lemma_replay_push(s, fewer, Call::Pop);
        let taken = drain_len(s, (amount - 1) as nat);
        if amount <= s.len() {
            assert(s.skip(taken).skip(1) =~= s.skip(taken + 1));
        } else {
            assert(s.skip(s.len() as int).len() == 0);
        }
    }
}

/// A draw is a pop while the drain may still take a value, and nothing once
/// it is finished; and a drain stays finished once a draw found the queue
/// empty or took its last value.
pub proof fn lemma_draw_is_pop_or_nothing<T>(s: Seq<T>, left: nat)
    ensures
        left > 0 ==> after_draw(s, left) == apply(s, Call::Pop) && drawn(s, left) == front(s),
        left == 0 ==> after_draw(s, left) == s && drawn(s, left) is None,
        drawn(s, left) is Some ==> left_after_draw(s, left) == left - 1,
        drawn(s, left) is None ==> left_after_draw(s, left) == 0,
{
}

} // verus!
