use set_queue::{ConcurrentSetQueue, Drain, RawCSQ};

fn text(s: &str) -> String {
    s.to_string()
}

fn collect<T: Eq + std::hash::Hash>(mut drain: Drain<'_, T>) -> Vec<T> {
    let mut out = Vec::new();
    while let Some(value) = drain.next() {
        out.push(value);
    }
    out
}

#[test]
fn fifo_among_distinct_values() {
    let q = ConcurrentSetQueue::new();
    q.push(text("a"));
    q.push(text("b"));
    q.push(text("c"));
    assert_eq!(q.pop(), Some(text("a")));
    assert_eq!(q.pop(), Some(text("b")));
    assert_eq!(q.pop(), Some(text("c")));
    assert_eq!(q.pop(), None);
}

#[test]
fn duplicate_push_is_suppressed() {
    let q = ConcurrentSetQueue::new();
    q.push(text("a"));
    q.push(text("a"));
    assert_eq!(q.len(), 1);
    assert_eq!(q.pop(), Some(text("a")));
    assert_eq!(q.pop(), None);
}

#[test]
fn duplicate_push_keeps_the_first_position() {
    let q = ConcurrentSetQueue::new();
    q.push(1u32);
    q.push(2u32);
    q.push(1u32);
    q.push(3u32);
    assert_eq!(q.len(), 3);
    assert_eq!(q.pop(), Some(1));
    assert_eq!(q.pop(), Some(2));
    assert_eq!(q.pop(), Some(3));
    assert_eq!(q.pop(), None);
}

#[test]
fn value_reenters_after_pop() {
    let q = ConcurrentSetQueue::new();
    q.push(text("a"));
    assert_eq!(q.pop(), Some(text("a")));
    q.push(text("a"));
    assert_eq!(q.len(), 1);
    assert_eq!(q.pop(), Some(text("a")));
    assert_eq!(q.pop(), None);
}

#[test]
fn reentered_value_goes_to_the_back() {
    let q = ConcurrentSetQueue::new();
    q.push(1u64);
    q.push(2u64);
    assert_eq!(q.pop(), Some(1));
    q.push(1u64);
    assert_eq!(q.pop(), Some(2));
    assert_eq!(q.pop(), Some(1));
    assert_eq!(q.pop(), None);
}

#[test]
fn emptiness_follows_push_and_pop() {
    let q = ConcurrentSetQueue::new();
    assert!(q.is_empty());
    assert_eq!(q.len(), 0);
    q.push(5u8);
    assert!(!q.is_empty());
    assert_eq!(q.len(), 1);
    assert_eq!(q.pop(), Some(5));
    assert!(q.is_empty());
    assert_eq!(q.len(), 0);
}

#[test]
fn default_queue_is_empty() {
    let q: ConcurrentSetQueue<u16> = ConcurrentSetQueue::default();
    assert!(q.is_empty());
    assert_eq!(q.len(), 0);
    assert_eq!(q.pop(), None);
}

#[test]
fn pop_on_empty_queue_gives_nothing() {
    let q: ConcurrentSetQueue<String> = ConcurrentSetQueue::new();
    assert_eq!(q.pop(), None);
    assert_eq!(q.pop(), None);
    assert!(q.is_empty());
}

#[test]
fn drain_stops_early_when_queue_runs_empty() {
    let q = ConcurrentSetQueue::new();
    q.push(text("a"));
    q.push(text("b"));
    assert_eq!(collect(q.drain(5)), vec![text("a"), text("b")]);
    assert!(q.is_empty());
}

#[test]
fn drain_takes_no_more_than_its_amount() {
    let q = ConcurrentSetQueue::new();
    for v in 0..6u32 {
        q.push(v);
    }
    assert_eq!(collect(q.drain(4)), vec![0, 1, 2, 3]);
    assert_eq!(q.len(), 2);
    assert_eq!(q.pop(), Some(4));
}

#[test]
fn drain_of_zero_takes_nothing() {
    let q = ConcurrentSetQueue::new();
    q.push(1u32);
    assert_eq!(collect(q.drain(0)), Vec::<u32>::new());
    assert_eq!(q.len(), 1);
}

#[test]
fn drain_is_lazy() {
    let q = ConcurrentSetQueue::new();
    q.push(1u32);
    q.push(2u32);
    q.push(3u32);
    let mut drain = q.drain(3);
    assert_eq!(q.len(), 3);
    assert_eq!(drain.next(), Some(1));
    assert_eq!(q.len(), 2);
    assert_eq!(q.pop(), Some(2));
    assert_eq!(drain.next(), Some(3));
    assert_eq!(drain.next(), None);
    assert!(q.is_empty());
}

#[test]
fn drain_does_not_restart_once_it_found_the_queue_empty() {
    let q = ConcurrentSetQueue::new();
    q.push(1u32);
    let mut drain = q.drain(5);
    assert_eq!(drain.next(), Some(1));
    assert_eq!(drain.next(), None);
    q.push(2u32);
    assert_eq!(drain.next(), None);
    assert_eq!(q.len(), 1);
    assert_eq!(q.pop(), Some(2));
}

#[test]
fn finished_drain_leaves_the_queue_alone() {
    let q = ConcurrentSetQueue::new();
    q.push(1u32);
    q.push(2u32);
    let mut drain = q.drain(1);
    assert_eq!(drain.next(), Some(1));
    assert_eq!(drain.next(), None);
    assert_eq!(q.len(), 1);
    assert_eq!(q.pop(), Some(2));
}

#[test]
fn same_value_through_many_handles_is_pending_once() {
    let q = ConcurrentSetQueue::new();
    let handles: Vec<&ConcurrentSetQueue<u32>> = (0..16).map(|_| &q).collect();
    for handle in handles {
        handle.push(7u32);
    }
    assert_eq!(q.len(), 1);
    assert_eq!(q.pop(), Some(7));
    assert_eq!(q.pop(), None);
}

#[test]
fn pending_never_exceeds_the_universe() {
    let q = ConcurrentSetQueue::new();
    let universe = 5u32;
    let mut pending: Vec<u32> = Vec::new();
    for step in 0..200u32 {
        if step % 3 == 2 {
            let got = q.pop();
            if pending.is_empty() {
                assert_eq!(got, None);
            } else {
                assert_eq!(got, Some(pending.remove(0)));
            }
        } else {
            let v = (step * 7 + step / 4) % universe;
            q.push(v);
            if !pending.contains(&v) {
                pending.push(v);
            }
        }
        assert_eq!(q.len(), pending.len());
        assert!(q.len() <= 5);
    }
}

#[test]
fn debug_rendering_names_the_queue() {
    let q = ConcurrentSetQueue::new();
    q.push(1u32);
    let shown = format!("{:?}", q);
    assert!(shown.contains("ConcurrentSetQueue"));
}

#[test]
fn raw_fifo_among_distinct_values() {
    let mut q = RawCSQ::new();
    q.push(1u64);
    q.push(2u64);
    q.push(3u64);
    assert_eq!(q.pop(), Some(1));
    assert_eq!(q.pop(), Some(2));
    assert_eq!(q.pop(), Some(3));
    assert_eq!(q.pop(), None);
}

#[test]
fn raw_duplicate_push_is_suppressed() {
    let mut q = RawCSQ::new();
    q.push(text("a"));
    q.push(text("a"));
    assert_eq!(q.len(), 1);
    assert_eq!(q.pop(), Some(text("a")));
    assert_eq!(q.pop(), None);
}

#[test]
fn raw_value_reenters_after_pop() {
    let mut q = RawCSQ::new();
    q.push(text("a"));
    assert_eq!(q.pop(), Some(text("a")));
    q.push(text("a"));
    assert_eq!(q.pop(), Some(text("a")));
    assert_eq!(q.pop(), None);
}

#[test]
fn raw_emptiness_follows_push_and_pop() {
    let mut q = RawCSQ::new();
    assert!(q.is_empty());
    assert_eq!(q.len(), 0);
    q.push(9i32);
    assert!(!q.is_empty());
    assert_eq!(q.len(), 1);
    assert_eq!(q.pop(), Some(9));
    assert!(q.is_empty());
    assert_eq!(q.len(), 0);
}

#[test]
fn raw_drain_stops_early_when_queue_runs_empty() {
    let mut q = RawCSQ::new();
    q.push(text("a"));
    q.push(text("b"));
    assert_eq!(q.drain(5), vec![text("a"), text("b")]);
    assert!(q.is_empty());
    assert_eq!(q.drain(5), Vec::<String>::new());
}

#[test]
fn raw_drain_takes_the_oldest_first() {
    let mut q = RawCSQ::new();
    for v in [4u32, 8, 4, 15, 16, 8, 23] {
        q.push(v);
    }
    assert_eq!(q.len(), 5);
    assert_eq!(q.drain(2), vec![4, 8]);
    assert_eq!(q.len(), 3);
    assert_eq!(q.drain(0), Vec::<u32>::new());
    assert_eq!(q.drain(3), vec![15, 16, 23]);
    assert!(q.is_empty());
}

#[test]
fn raw_drain_with_the_largest_amount() {
    let mut q = RawCSQ::new();
    q.push(1u8);
    assert_eq!(q.drain(usize::MAX), vec![1]);
    assert!(q.is_empty());
}

#[test]
fn drain_draws_the_queue_as_it_is_at_that_moment() {
    let q = ConcurrentSetQueue::new();
    q.push(1u32);
    let mut drain = q.drain(3);
    assert_eq!(drain.next(), Some(1));
    q.push(2u32);
    assert_eq!(drain.next(), Some(2));
    assert_eq!(drain.next(), None);
    assert!(q.is_empty());
}

#[test]
fn dropped_drain_took_only_what_was_drawn() {
    let q = ConcurrentSetQueue::new();
    for v in [10u32, 20, 30, 40] {
        q.push(v);
    }
    {
        let mut drain = q.drain(3);
        assert_eq!(drain.next(), Some(10));
        assert_eq!(drain.next(), Some(20));
    }
    assert_eq!(q.len(), 2);
    assert_eq!(q.pop(), Some(30));
    assert_eq!(q.pop(), Some(40));
    assert_eq!(q.pop(), None);
}

#[test]
fn raw_draw_pops_once_and_counts_down() {
    let mut q = RawCSQ::new();
    q.push(text("a"));
    q.push(text("b"));
    assert_eq!(q.draw(2), (Some(text("a")), 1));
    assert_eq!(q.len(), 1);
    assert_eq!(q.draw(1), (Some(text("b")), 0));
    assert!(q.is_empty());
}

#[test]
fn raw_draw_on_empty_queue_finishes_the_drain() {
    let mut q: RawCSQ<u32> = RawCSQ::new();
    assert_eq!(q.draw(5), (None, 0));
    assert_eq!(q.draw(usize::MAX), (None, 0));
    assert!(q.is_empty());
}

#[test]
fn raw_draw_of_finished_drain_leaves_the_queue_alone() {
    let mut q = RawCSQ::new();
    q.push(7u32);
    assert_eq!(q.draw(0), (None, 0));
    assert_eq!(q.len(), 1);
    assert_eq!(q.pop(), Some(7));
}

#[test]
fn raw_draw_sees_a_push_between_two_draws() {
    let mut q = RawCSQ::new();
    q.push(1u32);
    let (first, left) = q.draw(3);
    assert_eq!((first, left), (Some(1), 2));
    q.push(2u32);
    q.push(1u32);
    assert_eq!(q.draw(left), (Some(2), 1));
    assert_eq!(q.draw(1), (Some(1), 0));
    assert_eq!(q.draw(0), (None, 0));
}
