use qc::lazy::{Deferred, Effects, Lazy, Mapped};
use std::cell::Cell;

/// The two deferred steps of the seeded list: the first delivers the head
/// of its vector and schedules the second over the rest.
enum Step {
    First(Vec<i32>),
    Second(Vec<i32>),
}

impl Deferred<i32> for Step {
    fn force(self) -> Effects<i32, Step> {
        let mut e = Effects::new();
        match self {
            Step::First(mut v) => {
                e.push(v.remove(0));
                e.push_thunk(Step::Second(v));
            }
            Step::Second(mut v) => {
                e.push(v.remove(0));
            }
        }
        e
    }
}

/// No deferred work at all.
enum NoWork {}

impl Deferred<i32> for NoWork {
    fn force(self) -> Effects<i32, NoWork> {
        match self {}
    }
}

/// Counts up without end, one number per forcing.
struct Counter(u64);

impl Deferred<u64> for Counter {
    fn force(self) -> Effects<u64, Counter> {
        let mut e = Effects::new();
        e.push(self.0);
        e.push_thunk(Counter(self.0 + 1));
        e
    }
}

/// Delivers a fixed list of values in one forcing, then schedules `then`.
struct Batch(Vec<i32>, Option<Box<Batch>>);

impl Deferred<i32> for Batch {
    fn force(self) -> Effects<i32, Batch> {
        let mut e = Effects::new();
        for v in self.0 {
            e.push(v);
        }
        if let Some(b) = self.1 {
            e.push_thunk(*b);
        }
        e
    }
}

fn pushed(vs: &[i32]) -> Lazy<i32, NoWork> {
    let mut l = Lazy::new();
    for v in vs {
        l.push(*v);
    }
    l
}

#[test]
fn test_lazy_list() {
    let mut l = Lazy::create(|mut l: Lazy<i32, Step>| {
        l.push(3);
        l.push_thunk(Step::First(vec![4, 5]));
        l
    });

    assert_eq!(l.next(), Some(3));
    assert_eq!(l.next(), Some(4));
    assert_eq!(l.next(), Some(5));
    assert_eq!(l.next(), None);
}

#[test]
fn pushed_values_come_out_in_order_then_end() {
    let mut l = pushed(&[7, 1, 9, 1]);
    assert_eq!(l.next(), Some(7));
    assert_eq!(l.next(), Some(1));
    assert_eq!(l.next(), Some(9));
    assert_eq!(l.next(), Some(1));
    for _ in 0..5 {
        assert_eq!(l.next(), None);
    }
}

#[test]
fn empty_sequence_has_no_elements() {
    let mut l: Lazy<i32, NoWork> = Lazy::new();
    assert_eq!(l.next(), None);
    assert_eq!(l.next(), None);
}

#[test]
fn push_map_doubles_a_finite_source() {
    let mut l = Lazy::new();
    l.push_map(pushed(&[1, 2, 3]), |x: i32| x * 2);
    assert_eq!(l.next(), Some(2));
    assert_eq!(l.next(), Some(4));
    assert_eq!(l.next(), Some(6));
    assert_eq!(l.next(), None);
}

#[test]
fn push_map_forces_one_element_per_pull() {
    let calls = Cell::new(0u32);
    let mut l = Lazy::new();
    l.push_map(pushed(&[1, 2, 3]), |x: i32| {
        calls.set(calls.get() + 1);
        x * 2
    });
    assert_eq!(calls.get(), 0);
    assert_eq!(l.next(), Some(2));
    assert_eq!(calls.get(), 1);
    assert_eq!(l.next(), Some(4));
    assert_eq!(calls.get(), 2);
    assert_eq!(l.next(), Some(6));
    assert_eq!(calls.get(), 3);
    assert_eq!(l.next(), None);
    assert_eq!(calls.get(), 3);
}

#[test]
fn push_map_over_unbounded_source_keeps_the_stack_flat() {
    let mut src = Lazy::new();
    src.push_thunk(Counter(0));
    let mut l = Lazy::new();
    l.push_map(src, |x: u64| x + 1);
    for i in 0..100_000u64 {
        assert_eq!(l.next(), Some(i + 1));
    }
}

#[test]
fn end_of_sequence_is_terminal() {
    let mut l = Lazy::new();
    l.push(1);
    l.push_thunk(Batch(vec![2], None));
    assert_eq!(l.next(), Some(1));
    assert_eq!(l.next(), Some(2));
    for _ in 0..10 {
        assert_eq!(l.next(), None);
    }
}

#[test]
fn ready_values_precede_pending_work_in_fifo_order() {
    let mut l = Lazy::new();
    l.push(1);
    l.push_thunk(Batch(vec![10, 11], Some(Box::new(Batch(vec![30], None)))));
    l.push(2);
    l.push_thunk(Batch(vec![20], None));
    l.push(3);
    let mut out = Vec::new();
    while let Some(x) = l.next() {
        out.push(x);
    }
    assert_eq!(out, vec![1, 2, 3, 10, 11, 20, 30]);
}

#[test]
fn computation_that_yields_nothing_lets_the_next_one_run() {
    let mut l = Lazy::new();
    l.push_thunk(Batch(vec![], None));
    l.push_thunk(Batch(vec![], Some(Box::new(Batch(vec![], None)))));
    l.push_thunk(Batch(vec![8], None));
    assert_eq!(l.next(), Some(8));
    assert_eq!(l.next(), None);
}

#[test]
fn push_after_end_is_delivered() {
    let mut l = pushed(&[1]);
    assert_eq!(l.next(), Some(1));
    assert_eq!(l.next(), None);
    l.push(2);
    assert_eq!(l.next(), Some(2));
    assert_eq!(l.next(), None);
}

#[test]
fn take_stops_at_the_end() {
    let mut l = pushed(&[4, 5, 6]);
    assert_eq!(l.take(2), vec![4, 5]);
    assert_eq!(l.take(5), vec![6]);
    assert_eq!(l.take(3), Vec::<i32>::new());
}

#[test]
fn take_forces_only_what_it_needs() {
    let calls = Cell::new(0u32);
    let mut l = Lazy::new();
    l.push_map(pushed(&[1, 2, 3, 4]), |x: i32| {
        calls.set(calls.get() + 1);
        x + 100
    });
    assert_eq!(l.take(2), vec![101, 102]);
    assert_eq!(calls.get(), 2);
    assert_eq!(l.take(0), Vec::<i32>::new());
    assert_eq!(calls.get(), 2);
}

#[test]
fn push_map_over_a_mapped_source() {
    let mut inner = Lazy::new();
    inner.push_map(pushed(&[1, 2]), |x: i32| x * 10);
    let mut l = Lazy::new();
    l.push_map(inner, |x: i32| x + 1);
    assert_eq!(l.take(10), vec![11, 21]);
}

fn triple(x: i32) -> i32 {
    x * 3
}

/// Mixed work in one sequence: a lazy map beside a plain value.
enum Work {
    Lazily(Mapped<i32, NoWork, fn(i32) -> i32>),
    Value(i32),
}

impl Deferred<i32> for Work {
    fn force(self) -> Effects<i32, Work> {
        let mut e = Effects::new();
        match self {
            Work::Value(v) => e.push(v),
            Work::Lazily(m) => {
                let (values, more) = m.force().into_parts();
                for v in values {
                    e.push(v);
                }
                for m in more {
                    e.push_thunk(Work::Lazily(m));
                }
            }
        }
        e
    }
}

#[test]
fn lazy_map_beside_other_work() {
    let mut l = Lazy::new();
    l.push(0);
    l.push_thunk(Work::Lazily(Mapped::new(pushed(&[1, 2]), triple as fn(i32) -> i32)));
    l.push_thunk(Work::Value(100));
    assert_eq!(l.take(10), vec![0, 3, 100, 6]);
}

#[test]
fn into_parts_keeps_order() {
    let mut e: Effects<i32, Work> = Effects::new();
    e.push(1);
    e.push_thunk(Work::Value(7));
    e.push(2);
    let (values, more) = e.into_parts();
    assert_eq!(values.into_iter().collect::<Vec<_>>(), vec![1, 2]);
    assert_eq!(more.len(), 1);
}
