use complexity_bench::sampler::bench_algo_within;
use complexity_bench::sampler::next_size;
use complexity_bench::sampler::sample_due;
use std::cell::Cell;

#[test]
fn sizes_grow_by_a_tenth_rounded_up() {
    assert_eq!(next_size(1), Some(2));
    assert_eq!(next_size(10), Some(11));
    assert_eq!(next_size(11), Some(13));
    assert_eq!(next_size(100), Some(110));
    assert_eq!(next_size(101), Some(112));
}

#[test]
fn sizes_that_overflow_end() {
    assert_eq!(next_size(u64::MAX), None);
}

#[test]
fn spent_budget_ends_the_sequence() {
    let mut s = bench_algo_within(|n: u64| n, |a: u64| a + 1, 0, 1_000_000);
    assert_eq!(s.next(), None);
    assert_eq!(s.next(), None);
}

#[test]
fn samples_start_at_one_and_grow() {
    let mut s = bench_algo_within(|n: u64| n, |a: u64| a + 1, 60_000_000_000, 1_000_000);
    let mut sizes = Vec::new();
    for _ in 0..5 {
        match s.next() {
            Some((n, _cost)) => sizes.push(n),
            None => break,
        }
    }
    assert_eq!(sizes, vec![1, 2, 3, 4, 5]);
}

#[test]
fn sample_is_due_while_budget_lasts() {
    assert_eq!(sample_due(Some(7), 0, 100), Some(7));
    assert_eq!(sample_due(Some(7), 99, 100), Some(7));
    assert_eq!(sample_due(Some(7), 100, 100), None);
    assert_eq!(sample_due(Some(7), 500, 100), None);
    assert_eq!(sample_due(None, 0, 100), None);
}

#[test]
fn ended_sequence_runs_nothing() {
    let made = Cell::new(0u32);
    let gen = |n: u64| {
        made.set(made.get() + 1);
        n
    };
    let mut s = bench_algo_within(gen, |a: u64| a + 1, 0, 1_000_000);
    assert_eq!(s.next(), None);
    assert_eq!(s.next(), None);
    assert_eq!(made.get(), 0);
}

#[test]
fn sample_generates_inputs_of_its_size() {
    let max_seen = Cell::new(0u64);
    let gen = |n: u64| {
        if n > max_seen.get() {
            max_seen.set(n);
        }
        n
    };
    let mut s = bench_algo_within(gen, |a: u64| a + 1, 60_000_000_000, 1_000_000);
    assert!(matches!(s.next(), Some((1, _))));
    assert_eq!(max_seen.get(), 1);
    assert!(matches!(s.next(), Some((2, _))));
    assert_eq!(max_seen.get(), 2);
}
