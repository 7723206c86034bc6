//! The adaptive sampler: a forward-only sequence of `(size, cost_ns)` samples
//! at geometrically growing input sizes, ended by a global time budget.
use crate::measure::bench;
use crate::measure::bench_stable;
use crate::measure::lemma_reps_at_least_start;
use crate::measure::nanos_since;
use crate::measure::quick_to_settle;
use crate::measure::reps;
use crate::measure::settled_rounds;
use crate::measure::stable_cost;
use crate::measure::timed_rounds;
use crate::measure::SINGLE_BUDGET_NS;
use std::time::Instant;
use vstd::prelude::*;

verus! {

/// The time the whole sequence may take: 30 s from its creation.
pub const ALGO_BUDGET_NS: u64 = 30_000_000_000;

/// The input size after `n`: `n × 1.1`, rounded up.
pub open spec fn grown_size(n: int) -> int {
    (11 * n + 9) / 10
}

/// The size that follows `n` in the sequence, or `None` where it exceeds `u64`.
pub open spec fn size_after(n: u64) -> Option<u64> {
    if grown_size(n as int) <= u64::MAX {
        Some(grown_size(n as int) as u64)
    } else {
        None
    }
}

/// The input size after `n`, or `None` where it exceeds `u64`.
pub fn next_size(n: u64) -> (r: Option<u64>)
    ensures
        r == size_after(n),
{
    let g: u128 = (11 * (n as u128) + 9) / 10;
    if g <= u64::MAX as u128 {
        Some(g as u64)
    } else {
        None
    }
}

/// Sizes grow strictly: every size of 1 or more is followed by a larger one.
pub proof fn lemma_sizes_increase(n: u64)
    requires
        1 <= n,
    ensures
        size_after(n) matches Some(m) ==> n < m,
{
}

/// The size of the sample that is due: the upcoming size while less than
/// `budget_ns` has passed, and none once the budget is spent.
pub fn sample_due(upcoming: Option<u64>, elapsed_ns: u64, budget_ns: u64) -> (r: Option<u64>)
    ensures
        r == (if elapsed_ns < budget_ns {
            upcoming
        } else {
            None
        }),
{
    if elapsed_ns < budget_ns {
        upcoming
    } else {
        None
    }
}

/// A batch of `k` runs at input size `size`: `k` inputs made by
/// `gen(size)`, and `runner` applied to each of them.
pub open spec fn batch_of<A, B, G: Fn(u64) -> A, R: Fn(A) -> B>(
    gen: G,
    size: u64,
    runner: R,
    k: int,
) -> bool {
    exists|ins: Seq<A>, outs: Seq<B>|
        {
            &&& ins.len() == k
            &&& outs.len() == k
            &&& forall|i: int| 0 <= i < k ==> gen.ensures((size,), #[trigger] ins[i])
            &&& forall|i: int| 0 <= i < k ==> runner.ensures((ins[i],), #[trigger] outs[i])
        }
}

/// The cost `c` is the outcome of a stability seek at input size `size`
/// within `budget_ns`: some totals `ts` follow the seek's rule, each measured
/// on a batch of its round's count, and `c` is the last total over the last
/// count.
pub open spec fn sampled_cost<A, B, G: Fn(u64) -> A, R: Fn(A) -> B>(
    gen: G,
    runner: R,
    size: u64,
    budget_ns: int,
    c: u64,
) -> bool {
    exists|ts: Seq<u64>|
        {
            &&& settled_rounds(ts, budget_ns)
            &&& forall|j: int| 0 <= j < ts.len() ==> #[trigger] batch_of(gen, size, runner, reps(j as nat))
            &&& c == stable_cost(ts)
        }
}

/// A single-use sequence of samples of `runner` on inputs made by `gen`.
pub struct Sampler<G, R> {
    gen: G,
    runner: R,
    start: Instant,
    size: Option<u64>,
    budget_ns: u64,
    single_budget_ns: u64,
}

impl<G, R> Sampler<G, R> {
    /// The input size of the next sample, or `None` once the sequence ended.
    pub closed spec fn upcoming(&self) -> Option<u64> {
        self.size
    }

    /// The input generator.
    pub closed spec fn generator(&self) -> G {
        self.gen
    }

    /// The operation under test.
    pub closed spec fn operation(&self) -> R {
        self.runner
    }

    /// The time the whole sequence may take.
    pub closed spec fn budget(&self) -> u64 {
        self.budget_ns
    }

    /// The time each size may spend on seeking stability.
    pub closed spec fn single_budget(&self) -> u64 {
        self.single_budget_ns
    }

    /// Takes the next sample: while the sequence's budget is not spent, the
    /// stabilised cost of one run at the upcoming size, after which the size
    /// grows by 1.1 (rounded up). Once the budget is spent the sequence ends
    /// and stays ended.
    pub fn next<A, B>(&mut self) -> (r: Option<(u64, u64)>) where G: Fn(u64) -> A, R: Fn(A) -> B
        requires
            forall|x: u64| old(self).generator().requires((x,)),
            forall|a: A| old(self).operation().requires((a,)),
        ensures
            final(self).generator() == old(self).generator(),
            final(self).operation() == old(self).operation(),
            final(self).budget() == old(self).budget(),
            final(self).single_budget() == old(self).single_budget(),
            old(self).upcoming() is None ==> r is None,
            match r {
                Some((n, c)) => {
                    &&& old(self).upcoming() == Some(n)
                    &&& final(self).upcoming() == size_after(n)
                    &&& sampled_cost(
                        old(self).generator(),
                        old(self).operation(),
                        n,
                        old(self).single_budget() as int,
                        c,
                    )
                },
                None => final(self).upcoming() is None,
            },
    {
        if self.size.is_none() {
            return None;
        }
        let n = match sample_due(self.size, nanos_since(&self.start), self.budget_ns) {
            Some(n) => n,
            None => {
                self.size = None;
                return None;
            },
        };
        let gen = &self.gen;
        let runner = &self.runner;
        let make = || -> (a: A)
            requires
                gen.requires((n,)),
            ensures
                gen.ensures((n,), a),
            { gen(n) };
        let timer = |k: usize| -> (t: u64)
            requires
                make.requires(()),
                forall|a: A| runner.requires((a,)),
            ensures
                batch_of(*gen, n, *runner, k as int),
            {
                let t = bench(k, &make, runner);
                proof {
                    let (ins, outs) = choose|ins: Seq<A>, outs: Seq<B>|
                        {
                            &&& ins.len() == k
                            &&& outs.len() == k
                            &&& forall|i: int| 0 <= i < k ==> make.ensures((), #[trigger] ins[i])
                            &&& forall|i: int|
                                0 <= i < k ==> runner.ensures((ins[i],), #[trigger] outs[i])
                        };
                    assert forall|i: int| 0 <= i < k implies gen.ensures((n,), #[trigger] ins[i]) by {
                        assert(make.ensures((), ins[i]));
                    }
                }
                t
            };
        assert(old(self).generator().requires((n,)));
        assert forall|a: A| runner.requires((a,)) by {
            assert(old(self).operation().requires((a,)));
        }
        let cost = bench_stable(&timer, self.single_budget_ns);
        proof {
            let ts = choose|ts: Seq<u64>|
                {
                    &&& settled_rounds(ts, self.single_budget_ns as int)
                    &&& timed_rounds(timer, ts)
                    &&& cost == stable_cost(ts)
                    &&& forall|c: int|
                        quick_to_settle(timer, c, self.single_budget_ns as int)
                            ==> ts.len() == 2
                };
            assert forall|j: int| 0 <= j < ts.len() implies #[trigger] batch_of(
                self.gen,
                n,
                self.runner,
                reps(j as nat),
            ) by {
                assert(reps(j as nat) <= usize::MAX);
                lemma_reps_at_least_start(j as nat);
                let k = reps(j as nat) as usize;
                assert(k as int == reps(j as nat));
                assert(timer.ensures((k,), ts[j]));
                assert(batch_of(*gen, n, *runner, k as int));
            }
        }
        self.size = next_size(n);
        Some((n, cost))
    }
}

/// Starts a sample sequence at size 1, with a 30 s budget for the whole
/// sequence and 10 s for each size.
pub fn bench_algo<A, B, G: Fn(u64) -> A, R: Fn(A) -> B>(gen: G, runner: R) -> (r: Sampler<G, R>)
    ensures
        r.upcoming() == Some(1u64),
        r.generator() == gen,
        r.operation() == runner,
        r.budget() == ALGO_BUDGET_NS,
        r.single_budget() == SINGLE_BUDGET_NS,
{
    bench_algo_within(gen, runner, ALGO_BUDGET_NS, SINGLE_BUDGET_NS)
}

/// Starts a sample sequence at size 1 whose samples are taken while less than
/// `budget_ns` has passed since this call, each size spending at most
/// `single_budget_ns` on seeking stability.
pub fn bench_algo_within<A, B, G: Fn(u64) -> A, R: Fn(A) -> B>(
    gen: G,
    runner: R,
    budget_ns: u64,
    single_budget_ns: u64,
) -> (r: Sampler<G, R>)
    ensures
        r.upcoming() == Some(1u64),
        r.generator() == gen,
        r.operation() == runner,
        r.budget() == budget_ns,
        r.single_budget() == single_budget_ns,
{
    Sampler { gen, runner, start: Instant::now(), size: Some(1), budget_ns, single_budget_ns }
}

} // verus!
