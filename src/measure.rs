//! Timing a batch of runs, and seeking a per-operation cost that is stable
//! under re-measurement.
use std::collections::VecDeque;
use std::time::Duration;
use std::time::Instant;
use vstd::prelude::*;

verus! {

/// The first repetition count of a stability seek.
pub const START_REPETITIONS: usize = 10;

/// The time a stability seek may spend on one input size: 10 s.
pub const SINGLE_BUDGET_NS: u64 = 10_000_000_000;

#[verifier::external_type_specification]
#[verifier::external_body]
pub struct ExInstant(std::time::Instant);

/// Relies on `Instant::now`: reads the monotonic clock.
pub assume_specification[ std::time::Instant::now ]() -> std::time::Instant;

/// Relies on `Instant::elapsed`: the time since the instant was taken.
pub assume_specification[ std::time::Instant::elapsed ](i: &std::time::Instant) -> Duration;

/// Relies on `Duration::as_nanos`: the whole duration in nanoseconds.
pub assume_specification[ std::time::Duration::as_nanos ](d: &Duration) -> u128;

/// Relies on `std::hint::black_box`, documented as an identity function that
/// the optimizer must treat as opaque.
pub assume_specification<T>[ std::hint::black_box::<T> ](dummy: T) -> (r: T)
    ensures
        r == dummy,
;

/// The repetition count that follows `n`: `n × 1.5`, rounded up.
pub open spec fn grown_repetitions(n: int) -> int {
    (3 * n + 1) / 2
}

/// A new total `this` agrees with the previous total `last` extrapolated by
/// the growth factor: `|1 − 1.5·last / this| < 5%`, that is
/// `|20·this − 30·last| < this`.
#[verifier::opaque]
pub open spec fn converged(last: int, this: int) -> bool {
    let d = 20 * this - 30 * last;
    (if d < 0 {
        -d
    } else {
        d
    }) < this
}

/// A batch timer that, for every repetition count `k` whose total `c·k`
/// fits in `u64`, reports exactly `c·k` nanoseconds.
pub open spec fn noiseless<T: Fn(usize) -> u64>(timer: T, c: int) -> bool {
    forall|k: usize, t: u64| #[trigger] timer.ensures((k,), t) && c * k <= u64::MAX ==> t == c * k
}

/// A noiseless timer of per-run cost `c > 0` whose first round (10 runs)
/// stays under the budget and whose second (15 runs) fits in `u64`.
#[verifier::opaque]
pub open spec fn quick_to_settle<T: Fn(usize) -> u64>(timer: T, c: int, budget_ns: int) -> bool {
    &&& 0 < c
    &&& 10 * c < budget_ns
    &&& 15 * c <= u64::MAX
    &&& noiseless(timer, c)
}

/// Whether the total `this_run` confirms the previous total `last_run`.
pub fn is_converged(last_run: u64, this_run: u64) -> (r: bool)
    ensures
        r == converged(last_run as int, this_run as int),
{
    reveal(converged);
    let a: u128 = 20 * (this_run as u128);
    let b: u128 = 30 * (last_run as u128);
    let d: u128 = if a >= b {
        a - b
    } else {
        b - a
    };
    d < this_run as u128
}

/// The repetition count after `n`, or `None` where it exceeds `usize`.
pub fn next_repetitions(n: usize) -> (r: Option<usize>)
    ensures
        grown_repetitions(n as int) <= usize::MAX ==> r == Some(
            grown_repetitions(n as int) as usize,
        ),
        grown_repetitions(n as int) > usize::MAX ==> r is None,
{
    let g: u128 = (3 * (n as u128) + 1) / 2;
    if g <= usize::MAX as u128 {
        Some(g as usize)
    } else {
        None
    }
}

/// The repetition count of round `j` of a stability seek: 10, then each
/// count grown by 1.5.
#[verifier::opaque]
pub open spec fn reps(j: nat) -> int
    decreases j,
{
    if j == 0 {
        START_REPETITIONS as int
    } else {
        grown_repetitions(reps((j - 1) as nat))
    }
}

/// The totals `ts` of a stability seek's rounds follow its rule: every round
/// but the last stays under the budget and none but the last confirms its
/// predecessor; the last confirms its predecessor, reaches the budget, or
/// has no next count that fits in `usize`.
pub open spec fn settled_rounds(ts: Seq<u64>, budget_ns: int) -> bool {
    &&& 1 <= ts.len()
    &&& forall|j: int| 0 <= j < ts.len() ==> #[trigger] reps(j as nat) <= usize::MAX
    &&& forall|j: int| 0 <= j < ts.len() - 1 ==> ts[j] < budget_ns
    &&& forall|j: int| 1 <= j < ts.len() - 1 ==> !converged(ts[j - 1] as int, #[trigger] ts[j] as int)
    &&& {
        let m = ts.len() - 1;
        ||| (1 <= m && converged(ts[m - 1] as int, ts[m] as int))
        ||| ts[m] >= budget_ns
        ||| grown_repetitions(reps(m as nat)) > usize::MAX
    }
}

/// Each total `ts[j]` is what `timer` reported for round `j`'s count.
pub open spec fn timed_rounds<T: Fn(usize) -> u64>(timer: T, ts: Seq<u64>) -> bool {
    forall|j: int| 0 <= j < ts.len() ==> timer.ensures((reps(j as nat) as usize,), #[trigger] ts[j])
}

/// The per-operation cost of a seek: the last total over the last count.
pub open spec fn stable_cost(ts: Seq<u64>) -> int {
    ts.last() as int / reps((ts.len() - 1) as nat)
}

/// Seeks a stable per-operation cost. `timer(k)` reports the nanoseconds
/// that `k` runs took. Starting at 10 repetitions and growing the count by
/// 1.5 while the last total stays under `budget_ns`, it returns
/// `total / count` of the first round whose total confirms the previous one;
/// when the budget is spent (or the count no longer fits) it returns the last
/// round's `total / count`.
pub fn bench_stable<T: Fn(usize) -> u64>(timer: &T, budget_ns: u64) -> (r: u64)
    requires
        forall|k: usize| timer.requires((k,)),
    ensures
        exists|ts: Seq<u64>|
            {
                &&& settled_rounds(ts, budget_ns as int)
                &&& timed_rounds(*timer, ts)
                &&& r == stable_cost(ts)
                &&& forall|c: int| quick_to_settle(*timer, c, budget_ns as int) ==> ts.len() == 2
            },
        forall|c: int| quick_to_settle(*timer, c, budget_ns as int) ==> r == c,
{
    let mut n: usize = START_REPETITIONS;
    let mut last_run: u64 = timer(n);
    let ghost mut ts: Seq<u64> = seq![last_run];
    proof {
        lemma_reps_step(1);
    }
    while last_run < budget_ns
        invariant
            forall|k: usize| timer.requires((k,)),
            1 <= ts.len(),
            START_REPETITIONS <= n,
            n as int == reps((ts.len() - 1) as nat),
            timer.ensures((n,), last_run),
            last_run == ts.last(),
            forall|j: int| 0 <= j < ts.len() ==> #[trigger] reps(j as nat) <= usize::MAX,
            timed_rounds(*timer, ts),
            forall|j: int| 0 <= j < ts.len() - 1 ==> ts[j] < budget_ns,
            forall|j: int| 1 <= j < ts.len() ==> !converged(ts[j - 1] as int, #[trigger] ts[j] as int),
            forall|c: int| quick_to_settle(*timer, c, budget_ns as int) ==> ts.len() == 1,
        decreases usize::MAX - n,
    {
        let this_n = match next_repetitions(n) {
            Some(m) => m,
            None => {
                assert forall|c: int| quick_to_settle(*timer, c, budget_ns as int) implies false by {
                    assert(ts.len() == 1);
                    lemma_reps_step(1);
                    assert(n == 10);
                }
                assert(settled_rounds(ts, budget_ns as int));
                assert(forall|c: int| quick_to_settle(*timer, c, budget_ns as int) ==> ts.len() == 2);
                assert(last_run / (n as u64) == stable_cost(ts));
                return last_run / (n as u64);
            },
        };
        let this_run: u64 = timer(this_n);
        let settled = is_converged(last_run, this_run);
        proof {
            let ts2 = ts.push(this_run);
            lemma_reps_step(ts.len() as nat);
            lemma_reps_at_least_start(ts.len() as nat);
            assert forall|j: int| 0 <= j < ts2.len() implies timer.ensures(
                (reps(j as nat) as usize,),
                #[trigger] ts2[j],
            ) by {
                if j < ts.len() {
                    assert(ts2[j] == ts[j]);
                }
            }
            assert forall|c: int| quick_to_settle(*timer, c, budget_ns as int) implies converged(
                last_run as int,
                this_run as int,
            ) && this_run / (this_n as u64) == c by {
                assert(ts.len() == 1);
                lemma_reps_step(1);
                lemma_quick_second_round(*timer, c, budget_ns as int, last_run, this_run);
            }
            ts = ts2;
        }
        if settled {
            assert(settled_rounds(ts, budget_ns as int));
            assert(this_run / (this_n as u64) == stable_cost(ts));
            return this_run / (this_n as u64);
        }
        last_run = this_run;
        n = this_n;
    }
    proof {
        assert forall|c: int| quick_to_settle(*timer, c, budget_ns as int) implies false by {
            assert(ts.len() == 1);
            lemma_reps_step(1);
            lemma_quick_first_round(*timer, c, budget_ns as int, last_run);
        }
        assert(settled_rounds(ts, budget_ns as int));
        assert(last_run / (n as u64) == stable_cost(ts));
    }
    last_run / (n as u64)
}

/// The first repetition count is 10, and each round's count is the
/// previous one grown by 1.5.
pub proof fn lemma_reps_step(j: nat)
    requires
        1 <= j,
    ensures
        reps(0) == 10,
        reps(j) == grown_repetitions(reps((j - 1) as nat)),
{
    reveal(reps);
}

/// Every round runs at least 10 repetitions.
pub proof fn lemma_reps_at_least_start(j: nat)
    ensures
        START_REPETITIONS <= reps(j),
    decreases j,
{
    reveal(reps);
    if j > 0 {
        lemma_reps_at_least_start((j - 1) as nat);
    }
}

/// Round 51 runs more than 10^10 repetitions.
proof fn lemma_round_51_is_long()
    ensures
        reps(51) > 10_000_000_000,
{
    // The counts of rounds 0 to 51, each grown from the one before.
    lemma_reps_step(1);
    assert(reps(0) == 10);
    assert(reps(1) == 15);
    lemma_reps_step(2);
    assert(reps(2) == 23);
    lemma_reps_step(3);
    assert(reps(3) == 35);
    lemma_reps_step(4);
    assert(reps(4) == 53);
    lemma_reps_step(5);
    assert(reps(5) == 80);
    lemma_reps_step(6);
    assert(reps(6) == 120);
    lemma_reps_step(7);
    assert(reps(7) == 180);
    lemma_reps_step(8);
    assert(reps(8) == 270);
    lemma_reps_step(9);
    assert(reps(9) == 405);
    lemma_reps_step(10);
    assert(reps(10) == 608);
    lemma_reps_step(11);
    assert(reps(11) == 912);
    lemma_reps_step(12);
    assert(reps(12) == 1368);
    lemma_reps_step(13);
    assert(reps(13) == 2052);
    lemma_reps_step(14);
    assert(reps(14) == 3078);
    lemma_reps_step(15);
    assert(reps(15) == 4617);
    lemma_reps_step(16);
    assert(reps(16) == 6926);
    lemma_reps_step(17);
    assert(reps(17) == 10389);
    lemma_reps_step(18);
    assert(reps(18) == 15584);
    lemma_reps_step(19);
    assert(reps(19) == 23376);
    lemma_reps_step(20);
    assert(reps(20) == 35064);
    lemma_reps_step(21);
    assert(reps(21) == 52596);
    lemma_reps_step(22);
    assert(reps(22) == 78894);
    lemma_reps_step(23);
    assert(reps(23) == 118341);
    lemma_reps_step(24);
    assert(reps(24) == 177512);
    lemma_reps_step(25);
    assert(reps(25) == 266268);
    lemma_reps_step(26);
    assert(reps(26) == 399402);
    lemma_reps_step(27);
    assert(reps(27) == 599103);
    lemma_reps_step(28);
    assert(reps(28) == 898655);
    lemma_reps_step(29);
    assert(reps(29) == 1347983);
    lemma_reps_step(30);
    assert(reps(30) == 2021975);
    lemma_reps_step(31);
    assert(reps(31) == 3032963);
    lemma_reps_step(32);
    assert(reps(32) == 4549445);
    lemma_reps_step(33);
    assert(reps(33) == 6824168);
    lemma_reps_step(34);
    assert(reps(34) == 10236252);
    lemma_reps_step(35);
    assert(reps(35) == 15354378);
    lemma_reps_step(36);
    assert(reps(36) == 23031567);
    lemma_reps_step(37);
    assert(reps(37) == 34547351);
    lemma_reps_step(38);
    assert(reps(38) == 51821027);
    lemma_reps_step(39);
    assert(reps(39) == 77731541);
    lemma_reps_step(40);
    assert(reps(40) == 116597312);
    lemma_reps_step(41);
    assert(reps(41) == 174895968);
    lemma_reps_step(42);
    assert(reps(42) == 262343952);
    lemma_reps_step(43);
    assert(reps(43) == 393515928);
    lemma_reps_step(44);
    assert(reps(44) == 590273892);
    lemma_reps_step(45);
    assert(reps(45) == 885410838);
    lemma_reps_step(46);
    assert(reps(46) == 1328116257);
    lemma_reps_step(47);
    assert(reps(47) == 1992174386);
    lemma_reps_step(48);
    assert(reps(48) == 2988261579);
    lemma_reps_step(49);
    assert(reps(49) == 4482392369);
    lemma_reps_step(50);
    assert(reps(50) == 6723588554);
    lemma_reps_step(51);
    assert(reps(51) == 10085382831);
}

/// When every run costs at least 1 ns, a seek within the 10 s budget (or
/// any smaller one) runs at most 52 rounds.
pub proof fn lemma_rounds_bounded(ts: Seq<u64>, budget_ns: int)
    requires
        settled_rounds(ts, budget_ns),
        budget_ns <= SINGLE_BUDGET_NS,
        forall|j: int| 0 <= j < ts.len() ==> ts[j] >= #[trigger] reps(j as nat),
    ensures
        ts.len() <= 52,
{
    if ts.len() > 52 {
        let j: int = 51;
        lemma_round_51_is_long();
        assert(ts[j] >= reps(j as nat));
        assert(ts[j] < budget_ns);
    }
}

/// Under a quickly settling timer, the first round's total is `10·c`.
proof fn lemma_quick_first_round<T: Fn(usize) -> u64>(timer: T, c: int, budget_ns: int, t0: u64)
    requires
        quick_to_settle(timer, c, budget_ns),
        timer.ensures((10usize,), t0),
    ensures
        t0 == 10 * c,
        t0 < budget_ns,
{
    reveal(quick_to_settle);
}

/// Under a quickly settling timer, the second round (15 runs) confirms the
/// first, and its total over 15 is `c`.
proof fn lemma_quick_second_round<T: Fn(usize) -> u64>(
    timer: T,
    c: int,
    budget_ns: int,
    t0: u64,
    t1: u64,
)
    requires
        quick_to_settle(timer, c, budget_ns),
        timer.ensures((10usize,), t0),
        timer.ensures((15usize,), t1),
    ensures
        converged(t0 as int, t1 as int),
        t1 / 15 == c,
{
    reveal(quick_to_settle);
    reveal(converged);
    lemma_noiseless_converges_at_once(c, 10);
    assert(t1 == 15 * c);
    assert(grown_repetitions(10) == 15);
    assert(c * 10 == 10 * c && c * 15 == 15 * c);
}

/// With a timer whose total is exactly `c·k` for `k` runs (`c > 0`), the
/// first comparison already confirms, from any starting count of 7 or more.
pub proof fn lemma_noiseless_converges_at_once(c: int, n: int)
    requires
        0 < c,
        7 <= n,
    ensures
        converged(c * n, c * grown_repetitions(n)),
{
    reveal(converged);
    let g = grown_repetitions(n);
    assert(2 * g == 3 * n || 2 * g == 3 * n + 1);
    assert(20 * (c * g) - 30 * (c * n) == 10 * c * (2 * g - 3 * n)) by (nonlinear_arith);
    assert(2 * g - 3 * n == 0 || 2 * g - 3 * n == 1);
    assert(10 * c * (2 * g - 3 * n) < c * g) by (nonlinear_arith)
        requires
            0 < c,
            7 <= n,
            2 * g - 3 * n == 0 || 2 * g - 3 * n == 1,
            2 * g >= 3 * n,
    ;
    assert(0 <= 10 * c * (2 * g - 3 * n)) by (nonlinear_arith)
        requires
            0 < c,
            2 * g - 3 * n == 0 || 2 * g - 3 * n == 1,
    ;
}

/// A nanosecond count narrowed to `u64`, saturating at `u64::MAX`.
pub fn saturate_nanos(ns: u128) -> (r: u64)
    ensures
        r == if ns > u64::MAX as u128 {
            u64::MAX
        } else {
            ns as u64
        },
{
    if ns > u64::MAX as u128 {
        u64::MAX
    } else {
        ns as u64
    }
}

/// The nanoseconds since `start`, saturated to `u64`.
pub(crate) fn nanos_since(start: &Instant) -> u64 {
    let d: Duration = start.elapsed();
    saturate_nanos(d.as_nanos())
}

/// Times `n` runs of `runner`. All `n` inputs are made by `gen` before the
/// clock starts; each result is passed through an opaque identity so that no
/// run can be skipped; inputs and results are dropped only after the clock
/// stops. Returns the elapsed nanoseconds, saturated to `u64`.
pub fn bench<A, B, G: Fn() -> A, R: Fn(A) -> B>(n: usize, gen: &G, runner: &R) -> (r: u64)
    requires
        gen.requires(()),
        forall|a: A| runner.requires((a,)),
    ensures
        exists|ins: Seq<A>, outs: Seq<B>|
            {
                &&& ins.len() == n
                &&& outs.len() == n
                &&& forall|i: int| 0 <= i < n ==> gen.ensures((), #[trigger] ins[i])
                &&& forall|i: int| 0 <= i < n ==> runner.ensures((ins[i],), #[trigger] outs[i])
            },
{
    let mut inputs: VecDeque<A> = VecDeque::with_capacity(n);
    let mut i: usize = 0;
    while i < n
        invariant
            gen.requires(()),
            inputs@.len() == i,
            i <= n,
            forall|j: int| 0 <= j < i ==> gen.ensures((), #[trigger] inputs@[j]),
        decreases n - i,
    {
        inputs.push_back(gen());
        i += 1;
    }
    let ghost ins: Seq<A> = inputs@;
    let mut out: Vec<B> = Vec::with_capacity(n);
    let now = Instant::now();
    while inputs.len() > 0
        invariant
            forall|a: A| runner.requires((a,)),
            ins.len() == n,
            out@.len() <= n,
            inputs@ == ins.subrange(out@.len() as int, n as int),
            forall|j: int| 0 <= j < out@.len() ==> runner.ensures((ins[j],), #[trigger] out@[j]),
        decreases inputs@.len(),
    {
        let ghost k = out@.len();
        match inputs.pop_front() {
            Some(a) => {
                assert(a == ins[k as int]);
                out.push(std::hint::black_box(runner(a)));
            },
            None => {},
        }
    }
    let elapsed = nanos_since(&now);
    assert(out@.len() == n);
    let ghost outs = out@;
    release(out);
    release(inputs);
    elapsed
}

/// Takes ownership of a value so that it is dropped here, at a point the
/// caller chooses.
fn release<T>(_value: T) {
}

} // verus!
