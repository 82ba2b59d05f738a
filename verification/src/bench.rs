//! Benchmark runs and the summary of their latencies.

use vstd::prelude::*;

use crate::runner::DeviceError;

verus! {

/// What to do next in a benchmark.
#[derive(Debug)]
pub enum BenchStep {
    /// Run an inference before the timed ones; holds its number, from zero.
    WarmUp(usize),
    /// Run an inference and take its time; holds its number, from zero.
    Timed(usize),
    /// The benchmark is over, with these times.
    Done(Vec<u128>),
    /// An inference failed.
    Failed(DeviceError),
}

/// Mathematical view of [`BenchStep`].
pub enum BenchStepView {
    WarmUp(usize),
    Timed(usize),
    Done(Seq<u128>),
    Failed(DeviceError),
}

impl View for BenchStep {
    type V = BenchStepView;

    open spec fn view(&self) -> BenchStepView {
        match *self {
            BenchStep::WarmUp(i) => BenchStepView::WarmUp(i),
            BenchStep::Timed(i) => BenchStepView::Timed(i),
            BenchStep::Done(times) => BenchStepView::Done(times@),
            BenchStep::Failed(e) => BenchStepView::Failed(e),
        }
    }
}

/// A benchmark: some inferences without and then some with taking their time.
pub struct Bench {
    warmup: usize,
    reps: usize,
    warmed: usize,
    times: Vec<u128>,
    over: bool,
}

/// Mathematical view of [`Bench`].
pub struct BenchView {
    /// How many inferences come before the timed ones.
    pub warmup: usize,
    /// How many inferences are timed.
    pub reps: usize,
    /// How many untimed inferences were run.
    pub warmed: usize,
    /// The times so far, in nanoseconds.
    pub times: Seq<u128>,
    /// Whether the benchmark has ended.
    pub over: bool,
}

impl View for Bench {
    type V = BenchView;

    closed spec fn view(&self) -> BenchView {
        BenchView {
            warmup: self.warmup,
            reps: self.reps,
            warmed: self.warmed,
            times: self.times@,
            over: self.over,
        }
    }
}

impl BenchView {
    /// An inference is under way.
    pub open spec fn running(self) -> bool {
        !self.over && (self.warmed < self.warmup || self.times.len() < self.reps)
    }
}

/// The next inference of a benchmark, or its end.
pub open spec fn bench_go(v: BenchView) -> (BenchView, BenchStepView) {
    if v.warmed < v.warmup {
        (v, BenchStepView::WarmUp(v.warmed))
    } else if v.times.len() < v.reps {
        (v, BenchStepView::Timed(v.times.len() as usize))
    } else {
        (BenchView { over: true, ..v }, BenchStepView::Done(v.times))
    }
}

/// How a benchmark begins.
pub open spec fn bench_start(warmup: usize, reps: usize) -> (BenchView, BenchStepView) {
    bench_go(BenchView { warmup, reps, warmed: 0, times: Seq::empty(), over: false })
}

/// What a benchmark does with the time of its last inference in nanoseconds, or
/// with its error, which ends the benchmark.
pub open spec fn bench_next(v: BenchView, outcome: Result<u128, DeviceError>) -> (
    BenchView,
    BenchStepView,
) {
    match outcome {
        Ok(time) => if v.warmed < v.warmup {
            bench_go(BenchView { warmed: (v.warmed + 1) as usize, ..v })
        } else {
            bench_go(BenchView { times: v.times.push(time), ..v })
        },
        Err(e) => (BenchView { over: true, ..v }, BenchStepView::Failed(e)),
    }
}

/// Begins a benchmark of `warmup` untimed and then `reps` timed inferences.
pub fn bench_model(warmup: usize, reps: usize) -> (r: (Bench, BenchStep))
    ensures
        (r.0@, r.1@) == bench_start(warmup, reps),
{
    let mut bench = Bench { warmup, reps, warmed: 0, times: Vec::new(), over: false };
    assert(bench@.times =~= Seq::empty());
    let step: BenchStep = bench.go();
    (bench, step)
}

impl Bench {
    fn go(&mut self) -> (r: BenchStep)
        ensures
            (final(self)@, r@) == bench_go(old(self)@),
    {
        if self.warmed < self.warmup {
            BenchStep::WarmUp(self.warmed)
        } else if self.times.len() < self.reps {
            BenchStep::Timed(self.times.len())
        } else {
            self.over = true;
            let times: Vec<u128> = self.times.clone();
            assert(times@ =~= self.times@);
            BenchStep::Done(times)
        }
    }

    /// Takes the time of the last inference in nanoseconds, or its error, and
    /// tells what to do next.
    pub fn next(&mut self, outcome: Result<u128, DeviceError>) -> (r: BenchStep)
        requires
            old(self)@.running(),
        ensures
            (final(self)@, r@) == bench_next(old(self)@, outcome),
    {
        match outcome {
            Ok(time) => {
                if self.warmed < self.warmup {
                    self.warmed = self.warmed + 1;
                } else {
                    self.times.push(time);
                }
                self.go()
            },
            Err(e) => {
                self.over = true;
                BenchStep::Failed(e)
            },
        }
    }
}

/// The state of a benchmark and its last step after some inferences that took
/// these times.
pub open spec fn bench_run(warmup: usize, reps: usize, times: Seq<u128>) -> (
    BenchView,
    BenchStepView,
)
    decreases times.len(),
{
    if times.len() == 0 {
        bench_start(warmup, reps)
    } else {
        bench_next(bench_run(warmup, reps, times.drop_last()).0, Ok(times.last()))
    }
}

/// A benchmark runs `warmup` untimed and then `reps` timed inferences, in that
/// order, and is done exactly then, with the times of the timed ones.
pub proof fn law_bench_counts(warmup: usize, reps: usize, times: Seq<u128>)
    requires
        times.len() <= warmup + reps,
    ensures
        ({
            let (v, step) = bench_run(warmup, reps, times);
            let n = times.len();
            &&& v.running() <==> n < warmup + reps
            &&& step == if n < warmup {
                BenchStepView::WarmUp(n as usize)
            } else if n < warmup + reps {
                BenchStepView::Timed((n - warmup) as usize)
            } else {
                BenchStepView::Done(times.skip(warmup as int))
            }
        }),
{
    lemma_bench_run(warmup, reps, times);
}

/// The first inference that fails ends a benchmark with its error, and nothing
/// more is run.
pub proof fn law_bench_stops_at_an_error(
    warmup: usize,
    reps: usize,
    times: Seq<u128>,
    e: DeviceError,
)
    ensures
        ({
            let (v, step) = bench_next(bench_run(warmup, reps, times).0, Err(e));
            !v.running() && step == BenchStepView::Failed(e)
        }),
{
}

proof fn lemma_bench_run(warmup: usize, reps: usize, times: Seq<u128>)
    requires
        times.len() <= warmup + reps,
    ensures
        bench_run(warmup, reps, times) == bench_go(
            BenchView {
                warmup,
                reps,
                warmed: if times.len() < warmup {
                    times.len() as usize
                } else {
                    warmup
                },
                times: if times.len() < warmup {
                    Seq::empty()
                } else {
                    times.skip(warmup as int)
                },
                over: false,
            },
        ),
    decreases times.len(),
{
    if times.len() == 0 {
        assert(times.skip(0) =~= Seq::empty());
    } else {
        let before = times.drop_last();
        lemma_bench_run(warmup, reps, before);
        if times.len() == warmup {
            assert(times.skip(warmup as int) =~= Seq::empty());
        } else if times.len() > warmup {
            assert(times.skip(warmup as int) =~= before.skip(warmup as int).push(times.last()));
        }
    }
}

/// Shortest, average and longest of some latencies, in nanoseconds.
#[derive(Debug, Clone, Copy, PartialEq, Eq, Structural)]
pub struct Latency {
    pub min: u128,
    pub avg: u128,
    pub max: u128,
}

/// The sum of some latencies.
pub open spec fn sum_of(times: Seq<u128>) -> nat
    decreases times.len(),
{
    if times.len() == 0 {
        0
    } else {
        sum_of(times.drop_last()) + times.last() as nat
    }
}

proof fn lemma_sum_of_prefix(times: Seq<u128>, n: int)
    requires
        0 <= n <= times.len(),
    ensures
        sum_of(times.take(n)) <= sum_of(times),
    decreases times.len() - n,
{
    if n == times.len() {
        assert(times.take(n) =~= times);
    } else {
        assert(times.take(n + 1).drop_last() =~= times.take(n));
        lemma_sum_of_prefix(times, n + 1);
    }
}

/// Sums up some latencies in nanoseconds. The average is rounded down.
pub fn latency(times: &[u128]) -> (r: Latency)
    requires
        times@.len() > 0,
        sum_of(times@) <= u128::MAX,
    ensures
        times@.contains(r.min),
        times@.contains(r.max),
        forall|i: int| 0 <= i < times@.len() ==> r.min <= #[trigger] times@[i] <= r.max,
        r.avg == sum_of(times@) / times@.len(),
{
    let mut min: u128 = times[0];
    let mut max: u128 = times[0];
    let mut sum: u128 = 0;
    let mut i: usize = 0;
    assert(times@.take(0) =~= Seq::empty());
    while i < times.len()
        invariant
            0 < times@.len(),
            i <= times@.len(),
            sum_of(times@) <= u128::MAX,
            times@.contains(min),
            times@.contains(max),
            min <= max,
            forall|k: int| 0 <= k < i ==> min <= #[trigger] times@[k] <= max,
            sum == sum_of(times@.take(i as int)),
        decreases times@.len() - i,
    {
        let t: u128 = times[i];
        assert(times@.contains(t));
        proof {
            assert(times@.take(i + 1).drop_last() =~= times@.take(i as int));
            lemma_sum_of_prefix(times@, i + 1);
        }
        if t < min {
            min = t;
        }
        if t > max {
            max = t;
        }
        sum = sum + t;
        i = i + 1;
    }
    assert(times@.take(i as int) =~= times@);
    let n: u128 = times.len() as u128;
    Latency { min, avg: sum / n, max }
}

/// The average lies between the shortest and the longest latency.
pub proof fn law_average_is_between(times: Seq<u128>, min: u128, max: u128)
    requires
        times.len() > 0,
        forall|i: int| 0 <= i < times.len() ==> min <= #[trigger] times[i] <= max,
    ensures
        min <= sum_of(times) / times.len() <= max,
{
    lemma_sum_is_between(times, min, max);
    let n = times.len() as int;
    let sum = sum_of(times) as int;
    assert(min <= sum / n <= max) by (nonlinear_arith)
        requires
            n > 0,
            min * n <= sum <= max * n,
    ;
}

proof fn lemma_sum_is_between(times: Seq<u128>, min: u128, max: u128)
    requires
        forall|i: int| 0 <= i < times.len() ==> min <= #[trigger] times[i] <= max,
    ensures
        min * times.len() <= sum_of(times) <= max * times.len(),
    decreases times.len(),
{
    if times.len() > 0 {
        let before = times.drop_last();
        assert forall|i: int| 0 <= i < before.len() implies min <= #[trigger] before[i]
            <= max by {
            assert(before[i] == times[i]);
        }
        lemma_sum_is_between(before, min, max);
        assert(min * times.len() == min * before.len() + min) by (nonlinear_arith)
            requires
                times.len() == before.len() + 1,
        ;
        assert(max * times.len() == max * before.len() + max) by (nonlinear_arith)
            requires
                times.len() == before.len() + 1,
        ;
    }
}

/// The sums of two lists of latencies add up, and that of a single latency is
/// the latency.
pub proof fn law_sums_add_up(a: Seq<u128>, b: Seq<u128>, t: u128)
    ensures
        sum_of(a + b) == sum_of(a) + sum_of(b),
        sum_of(seq![t]) == t,
        sum_of(Seq::empty()) == 0,
    decreases b.len(),
{
    assert(seq![t].drop_last() =~= Seq::empty());
    assert(sum_of(seq![t].drop_last()) == 0);
    if b.len() == 0 {
        assert(a + b =~= a);
    } else {
        law_sums_add_up(a, b.drop_last(), t);
        assert((a + b).drop_last() =~= a + b.drop_last());
    }
}

/// The view of a step keeps its kind and what it holds.
pub proof fn law_bench_step_view(step: BenchStep)
    ensures
        match step {
            BenchStep::WarmUp(i) => step@ == BenchStepView::WarmUp(i),
            BenchStep::Timed(i) => step@ == BenchStepView::Timed(i),
            BenchStep::Done(times) => step@ == BenchStepView::Done(times@),
            BenchStep::Failed(e) => step@ == BenchStepView::Failed(e),
        },
{
}

/// A benchmark is under way exactly while it has not ended and an inference is
/// missing. The last time and any error end it.
pub proof fn law_bench_ends(v: BenchView, e: DeviceError)
    ensures
        v.running() <==> !v.over && !(v.warmed >= v.warmup && v.times.len() >= v.reps),
        bench_next(v, Err(e)).0 == (BenchView { over: true, ..v }),
        v.warmed >= v.warmup && v.times.len() >= v.reps ==> bench_go(v) == (
            BenchView { over: true, ..v },
            BenchStepView::Done(v.times),
        ),
{
}

} // verus!
