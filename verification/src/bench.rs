//! Adaptive benchmark core.
//!
//! A benchmark run measures a callable repeatedly until its running average
//! stabilizes. The measuring itself (invoking the callable and reading a
//! wall clock) is host work; this module holds the verified decision logic:
//! how a sample folds into the running average, when a pass counts as
//! converged, and how a whole two-pass run consumes a stream of samples.
//!
//! The average is an exponentially-weighted moving average with a fixed 0.5
//! decay, not an arithmetic mean, and a pass stabilizes when the latest
//! sample deviates from the average by at most five parts per million of
//! the sample. A run makes two passes: the first only warms the callable up
//! (breaking any just-in-time bias) and is discarded, the second is
//! reported. All durations are nanoseconds.

use vstd::prelude::*;

verus! {

pub open spec fn spec_abs(x: int) -> int {
    if x >= 0 {
        x
    } else {
        -x
    }
}

/// The running average after folding in one more sample: the mean of the
/// old average and the sample.
pub open spec fn spec_ewma(avg: int, time: int) -> int {
    (avg + time) / 2
}

/// The convergence threshold: the sample lies within five parts per
/// million of the running average.
pub open spec fn spec_stable(avg: int, time: int) -> bool {
    spec_abs(time - avg) * 1000000 <= 5 * time
}

/// Replaying one pass over a sample stream from a starting average:
/// the final average, how many samples were consumed, and whether the pass
/// stabilized before the stream ran out. Each sample is folded in first;
/// the pass ends at the first sample that agrees with the updated average.
pub open spec fn spec_pass(samples: Seq<u64>, avg: int) -> (int, int, bool)
    decreases samples.len(),
{
    if samples.len() == 0 {
        (avg, 0, false)
    } else {
        let t = samples[0] as int;
        let next = spec_ewma(avg, t);
        if spec_stable(next, t) {
            (next, 1, true)
        } else {
            let rest = spec_pass(samples.skip(1), next);
            (rest.0, 1 + rest.1, rest.2)
        }
    }
}

/// A whole run: one warm-up pass whose average is discarded, then the
/// reported pass over the remaining samples. A run that fails to stabilize
/// within its stream reports its best-effort average, flagged as not
/// converged.
pub open spec fn spec_bench(samples: Seq<u64>) -> (int, int, bool) {
    let warmup = spec_pass(samples, 0);
    if warmup.2 {
        let kept = spec_pass(samples.skip(warmup.1), 0);
        (kept.0, warmup.1 + kept.1, kept.2)
    } else {
        (warmup.0, warmup.1, false)
    }
}

/// Outcome of a benchmark run over a sample stream.
pub struct BenchOutcome {
    /// The stabilized average, in nanoseconds.
    pub avg_ns: u64,
    /// How many samples the two passes consumed together.
    pub samples_used: usize,
    /// Whether the reported pass stabilized before the stream ran out.
    pub converged: bool,
}

/// One measurement step: folds the sample into the running average and
/// reports whether the pass has stabilized at it. The host's measuring
/// loop drives this until it reports stability.
pub fn bench_step(avg: u64, time: u64) -> (r: (u64, bool))
    ensures
        r.0 == spec_ewma(avg as int, time as int),
        r.1 == spec_stable(r.0 as int, time as int),
{
    let wide = (avg as u128 + time as u128) / 2;
    proof {
        assert(wide <= u64::MAX as u128);
    }
    let next = wide as u64;
    let d: u128 = if time >= next {
        (time - next) as u128
    } else {
        (next - time) as u128
    };
    let done = d * 1000000 <= 5 * (time as u128);
    (next, done)
}

/// Replays one convergence pass over `samples` from index `start` with a
/// fresh average, exactly as [`spec_pass`] describes.
pub fn replay_pass(samples: &Vec<u64>, start: usize) -> (r: (u64, usize, bool))
    requires
        start <= samples@.len(),
    ensures
        ({
            let sp = spec_pass(samples@.skip(start as int), 0);
            &&& r.0 == sp.0
            &&& r.1 == sp.1
            &&& r.2 == sp.2
            &&& start + r.1 <= samples@.len()
        }),
{
    let ghost s0 = samples@.skip(start as int);
    let mut avg: u64 = 0;
    let mut i: usize = start;
    let mut converged = false;
    while i < samples.len() && !converged
        invariant
            start <= i <= samples@.len(),
            !converged ==> ({
                let rest = spec_pass(samples@.skip(i as int), avg as int);
                spec_pass(s0, 0) == (rest.0, i - start + rest.1, rest.2)
            }),
            converged ==> spec_pass(s0, 0) == (avg as int, (i - start) as int, true),
            s0 == samples@.skip(start as int),
        decreases samples@.len() - i,
    {
        let t = samples[i];
        let ghost cur = samples@.skip(i as int);
        let step = bench_step(avg, t);
        proof {
            assert(cur[0] == samples@[i as int]);
            assert(cur.skip(1) =~= samples@.skip(i as int + 1));
        }
        avg = step.0;
        if step.1 {
            converged = true;
        }
        i = i + 1;
    }
    proof {
        if !converged {
            assert(samples@.skip(i as int) =~= Seq::<u64>::empty());
        }
    }
    (avg, i - start, converged)
}

/// Replays a whole two-pass benchmark run over `samples`, exactly as
/// [`spec_bench`] describes: the warm-up pass is discarded and the second
/// pass's average is reported.
pub fn bench_replay(samples: &Vec<u64>) -> (r: BenchOutcome)
    ensures
        ({
            let sb = spec_bench(samples@);
            &&& r.avg_ns == sb.0
            &&& r.samples_used == sb.1
            &&& r.converged == sb.2
        }),
{
    proof {
        assert(samples@.skip(0) =~= samples@);
    }
    let warmup = replay_pass(samples, 0);
    if !warmup.2 {
        return BenchOutcome { avg_ns: warmup.0, samples_used: warmup.1, converged: false };
    }
    let kept = replay_pass(samples, warmup.1);
    let n = samples.len();
    proof {
        assert(warmup.1 + kept.1 <= n);
    }
    BenchOutcome { avg_ns: kept.0, samples_used: warmup.1 + kept.1, converged: kept.2 }
}

} // verus!
