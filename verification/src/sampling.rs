//! The numeric rules of warmup and batched sampling.
//!
//! Times are whole nanoseconds read from a monotonic clock. A batch is a run
//! of back-to-back calls whose combined elapsed time, divided by the number of
//! calls, gives one sample.

use vstd::prelude::*;

verus! {

/// Wall-clock budget of the warmup, in nanoseconds: five seconds.
pub const WARMUP_BUDGET_NANOS: u128 = 5_000_000_000;

/// Share of the warmup's calls that one batch repeats: one in a hundred.
pub const WARMUP_CALLS_PER_REPETITION: u32 = 100;

/// Calls per batch after a warmup of `warmup_iters` calls.
pub open spec fn batch_reps(warmup_iters: u32) -> u32 {
    if warmup_iters / WARMUP_CALLS_PER_REPETITION >= 1 {
        warmup_iters / WARMUP_CALLS_PER_REPETITION
    } else {
        1
    }
}

/// Time from `mark` to the reading `now`; a reading that lies before the mark
/// counts as no time at all.
pub open spec fn elapsed_between(mark: u128, now: u128) -> u128 {
    if now >= mark {
        (now - mark) as u128
    } else {
        0
    }
}

/// The sample of a batch of `reps` calls that took `elapsed` in all.
pub open spec fn sample_of(elapsed: u128, reps: u32) -> u128
    recommends
        reps >= 1,
{
    (elapsed / (reps as u128)) as u128
}

/// Calls per batch after a warmup of `warmup_iters` calls: a hundredth of
/// them, rounded down, and never fewer than one.
pub fn batch_iters(warmup_iters: u32) -> (iters: u32)
    ensures
        iters == batch_reps(warmup_iters),
        iters >= 1,
        warmup_iters < 100 ==> iters == 1,
        warmup_iters >= 100 ==> iters as int == warmup_iters as int / 100,
{
    let hundredth: u32 = warmup_iters / WARMUP_CALLS_PER_REPETITION;
    if hundredth >= 1 {
        hundredth
    } else {
        1
    }
}

/// Time from `mark` to the reading `now`, zero where the clock read earlier
/// than the mark.
pub fn elapsed_since(mark: u128, now: u128) -> (elapsed: u128)
    ensures
        elapsed == elapsed_between(mark, now),
        mark + elapsed <= u128::MAX,
{
    if now >= mark {
        now - mark
    } else {
        0
    }
}

/// Average time of one call in a batch of `reps` calls that took `elapsed`,
/// rounded down to a whole nanosecond.
pub fn per_call(elapsed: u128, reps: u32) -> (sample: u128)
    requires
        reps >= 1,
    ensures
        sample == sample_of(elapsed, reps),
        sample * reps <= elapsed < (sample + 1) * reps,
{
    let count: u128 = reps as u128;
    let sample: u128 = elapsed / count;
    proof {
        assert(sample * count <= elapsed < (sample + 1) * count) by (nonlinear_arith)
            requires
                count >= 1,
                sample == elapsed / count,
        ;
    }
    sample
}

/// Whether a warmup that began at `since`, has completed `warmup_iters` calls
/// and now reads `now` on the clock makes another call: it does while the
/// budget is not spent and the count of calls can still grow.
pub open spec fn warmup_continues(since: u128, now: u128, warmup_iters: u32) -> bool {
    elapsed_between(since, now) < WARMUP_BUDGET_NANOS && warmup_iters < u32::MAX
}

/// Decides whether the warmup makes another call.
pub fn keep_warming(since: u128, now: u128, warmup_iters: u32) -> (again: bool)
    ensures
        again == warmup_continues(since, now, warmup_iters),
{
    elapsed_since(since, now) < WARMUP_BUDGET_NANOS && warmup_iters < u32::MAX
}

} // verus!
