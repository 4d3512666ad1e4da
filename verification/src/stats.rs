//! Order statistics over the batch samples of one run.
//!
//! A run records exactly [`BATCHES`] samples, each a whole number of
//! nanoseconds. The statistics are defined over the ascending arrangement of
//! those samples: the median is the single sample at [`MEDIAN_INDEX`], never
//! an average of two neighbours.

use vstd::prelude::*;
use vstd::relations::*;
use vstd::seq_lib::*;

verus! {

/// Number of batches, and so of samples, in one run.
pub const BATCHES: usize = 100;

/// Position of the median in the ascending arrangement of the samples.
pub const MEDIAN_INDEX: usize = 50;

/// The four figures reported for a run, in nanoseconds.
#[derive(Clone, Copy, Debug, PartialEq, Eq, Structural)]
pub struct Statistics {
    pub median: u128,
    pub average: u128,
    pub min: u128,
    pub max: u128,
}

/// The order by which samples are arranged.
pub open spec fn at_most() -> spec_fn(u128, u128) -> bool {
    |a: u128, b: u128| a <= b
}

/// `s` never decreases from one position to the next.
pub open spec fn ascending(s: Seq<u128>) -> bool {
    forall|i: int, j: int| 0 <= i <= j < s.len() ==> s[i] <= s[j]
}

/// The ascending arrangement of `s`.
pub open spec fn arranged(s: Seq<u128>) -> Seq<u128> {
    s.sort_by(at_most())
}

/// The sum of all samples in `s`.
pub open spec fn total(s: Seq<u128>) -> int
    decreases s.len(),
{
    if s.len() == 0 {
        0
    } else {
        total(s.drop_last()) + s.last() as int
    }
}

/// The statistics of a full set of samples.
pub open spec fn statistics_of(s: Seq<u128>) -> Statistics {
    Statistics {
        median: arranged(s)[MEDIAN_INDEX as int],
        average: (total(s) / (BATCHES as int)) as u128,
        min: arranged(s)[0],
        max: arranged(s)[BATCHES - 1],
    }
}

/// The order on samples is a total order.
pub proof fn lemma_at_most_is_total()
    ensures
        total_ordering(at_most()),
{
}

/// The ascending arrangement of `s` is ascending, holds each sample exactly
/// as often as `s` does, and has the length of `s`.
pub proof fn lemma_arranged(s: Seq<u128>)
    ensures
        ascending(arranged(s)),
        arranged(s).to_multiset() == s.to_multiset(),
        arranged(s).len() == s.len(),
{
    lemma_at_most_is_total();
    s.lemma_sort_by_ensures(at_most());
    let r = arranged(s);
    assert(sorted_by(r, at_most()));
    assert forall|i: int, j: int| 0 <= i <= j < r.len() implies r[i] <= r[j] by {
        if i < j {
            assert(at_most()(r[i], r[j]));
        }
    }
    to_multiset_len(r);
    to_multiset_len(s);
}

/// An ascending sequence with the same samples as `s` is the ascending
/// arrangement of `s`: there is only one.
pub proof fn lemma_arranged_unique(r: Seq<u128>, s: Seq<u128>)
    requires
        ascending(r),
        r.to_multiset() == s.to_multiset(),
    ensures
        r == arranged(s),
{
    lemma_at_most_is_total();
    lemma_arranged(s);
    let a = arranged(s);
    assert(sorted_by(r, at_most())) by {
        assert forall|i: int, j: int| 0 <= i < j < r.len() implies #[trigger] at_most()(
            r[i],
            r[j],
        ) by {
            assert(r[i] <= r[j]);
        }
    }
    assert(sorted_by(a, at_most())) by {
        assert forall|i: int, j: int| 0 <= i < j < a.len() implies #[trigger] at_most()(
            a[i],
            a[j],
        ) by {
            assert(a[i] <= a[j]);
        }
    }
    lemma_sorted_unique(r, a, at_most());
}

/// The ascending arrangement of `s` holds the values that `s` holds, and no
/// others.
pub proof fn lemma_arranged_same_samples(s: Seq<u128>)
    ensures
        forall|v: u128| s.contains(v) <==> arranged(s).contains(v),
{
    lemma_arranged(s);
    assert forall|v: u128| s.contains(v) <==> arranged(s).contains(v) by {
        to_multiset_contains(s, v);
        to_multiset_contains(arranged(s), v);
    }
}

/// Exchanging two samples changes neither which samples there are nor how
/// often each occurs.
pub proof fn lemma_exchange_keeps_samples(s: Seq<u128>, i: int, j: int)
    requires
        0 <= i < s.len(),
        0 <= j < s.len(),
    ensures
        s.update(i, s[j]).update(j, s[i]).to_multiset() == s.to_multiset(),
{
    broadcast use vstd::multiset::group_multiset_axioms;

    let mid = s.update(i, s[j]);
    to_multiset_update(s, i, s[j]);
    to_multiset_update(mid, j, s[i]);
    to_multiset_contains(s, s[i]);
    to_multiset_contains(s, s[j]);
    assert(s.contains(s[i]));
    assert(s.contains(s[j]));
    assert(mid[j] == s[j]);
    assert(mid.update(j, s[i]).to_multiset() =~= s.to_multiset());
}

/// The sum of `s` lies between its length times a lower bound of its samples
/// and its length times an upper bound of them.
pub proof fn lemma_total_bounds(s: Seq<u128>, lo: int, hi: int)
    requires
        forall|i: int| 0 <= i < s.len() ==> lo <= #[trigger] s[i] <= hi,
    ensures
        s.len() * lo <= total(s) <= s.len() * hi,
    decreases s.len(),
{
    if s.len() > 0 {
        let front = s.drop_last();
        assert forall|i: int| 0 <= i < front.len() implies lo <= #[trigger] front[i] <= hi by {
            assert(front[i] == s[i]);
        }
        lemma_total_bounds(front, lo, hi);
        assert(s.len() * lo == front.len() * lo + lo) by (nonlinear_arith)
            requires
                s.len() == front.len() + 1,
        ;
        assert(s.len() * hi == front.len() * hi + hi) by (nonlinear_arith)
            requires
                s.len() == front.len() + 1,
        ;
    }
}

/// Sum of the first `n + 1` samples: the sum of the first `n`, and one more.
pub proof fn lemma_total_step(s: Seq<u128>, n: int)
    requires
        0 <= n < s.len(),
    ensures
        total(s.take(n + 1)) == total(s.take(n)) + s[n],
{
    assert(s.take(n + 1).drop_last() =~= s.take(n));
}

/// Arranges the samples in ascending order.
pub fn sort_samples(samples: [u128; 100]) -> (out: [u128; 100])
    ensures
        out@ == arranged(samples@),
        ascending(out@),
        out@.to_multiset() == samples@.to_multiset(),
{
    let mut a: [u128; 100] = samples;
    let mut i: usize = 1;
    while i < 100
        invariant
            1 <= i <= 100,
            a@.len() == 100,
            a@.to_multiset() == samples@.to_multiset(),
            forall|p: int, q: int| 0 <= p <= q < i ==> a@[p] <= a@[q],
        decreases 100 - i,
    {
        let mut j: usize = i;
        while j > 0 && a[j - 1] > a[j]
            invariant
                j <= i < 100,
                a@.len() == 100,
                a@.to_multiset() == samples@.to_multiset(),
                forall|p: int, q: int| 0 <= p <= q <= i && p != j && q != j ==> a@[p] <= a@[q],
                forall|q: int| j < q <= i ==> a@[j as int] <= a@[q],
            decreases j,
        {
            let ghost before = a@;
            let low: u128 = a[j - 1];
            let high: u128 = a[j];
            a[j] = low;
            a[j - 1] = high;
            proof {
                lemma_exchange_keeps_samples(before, j as int, j - 1);
                assert(a@ =~= before.update(j as int, low).update(j - 1, high));
            }
            j -= 1;
        }
        i += 1;
    }
    proof {
        assert(ascending(a@));
        lemma_arranged_unique(a@, samples@);
    }
    a
}

/// The sum of the samples divided by their number, rounded down.
pub fn mean(samples: &[u128; 100]) -> (average: u128)
    ensures
        average as int == total(samples@) / 100,
{
    let mut quotients: u128 = 0;
    let mut remainders: u128 = 0;
    let mut i: usize = 0;
    while i < 100
        invariant
            i <= 100,
            samples@.len() == 100,
            quotients * 100 + remainders == total(samples@.take(i as int)),
            remainders <= 99 * i,
            quotients <= i * (u128::MAX / 100),
        decreases 100 - i,
    {
        proof {
            lemma_total_step(samples@, i as int);
        }
        let sample: u128 = samples[i];
        quotients = quotients + sample / 100;
        remainders = remainders + sample % 100;
        i += 1;
    }
    proof {
        assert(samples@.take(100) =~= samples@);
        lemma_total_bounds(samples@, 0, u128::MAX as int);
    }
    quotients + remainders / 100
}

/// Median, average, minimum and maximum of the samples of one run.
pub fn summarize(samples: &[u128; 100]) -> (stats: Statistics)
    ensures
        stats == statistics_of(samples@),
{
    let sorted: [u128; 100] = sort_samples(*samples);
    Statistics {
        median: sorted[MEDIAN_INDEX],
        average: mean(samples),
        min: sorted[0],
        max: sorted[BATCHES - 1],
    }
}

/// The minimum is no larger than the median, and the median no larger than
/// the maximum.
pub proof fn lemma_min_median_max(s: Seq<u128>)
    requires
        s.len() == BATCHES,
    ensures
        statistics_of(s).min <= statistics_of(s).median <= statistics_of(s).max,
{
    lemma_arranged(s);
}

/// The minimum is the smallest sample and the maximum the largest.
pub proof fn lemma_min_max_bound_samples(s: Seq<u128>)
    requires
        s.len() == BATCHES,
    ensures
        forall|i: int|
            0 <= i < s.len() ==> statistics_of(s).min <= #[trigger] s[i] <= statistics_of(s).max,
        s.contains(statistics_of(s).min),
        s.contains(statistics_of(s).max),
{
    lemma_arranged(s);
    lemma_arranged_same_samples(s);
    let r = arranged(s);
    assert forall|i: int| 0 <= i < s.len() implies statistics_of(s).min <= #[trigger] s[i]
        <= statistics_of(s).max by {
        assert(s.contains(s[i]));
        assert(r.contains(s[i]));
        let k = choose|k: int| 0 <= k < r.len() && r[k] == s[i];
        assert(r[0] <= r[k] <= r[BATCHES - 1]);
    }
    assert(r.contains(r[0]));
    assert(r.contains(r[BATCHES - 1]));
}

/// The average is the arithmetic mean of the samples, rounded down to a
/// whole nanosecond.
pub proof fn lemma_average_is_mean(s: Seq<u128>)
    requires
        s.len() == BATCHES,
    ensures
        statistics_of(s).average * 100 <= total(s) < (statistics_of(s).average + 1) * 100,
{
    lemma_total_bounds(s, 0, u128::MAX as int);
}

/// The average lies between the minimum and the maximum.
pub proof fn lemma_average_between_min_max(s: Seq<u128>)
    requires
        s.len() == BATCHES,
    ensures
        statistics_of(s).min <= statistics_of(s).average <= statistics_of(s).max,
{
    lemma_min_max_bound_samples(s);
    lemma_total_bounds(s, statistics_of(s).min as int, statistics_of(s).max as int);
}

/// Where every sample has the same value, each of the four figures is that
/// value.
pub proof fn lemma_constant_samples(s: Seq<u128>, c: u128)
    requires
        s.len() == BATCHES,
        forall|i: int| 0 <= i < s.len() ==> s[i] == c,
    ensures
        statistics_of(s) == (Statistics { median: c, average: c, min: c, max: c }),
{
    lemma_arranged(s);
    lemma_arranged_same_samples(s);
    lemma_total_bounds(s, c as int, c as int);
    let r = arranged(s);
    assert forall|k: int| 0 <= k < r.len() implies #[trigger] r[k] == c by {
        assert(r.contains(r[k]));
        assert(s.contains(r[k]));
        let i = choose|i: int| 0 <= i < s.len() && s[i] == r[k];
        assert(s[i] == c);
    }
    assert(r[MEDIAN_INDEX as int] == c);
    assert(r[0] == c);
    assert(r[BATCHES - 1] == c);
}

} // verus!
