//! Streaming statistics of a run: counts, extremes, exact percentiles and
//! one window of statistics per second.

use vstd::prelude::*;
use std::collections::BTreeMap;
use crate::engine::bucket_map::{
    lemma_listed_place, lemma_one_listing, lemma_recorded_listing, list_buckets, lists,
    put_stats, recorded_in_map, stats_at,
};
use std::time::Instant;
use uuid::Uuid;
use crate::outside::{monotonic_elapsed, monotonic_now, wall_clock_millis};
use crate::results::TestSummary;
use vstd::relations::{sorted_by, total_ordering};
use vstd::seq_lib::lemma_sorted_unique;

verus! {

/// Statistics of the requests that finished within one second of the run.
#[derive(Debug, Clone, Copy, PartialEq, Eq, Structural)]
pub struct BucketStats {
    pub requests: u64,
    pub errors: u64,
    pub sum_ms: u64,
    pub min_ms: u64,
    pub max_ms: u64,
}

/// The order of response times.
pub open spec fn le_u64() -> spec_fn(u64, u64) -> bool {
    |a: u64, b: u64| a <= b
}

/// The samples in ascending order.
pub open spec fn ascending(samples: Seq<u64>) -> Seq<u64> {
    samples.sort_by(le_u64())
}

/// The place, in the ascending samples, of the `p`-th percentile by the
/// nearest-rank method: `ceil(p / 100 * n) - 1`, held within `0 ..= n - 1`.
pub open spec fn nearest_rank_index(p: nat, n: nat) -> int
    recommends
        n > 0,
{
    let rank = (p * n + 99) / 100;
    if rank < 1 {
        0
    } else if rank > n {
        n - 1
    } else {
        rank - 1
    }
}

/// The `p`-th percentile of the samples: 0 where there is none.
pub open spec fn percentile_of(samples: Seq<u64>, p: nat) -> u64 {
    if samples.len() == 0 {
        0
    } else {
        ascending(samples)[nearest_rank_index(p, samples.len())]
    }
}

/// Computes `nearest_rank_index` for `n` samples.
pub fn rank_index(p: u64, n: usize) -> (idx: usize)
    requires
        n > 0,
    ensures
        idx == nearest_rank_index(p as nat, n as nat),
        idx < n,
{
    assert((p as u128) * (n as u128) <= 0xffff_ffff_ffff_ffff * 0xffff_ffff_ffff_ffff)
        by (nonlinear_arith)
        requires
            p <= 0xffff_ffff_ffff_ffff,
            n <= 0xffff_ffff_ffff_ffff,
    ;
    let wide: u128 = (p as u128) * (n as u128);
    let rank: u128 = (wide + 99) / 100;
    if rank < 1 {
        0
    } else if rank > n as u128 {
        n - 1
    } else {
        (rank - 1) as usize
    }
}


/// The sum of the samples.
pub open spec fn sum_of(samples: Seq<u64>) -> nat
    decreases samples.len(),
{
    if samples.len() == 0 {
        0
    } else {
        sum_of(samples.drop_last()) + samples.last() as nat
    }
}

/// The least sample; `u64::MAX` where there is none.
pub open spec fn min_of(samples: Seq<u64>) -> u64
    decreases samples.len(),
{
    if samples.len() == 0 {
        u64::MAX
    } else if samples.last() < min_of(samples.drop_last()) {
        samples.last()
    } else {
        min_of(samples.drop_last())
    }
}

/// The greatest sample; 0 where there is none.
pub open spec fn max_of(samples: Seq<u64>) -> u64
    decreases samples.len(),
{
    if samples.len() == 0 {
        0
    } else if samples.last() > max_of(samples.drop_last()) {
        samples.last()
    } else {
        max_of(samples.drop_last())
    }
}

/// Every sample lies between `min_of` and `max_of`.
pub proof fn lemma_extremes_bound(samples: Seq<u64>, i: int)
    requires
        0 <= i < samples.len(),
    ensures
        min_of(samples) <= samples[i] <= max_of(samples),
    decreases samples.len(),
{
    if i < samples.len() - 1 {
        lemma_extremes_bound(samples.drop_last(), i);
    }
}

/// With `n` samples whose sum is `sum_of`, the mean lies between the extremes:
/// `min * n <= sum <= max * n`.
pub proof fn lemma_mean_between_extremes(samples: Seq<u64>)
    ensures
        samples.len() > 0 ==> min_of(samples) * samples.len() <= sum_of(samples),
        sum_of(samples) <= max_of(samples) * samples.len(),
    decreases samples.len(),
{
    if samples.len() > 0 {
        let init = samples.drop_last();
        let n = init.len() as int;
        let last = samples.last() as int;
        lemma_mean_between_extremes(init);
        let lo = min_of(samples) as int;
        let hi = max_of(samples) as int;
        let lo0 = min_of(init) as int;
        let hi0 = max_of(init) as int;
        assert(hi0 * n <= hi * n) by (nonlinear_arith)
            requires
                hi0 <= hi,
                n >= 0,
        ;
        assert(hi * (n + 1) == hi * n + hi) by (nonlinear_arith);
        assert(lo * (n + 1) == lo * n + lo) by (nonlinear_arith);
        if n > 0 {
            assert(lo * n <= lo0 * n) by (nonlinear_arith)
                requires
                    lo <= lo0,
                    n >= 0,
            ;
        } else {
            assert(lo * n == 0) by (nonlinear_arith)
                requires
                    n == 0,
            ;
        }
    }
}


/// `<=` on response times is a total order.
pub proof fn lemma_le_total()
    ensures
        total_ordering(le_u64()),
{
}

/// The ascending samples are the samples, reordered, and are in order.
pub proof fn lemma_ascending(samples: Seq<u64>)
    ensures
        ascending(samples).to_multiset() =~= samples.to_multiset(),
        ascending(samples).len() == samples.len(),
        sorted_by(ascending(samples), le_u64()),
        forall|i: int|
            0 <= i < samples.len() ==> min_of(samples) <= #[trigger] ascending(samples)[i]
                <= max_of(samples),
{
    lemma_le_total();
    samples.lemma_sort_by_ensures(le_u64());
    let sorted = ascending(samples);
    sorted.to_multiset_ensures();
    samples.to_multiset_ensures();
    assert forall|i: int| 0 <= i < samples.len() implies min_of(samples) <= #[trigger] sorted[i]
        <= max_of(samples) by {
        assert(sorted.contains(sorted[i]));
        assert(samples.to_multiset().count(sorted[i]) > 0);
        assert(samples.contains(sorted[i]));
        let j = choose|j: int| 0 <= j < samples.len() && samples[j] == sorted[i];
        lemma_extremes_bound(samples, j);
    }
}

/// The nearest-rank index does not fall as the percentile grows, and stays
/// within the samples.
pub proof fn lemma_rank_monotone(p: nat, q: nat, n: nat)
    requires
        p <= q,
        n > 0,
    ensures
        0 <= nearest_rank_index(p, n) <= nearest_rank_index(q, n) < n,
{
    assert(p * n <= q * n) by (nonlinear_arith)
        requires
            p <= q,
    ;
}

/// Percentiles are ordered as their ranks are, and lie between the least and
/// the greatest sample: `min <= p-th <= q-th <= max` for `p <= q`.
pub proof fn lemma_percentiles_ordered(samples: Seq<u64>, p: nat, q: nat)
    requires
        samples.len() > 0,
        p <= q,
    ensures
        min_of(samples) <= percentile_of(samples, p),
        percentile_of(samples, p) <= percentile_of(samples, q),
        percentile_of(samples, q) <= max_of(samples),
{
    lemma_ascending(samples);
    lemma_rank_monotone(p, q, samples.len());
    let sorted = ascending(samples);
    let i = nearest_rank_index(p, samples.len());
    let j = nearest_rank_index(q, samples.len());
    assert(le_u64()(sorted[i], sorted[j]));
}

/// Samples that differ only in their order of arrival have the same
/// percentiles.
pub proof fn lemma_percentile_ignores_order(first: Seq<u64>, second: Seq<u64>, p: nat)
    requires
        first.to_multiset() == second.to_multiset(),
    ensures
        percentile_of(first, p) == percentile_of(second, p),
{
    lemma_le_total();
    lemma_ascending(first);
    lemma_ascending(second);
    first.to_multiset_ensures();
    second.to_multiset_ensures();
    assert(first.len() == second.len());
    lemma_sorted_unique(ascending(first), ascending(second), le_u64());
}


/// One second of the run, counted from its start, with its statistics.
#[derive(Debug, Clone, Copy, PartialEq, Eq, Structural)]
pub struct TimeBucket {
    pub second: u64,
    pub stats: BucketStats,
}

/// A bucket that has seen no request yet.
pub open spec fn empty_stats() -> BucketStats {
    BucketStats { requests: 0, errors: 0, sum_ms: 0, min_ms: u64::MAX, max_ms: 0 }
}

/// The statistics of a bucket after one more request.
pub open spec fn absorbed(stats: BucketStats, elapsed_ms: u64, success: bool) -> BucketStats {
    BucketStats {
        requests: (stats.requests + 1) as u64,
        errors: if success {
            stats.errors
        } else {
            (stats.errors + 1) as u64
        },
        sum_ms: (stats.sum_ms + elapsed_ms) as u64,
        min_ms: if elapsed_ms < stats.min_ms {
            elapsed_ms
        } else {
            stats.min_ms
        },
        max_ms: if elapsed_ms > stats.max_ms {
            elapsed_ms
        } else {
            stats.max_ms
        },
    }
}

/// The buckets stand in strictly ascending order of their second.
pub open spec fn seconds_ascend(buckets: Seq<TimeBucket>) -> bool {
    forall|i: int, j: int| 0 <= i < j < buckets.len() ==> buckets[i].second < buckets[j].second
}

/// The buckets after a request that finished in second `second`: the bucket
/// of that second absorbs it, and is created in its place where it is new.
pub open spec fn recorded_into(
    buckets: Seq<TimeBucket>,
    second: u64,
    elapsed_ms: u64,
    success: bool,
) -> Seq<TimeBucket>
    decreases buckets.len(),
{
    let fresh = TimeBucket { second, stats: absorbed(empty_stats(), elapsed_ms, success) };
    if buckets.len() == 0 {
        seq![fresh]
    } else if buckets.last().second < second {
        buckets.push(fresh)
    } else if buckets.last().second == second {
        buckets.drop_last().push(
            TimeBucket { second, stats: absorbed(buckets.last().stats, elapsed_ms, success) },
        )
    } else {
        recorded_into(buckets.drop_last(), second, elapsed_ms, success).push(buckets.last())
    }
}

/// The requests counted by all buckets together.
pub open spec fn requests_in(buckets: Seq<TimeBucket>) -> nat
    decreases buckets.len(),
{
    if buckets.len() == 0 {
        0
    } else {
        requests_in(buckets.drop_last()) + buckets.last().stats.requests as nat
    }
}

/// The failed requests counted by all buckets together.
pub open spec fn errors_in(buckets: Seq<TimeBucket>) -> nat
    decreases buckets.len(),
{
    if buckets.len() == 0 {
        0
    } else {
        errors_in(buckets.drop_last()) + buckets.last().stats.errors as nat
    }
}

/// The response times summed over all buckets.
pub open spec fn sum_ms_in(buckets: Seq<TimeBucket>) -> nat
    decreases buckets.len(),
{
    if buckets.len() == 0 {
        0
    } else {
        sum_ms_in(buckets.drop_last()) + buckets.last().stats.sum_ms as nat
    }
}

/// A bucket that has seen a request is sound: it counts at least one
/// request and no more errors than requests, and its mean response time
/// lies between its least and its greatest: `min * n <= sum <= max * n`.
pub open spec fn bucket_sound(stats: BucketStats) -> bool {
    &&& stats.requests >= 1
    &&& stats.errors <= stats.requests
    &&& stats.min_ms * stats.requests <= stats.sum_ms
    &&& stats.sum_ms <= stats.max_ms * stats.requests
}

/// Every bucket is sound.
pub open spec fn buckets_sound(buckets: Seq<TimeBucket>) -> bool {
    forall|i: int| 0 <= i < buckets.len() ==> bucket_sound((#[trigger] buckets[i]).stats)
}

/// A bucket that absorbs a request is sound afterwards, whether it was new
/// or sound before.
pub proof fn lemma_absorbed_sound(stats: BucketStats, elapsed_ms: u64, success: bool)
    requires
        stats == empty_stats() || bucket_sound(stats),
        stats.requests < u64::MAX,
        stats.sum_ms + elapsed_ms <= u64::MAX,
    ensures
        bucket_sound(absorbed(stats, elapsed_ms, success)),
{
    let after = absorbed(stats, elapsed_ms, success);
    let n = stats.requests as int;
    let lo = after.min_ms as int;
    let hi = after.max_ms as int;
    if stats == empty_stats() {
        assert(lo * 1 == lo) by (nonlinear_arith);
        assert(hi * 1 == hi) by (nonlinear_arith);
    } else {
        let lo0 = stats.min_ms as int;
        let hi0 = stats.max_ms as int;
        assert(lo * (n + 1) == lo * n + lo) by (nonlinear_arith);
        assert(hi * (n + 1) == hi * n + hi) by (nonlinear_arith);
        assert(lo * n <= lo0 * n) by (nonlinear_arith)
            requires
                lo <= lo0,
                n >= 0,
        ;
        assert(hi0 * n <= hi * n) by (nonlinear_arith)
            requires
                hi0 <= hi,
                n >= 0,
        ;
    }
}

/// No bucket counts more than all buckets together.
pub proof fn lemma_bucket_within_totals(buckets: Seq<TimeBucket>, i: int)
    requires
        0 <= i < buckets.len(),
    ensures
        buckets[i].stats.requests <= requests_in(buckets),
        buckets[i].stats.errors <= errors_in(buckets),
        buckets[i].stats.sum_ms <= sum_ms_in(buckets),
    decreases buckets.len(),
{
    if i < buckets.len() - 1 {
        lemma_bucket_within_totals(buckets.drop_last(), i);
    }
}

/// Recording one request adds one request, its time and, where it failed, one
/// error to the buckets' totals, and keeps the buckets in order.
pub proof fn lemma_recorded_totals(
    buckets: Seq<TimeBucket>,
    second: u64,
    elapsed_ms: u64,
    success: bool,
)
    requires
        seconds_ascend(buckets),
        requests_in(buckets) < u64::MAX,
        sum_ms_in(buckets) + elapsed_ms <= u64::MAX,
        errors_in(buckets) < u64::MAX,
    ensures
        seconds_ascend(recorded_into(buckets, second, elapsed_ms, success)),
        requests_in(recorded_into(buckets, second, elapsed_ms, success)) == requests_in(buckets)
            + 1,
        errors_in(recorded_into(buckets, second, elapsed_ms, success)) == errors_in(buckets) + (
        if success {
            0nat
        } else {
            1nat
        }),
        sum_ms_in(recorded_into(buckets, second, elapsed_ms, success)) == sum_ms_in(buckets)
            + elapsed_ms,
{
    lemma_recorded_seconds(buckets, second, elapsed_ms, success);
}

/// Recording one request keeps every bucket sound.
pub proof fn lemma_recorded_sound(
    buckets: Seq<TimeBucket>,
    second: u64,
    elapsed_ms: u64,
    success: bool,
)
    requires
        buckets_sound(buckets),
        requests_in(buckets) < u64::MAX,
        sum_ms_in(buckets) + elapsed_ms <= u64::MAX,
    ensures
        buckets_sound(recorded_into(buckets, second, elapsed_ms, success)),
    decreases buckets.len(),
{
    let after = recorded_into(buckets, second, elapsed_ms, success);
    lemma_absorbed_sound(empty_stats(), elapsed_ms, success);
    if buckets.len() == 0 {
    } else if buckets.last().second < second {
        assert forall|i: int| 0 <= i < after.len() implies bucket_sound(
            (#[trigger] after[i]).stats,
        ) by {
            if i < buckets.len() {
                assert(after[i] == buckets[i]);
            }
        }
    } else if buckets.last().second == second {
        lemma_bucket_within_totals(buckets, buckets.len() - 1);
        assert(bucket_sound(buckets[buckets.len() - 1].stats));
        lemma_absorbed_sound(buckets.last().stats, elapsed_ms, success);
        assert forall|i: int| 0 <= i < after.len() implies bucket_sound(
            (#[trigger] after[i]).stats,
        ) by {
            if i < buckets.len() - 1 {
                assert(after[i] == buckets[i]);
            }
        }
    } else {
        let init = buckets.drop_last();
        assert(buckets_sound(init)) by {
            assert forall|i: int| 0 <= i < init.len() implies bucket_sound(
                (#[trigger] init[i]).stats,
            ) by {
                assert(init[i] == buckets[i]);
            }
        }
        lemma_recorded_sound(init, second, elapsed_ms, success);
        let inner = recorded_into(init, second, elapsed_ms, success);
        assert forall|i: int| 0 <= i < after.len() implies bucket_sound(
            (#[trigger] after[i]).stats,
        ) by {
            if i < inner.len() {
                assert(after[i] == inner[i]);
            } else {
                assert(after[i] == buckets[buckets.len() - 1]);
            }
        }
    }
}

/// As `lemma_recorded_totals`; and every second among the buckets afterwards
/// is the recorded one or was among them before.
proof fn lemma_recorded_seconds(
    buckets: Seq<TimeBucket>,
    second: u64,
    elapsed_ms: u64,
    success: bool,
)
    requires
        seconds_ascend(buckets),
        requests_in(buckets) < u64::MAX,
        sum_ms_in(buckets) + elapsed_ms <= u64::MAX,
        errors_in(buckets) < u64::MAX,
    ensures
        seconds_ascend(recorded_into(buckets, second, elapsed_ms, success)),
        requests_in(recorded_into(buckets, second, elapsed_ms, success)) == requests_in(buckets)
            + 1,
        errors_in(recorded_into(buckets, second, elapsed_ms, success)) == errors_in(buckets) + (
        if success {
            0nat
        } else {
            1nat
        }),
        sum_ms_in(recorded_into(buckets, second, elapsed_ms, success)) == sum_ms_in(buckets)
            + elapsed_ms,
        recorded_into(buckets, second, elapsed_ms, success).len() >= buckets.len(),
        forall|i: int|
            0 <= i < recorded_into(buckets, second, elapsed_ms, success).len() ==> (
            #[trigger] recorded_into(buckets, second, elapsed_ms, success)[i]).second == second
                || exists|j: int|
                0 <= j < buckets.len() && buckets[j].second == recorded_into(
                    buckets,
                    second,
                    elapsed_ms,
                    success,
                )[i].second,
    decreases buckets.len(),
{
    let after = recorded_into(buckets, second, elapsed_ms, success);
    let fresh = TimeBucket { second, stats: absorbed(empty_stats(), elapsed_ms, success) };
    if buckets.len() == 0 {
        assert(after.drop_last() =~= buckets);
    } else if buckets.last().second < second {
        assert(after.drop_last() =~= buckets);
        assert forall|i: int| 0 <= i < after.len() implies (#[trigger] after[i]).second == second
            || exists|j: int| 0 <= j < buckets.len() && buckets[j].second == after[i].second by {
            if i < buckets.len() {
                assert(buckets[i].second == after[i].second);
            }
        }
    } else if buckets.last().second == second {
        let init = buckets.drop_last();
        lemma_bucket_within_totals(buckets, buckets.len() - 1);
        assert(after.drop_last() =~= init);
        assert forall|i: int| 0 <= i < after.len() implies (#[trigger] after[i]).second == second
            || exists|j: int| 0 <= j < buckets.len() && buckets[j].second == after[i].second by {
            if i < init.len() {
                assert(buckets[i].second == after[i].second);
            }
        }
    } else {
        let init = buckets.drop_last();
        assert(seconds_ascend(init));
        lemma_recorded_seconds(init, second, elapsed_ms, success);
        let inner = recorded_into(init, second, elapsed_ms, success);
        assert(after.drop_last() =~= inner);
        assert forall|i: int| 0 <= i < after.len() implies (#[trigger] after[i]).second == second
            || exists|j: int| 0 <= j < buckets.len() && buckets[j].second == after[i].second by {
            if i < inner.len() {
                if inner[i].second != second {
                    let j = choose|j: int|
                        0 <= j < init.len() && init[j].second == inner[i].second;
                    assert(buckets[j].second == after[i].second);
                }
            } else {
                assert(buckets[buckets.len() - 1].second == after[i].second);
            }
        }
        assert forall|i: int, j: int| 0 <= i < j < after.len() implies after[i].second
            < after[j].second by {
            if j == after.len() - 1 {
                if inner[i].second != second {
                    let k = choose|k: int|
                        0 <= k < init.len() && init[k].second == inner[i].second;
                    assert(buckets[k].second < buckets[buckets.len() - 1].second);
                }
            } else {
                assert(inner[i].second < inner[j].second);
            }
        }
    }
}


/// Where the buckets are in order and `pos` is the place of the first bucket
/// that is not before `second`, recording changes the bucket at `pos` or
/// puts a new one there.
pub proof fn lemma_recorded_at_position(
    buckets: Seq<TimeBucket>,
    pos: int,
    second: u64,
    elapsed_ms: u64,
    success: bool,
)
    requires
        seconds_ascend(buckets),
        0 <= pos <= buckets.len(),
        forall|j: int| 0 <= j < pos ==> (#[trigger] buckets[j]).second < second,
        forall|j: int| pos <= j < buckets.len() ==> (#[trigger] buckets[j]).second >= second,
    ensures
        recorded_into(buckets, second, elapsed_ms, success) == (if pos < buckets.len()
            && buckets[pos].second == second {
            buckets.update(
                pos,
                TimeBucket { second, stats: absorbed(buckets[pos].stats, elapsed_ms, success) },
            )
        } else {
            buckets.insert(
                pos,
                TimeBucket { second, stats: absorbed(empty_stats(), elapsed_ms, success) },
            )
        }),
    decreases buckets.len(),
{
    let after = recorded_into(buckets, second, elapsed_ms, success);
    let fresh = TimeBucket { second, stats: absorbed(empty_stats(), elapsed_ms, success) };
    let n = buckets.len() as int;
    if n == 0 {
        assert(after =~= buckets.insert(pos, fresh));
    } else if buckets.last().second < second {
        assert(pos == n) by {
            if pos < n {
                assert(buckets[n - 1].second >= second);
            }
        }
        assert(after =~= buckets.insert(pos, fresh));
    } else if buckets.last().second == second {
        assert(pos == n - 1) by {
            if pos == n {
                assert(buckets[n - 1].second < second);
            }
            if pos < n - 1 {
                assert(buckets[pos].second >= second);
                assert(buckets[pos].second < buckets[n - 1].second);
            }
        }
        assert(after =~= buckets.update(
            pos,
            TimeBucket { second, stats: absorbed(buckets[pos].stats, elapsed_ms, success) },
        ));
    } else {
        let init = buckets.drop_last();
        assert(pos <= n - 1) by {
            if pos == n {
                assert(buckets[n - 1].second < second);
            }
        }
        assert(seconds_ascend(init));
        assert forall|j: int| 0 <= j < pos implies (#[trigger] init[j]).second < second by {
            assert(buckets[j].second < second);
        }
        assert forall|j: int| pos <= j < init.len() implies (#[trigger] init[j]).second
            >= second by {
            assert(buckets[j].second >= second);
        }
        lemma_recorded_at_position(init, pos, second, elapsed_ms, success);
        if pos < n && buckets[pos].second == second {
            assert(pos < n - 1);
            assert(after =~= buckets.update(
                pos,
                TimeBucket { second, stats: absorbed(buckets[pos].stats, elapsed_ms, success) },
            ));
        } else {
            assert(after =~= buckets.insert(pos, fresh));
        }
    }
}

/// `<[u64]>::sort_unstable`: afterwards the vector holds what it held, in
/// ascending order.
#[verifier::external_body]
fn sort_ascending(samples: &mut Vec<u64>)
    ensures
        sorted_by(final(samples)@, le_u64()),
        final(samples)@.to_multiset() == old(samples)@.to_multiset(),
{
    samples.sort_unstable();
}


/// What a progress report reads of the statistics at one moment. The mean
/// response time is `sum_ms / total_requests`; the throughput is
/// `total_requests` over `elapsed_ms`.
#[derive(Debug, Clone, Copy, PartialEq, Eq, Structural)]
pub struct AggregatorSnapshot {
    pub total_requests: u64,
    pub total_errors: u64,
    pub total_successes: u64,
    pub min_ms: u64,
    pub max_ms: u64,
    pub sum_ms: u64,
    pub p50_ms: u64,
    pub p95_ms: u64,
    pub p99_ms: u64,
    pub total_bytes: u64,
    pub elapsed_ms: u64,
}

/// One second of the run as a chart shows it. The mean response time of the
/// second is `sum_ms / requests`.
#[derive(Debug, Clone, Copy, PartialEq, Eq, Structural)]
pub struct TimeBucketEntry {
    pub second: u64,
    pub requests: u64,
    pub errors: u64,
    pub sum_ms: u64,
    pub min_ms: u64,
    pub max_ms: u64,
}

/// The least response time as it is shown: 0 where nothing was recorded.
pub open spec fn shown_min(min_ms: u64) -> u64 {
    if min_ms == u64::MAX {
        0
    } else {
        min_ms
    }
}

/// The figures stand in order: least, median, 95th and 99th percentile,
/// greatest.
pub open spec fn figures_ordered(min_ms: u64, p50: u64, p95: u64, p99: u64, max_ms: u64) -> bool {
    min_ms <= p50 <= p95 <= p99 <= max_ms
}

/// The least response time as it is shown and the percentiles of recorded
/// samples stand in order up to the greatest response time.
pub proof fn lemma_figures_ordered(samples: Seq<u64>)
    requires
        samples.len() > 0,
    ensures
        figures_ordered(
            shown_min(min_of(samples)),
            percentile_of(samples, 50),
            percentile_of(samples, 95),
            percentile_of(samples, 99),
            max_of(samples),
        ),
{
    lemma_percentiles_ordered(samples, 50, 95);
    lemma_percentiles_ordered(samples, 95, 99);
}

/// A bucket as a chart shows it.
pub open spec fn entry_of(bucket: TimeBucket) -> TimeBucketEntry {
    TimeBucketEntry {
        second: bucket.second,
        requests: bucket.stats.requests,
        errors: bucket.stats.errors,
        sum_ms: bucket.stats.sum_ms,
        min_ms: shown_min(bucket.stats.min_ms),
        max_ms: bucket.stats.max_ms,
    }
}

/// An entry of a chart is sound: it counts at least one request and no
/// more errors than requests, and its mean response time lies between its
/// least and its greatest: `min * n <= sum <= max * n`.
pub open spec fn entry_sound(entry: TimeBucketEntry) -> bool {
    &&& entry.requests >= 1
    &&& entry.errors <= entry.requests
    &&& entry.min_ms * entry.requests <= entry.sum_ms
    &&& entry.sum_ms <= entry.max_ms * entry.requests
}

/// The entries stand in strictly ascending order of their second.
pub open spec fn entries_ascend(series: Seq<TimeBucketEntry>) -> bool {
    forall|i: int, j: int| 0 <= i < j < series.len() ==> series[i].second < series[j].second
}

/// A sound bucket is shown as a sound entry.
pub proof fn lemma_entry_sound(bucket: TimeBucket)
    requires
        bucket_sound(bucket.stats),
    ensures
        entry_sound(entry_of(bucket)),
{
    let entry = entry_of(bucket);
    if entry.min_ms != bucket.stats.min_ms {
        assert(entry.min_ms * entry.requests == 0) by (nonlinear_arith)
            requires
                entry.min_ms == 0,
        ;
    }
}

/// The statistics of a run while it goes on.
pub struct StreamingAggregator {
    total_requests: u64,
    total_errors: u64,
    response_times: Vec<u64>,
    min_ms: u64,
    max_ms: u64,
    sum_ms: u64,
    total_bytes: u64,
    start_time: Instant,
    started_at_ms: i64,
    time_buckets: BTreeMap<u64, BucketStats>,
    listing: Ghost<Seq<TimeBucket>>,
}

impl StreamingAggregator {
    /// The response times in their order of arrival.
    pub closed spec fn samples(&self) -> Seq<u64> {
        self.response_times@
    }

    /// The number of failed requests.
    pub closed spec fn errors(&self) -> nat {
        self.total_errors as nat
    }

    /// The bytes received.
    pub closed spec fn bytes(&self) -> nat {
        self.total_bytes as nat
    }

    /// The per-second buckets, in ascending order of their second.
    pub closed spec fn buckets(&self) -> Seq<TimeBucket> {
        self.listing@
    }

    /// The per-second buckets as a map from second to statistics.
    pub closed spec fn bucket_map(&self) -> Map<u64, BucketStats> {
        self.time_buckets@
    }

    /// The wall-clock time at which the run began, in milliseconds since the
    /// Unix epoch.
    pub closed spec fn started_at(&self) -> i64 {
        self.started_at_ms
    }

    /// The counters agree with the samples, the buckets with the counters,
    /// every bucket is sound, and the buckets in order are those of the map.
    pub closed spec fn wf(&self) -> bool {
        &&& self.total_requests == self.response_times@.len()
        &&& self.total_errors <= self.total_requests
        &&& self.sum_ms == sum_of(self.response_times@)
        &&& self.min_ms == min_of(self.response_times@)
        &&& self.max_ms == max_of(self.response_times@)
        &&& lists(self.listing@, self.time_buckets@)
        &&& requests_in(self.listing@) == self.total_requests
        &&& errors_in(self.listing@) == self.total_errors
        &&& sum_ms_in(self.listing@) == self.sum_ms
        &&& buckets_sound(self.listing@)
    }

    /// In a well-formed aggregator no more requests failed than were made,
    /// the buckets are in order, together they count every request, every
    /// error and every millisecond, and each of them is sound.
    pub proof fn lemma_totals(&self)
        requires
            self.wf(),
        ensures
            self.errors() <= self.samples().len(),
            self.samples().len() <= u64::MAX,
            sum_of(self.samples()) <= u64::MAX,
            seconds_ascend(self.buckets()),
            requests_in(self.buckets()) == self.samples().len(),
            errors_in(self.buckets()) == self.errors(),
            sum_ms_in(self.buckets()) == sum_of(self.samples()),
            buckets_sound(self.buckets()),
            lists(self.buckets(), self.bucket_map()),
    {
    }

    /// An aggregator with nothing recorded, whose clocks start now.
    pub fn new() -> (agg: Self)
        ensures
            agg.wf(),
            agg.samples().len() == 0,
            agg.errors() == 0,
            agg.bytes() == 0,
            agg.buckets().len() == 0,
            agg.bucket_map() == Map::<u64, BucketStats>::empty(),
    {
        let start_time = monotonic_now();
        let started_at_ms = wall_clock_millis();
        StreamingAggregator {
            total_requests: 0,
            total_errors: 0,
            response_times: Vec::new(),
            min_ms: u64::MAX,
            max_ms: 0,
            sum_ms: 0,
            total_bytes: 0,
            start_time,
            started_at_ms,
            time_buckets: BTreeMap::new(),
            listing: Ghost(Seq::empty()),
        }
    }

    /// Records one finished request in the bucket of second `second`.
    pub fn record_at(&mut self, second: u64, elapsed_ms: u64, success: bool, size_bytes: u64)
        requires
            old(self).wf(),
            old(self).samples().len() < u64::MAX,
            sum_of(old(self).samples()) + elapsed_ms <= u64::MAX,
            old(self).bytes() + size_bytes <= u64::MAX,
        ensures
            final(self).wf(),
            final(self).samples() == old(self).samples().push(elapsed_ms),
            final(self).errors() == old(self).errors() + (if success {
                0nat
            } else {
                1nat
            }),
            final(self).bytes() == old(self).bytes() + size_bytes,
            final(self).buckets() == recorded_into(
                old(self).buckets(),
                second,
                elapsed_ms,
                success,
            ),
            final(self).bucket_map() == recorded_in_map(
                old(self).bucket_map(),
                second,
                elapsed_ms,
                success,
            ),
            final(self).started_at() == old(self).started_at(),
    {
        proof {
            lemma_recorded_totals(self.listing@, second, elapsed_ms, success);
            lemma_recorded_sound(self.listing@, second, elapsed_ms, success);
            assert(self.response_times@.push(elapsed_ms).drop_last() =~= self.response_times@);
        }
        self.total_requests += 1;
        if !success {
            self.total_errors += 1;
        }
        self.response_times.push(elapsed_ms);
        self.sum_ms += elapsed_ms;
        if elapsed_ms < self.min_ms {
            self.min_ms = elapsed_ms;
        }
        if elapsed_ms > self.max_ms {
            self.max_ms = elapsed_ms;
        }
        self.total_bytes += size_bytes;

        let ghost listed = self.listing@;
        let ghost map = self.time_buckets@;
        let stats = match stats_at(&self.time_buckets, second) {
            Some(seen) => {
                proof {
                    let i = lemma_listed_place(listed, map, second);
                    lemma_bucket_within_totals(listed, i);
                }
                BucketStats {
                    requests: seen.requests + 1,
                    errors: if success {
                        seen.errors
                    } else {
                        seen.errors + 1
                    },
                    sum_ms: seen.sum_ms + elapsed_ms,
                    min_ms: if elapsed_ms < seen.min_ms {
                        elapsed_ms
                    } else {
                        seen.min_ms
                    },
                    max_ms: if elapsed_ms > seen.max_ms {
                        elapsed_ms
                    } else {
                        seen.max_ms
                    },
                }
            },
            None => BucketStats {
                requests: 1,
                errors: if success {
                    0
                } else {
                    1
                },
                sum_ms: elapsed_ms,
                min_ms: elapsed_ms,
                max_ms: elapsed_ms,
            },
        };
        put_stats(&mut self.time_buckets, second, stats);
        self.listing = Ghost(recorded_into(listed, second, elapsed_ms, success));
        proof {
            lemma_recorded_listing(listed, map, second, elapsed_ms, success);
        }
    }

    /// Whether one more request with this response time and size can be
    /// counted without a counter passing the greatest number it can hold.
    pub open spec fn has_room(&self, elapsed_ms: u64, size_bytes: u64) -> bool {
        &&& self.samples().len() < u64::MAX
        &&& sum_of(self.samples()) + elapsed_ms <= u64::MAX
        &&& self.bytes() + size_bytes <= u64::MAX
    }

    /// Records one finished request as `record` does, where the counters
    /// have room for it; changes nothing and says so where they have not.
    pub fn try_record(&mut self, elapsed_ms: u64, success: bool, size_bytes: u64) -> (recorded:
        bool)
        requires
            old(self).wf(),
        ensures
            final(self).wf(),
            recorded == old(self).has_room(elapsed_ms, size_bytes),
            final(self).started_at() == old(self).started_at(),
            recorded ==> {
                &&& final(self).samples() == old(self).samples().push(elapsed_ms)
                &&& final(self).errors() == old(self).errors() + (if success {
                    0nat
                } else {
                    1nat
                })
                &&& final(self).bytes() == old(self).bytes() + size_bytes
                &&& exists|second: u64|
                    final(self).buckets() == #[trigger] recorded_into(
                        old(self).buckets(),
                        second,
                        elapsed_ms,
                        success,
                    )
            },
            !recorded ==> {
                &&& final(self).samples() == old(self).samples()
                &&& final(self).errors() == old(self).errors()
                &&& final(self).bytes() == old(self).bytes()
                &&& final(self).buckets() == old(self).buckets()
            },
    {
        if self.total_requests < u64::MAX && self.sum_ms <= u64::MAX - elapsed_ms
            && self.total_bytes <= u64::MAX - size_bytes {
            self.record(elapsed_ms, success, size_bytes);
            true
        } else {
            false
        }
    }

    /// Records one finished request in the bucket of the second that the
    /// monotonic clock shows since the start of the run.
    pub fn record(&mut self, elapsed_ms: u64, success: bool, size_bytes: u64)
        requires
            old(self).wf(),
            old(self).samples().len() < u64::MAX,
            sum_of(old(self).samples()) + elapsed_ms <= u64::MAX,
            old(self).bytes() + size_bytes <= u64::MAX,
        ensures
            final(self).wf(),
            final(self).samples() == old(self).samples().push(elapsed_ms),
            final(self).errors() == old(self).errors() + (if success {
                0nat
            } else {
                1nat
            }),
            final(self).bytes() == old(self).bytes() + size_bytes,
            exists|second: u64|
                final(self).buckets() == #[trigger] recorded_into(
                    old(self).buckets(),
                    second,
                    elapsed_ms,
                    success,
                ),
            final(self).started_at() == old(self).started_at(),
    {
        let second = monotonic_elapsed(&self.start_time).as_secs();
        self.record_at(second, elapsed_ms, success, size_bytes);
    }

    /// The `p`-th percentile of the response times by the nearest-rank
    /// method, `p` in whole percent; 0 where nothing was recorded.
    pub fn percentile(&self, p: u64) -> (value: u64)
        ensures
            value == percentile_of(self.samples(), p as nat),
    {
        let n = self.response_times.len();
        if n == 0 {
            return 0;
        }
        let mut sorted = self.response_times.clone();
        assert(sorted@ =~= self.response_times@);
        sort_ascending(&mut sorted);
        proof {
            lemma_le_total();
            lemma_ascending(self.response_times@);
            lemma_sorted_unique(sorted@, ascending(self.response_times@), le_u64());
        }
        let idx = rank_index(p, n);
        sorted[idx]
    }

    /// The number of requests recorded.
    pub fn total_requests(&self) -> (n: u64)
        requires
            self.wf(),
        ensures
            n == self.samples().len(),
    {
        self.total_requests
    }

    /// The number of failed requests recorded.
    pub fn total_errors(&self) -> (n: u64)
        ensures
            n == self.errors(),
    {
        self.total_errors
    }

    /// The least response time recorded; `u64::MAX` where there is none.
    pub fn min_ms(&self) -> (ms: u64)
        requires
            self.wf(),
        ensures
            ms == min_of(self.samples()),
    {
        self.min_ms
    }

    /// The greatest response time recorded; 0 where there is none.
    pub fn max_ms(&self) -> (ms: u64)
        requires
            self.wf(),
        ensures
            ms == max_of(self.samples()),
    {
        self.max_ms
    }

    /// The sum of the response times recorded.
    pub fn sum_ms(&self) -> (ms: u64)
        requires
            self.wf(),
        ensures
            ms == sum_of(self.samples()),
    {
        self.sum_ms
    }

    /// The bytes received.
    pub fn total_bytes(&self) -> (n: u64)
        ensures
            n == self.bytes(),
    {
        self.total_bytes
    }

    /// The statistics as they stand, `elapsed_ms` milliseconds into the run.
    pub fn snapshot_at(&self, elapsed_ms: u64) -> (snap: AggregatorSnapshot)
        requires
            self.wf(),
        ensures
            snap.total_requests == self.samples().len(),
            snap.total_errors == self.errors(),
            snap.total_successes + snap.total_errors == snap.total_requests,
            snap.min_ms == shown_min(min_of(self.samples())),
            snap.max_ms == max_of(self.samples()),
            snap.sum_ms == sum_of(self.samples()),
            snap.p50_ms == percentile_of(self.samples(), 50),
            snap.p95_ms == percentile_of(self.samples(), 95),
            snap.p99_ms == percentile_of(self.samples(), 99),
            snap.total_bytes == self.bytes(),
            snap.elapsed_ms == elapsed_ms,
            snap.total_requests > 0 ==> figures_ordered(
                snap.min_ms,
                snap.p50_ms,
                snap.p95_ms,
                snap.p99_ms,
                snap.max_ms,
            ),
    {
        proof {
            if self.response_times@.len() > 0 {
                lemma_figures_ordered(self.response_times@);
            }
        }
        AggregatorSnapshot {
            total_requests: self.total_requests,
            total_errors: self.total_errors,
            total_successes: self.total_requests - self.total_errors,
            min_ms: if self.min_ms == u64::MAX {
                0
            } else {
                self.min_ms
            },
            max_ms: self.max_ms,
            sum_ms: self.sum_ms,
            p50_ms: self.percentile(50),
            p95_ms: self.percentile(95),
            p99_ms: self.percentile(99),
            total_bytes: self.total_bytes,
            elapsed_ms,
        }
    }

    /// The statistics as they stand now; `elapsed_ms` is what the monotonic
    /// clock shows since the start of the run.
    pub fn snapshot(&self) -> (snap: AggregatorSnapshot)
        requires
            self.wf(),
        ensures
            snap.total_requests == self.samples().len(),
            snap.total_errors == self.errors(),
            snap.total_successes + snap.total_errors == snap.total_requests,
            snap.min_ms == shown_min(min_of(self.samples())),
            snap.max_ms == max_of(self.samples()),
            snap.sum_ms == sum_of(self.samples()),
            snap.p50_ms == percentile_of(self.samples(), 50),
            snap.p95_ms == percentile_of(self.samples(), 95),
            snap.p99_ms == percentile_of(self.samples(), 99),
            snap.total_bytes == self.bytes(),
            snap.total_requests > 0 ==> figures_ordered(
                snap.min_ms,
                snap.p50_ms,
                snap.p95_ms,
                snap.p99_ms,
                snap.max_ms,
            ),
    {
        let millis = monotonic_elapsed(&self.start_time).as_millis();
        let elapsed_ms = #[verifier::truncate] (millis as u64);
        self.snapshot_at(elapsed_ms)
    }

    /// The summary of the run, finished at `finished_at_ms` (milliseconds
    /// since the Unix epoch).
    pub fn summary_at(&self, plan_id: Uuid, plan_name: String, finished_at_ms: i64) -> (s:
        TestSummary)
        requires
            self.wf(),
        ensures
            s.plan_id == plan_id,
            s.plan_name == plan_name,
            s.started_at_ms == self.started_at(),
            s.finished_at_ms == finished_at_ms,
            s.total_requests == self.samples().len(),
            s.total_requests == requests_in(self.buckets()),
            s.failed_requests == self.errors(),
            s.successful_requests + s.failed_requests == s.total_requests,
            s.min_response_ms == shown_min(min_of(self.samples())),
            s.max_response_ms == max_of(self.samples()),
            s.sum_response_ms == sum_of(self.samples()),
            s.p50_response_ms == percentile_of(self.samples(), 50),
            s.p95_response_ms == percentile_of(self.samples(), 95),
            s.p99_response_ms == percentile_of(self.samples(), 99),
            s.total_bytes_received == self.bytes(),
            s.total_requests > 0 ==> figures_ordered(
                s.min_response_ms,
                s.p50_response_ms,
                s.p95_response_ms,
                s.p99_response_ms,
                s.max_response_ms,
            ),
    {
        proof {
            if self.response_times@.len() > 0 {
                lemma_figures_ordered(self.response_times@);
            }
        }
        TestSummary {
            plan_id,
            plan_name,
            started_at_ms: self.started_at_ms,
            finished_at_ms,
            total_requests: self.total_requests,
            successful_requests: self.total_requests - self.total_errors,
            failed_requests: self.total_errors,
            min_response_ms: if self.min_ms == u64::MAX {
                0
            } else {
                self.min_ms
            },
            max_response_ms: self.max_ms,
            sum_response_ms: self.sum_ms,
            p50_response_ms: self.percentile(50),
            p95_response_ms: self.percentile(95),
            p99_response_ms: self.percentile(99),
            total_bytes_received: self.total_bytes,
        }
    }

    /// The summary of the run, finished when the wall clock is read.
    pub fn summary(&self, plan_id: Uuid, plan_name: String) -> (s: TestSummary)
        requires
            self.wf(),
        ensures
            s.plan_id == plan_id,
            s.plan_name == plan_name,
            s.started_at_ms == self.started_at(),
            s.total_requests == self.samples().len(),
            s.total_requests == requests_in(self.buckets()),
            s.failed_requests == self.errors(),
            s.successful_requests + s.failed_requests == s.total_requests,
            s.min_response_ms == shown_min(min_of(self.samples())),
            s.max_response_ms == max_of(self.samples()),
            s.sum_response_ms == sum_of(self.samples()),
            s.p50_response_ms == percentile_of(self.samples(), 50),
            s.p95_response_ms == percentile_of(self.samples(), 95),
            s.p99_response_ms == percentile_of(self.samples(), 99),
            s.total_bytes_received == self.bytes(),
            s.total_requests > 0 ==> figures_ordered(
                s.min_response_ms,
                s.p50_response_ms,
                s.p95_response_ms,
                s.p99_response_ms,
                s.max_response_ms,
            ),
    {
        let finished_at_ms = wall_clock_millis();
        self.summary_at(plan_id, plan_name, finished_at_ms)
    }

    /// The buckets as a chart shows them, in ascending order of their second:
    /// one entry for each second in which a request finished, each of them
    /// sound.
    pub fn time_series(&self) -> (series: Vec<TimeBucketEntry>)
        requires
            self.wf(),
        ensures
            series@ == self.buckets().map_values(|b: TimeBucket| entry_of(b)),
            entries_ascend(series@),
            forall|i: int| 0 <= i < series@.len() ==> entry_sound(#[trigger] series@[i]),
    {
        let listed = list_buckets(&self.time_buckets);
        proof {
            lemma_one_listing(listed@, self.listing@, self.time_buckets@);
        }
        let mut series: Vec<TimeBucketEntry> = Vec::new();
        let mut i: usize = 0;
        while i < listed.len()
            invariant
                i <= listed@.len(),
                series@ == listed@.take(i as int).map_values(|b: TimeBucket| entry_of(b)),
            decreases listed@.len() - i,
        {
            let bucket = listed[i];
            series.push(
                TimeBucketEntry {
                    second: bucket.second,
                    requests: bucket.stats.requests,
                    errors: bucket.stats.errors,
                    sum_ms: bucket.stats.sum_ms,
                    min_ms: if bucket.stats.min_ms == u64::MAX {
                        0
                    } else {
                        bucket.stats.min_ms
                    },
                    max_ms: bucket.stats.max_ms,
                },
            );
            proof {
                let f = |b: TimeBucket| entry_of(b);
                assert(listed@.take(i + 1).map_values(f) =~= listed@.take(i as int).map_values(
                    f,
                ).push(entry_of(listed@[i as int])));
            }
            i += 1;
        }
        proof {
            assert(listed@.take(i as int) =~= listed@);
            assert forall|k: int| 0 <= k < series@.len() implies entry_sound(
                #[trigger] series@[k],
            ) by {
                lemma_entry_sound(listed@[k]);
            }
            assert forall|k: int, l: int| 0 <= k < l < series@.len() implies series@[k].second
                < series@[l].second by {
                assert(listed@[k].second < listed@[l].second);
            }
        }
        series
    }

    /// The per-second buckets, from second to statistics.
    pub fn time_buckets(&self) -> (buckets: &BTreeMap<u64, BucketStats>)
        ensures
            buckets@ == self.bucket_map(),
    {
        &self.time_buckets
    }
}

impl Default for StreamingAggregator {
    fn default() -> (agg: Self)
        ensures
            agg.wf(),
            agg.samples().len() == 0,
            agg.errors() == 0,
            agg.bytes() == 0,
            agg.buckets().len() == 0,
            agg.bucket_map() == Map::<u64, BucketStats>::empty(),
    {
        StreamingAggregator::new()
    }
}

} // verus!
