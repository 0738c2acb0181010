//! Statistics: global sample vectors with order statistics, and
//! per-skill-bucket rollups.

use vstd::prelude::*;
use crate::player::{SAMPLE_CAP, sum_seq, lemma_sum_seq_bound};

verus! {

/// Number of elements of `s` strictly below `v`.
pub open spec fn count_lt(s: Seq<u64>, v: int) -> int
    decreases s.len(),
{
    if s.len() == 0 {
        0
    } else {
        count_lt(s.drop_last(), v) + (if s.last() < v {
            1int
        } else {
            0int
        })
    }
}

/// Number of elements of `s` equal to `v`.
pub open spec fn count_eq(s: Seq<u64>, v: int) -> int
    decreases s.len(),
{
    if s.len() == 0 {
        0
    } else {
        count_eq(s.drop_last(), v) + (if s.last() == v {
            1int
        } else {
            0int
        })
    }
}

/// `r` is the value at position `k` of `s` in sorted order: fewer than
/// `k + 1` elements lie strictly below it, and more than `k` lie at or
/// below it.
pub open spec fn is_kth(s: Seq<u64>, k: int, r: u64) -> bool {
    count_lt(s, r as int) <= k < count_lt(s, r as int + 1)
}

pub proof fn lemma_count_lt_succ(s: Seq<u64>, v: int)
    ensures
        count_lt(s, v + 1) == count_lt(s, v) + count_eq(s, v),
    decreases s.len(),
{
    if s.len() > 0 {
        lemma_count_lt_succ(s.drop_last(), v);
    }
}

pub proof fn lemma_count_lt_total(s: Seq<u64>, v: int)
    requires
        forall|i: int| 0 <= i < s.len() ==> s[i] < v,
    ensures
        count_lt(s, v) == s.len(),
    decreases s.len(),
{
    if s.len() > 0 {
        assert(forall|i: int| 0 <= i < s.drop_last().len() ==> s.drop_last()[i] < v);
        lemma_count_lt_total(s.drop_last(), v);
    }
}

pub proof fn lemma_count_lt_nonneg(s: Seq<u64>, v: int)
    ensures
        0 <= count_lt(s, v) <= s.len(),
    decreases s.len(),
{
    if s.len() > 0 {
        lemma_count_lt_nonneg(s.drop_last(), v);
    }
}

pub proof fn lemma_count_eq_nonneg(s: Seq<u64>, v: int)
    ensures
        0 <= count_eq(s, v) <= s.len(),
    decreases s.len(),
{
    if s.len() > 0 {
        lemma_count_eq_nonneg(s.drop_last(), v);
    }
}

/// One bucket per sample value: `r[v]` counts the occurrences of `v`.
fn build_histogram(s: &Vec<u64>) -> (r: Vec<u64>)
    requires
        forall|i: int| 0 <= i < s@.len() ==> s@[i] <= SAMPLE_CAP,
    ensures
        r@.len() == SAMPLE_CAP + 1,
        forall|v: int| 0 <= v <= SAMPLE_CAP ==> #[trigger] r@[v] == count_eq(s@, v),
{
    let mut hist: Vec<u64> = Vec::new();
    let mut v: usize = 0;
    while v < (SAMPLE_CAP as usize) + 1
        invariant
            v <= SAMPLE_CAP + 1,
            hist@.len() == v,
            forall|w: int| 0 <= w < v ==> #[trigger] hist@[w] == 0,
        decreases SAMPLE_CAP + 1 - v,
    {
        hist.push(0);
        v = v + 1;
    }
    let mut i: usize = 0;
    while i < s.len()
        invariant
            i <= s@.len(),
            hist@.len() == SAMPLE_CAP + 1,
            forall|j: int| 0 <= j < s@.len() ==> s@[j] <= SAMPLE_CAP,
            forall|w: int|
                0 <= w <= SAMPLE_CAP ==> #[trigger] hist@[w] == count_eq(
                    s@.subrange(0, i as int),
                    w,
                ),
        decreases s@.len() - i,
    {
        proof {
            assert forall|w: int| 0 <= w <= SAMPLE_CAP implies count_eq(
                s@.subrange(0, i + 1),
                w,
            ) == count_eq(s@.subrange(0, i as int), w) + (if s@[i as int] == w {
                1int
            } else {
                0int
            }) by {
                assert(s@.subrange(0, i + 1).drop_last() == s@.subrange(0, i as int));
            }
            lemma_count_eq_nonneg(s@.subrange(0, i as int), s@[i as int] as int);
            assert(s@.subrange(0, i as int).len() <= s@.len());
        }
        let x: u64 = s[i];
        let old_count: u64 = hist[x as usize];
        hist.set(x as usize, old_count + 1);
        i = i + 1;
    }
    proof {
        assert(s@.subrange(0, s@.len() as int) == s@);
    }
    hist
}

/// The value at position `k` of the samples in sorted order, found by a
/// counting pass over the bounded value range.
pub fn kth_smallest(s: &Vec<u64>, k: usize) -> (r: u64)
    requires
        k < s@.len(),
        forall|i: int| 0 <= i < s@.len() ==> s@[i] <= SAMPLE_CAP,
    ensures
        is_kth(s@, k as int, r),
        r <= SAMPLE_CAP,
{
    let hist: Vec<u64> = build_histogram(s);
    let n_samples: usize = s.len();
    let mut acc: u64 = 0;
    let mut val: u64 = 0;
    proof {
        lemma_count_lt_nonneg(s@, 0);
        assert(count_lt(s@, 0) == 0) by {
            lemma_count_lt_total_zero(s@);
        }
    }
    loop
        invariant
            val <= SAMPLE_CAP,
            k < s@.len(),
            s@.len() == n_samples,
            forall|i: int| 0 <= i < s@.len() ==> s@[i] <= SAMPLE_CAP,
            hist@.len() == SAMPLE_CAP + 1,
            forall|v: int| 0 <= v <= SAMPLE_CAP ==> #[trigger] hist@[v] == count_eq(s@, v),
            acc == count_lt(s@, val as int),
            acc <= k,
        decreases SAMPLE_CAP - val,
    {
        let here: u64 = hist[val as usize];
        proof {
            lemma_count_lt_succ(s@, val as int);
            lemma_count_lt_nonneg(s@, val as int);
            lemma_count_eq_nonneg(s@, val as int);
            lemma_count_lt_nonneg(s@, val as int + 1);
        }
        proof {
            assert(acc + here <= s@.len());
        }
        let acc_new: u64 = acc + here;
        if (acc_new as u64) > (k as u64) {
            proof {
                assert(is_kth(s@, k as int, val));
            }
            return val;
        }
        proof {
            // Everything at or below the cap is counted once the walk
            // passes the cap, so the walk stops before running out.
            if val == SAMPLE_CAP {
                assert(forall|i: int| 0 <= i < s@.len() ==> s@[i] < val as int + 1);
                lemma_count_lt_total(s@, val as int + 1);
                assert(false);
            }
        }
        acc = acc_new;
        val = val + 1;
    }
}

pub proof fn lemma_count_lt_total_zero(s: Seq<u64>)
    ensures
        count_lt(s, 0) == 0,
    decreases s.len(),
{
    if s.len() > 0 {
        lemma_count_lt_total_zero(s.drop_last());
    }
}

/// Mean of the samples, zero when there are none.
pub open spec fn spec_mean(s: Seq<u64>) -> int {
    if s.len() == 0 {
        0
    } else {
        sum_seq(s) / s.len() as int
    }
}

pub fn mean(s: &Vec<u64>) -> (r: u64)
    requires
        forall|i: int| 0 <= i < s@.len() ==> s@[i] <= SAMPLE_CAP,
    ensures
        r == spec_mean(s@),
        r <= SAMPLE_CAP,
{
    if s.len() == 0 {
        return 0;
    }
    let mut sum: u128 = 0;
    let mut i: usize = 0;
    while i < s.len()
        invariant
            i <= s@.len(),
            forall|j: int| 0 <= j < s@.len() ==> s@[j] <= SAMPLE_CAP,
            sum == sum_seq(s@.subrange(0, i as int)),
            sum <= i * SAMPLE_CAP,
        decreases s@.len() - i,
    {
        proof {
            assert(s@.subrange(0, i + 1).drop_last() == s@.subrange(0, i as int));
            assert(i * SAMPLE_CAP + SAMPLE_CAP == (i + 1) * SAMPLE_CAP) by (nonlinear_arith);
        }
        sum = sum + (s[i] as u128);
        i = i + 1;
    }
    proof {
        assert(s@.subrange(0, s@.len() as int) == s@);
        lemma_sum_seq_bound(s@, SAMPLE_CAP);
        assert(sum_seq(s@) / (s@.len() as int) <= SAMPLE_CAP) by (nonlinear_arith)
            requires
                0 <= sum_seq(s@) <= s@.len() * (SAMPLE_CAP as int),
                1 <= s@.len(),
        ;
    }
    (sum / (s.len() as u128)) as u64
}

/// Append a sample, clamped to the sample cap.
pub fn record_sample(samples: &mut Vec<u64>, x: u64)
    ensures
        final(samples)@ == old(samples)@.push(if x <= SAMPLE_CAP {
            x
        } else {
            SAMPLE_CAP
        }),
{
    let clamped: u64 = if x <= SAMPLE_CAP {
        x
    } else {
        SAMPLE_CAP
    };
    samples.push(clamped);
}

/// Rollup over one skill bucket.
#[derive(Clone, Copy, Debug, PartialEq, Eq, Structural)]
pub struct BucketStats {
    pub bucket_id: usize,
    pub player_count: u64,
    /// Mean of the members' rolling search-time means (seconds).
    pub avg_search_time: u64,
    /// Mean of the members' rolling delta-ping means (ms).
    pub avg_delta_ping: u64,
    /// Wins per match over the bucket, in thousandths.
    pub win_rate_milli: u64,
    /// Kills per death over the bucket, in thousandths.
    pub avg_kd_milli: u64,
    pub matches_played: u64,
}

/// Global simulation statistics.
#[derive(Clone, Debug, PartialEq)]
pub struct SimulationStats {
    /// Simulated seconds elapsed.
    pub time_elapsed: u64,
    pub ticks: u64,
    pub total_matches: u64,
    pub active_matches: u64,
    pub players_offline: u64,
    pub players_in_lobby: u64,
    pub players_searching: u64,
    pub players_in_match: u64,
    /// Search-time order statistics (seconds), refreshed on demand.
    pub avg_search_time: u64,
    pub search_time_p50: u64,
    pub search_time_p90: u64,
    pub search_time_p99: u64,
    pub search_time_samples: Vec<u64>,
    /// Delta-ping order statistics (ms), refreshed on demand.
    pub avg_delta_ping: u64,
    pub delta_ping_p50: u64,
    pub delta_ping_p90: u64,
    pub delta_ping_samples: Vec<u64>,
    /// Skill-disparity statistics (milli-percentile).
    pub avg_skill_disparity_milli: u64,
    pub skill_disparity_samples: Vec<u64>,
    pub blowout_rate_milli: u64,
    pub blowout_count: u64,
    pub bucket_stats: Vec<BucketStats>,
}

impl SimulationStats {
    pub open spec fn wf(self) -> bool {
        &&& forall|i: int|
            0 <= i < self.search_time_samples@.len() ==> #[trigger] self.search_time_samples@[i]
                <= SAMPLE_CAP
        &&& forall|i: int|
            0 <= i < self.delta_ping_samples@.len() ==> #[trigger] self.delta_ping_samples@[i]
                <= SAMPLE_CAP
        &&& forall|i: int|
            0 <= i < self.skill_disparity_samples@.len()
                ==> #[trigger] self.skill_disparity_samples@[i] <= SAMPLE_CAP
    }

    pub fn new() -> (r: SimulationStats)
        ensures
            r.wf(),
            r.ticks == 0,
            r.total_matches == 0,
            r.blowout_count == 0,
            r.search_time_samples@.len() == 0,
            r.delta_ping_samples@.len() == 0,
            r.skill_disparity_samples@.len() == 0,
    {
        SimulationStats {
            time_elapsed: 0,
            ticks: 0,
            total_matches: 0,
            active_matches: 0,
            players_offline: 0,
            players_in_lobby: 0,
            players_searching: 0,
            players_in_match: 0,
            avg_search_time: 0,
            search_time_p50: 0,
            search_time_p90: 0,
            search_time_p99: 0,
            search_time_samples: Vec::new(),
            avg_delta_ping: 0,
            delta_ping_p50: 0,
            delta_ping_p90: 0,
            delta_ping_samples: Vec::new(),
            avg_skill_disparity_milli: 0,
            skill_disparity_samples: Vec::new(),
            blowout_rate_milli: 0,
            blowout_count: 0,
            bucket_stats: Vec::new(),
        }
    }

    /// Index of the `p`-percent order statistic among `n` samples:
    /// `floor(p * n / 100)`, which stays below `n`.
    pub open spec fn spec_pct_index(n: int, p: int) -> int {
        n * p / 100
    }

    /// Recompute the mean and the p50/p90/p99 order statistics of the
    /// search-time, delta-ping and skill-disparity samples, on demand.
    pub fn refresh_percentiles(&mut self)
        requires
            old(self).wf(),
        ensures
            final(self).wf(),
            final(self).search_time_samples == old(self).search_time_samples,
            final(self).delta_ping_samples == old(self).delta_ping_samples,
            final(self).skill_disparity_samples == old(self).skill_disparity_samples,
            final(self).avg_search_time == spec_mean(final(self).search_time_samples@),
            final(self).avg_delta_ping == spec_mean(final(self).delta_ping_samples@),
            final(self).avg_skill_disparity_milli == spec_mean(final(self).skill_disparity_samples@),
            final(self).search_time_samples@.len() > 0 ==> {
                &&& is_kth(
                    final(self).search_time_samples@,
                    Self::spec_pct_index(final(self).search_time_samples@.len() as int, 50),
                    final(self).search_time_p50,
                )
                &&& is_kth(
                    final(self).search_time_samples@,
                    Self::spec_pct_index(final(self).search_time_samples@.len() as int, 90),
                    final(self).search_time_p90,
                )
                &&& is_kth(
                    final(self).search_time_samples@,
                    Self::spec_pct_index(final(self).search_time_samples@.len() as int, 99),
                    final(self).search_time_p99,
                )
            },
            final(self).delta_ping_samples@.len() > 0 ==> {
                &&& is_kth(
                    final(self).delta_ping_samples@,
                    Self::spec_pct_index(final(self).delta_ping_samples@.len() as int, 50),
                    final(self).delta_ping_p50,
                )
                &&& is_kth(
                    final(self).delta_ping_samples@,
                    Self::spec_pct_index(final(self).delta_ping_samples@.len() as int, 90),
                    final(self).delta_ping_p90,
                )
            },
    {
        self.avg_search_time = mean(&self.search_time_samples);
        self.avg_delta_ping = mean(&self.delta_ping_samples);
        self.avg_skill_disparity_milli = mean(&self.skill_disparity_samples);
        if self.search_time_samples.len() > 0 {
            self.search_time_p50 = kth_smallest(
                &self.search_time_samples,
                pct_index(self.search_time_samples.len(), 50),
            );
            self.search_time_p90 = kth_smallest(
                &self.search_time_samples,
                pct_index(self.search_time_samples.len(), 90),
            );
            self.search_time_p99 = kth_smallest(
                &self.search_time_samples,
                pct_index(self.search_time_samples.len(), 99),
            );
        }
        if self.delta_ping_samples.len() > 0 {
            self.delta_ping_p50 = kth_smallest(
                &self.delta_ping_samples,
                pct_index(self.delta_ping_samples.len(), 50),
            );
            self.delta_ping_p90 = kth_smallest(
                &self.delta_ping_samples,
                pct_index(self.delta_ping_samples.len(), 90),
            );
        }
    }
}

/// `floor(p * n / 100)` for a percentile `p < 100`; below `n` whenever
/// `n` is positive.
pub fn pct_index(n: usize, p: usize) -> (r: usize)
    requires
        n >= 1,
        p < 100,
    ensures
        r == SimulationStats::spec_pct_index(n as int, p as int),
        r < n,
{
    proof {
        assert((n as int) * (p as int) < 0x10000000000000000 * 100) by (nonlinear_arith)
            requires n < 0x10000000000000000, 0 <= p < 100;
    }
    let wide: u128 = (n as u128) * (p as u128) / 100;
    proof {
        assert((n as int) * (p as int) / 100 < n as int) by (nonlinear_arith)
            requires n >= 1, 0 <= p < 100;
        assert((n as int) * (p as int) >= 0) by (nonlinear_arith)
            requires n >= 0, p >= 0;
    }
    wide as usize
}

} // verus!
