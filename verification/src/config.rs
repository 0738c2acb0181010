//! Matchmaking configuration: the knob bundle and the tolerance schedule.

use vstd::prelude::*;
use crate::units::{MILLI, MICRO, spec_backoff, backoff_value, lemma_backoff_monotone};

verus! {

/// A structured failure reported to the host.
#[derive(Clone, Copy, Debug, PartialEq, Eq, Structural)]
pub enum SimError {
    /// A configuration field lies outside its admissible range.
    InvalidConfig,
    /// The data-center set was empty at ingest time.
    NoDataCenters,
    /// A player record was inconsistent with the registered data centers.
    InvalidPlayer,
}

/// All matchmaking knobs. Times are in seconds or ticks, pings in
/// milliseconds, percentile-like quantities in thousandths (`MILLI`).
#[derive(Clone, Copy, Debug, PartialEq, Eq, Structural)]
pub struct MatchmakingConfig {
    /// Maximum acceptable ping (ms).
    pub max_ping: u64,
    /// Delta-ping backoff curve (ms, ms per tick, ms).
    pub delta_ping_initial: u64,
    pub delta_ping_rate: u64,
    pub delta_ping_max: u64,
    /// Skill-window backoff curve (milli-percentile).
    pub skill_similarity_initial: u64,
    pub skill_similarity_rate: u64,
    pub skill_similarity_max: u64,
    /// Skill-disparity backoff curve (milli-percentile).
    pub max_skill_disparity_initial: u64,
    pub max_skill_disparity_rate: u64,
    pub max_skill_disparity_max: u64,
    /// Composite-distance weights (milli).
    pub weight_geo: u64,
    pub weight_skill: u64,
    pub weight_input: u64,
    pub weight_platform: u64,
    /// Quality-score weights (milli).
    pub quality_weight_ping: u64,
    pub quality_weight_skill_balance: u64,
    pub quality_weight_wait_time: u64,
    /// Seconds of simulated time per tick.
    pub tick_interval: u64,
    /// Number of skill buckets.
    pub num_skill_buckets: usize,
    /// Candidates kept per seed.
    pub top_k_candidates: usize,
}

impl MatchmakingConfig {
    /// Admissible ranges for every knob. The upper bounds are machine
    /// limits that keep all derived arithmetic inside `u64`.
    pub open spec fn wf(self) -> bool {
        &&& 1 <= self.max_ping <= MICRO
        &&& self.delta_ping_initial <= MICRO
        &&& self.delta_ping_rate <= MICRO
        &&& 1 <= self.delta_ping_max <= MICRO
        &&& self.skill_similarity_initial <= MICRO
        &&& self.skill_similarity_rate <= MICRO
        &&& 1 <= self.skill_similarity_max <= MICRO
        &&& self.max_skill_disparity_initial <= MICRO
        &&& self.max_skill_disparity_rate <= MICRO
        &&& 1 <= self.max_skill_disparity_max <= MICRO
        &&& self.weight_geo <= MILLI
        &&& self.weight_skill <= MILLI
        &&& self.weight_input <= MILLI
        &&& self.weight_platform <= MILLI
        &&& self.quality_weight_ping <= MILLI
        &&& self.quality_weight_skill_balance <= MILLI
        &&& self.quality_weight_wait_time <= MILLI
        &&& 1 <= self.tick_interval <= 86400
        &&& 1 <= self.num_skill_buckets <= 1000
        &&& 1 <= self.top_k_candidates <= 1000000
    }

    /// Check every admissible range, reporting a structured failure on
    /// any violation.
    pub fn validate(&self) -> (r: Result<(), SimError>)
        ensures
            r is Ok <==> self.wf(),
            r is Err ==> r->Err_0 == SimError::InvalidConfig,
    {
        let ok = 1 <= self.max_ping && self.max_ping <= MICRO
            && self.delta_ping_initial <= MICRO
            && self.delta_ping_rate <= MICRO
            && 1 <= self.delta_ping_max && self.delta_ping_max <= MICRO
            && self.skill_similarity_initial <= MICRO
            && self.skill_similarity_rate <= MICRO
            && 1 <= self.skill_similarity_max && self.skill_similarity_max <= MICRO
            && self.max_skill_disparity_initial <= MICRO
            && self.max_skill_disparity_rate <= MICRO
            && 1 <= self.max_skill_disparity_max && self.max_skill_disparity_max <= MICRO
            && self.weight_geo <= MILLI
            && self.weight_skill <= MILLI
            && self.weight_input <= MILLI
            && self.weight_platform <= MILLI
            && self.quality_weight_ping <= MILLI
            && self.quality_weight_skill_balance <= MILLI
            && self.quality_weight_wait_time <= MILLI
            && 1 <= self.tick_interval && self.tick_interval <= 86400
            && 1 <= self.num_skill_buckets && self.num_skill_buckets <= 1000
            && 1 <= self.top_k_candidates && self.top_k_candidates <= 1000000;
        if ok {
            Ok(())
        } else {
            Err(SimError::InvalidConfig)
        }
    }

    /// Allowed delta ping after waiting `w` ticks (ms).
    pub fn delta_ping_backoff(&self, w: u64) -> (r: u64)
        requires
            self.wf(),
        ensures
            r == spec_backoff(self.delta_ping_initial, self.delta_ping_rate, self.delta_ping_max, w),
            r <= self.delta_ping_max,
    {
        backoff_value(self.delta_ping_initial, self.delta_ping_rate, self.delta_ping_max, w)
    }

    /// Skill-window half-width after waiting `w` ticks (milli-percentile).
    pub fn skill_similarity_backoff(&self, w: u64) -> (r: u64)
        requires
            self.wf(),
        ensures
            r == spec_backoff(
                self.skill_similarity_initial,
                self.skill_similarity_rate,
                self.skill_similarity_max,
                w,
            ),
            r <= self.skill_similarity_max,
    {
        backoff_value(
            self.skill_similarity_initial,
            self.skill_similarity_rate,
            self.skill_similarity_max,
            w,
        )
    }

    /// Skill-disparity cap after waiting `w` ticks (milli-percentile).
    pub fn skill_disparity_backoff(&self, w: u64) -> (r: u64)
        requires
            self.wf(),
        ensures
            r == spec_backoff(
                self.max_skill_disparity_initial,
                self.max_skill_disparity_rate,
                self.max_skill_disparity_max,
                w,
            ),
            r <= self.max_skill_disparity_max,
    {
        backoff_value(
            self.max_skill_disparity_initial,
            self.max_skill_disparity_rate,
            self.max_skill_disparity_max,
            w,
        )
    }

    /// Monotone tolerance: all three backoff envelopes are non-decreasing
    /// in the wait time.
    pub proof fn lemma_tolerance_monotone(self, w1: u64, w2: u64)
        requires
            w1 <= w2,
        ensures
            spec_backoff(self.delta_ping_initial, self.delta_ping_rate, self.delta_ping_max, w1)
                <= spec_backoff(
                self.delta_ping_initial,
                self.delta_ping_rate,
                self.delta_ping_max,
                w2,
            ),
            spec_backoff(
                self.skill_similarity_initial,
                self.skill_similarity_rate,
                self.skill_similarity_max,
                w1,
            ) <= spec_backoff(
                self.skill_similarity_initial,
                self.skill_similarity_rate,
                self.skill_similarity_max,
                w2,
            ),
            spec_backoff(
                self.max_skill_disparity_initial,
                self.max_skill_disparity_rate,
                self.max_skill_disparity_max,
                w1,
            ) <= spec_backoff(
                self.max_skill_disparity_initial,
                self.max_skill_disparity_rate,
                self.max_skill_disparity_max,
                w2,
            ),
    {
        lemma_backoff_monotone(
            self.delta_ping_initial,
            self.delta_ping_rate,
            self.delta_ping_max,
            w1,
            w2,
        );
        lemma_backoff_monotone(
            self.skill_similarity_initial,
            self.skill_similarity_rate,
            self.skill_similarity_max,
            w1,
            w2,
        );
        lemma_backoff_monotone(
            self.max_skill_disparity_initial,
            self.max_skill_disparity_rate,
            self.max_skill_disparity_max,
            w1,
            w2,
        );
    }
}

pub open spec fn spec_default_config() -> MatchmakingConfig {
    MatchmakingConfig {
        max_ping: 200,
        delta_ping_initial: 10,
        delta_ping_rate: 2,
        delta_ping_max: 100,
        skill_similarity_initial: 50,
        skill_similarity_rate: 10,
        skill_similarity_max: 500,
        max_skill_disparity_initial: 100,
        max_skill_disparity_rate: 20,
        max_skill_disparity_max: 800,
        weight_geo: 300,
        weight_skill: 400,
        weight_input: 150,
        weight_platform: 150,
        quality_weight_ping: 400,
        quality_weight_skill_balance: 400,
        quality_weight_wait_time: 200,
        tick_interval: 5,
        num_skill_buckets: 10,
        top_k_candidates: 50,
    }
}

impl Default for MatchmakingConfig {
    /// The default knob values.
    fn default() -> (r: MatchmakingConfig)
        ensures
            r == spec_default_config(),
            r.wf(),
    {
        MatchmakingConfig {
            max_ping: 200,
            delta_ping_initial: 10,
            delta_ping_rate: 2,
            delta_ping_max: 100,
            skill_similarity_initial: 50,
            skill_similarity_rate: 10,
            skill_similarity_max: 500,
            max_skill_disparity_initial: 100,
            max_skill_disparity_rate: 20,
            max_skill_disparity_max: 800,
            weight_geo: 300,
            weight_skill: 400,
            weight_input: 150,
            weight_platform: 150,
            quality_weight_ping: 400,
            quality_weight_skill_balance: 400,
            quality_weight_wait_time: 200,
            tick_interval: 5,
            num_skill_buckets: 10,
            top_k_candidates: 50,
        }
    }
}

} // verus!
