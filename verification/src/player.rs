//! Players: identity, skill, network quality, lifecycle state, and the
//! rolling experience windows that drive retention.

use vstd::prelude::*;
use crate::geo::Location;
use crate::model::{Platform, InputDevice, PlayerState, Playlist, PlaylistSet};
use crate::config::MatchmakingConfig;
use crate::units::spec_backoff;

verus! {

/// Bound on rolling-window length (FIFO of recent samples).
pub const WINDOW: usize = 10;

/// Upper bound on any ping or sample value (ms or seconds); a machine
/// limit that keeps sums and scaled products inside `u64`.
pub const SAMPLE_CAP: u64 = 1000000;

/// Sum of a sequence of samples.
pub open spec fn sum_seq(s: Seq<u64>) -> int
    decreases s.len(),
{
    if s.len() == 0 {
        0
    } else {
        sum_seq(s.drop_last()) + s.last()
    }
}

/// Number of set flags in a sequence.
pub open spec fn count_true(s: Seq<bool>) -> int
    decreases s.len(),
{
    if s.len() == 0 {
        0
    } else {
        count_true(s.drop_last()) + (if s.last() {
            1int
        } else {
            0int
        })
    }
}

pub proof fn lemma_sum_seq_bound(s: Seq<u64>, cap: u64)
    requires
        forall|i: int| 0 <= i < s.len() ==> s[i] <= cap,
    ensures
        0 <= sum_seq(s) <= s.len() * cap,
    decreases s.len(),
{
    if s.len() == 0 {
    } else {
        lemma_sum_seq_bound(s.drop_last(), cap);
        assert((s.len() - 1) * cap + cap == s.len() * cap) by (nonlinear_arith);
    }
}

pub proof fn lemma_count_true_bound(s: Seq<bool>)
    ensures
        0 <= count_true(s) <= s.len(),
    decreases s.len(),
{
    if s.len() > 0 {
        lemma_count_true_bound(s.drop_last());
    }
}

/// Append a sample to a rolling window, dropping the oldest entry once
/// the window is full.
pub fn push_rolling(w: &mut Vec<u64>, x: u64)
    requires
        old(w)@.len() <= WINDOW,
    ensures
        final(w)@.len() <= WINDOW,
        final(w)@ == (if old(w)@.len() < WINDOW {
            old(w)@.push(x)
        } else {
            old(w)@.subrange(1, WINDOW as int).push(x)
        }),
{
    if w.len() >= WINDOW {
        w.remove(0);
    }
    w.push(x);
}

/// `push_rolling` for the blowout flags.
pub fn push_rolling_flag(w: &mut Vec<bool>, x: bool)
    requires
        old(w)@.len() <= WINDOW,
    ensures
        final(w)@.len() <= WINDOW,
        final(w)@ == (if old(w)@.len() < WINDOW {
            old(w)@.push(x)
        } else {
            old(w)@.subrange(1, WINDOW as int).push(x)
        }),
{
    if w.len() >= WINDOW {
        w.remove(0);
    }
    w.push(x);
}

/// Mean of a window, zero when it is empty.
pub open spec fn spec_window_avg(s: Seq<u64>) -> int {
    if s.len() == 0 {
        0
    } else {
        sum_seq(s) / s.len() as int
    }
}

pub fn window_avg(w: &Vec<u64>) -> (r: u64)
    requires
        w@.len() <= WINDOW,
        forall|i: int| 0 <= i < w@.len() ==> w@[i] <= SAMPLE_CAP,
    ensures
        r == spec_window_avg(w@),
        r <= SAMPLE_CAP,
{
    if w.len() == 0 {
        return 0;
    }
    let mut sum: u64 = 0;
    let mut i: usize = 0;
    while i < w.len()
        invariant
            i <= w@.len(),
            w@.len() <= WINDOW,
            forall|j: int| 0 <= j < w@.len() ==> w@[j] <= SAMPLE_CAP,
            sum == sum_seq(w@.subrange(0, i as int)),
            sum <= i * SAMPLE_CAP,
        decreases w@.len() - i,
    {
        proof {
            assert(w@.subrange(0, i + 1).drop_last() == w@.subrange(0, i as int));
            assert(i * SAMPLE_CAP + SAMPLE_CAP == (i + 1) * SAMPLE_CAP) by (nonlinear_arith);
        }
        sum = sum + w[i];
        i = i + 1;
    }
    proof {
        assert(w@.subrange(0, w@.len() as int) == w@);
        lemma_sum_seq_bound(w@, SAMPLE_CAP);
        assert(sum_seq(w@) / (w@.len() as int) <= SAMPLE_CAP) by (nonlinear_arith)
            requires 0 <= sum_seq(w@) <= w@.len() * (SAMPLE_CAP as int), 1 <= w@.len() <= 10;
    }
    sum / (w.len() as u64)
}

/// Fraction of set flags in a window, in thousandths; zero when empty.
pub open spec fn spec_flag_rate_milli(s: Seq<bool>) -> int {
    if s.len() == 0 {
        0
    } else {
        count_true(s) * 1000 / s.len() as int
    }
}

pub fn flag_rate_milli(w: &Vec<bool>) -> (r: u64)
    requires
        w@.len() <= WINDOW,
    ensures
        r == spec_flag_rate_milli(w@),
        r <= 1000,
{
    if w.len() == 0 {
        return 0;
    }
    let mut cnt: u64 = 0;
    let mut i: usize = 0;
    while i < w.len()
        invariant
            i <= w@.len(),
            w@.len() <= WINDOW,
            cnt == count_true(w@.subrange(0, i as int)),
            cnt <= i,
        decreases w@.len() - i,
    {
        proof {
            assert(w@.subrange(0, i + 1).drop_last() == w@.subrange(0, i as int));
        }
        if w[i] {
            cnt = cnt + 1;
        }
        i = i + 1;
    }
    proof {
        assert(w@.subrange(0, w@.len() as int) == w@);
        lemma_count_true_bound(w@);
        assert(count_true(w@) * 1000 / (w@.len() as int) <= 1000) by (nonlinear_arith)
            requires 0 <= count_true(w@) <= w@.len(), 1 <= w@.len() <= 10;
    }
    (cnt * 1000) / (w.len() as u64)
}

/// A simulated player.
#[derive(Clone, Debug, PartialEq)]
pub struct Player {
    pub id: usize,
    pub location: Location,
    pub platform: Platform,
    pub input_device: InputDevice,
    pub voice_chat_enabled: bool,
    /// Raw skill in milli-units, within [-1000, 1000].
    pub skill_milli: i64,
    /// Skill percentile in thousandths, within [0, 1000].
    pub skill_percentile_milli: u64,
    /// Skill bucket, within [1, B].
    pub skill_bucket: usize,
    pub state: PlayerState,
    /// Identifier of the current match while `InMatch`.
    pub current_match: Option<u64>,
    pub party_id: Option<u64>,
    pub preferred_playlists: PlaylistSet,
    /// Ping in ms to the data center of the same index.
    pub dc_pings: Vec<u64>,
    pub best_dc: Option<usize>,
    pub best_ping: u64,
    /// Tick at which the current search began, while `Searching`.
    pub search_start_time: Option<u64>,
    pub matches_played: u64,
    pub total_kills: u64,
    pub total_deaths: u64,
    pub wins: u64,
    pub losses: u64,
    pub recent_delta_pings: Vec<u64>,
    pub recent_search_times: Vec<u64>,
    pub recent_blowouts: Vec<bool>,
    /// Base probability of searching again after a match, in thousandths.
    pub continuation_prob_milli: u64,
}

impl Player {
    /// Well-formedness against a registry of `n_dcs` data centers and `b`
    /// skill buckets.
    pub open spec fn wf(self, n_dcs: int, b: int) -> bool {
        &&& self.location.wf()
        &&& -1000 <= self.skill_milli <= 1000
        &&& self.skill_percentile_milli <= 1000
        &&& 1 <= self.skill_bucket <= 1000
        &&& self.dc_pings@.len() == n_dcs
        &&& forall|i: int| 0 <= i < self.dc_pings@.len() ==> #[trigger] self.dc_pings@[i] <= SAMPLE_CAP
        &&& n_dcs > 0 ==> self.best_dc is Some
        &&& self.best_dc matches Some(d) ==> {
            &&& 0 <= d < n_dcs
            &&& self.best_ping == self.dc_pings@[d as int]
            &&& forall|i: int| 0 <= i < self.dc_pings@.len() ==> self.best_ping <= #[trigger] self.dc_pings@[i]
        }
        &&& self.best_ping <= SAMPLE_CAP
        &&& (self.state == PlayerState::InMatch) <==> (self.current_match is Some)
        &&& (self.state == PlayerState::Searching) <==> (self.search_start_time is Some)
        &&& self.recent_delta_pings@.len() <= WINDOW
        &&& self.recent_search_times@.len() <= WINDOW
        &&& self.recent_blowouts@.len() <= WINDOW
        &&& forall|i: int|
            0 <= i < self.recent_delta_pings@.len() ==> #[trigger] self.recent_delta_pings@[i]
                <= SAMPLE_CAP
        &&& forall|i: int|
            0 <= i < self.recent_search_times@.len() ==> #[trigger] self.recent_search_times@[i]
                <= SAMPLE_CAP
        &&& self.continuation_prob_milli <= 1000
    }

    /// A fresh offline player with the default preferences, as entering
    /// the population before pings and percentiles are known.
    pub fn new(id: usize, location: Location, skill_milli: i64) -> (r: Player)
        requires
            location.wf(),
            -1000 <= skill_milli <= 1000,
        ensures
            r.wf(0, 10),
            r.id == id,
            r.location == location,
            r.skill_milli == skill_milli,
            r.state == PlayerState::Offline,
            r.current_match is None,
            r.search_start_time is None,
            r.platform == Platform::PC,
            r.input_device == InputDevice::Controller,
            r.voice_chat_enabled,
            r.preferred_playlists.spec_contains(Playlist::TeamDeathmatch),
            forall|p: Playlist|
                p != Playlist::TeamDeathmatch ==> !r.preferred_playlists.spec_contains(p),
            r.continuation_prob_milli == 850,
            r.matches_played == 0,
            r.wins == 0,
            r.losses == 0,
            r.total_kills == 0,
            r.total_deaths == 0,
            r.recent_delta_pings@.len() == 0,
            r.recent_search_times@.len() == 0,
            r.recent_blowouts@.len() == 0,
    {
        let mut preferred = PlaylistSet::empty();
        preferred.insert(Playlist::TeamDeathmatch);
        Player {
            id,
            location,
            platform: Platform::PC,
            input_device: InputDevice::Controller,
            voice_chat_enabled: true,
            skill_milli,
            skill_percentile_milli: 500,
            skill_bucket: 5,
            state: PlayerState::Offline,
            current_match: None,
            party_id: None,
            preferred_playlists: preferred,
            dc_pings: Vec::new(),
            best_dc: None,
            best_ping: 1000,
            search_start_time: None,
            matches_played: 0,
            total_kills: 0,
            total_deaths: 0,
            wins: 0,
            losses: 0,
            recent_delta_pings: Vec::new(),
            recent_search_times: Vec::new(),
            recent_blowouts: Vec::new(),
            continuation_prob_milli: 850,
        }
    }

    /// The skill bucket derived from a percentile: `floor(pct * b / 1000)`
    /// clamped to `[1, b]`.
    pub open spec fn spec_bucket(pct: u64, b: usize) -> usize {
        let raw = (pct * b) as int / 1000;
        if raw < 1 {
            1
        } else if raw > b {
            b as usize
        } else {
            raw as usize
        }
    }

    /// Recompute the skill bucket from the current percentile.
    pub fn update_skill_bucket(&mut self, num_buckets: usize)
        requires
            1 <= num_buckets <= 1000,
            old(self).skill_percentile_milli <= 1000,
        ensures
            final(self).skill_bucket == Player::spec_bucket(
                old(self).skill_percentile_milli,
                num_buckets,
            ),
            *final(self) == (Player { skill_bucket: final(self).skill_bucket, ..*old(self) }),
    {
        let pct: u64 = self.skill_percentile_milli;
        proof {
            assert(pct * (num_buckets as u64) <= 1000000) by (nonlinear_arith)
                requires pct <= 1000, num_buckets <= 1000;
        }
        let raw: u64 = (pct * (num_buckets as u64)) / 1000;
        let b: usize = if raw < 1 {
            1
        } else if raw > num_buckets as u64 {
            num_buckets
        } else {
            raw as usize
        };
        self.skill_bucket = b;
    }

    /// Whether data center `d` is acceptable at allowance `allowed`: its
    /// ping must stay within `best + allowed` and within the hard cap.
    pub open spec fn spec_dc_acceptable(self, d: int, allowed: int, cfg: MatchmakingConfig) -> bool {
        self.dc_pings@[d] <= self.best_ping + allowed && self.dc_pings@[d] <= cfg.max_ping
    }

    /// The acceptance mask over all data centers after waiting `wait`
    /// ticks, from the delta-ping backoff envelope.
    pub fn acceptable_dcs(&self, wait: u64, cfg: &MatchmakingConfig) -> (r: Vec<bool>)
        requires
            cfg.wf(),
            forall|i: int| 0 <= i < self.dc_pings@.len() ==> #[trigger] self.dc_pings@[i] <= SAMPLE_CAP,
            self.best_ping <= SAMPLE_CAP,
        ensures
            r@.len() == self.dc_pings@.len(),
            forall|d: int|
                0 <= d < r@.len() ==> #[trigger] r@[d] == self.spec_dc_acceptable(
                    d,
                    spec_backoff(cfg.delta_ping_initial, cfg.delta_ping_rate, cfg.delta_ping_max, wait),
                    *cfg,
                ),
    {
        let allowed: u64 = cfg.delta_ping_backoff(wait);
        let mut r: Vec<bool> = Vec::new();
        let mut d: usize = 0;
        while d < self.dc_pings.len()
            invariant
                d <= self.dc_pings@.len(),
                r@.len() == d,
                cfg.wf(),
                self.best_ping <= SAMPLE_CAP,
                allowed <= 1000000,
                allowed == spec_backoff(
                    cfg.delta_ping_initial,
                    cfg.delta_ping_rate,
                    cfg.delta_ping_max,
                    wait,
                ),
                forall|i: int|
                    0 <= i < self.dc_pings@.len() ==> #[trigger] self.dc_pings@[i] <= SAMPLE_CAP,
                forall|j: int|
                    0 <= j < d ==> #[trigger] r@[j] == self.spec_dc_acceptable(
                        j,
                        allowed as int,
                        *cfg,
                    ),
            decreases self.dc_pings@.len() - d,
        {
            let ping = self.dc_pings[d];
            let ok = ping <= self.best_ping + allowed && ping <= cfg.max_ping;
            r.push(ok);
            d = d + 1;
        }
        r
    }
}

} // verus!
