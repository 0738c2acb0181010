//! The tick-driven simulation: player lifecycle, match store, statistics.

use vstd::prelude::*;
use crate::config::{MatchmakingConfig, SimError};
use crate::datacenter::DataCenter;
use crate::geo::Location;
use crate::matchmaker::{
    Matchmaker, MatchProposal, count_props_on, teams_view, teams_contain, teams_no_dup, no_dup, search_has,
    from_queue, queue_wf, queue_sorted, queue_started, queue_distinct, queue_owners_ok,
    players_net_ok, dcs_ok, proposal_ok, proposals_disjoint, owner,
};
use crate::model::{Playlist, PlaylistSet, PlaylistCounts, PlatformCounts, InputCounts, Platform,
    InputDevice, PlayerState};
use crate::player::{Player, SAMPLE_CAP, WINDOW, push_rolling, push_rolling_flag, window_avg,
    flag_rate_milli};
use crate::rng::DrawStream;
use crate::search::SearchObject;
use crate::stats::{SimulationStats, BucketStats, record_sample};
use crate::units::{MICRO, SCALE12, exp_neg_milli};

verus! {

/// An active match.
#[derive(Clone, Debug, PartialEq)]
pub struct Match {
    pub id: u64,
    pub playlist: Playlist,
    pub data_center_id: usize,
    /// Teams of player indices.
    pub teams: Vec<Vec<usize>>,
    pub start_time: u64,
    /// Ticks until completion.
    pub expected_duration: u64,
    /// Mean member skill per team, in milli-units.
    pub team_skills_milli: Vec<i64>,
    pub quality_score_milli: i64,
    pub skill_disparity_milli: u64,
    pub avg_delta_ping: u64,
}

/// Whether the match lists player `pid` in one of its teams.
pub open spec fn match_contains(m: Match, pid: usize) -> bool {
    teams_contain(teams_view(m.teams), pid)
}

/// A player record handed in by the population generator.
#[derive(Clone, Debug, PartialEq)]
pub struct PlayerProfile {
    pub location: Location,
    pub platform: Platform,
    pub input_device: InputDevice,
    pub voice_chat_enabled: bool,
    /// Raw skill in milli-units, within [-1000, 1000].
    pub skill_milli: i64,
    /// Ping in ms to the data center of the same index.
    pub dc_pings: Vec<u64>,
    pub preferred_playlists: PlaylistSet,
}

/// Main simulation state and controller.
#[derive(Clone, Debug, PartialEq)]
pub struct Simulation {
    /// Current simulation time (in ticks).
    pub current_time: u64,
    /// All players, standing at their own index.
    pub players: Vec<Player>,
    /// Data centers, standing at their own index.
    pub data_centers: Vec<DataCenter>,
    /// Active search objects, oldest wait first.
    pub searches: Vec<SearchObject>,
    /// Active matches.
    pub matches: Vec<Match>,
    pub config: MatchmakingConfig,
    pub stats: SimulationStats,
    pub next_search_id: u64,
    pub next_match_id: u64,
    /// Stream seed; each tick derives its draws from
    /// `rng_seed + current_time` (wrapping).
    pub rng_seed: u64,
    /// Poisson arrival rate per tick, in thousandths.
    pub arrival_rate_milli: u64,
}

impl Simulation {
    pub open spec fn n_dcs(self) -> int {
        self.data_centers@.len() as int
    }

    pub open spec fn n_players(self) -> int {
        self.players@.len() as int
    }

    /// One well-formed match against the player table.
    pub open spec fn match_wf(self, m: Match) -> bool {
        &&& m.id < self.next_match_id
        &&& m.start_time <= self.current_time
        &&& m.data_center_id < self.n_dcs()
        &&& 1 <= m.teams@.len() <= 64
        &&& m.team_skills_milli@.len() == m.teams@.len()
        &&& forall|k: int|
            0 <= k < m.team_skills_milli@.len() ==> -1000 <= #[trigger] m.team_skills_milli@[k]
                <= 1000
        &&& teams_no_dup(teams_view(m.teams))
        &&& forall|pid: usize|
            #[trigger] match_contains(m, pid) ==> pid < self.n_players()
                && self.players@[pid as int].state == PlayerState::InMatch
                && self.players@[pid as int].current_match == Some(m.id)
    }

    /// The global invariant: every table is internally consistent and the
    /// cross-references between players, searches and matches resolve.
    pub open spec fn wf(self) -> bool {
        &&& self.config.wf()
        &&& self.arrival_rate_milli <= MICRO
        &&& self.stats.wf()
        &&& forall|i: int|
            0 <= i < self.n_players() ==> (#[trigger] self.players@[i]).wf(
                self.n_dcs(),
                self.config.num_skill_buckets as int,
            )
        &&& forall|i: int| 0 <= i < self.n_players() ==> (#[trigger] self.players@[i]).id == i
        &&& dcs_ok(self.data_centers@)
        &&& queue_wf(self.searches@, self.n_dcs())
        &&& queue_sorted(self.searches@)
        &&& queue_started(self.searches@, self.current_time)
        &&& queue_distinct(self.searches@)
        &&& queue_owners_ok(self.searches@, self.players@)
        &&& forall|a: int, pid: usize|
            0 <= a < self.searches@.len() && #[trigger] search_has(self.searches@[a], pid)
                ==> self.players@[pid as int].state == PlayerState::Searching
        &&& forall|j: int| 0 <= j < self.matches@.len() ==> self.match_wf(#[trigger] self.matches@[j])
        &&& forall|a: int, b: int|
            0 <= a < b < self.matches@.len() ==> (#[trigger] self.matches@[a]).id
                != (#[trigger] self.matches@[b]).id
        &&& forall|i: int|
            0 <= i < self.n_players() && (#[trigger] self.players@[i]).state == PlayerState::InMatch
                ==> exists|j: int|
                0 <= j < self.matches@.len() && (#[trigger] self.matches@[j]).id
                    == self.players@[i].current_match->0 && match_contains(
                    self.matches@[j],
                    i as usize,
                )
        &&& self.stats.blowout_count + self.matches@.len() <= self.stats.total_matches
        &&& forall|i: int|
            0 <= i < self.n_players() ==> (#[trigger] self.players@[i]).wins
                + self.players@[i].losses == self.players@[i].matches_played
        &&& forall|i: int|
            0 <= i < self.n_players() ==> ((#[trigger] self.players@[i]).search_start_time matches
                Some(st) ==> st <= self.current_time)
        &&& self.stats.total_matches == self.next_match_id
        &&& self.players@.len() <= 1000000000
    }

    /// Capacity accounting is never violated: for every data center and
    /// playlist, the busy count stays within `[0, capacity]`.
    pub proof fn lemma_capacity_bounds(self, d: int, p: Playlist)
        requires
            self.wf(),
            0 <= d < self.n_dcs(),
        ensures
            self.data_centers@[d].busy_servers.spec_get(p)
                <= self.data_centers@[d].server_capacity.spec_get(p),
    {
        assert(self.data_centers@[d].wf());
    }

    /// Every searching player's search began at or before the current
    /// tick.
    pub proof fn lemma_search_started_in_past(self, i: int)
        requires
            self.wf(),
            0 <= i < self.n_players(),
            self.players@[i].state == PlayerState::Searching,
        ensures
            self.players@[i].search_start_time is Some,
            self.players@[i].search_start_time->0 <= self.current_time,
    {
        assert(self.players@[i].wf(self.n_dcs(), self.config.num_skill_buckets as int));
    }

    /// A player in state `InMatch` has exactly one match id, and it
    /// resolves to exactly one active match containing the player.
    pub proof fn lemma_in_match_resolves_uniquely(self, i: int)
        requires
            self.wf(),
            0 <= i < self.n_players(),
            self.players@[i].state == PlayerState::InMatch,
        ensures
            self.players@[i].current_match is Some,
            exists|j: int|
                0 <= j < self.matches@.len() && (#[trigger] self.matches@[j]).id
                    == self.players@[i].current_match->0 && match_contains(
                    self.matches@[j],
                    i as usize,
                ),
            forall|j1: int, j2: int|
                0 <= j1 < self.matches@.len() && 0 <= j2 < self.matches@.len() && match_contains(
                    #[trigger] self.matches@[j1],
                    i as usize,
                ) && match_contains(#[trigger] self.matches@[j2], i as usize) ==> j1 == j2,
    {
        assert forall|j1: int, j2: int|
            0 <= j1 < self.matches@.len() && 0 <= j2 < self.matches@.len() && match_contains(
                #[trigger] self.matches@[j1],
                i as usize,
            ) && match_contains(#[trigger] self.matches@[j2], i as usize) implies j1 == j2 by {
            if j1 != j2 {
                assert(self.matches@[j1].id == self.players@[i].current_match->0);
                assert(self.matches@[j2].id == self.players@[i].current_match->0);
                if j1 < j2 {
                    assert(self.matches@[j1].id != self.matches@[j2].id);
                } else {
                    assert(self.matches@[j2].id != self.matches@[j1].id);
                }
            }
        }
    }

    /// A fresh simulation with no players, data centers, queue or
    /// matches. An out-of-range configuration is a structured failure.
    pub fn new(config: MatchmakingConfig, seed: u64) -> (r: Result<Simulation, SimError>)
        ensures
            r is Ok <==> config.wf(),
            r matches Ok(s) ==> {
                &&& s.wf()
                &&& s.current_time == 0
                &&& s.players@.len() == 0
                &&& s.data_centers@.len() == 0
                &&& s.searches@.len() == 0
                &&& s.matches@.len() == 0
                &&& s.config == config
                &&& s.rng_seed == seed
                &&& s.arrival_rate_milli == 10000
                &&& s.next_search_id == 0
                &&& s.next_match_id == 0
                &&& s.stats.total_matches == 0
                &&& s.stats.blowout_count == 0
            },
            r matches Err(e) ==> e == SimError::InvalidConfig,
    {
        match config.validate() {
            Result::Err(e) => Err(e),
            Result::Ok(_) => Ok(
                Simulation {
                    current_time: 0,
                    players: Vec::new(),
                    data_centers: Vec::new(),
                    searches: Vec::new(),
                    matches: Vec::new(),
                    config,
                    stats: SimulationStats::new(),
                    next_search_id: 0,
                    next_match_id: 0,
                    rng_seed: seed,
                    arrival_rate_milli: 10000,
                },
            ),
        }
    }

    /// Register one data center with explicit capacities. Only possible
    /// before players are ingested, since players carry a ping per
    /// data center.
    pub fn register_data_center(&mut self, location: Location, capacity: PlaylistCounts)
        requires
            old(self).wf(),
            old(self).players@.len() == 0,
            old(self).searches@.len() == 0,
            location.wf(),
            forall|p: Playlist| #[trigger] capacity.spec_get(p) <= 1000000000,
            old(self).data_centers@.len() < 100000,
        ensures
            final(self).wf(),
            final(self).data_centers@.len() == old(self).data_centers@.len() + 1,
            final(self).data_centers@.last().location == location,
            final(self).data_centers@.last().server_capacity == capacity,
            forall|p: Playlist|
                #[trigger] final(self).data_centers@.last().busy_servers.spec_get(p) == 0,
            final(self).players == old(self).players,
            final(self).searches == old(self).searches,
            final(self).matches == old(self).matches,
            final(self).current_time == old(self).current_time,
            final(self).config == old(self).config,
            final(self).rng_seed == old(self).rng_seed,
    {
        let id: usize = self.data_centers.len();
        let dc = DataCenter {
            id,
            location,
            server_capacity: capacity,
            busy_servers: PlaylistCounts::zero(),
        };
        self.data_centers.push(dc);
        proof {
            assert forall|j: int| 0 <= j < self.matches@.len() implies self.match_wf(
                #[trigger] self.matches@[j],
            ) by {
                assert(old(self).matches@[j] == self.matches@[j]);
                assert(old(self).match_wf(old(self).matches@[j]));
            }
        }
    }

    /// The default data-center geography (ten sites, east to west).
    pub open spec fn spec_default_dc_location(i: int) -> Location {
        if i == 0 {
            Location { lat_mdeg: 39000i64, lon_mdeg: -77000i64 }
        } else if i == 1 {
            Location { lat_mdeg: 37000i64, lon_mdeg: -122000i64 }
        } else if i == 2 {
            Location { lat_mdeg: 41000i64, lon_mdeg: -96000i64 }
        } else if i == 3 {
            Location { lat_mdeg: 51000i64, lon_mdeg: 0i64 }
        } else if i == 4 {
            Location { lat_mdeg: 50000i64, lon_mdeg: 8000i64 }
        } else if i == 5 {
            Location { lat_mdeg: 59000i64, lon_mdeg: 18000i64 }
        } else if i == 6 {
            Location { lat_mdeg: 35000i64, lon_mdeg: 139000i64 }
        } else if i == 7 {
            Location { lat_mdeg: 1000i64, lon_mdeg: 103000i64 }
        } else if i == 8 {
            Location { lat_mdeg: -33000i64, lon_mdeg: 151000i64 }
        } else {
            Location { lat_mdeg: -23000i64, lon_mdeg: -46000i64 }
        }
    }

    /// Register the default global data-center set (capacities per
    /// `DataCenter::new`).
    pub fn init_default_data_centers(&mut self)
        requires
            old(self).wf(),
            old(self).players@.len() == 0,
            old(self).searches@.len() == 0,
            old(self).data_centers@.len() == 0,
        ensures
            final(self).wf(),
            final(self).data_centers@.len() == 10,
            forall|i: int|
                0 <= i < 10 ==> {
                    &&& (#[trigger] final(self).data_centers@[i]).id == i
                    &&& final(self).data_centers@[i].location
                        == Simulation::spec_default_dc_location(i)
                    &&& forall|p: Playlist|
                        #[trigger] final(self).data_centers@[i].server_capacity.spec_get(p) == (
                        if p == Playlist::GroundWar {
                            50u64
                        } else {
                            200u64
                        })
                    &&& forall|p: Playlist|
                        #[trigger] final(self).data_centers@[i].busy_servers.spec_get(p) == 0
                },
            final(self).players == old(self).players,
            final(self).searches == old(self).searches,
            final(self).matches == old(self).matches,
            final(self).current_time == old(self).current_time,
            final(self).config == old(self).config,
            final(self).rng_seed == old(self).rng_seed,
    {
        let ghost pre = *self;
        let mut locs: Vec<Location> = Vec::new();
        locs.push(Location::new(39000, -77000));
        locs.push(Location::new(37000, -122000));
        locs.push(Location::new(41000, -96000));
        locs.push(Location::new(51000, 0));
        locs.push(Location::new(50000, 8000));
        locs.push(Location::new(59000, 18000));
        locs.push(Location::new(35000, 139000));
        locs.push(Location::new(1000, 103000));
        locs.push(Location::new(-33000, 151000));
        locs.push(Location::new(-23000, -46000));
        let mut i: usize = 0;
        while i < locs.len()
            invariant
                i <= locs@.len(),
                locs@.len() == 10,
                forall|a: int| 0 <= a < locs@.len() ==> (#[trigger] locs@[a]).wf(),
                forall|a: int|
                    0 <= a < locs@.len() ==> #[trigger] locs@[a]
                        == Simulation::spec_default_dc_location(a),
                self.wf(),
                self.players@.len() == 0,
                self.searches@.len() == 0,
                self.data_centers@.len() == i,
                forall|a: int|
                    0 <= a < i ==> {
                        &&& (#[trigger] self.data_centers@[a]).id == a
                        &&& self.data_centers@[a].location
                            == Simulation::spec_default_dc_location(a)
                        &&& forall|p: Playlist|
                            #[trigger] self.data_centers@[a].server_capacity.spec_get(p) == (
                            if p == Playlist::GroundWar {
                                50u64
                            } else {
                                200u64
                            })
                        &&& forall|p: Playlist|
                            #[trigger] self.data_centers@[a].busy_servers.spec_get(p) == 0
                    },
                self.players == pre.players,
                self.searches == pre.searches,
                self.matches == pre.matches,
                self.current_time == pre.current_time,
                self.config == pre.config,
                self.rng_seed == pre.rng_seed,
            decreases locs@.len() - i,
        {
            let loc: Location = locs[i];
            let id: usize = self.data_centers.len();
            let dc: DataCenter = DataCenter::new(id, loc);
            let ghost before_push = *self;
            self.data_centers.push(dc);
            proof {
                assert forall|j: int| 0 <= j < self.matches@.len() implies self.match_wf(
                    #[trigger] self.matches@[j],
                ) by {
                    assert(before_push.matches@[j] == self.matches@[j]);
                    assert(before_push.match_wf(before_push.matches@[j]));
                }
            }
            i = i + 1;
        }
    }
}


/// Rank of player `i`: how many players sort strictly before it, by
/// skill and then by index (a stable tie-break).
pub open spec fn count_ranked_below(s: Seq<Player>, i: int, upto: int) -> int
    decreases upto,
{
    if upto <= 0 {
        0
    } else {
        count_ranked_below(s, i, upto - 1) + (if s[upto - 1].skill_milli < s[i].skill_milli || (
        s[upto - 1].skill_milli == s[i].skill_milli && upto - 1 < i) {
            1int
        } else {
            0int
        })
    }
}

pub open spec fn spec_rank(s: Seq<Player>, i: int) -> int {
    count_ranked_below(s, i, s.len() as int)
}

pub proof fn lemma_rank_bound(s: Seq<Player>, i: int, upto: int)
    requires
        0 <= upto <= s.len(),
    ensures
        0 <= count_ranked_below(s, i, upto) <= upto,
    decreases upto,
{
    if upto > 0 {
        lemma_rank_bound(s, i, upto - 1);
    }
}

/// A player never ranks below itself, so the rank is strictly below the
/// population size.
pub proof fn lemma_rank_strict(s: Seq<Player>, i: int, upto: int)
    requires
        0 <= i < s.len(),
        0 <= upto <= s.len(),
    ensures
        count_ranked_below(s, i, upto) <= upto - (if i < upto {
            1int
        } else {
            0int
        }),
    decreases upto,
{
    if upto > 0 {
        lemma_rank_strict(s, i, upto - 1);
        lemma_rank_bound(s, i, upto - 1);
    }
}

/// The percentile in thousandths of rank `r` among `n` players:
/// `(r + 1/2) / n`, evaluated as `(1000 r + 500) / n`.
pub open spec fn spec_percentile_milli(r: int, n: int) -> int {
    (1000 * r + 500) / n
}

/// A player record changed only in its derived skill-rank fields.
pub open spec fn same_but_rank(a: Player, b: Player) -> bool {
    b == (Player {
        skill_percentile_milli: b.skill_percentile_milli,
        skill_bucket: b.skill_bucket,
        ..a
    })
}

impl Simulation {
    /// Recompute every player's skill percentile from its rank in the
    /// population, and the bucket from the percentile. Percentiles are
    /// carried in thousandths, so ranks of a population beyond a
    /// thousand players can share a percentile; order is preserved but
    /// not strictly.
    pub fn update_skill_percentiles(&mut self)
        requires
            old(self).wf(),
            old(self).players@.len() <= 1000000000,
        ensures
            final(self).wf(),
            final(self).players@.len() == old(self).players@.len(),
            forall|i: int|
                0 <= i < final(self).players@.len() ==> {
                    &&& same_but_rank(old(self).players@[i], #[trigger] final(self).players@[i])
                    &&& final(self).players@[i].skill_percentile_milli == spec_percentile_milli(
                        spec_rank(old(self).players@, i),
                        old(self).players@.len() as int,
                    )
                    &&& final(self).players@[i].skill_bucket == Player::spec_bucket(
                        final(self).players@[i].skill_percentile_milli as u64,
                        old(self).config.num_skill_buckets,
                    )
                },
            final(self).data_centers == old(self).data_centers,
            final(self).searches == old(self).searches,
            final(self).matches == old(self).matches,
            final(self).current_time == old(self).current_time,
            final(self).config == old(self).config,
            final(self).stats == old(self).stats,
            final(self).rng_seed == old(self).rng_seed,
            final(self).next_match_id == old(self).next_match_id,
            final(self).next_search_id == old(self).next_search_id,
            final(self).arrival_rate_milli == old(self).arrival_rate_milli,
    {
        let n: usize = self.players.len();
        if n == 0 {
            return ;
        }
        let ghost p0 = self.players@;
        // First pass: percentiles from ranks, read-only.
        let mut pcts: Vec<u64> = Vec::new();
        let mut i: usize = 0;
        while i < n
            invariant
                i <= n,
                n == self.players@.len(),
                1 <= n <= 1000000000,
                p0 == self.players@,
                pcts@.len() == i,
                forall|a: int|
                    0 <= a < i ==> #[trigger] pcts@[a] == spec_percentile_milli(
                        spec_rank(p0, a),
                        n as int,
                    ),
                forall|a: int| 0 <= a < i ==> #[trigger] pcts@[a] <= 1000,
            decreases n - i,
        {
            let mut rank: u64 = 0;
            let mut j: usize = 0;
            let si: i64 = self.players[i].skill_milli;
            while j < n
                invariant
                    j <= n,
                    i < n,
                    n == self.players@.len(),
                    p0 == self.players@,
                    si == p0[i as int].skill_milli,
                    rank == count_ranked_below(p0, i as int, j as int),
                    rank <= j,
                decreases n - j,
            {
                let sj: i64 = self.players[j].skill_milli;
                if sj < si || (sj == si && j < i) {
                    rank = rank + 1;
                }
                j = j + 1;
            }
            proof {
                lemma_rank_bound(p0, i as int, n as int);
                lemma_rank_strict(p0, i as int, n as int);
                assert((1000 * (rank as int) + 500) / (n as int) <= 1000) by (nonlinear_arith)
                    requires 0 <= rank < n, n >= 1;
                assert((1000 * (rank as int) + 500) / (n as int) >= 0) by (nonlinear_arith)
                    requires 0 <= rank, n >= 1;
            }
            let pct: u64 = (1000 * rank + 500) / (n as u64);
            pcts.push(pct);
            i = i + 1;
        }
        // Second pass: write the percentile and refresh the bucket.
        let nb: usize = self.config.num_skill_buckets;
        let mut k: usize = 0;
        while k < n
            invariant
                k <= n,
                n == self.players@.len(),
                self.wf(),
                nb == self.config.num_skill_buckets,
                pcts@.len() == n,
                forall|a: int|
                    0 <= a < n ==> #[trigger] pcts@[a] == spec_percentile_milli(
                        spec_rank(p0, a),
                        n as int,
                    ),
                forall|a: int| 0 <= a < n ==> #[trigger] pcts@[a] <= 1000,
                forall|a: int| k <= a < n ==> #[trigger] self.players@[a] == p0[a],
                forall|a: int|
                    0 <= a < k ==> {
                        &&& same_but_rank(p0[a], #[trigger] self.players@[a])
                        &&& self.players@[a].skill_percentile_milli == pcts@[a]
                        &&& self.players@[a].skill_bucket == Player::spec_bucket(
                            pcts@[a],
                            nb,
                        )
                    },
                self.data_centers == old(self).data_centers,
                self.searches == old(self).searches,
                self.matches == old(self).matches,
                self.current_time == old(self).current_time,
                self.config == old(self).config,
                self.stats == old(self).stats,
                self.rng_seed == old(self).rng_seed,
                self.next_match_id == old(self).next_match_id,
                self.next_search_id == old(self).next_search_id,
                self.arrival_rate_milli == old(self).arrival_rate_milli,
            decreases n - k,
        {
            let ghost at_entry = *self;
            let mut p: Player = self.players.remove(k);
            p.skill_percentile_milli = pcts[k];
            p.update_skill_bucket(nb);
            self.players.insert(k, p);
            proof {
                assert(self.players@ =~= at_entry.players@.update(k as int, self.players@[k as int]));
                assert(same_but_rank(p0[k as int], self.players@[k as int]));
                // Only the derived skill-rank fields changed, so every
                // cross-reference of the invariant is untouched.
                assert forall|a: int| 0 <= a < n implies (#[trigger] self.players@[a]).wf(
                    self.n_dcs(),
                    self.config.num_skill_buckets as int,
                ) && self.players@[a].id == a && self.players@[a].state == at_entry.players@[a].state
                    && self.players@[a].current_match == at_entry.players@[a].current_match
                    && self.players@[a].wins + self.players@[a].losses
                    == self.players@[a].matches_played by {
                    assert(at_entry.players@[a].wf(
                        at_entry.n_dcs(),
                        at_entry.config.num_skill_buckets as int,
                    ));
                }
                assert forall|a: int, pid: usize|
                    0 <= a < self.searches@.len() && #[trigger] search_has(self.searches@[a], pid)
                        implies self.players@[pid as int].state == PlayerState::Searching by {
                    assert(at_entry.searches@[a] == self.searches@[a]);
                    assert(search_has(at_entry.searches@[a], pid));
                    assert(at_entry.players@[pid as int].state == PlayerState::Searching);
                    assert(at_entry.searches@[a].wf(at_entry.n_dcs()));
                    assert(at_entry.searches@[a].player_ids@.len() == 1);
                    let w = choose|w: int|
                        0 <= w < at_entry.searches@[a].player_ids@.len()
                            && at_entry.searches@[a].player_ids@[w] == pid;
                    assert(pid == owner(at_entry.searches@[a]));
                    assert(owner(at_entry.searches@[a]) < at_entry.players@.len());
                    if pid as int == k as int {
                        assert(same_but_rank(p0[k as int], self.players@[k as int]));
                    }
                    assert(self.players@[pid as int].state == at_entry.players@[pid as int].state);
                }
                assert forall|j2: int| 0 <= j2 < self.matches@.len() implies self.match_wf(
                    #[trigger] self.matches@[j2],
                ) by {
                    assert(at_entry.matches@[j2] == self.matches@[j2]);
                    assert(at_entry.match_wf(at_entry.matches@[j2]));
                    assert forall|pid: usize| #[trigger] match_contains(self.matches@[j2], pid)
                        implies pid < self.n_players() && self.players@[pid as int].state
                        == PlayerState::InMatch && self.players@[pid as int].current_match == Some(
                        self.matches@[j2].id,
                    ) by {
                        assert(match_contains(at_entry.matches@[j2], pid));
                        assert(at_entry.players@[pid as int].state == PlayerState::InMatch);
                    }
                }
                assert forall|i2: int|
                    0 <= i2 < self.n_players() && (#[trigger] self.players@[i2]).state
                        == PlayerState::InMatch implies exists|j2: int|
                    0 <= j2 < self.matches@.len() && (#[trigger] self.matches@[j2]).id
                        == self.players@[i2].current_match->0 && match_contains(
                        self.matches@[j2],
                        i2 as usize,
                    ) by {
                    assert(at_entry.players@[i2].state == PlayerState::InMatch);
                    let j2 = choose|j2: int|
                        0 <= j2 < at_entry.matches@.len() && (#[trigger] at_entry.matches@[j2]).id
                            == at_entry.players@[i2].current_match->0 && match_contains(
                            at_entry.matches@[j2],
                            i2 as usize,
                        );
                    assert(self.matches@[j2] == at_entry.matches@[j2]);
                    assert(match_contains(self.matches@[j2], i2 as usize));
                }
            }
            k = k + 1;
        }
    }
}


impl Simulation {
    /// Whether one profile is consistent with the registered data centers.
    pub open spec fn profile_ok(self, p: PlayerProfile) -> bool {
        &&& p.location.wf()
        &&& -1000 <= p.skill_milli <= 1000
        &&& p.dc_pings@.len() == self.n_dcs()
        &&& forall|d: int| 0 <= d < p.dc_pings@.len() ==> #[trigger] p.dc_pings@[d] <= SAMPLE_CAP
    }

    /// Bulk-ingest a population: all players enter `Offline`, and the
    /// skill percentiles and buckets are recomputed over the whole
    /// table. An empty data-center set or an inconsistent record is a
    /// structured failure that leaves the state unchanged.
    pub fn ingest_players(&mut self, profiles: Vec<PlayerProfile>) -> (r: Result<(), SimError>)
        requires
            old(self).wf(),
            old(self).players@.len() + profiles@.len() <= 1000000000,
        ensures
            final(self).wf(),
            r is Ok <==> (old(self).data_centers@.len() > 0 && forall|i: int|
                0 <= i < profiles@.len() ==> old(self).profile_ok(#[trigger] profiles@[i])),
            r is Err ==> *final(self) == *old(self),
            r is Err ==> (r->Err_0 == SimError::NoDataCenters || r->Err_0
                == SimError::InvalidPlayer),
            r is Ok ==> {
                &&& final(self).players@.len() == old(self).players@.len() + profiles@.len()
                &&& forall|i: int|
                    old(self).players@.len() <= i < final(self).players@.len() ==> {
                        &&& (#[trigger] final(self).players@[i]).state == PlayerState::Offline
                        &&& final(self).players@[i].location == profiles@[i - old(self).players@.len()].location
                        &&& final(self).players@[i].skill_milli == profiles@[i - old(self).players@.len()].skill_milli
                        &&& final(self).players@[i].matches_played == 0
                    }
                &&& final(self).data_centers == old(self).data_centers
                &&& final(self).searches == old(self).searches
                &&& final(self).matches == old(self).matches
                &&& final(self).current_time == old(self).current_time
                &&& final(self).config == old(self).config
                &&& final(self).rng_seed == old(self).rng_seed
            },
    {
        let n_dcs: usize = self.data_centers.len();
        if n_dcs == 0 {
            return Err(SimError::NoDataCenters);
        }
        // Validate every record before touching the state.
        let mut v: usize = 0;
        while v < profiles.len()
            invariant
                v <= profiles@.len(),
                n_dcs == self.n_dcs(),
                n_dcs >= 1,
                *self == *old(self),
                self.wf(),
                forall|i: int| 0 <= i < v ==> self.profile_ok(#[trigger] profiles@[i]),
            decreases profiles@.len() - v,
        {
            let p: &PlayerProfile = &profiles[v];
            let ok: bool = p.location.lat_mdeg >= -90000 && p.location.lat_mdeg <= 90000
                && p.location.lon_mdeg >= -180000 && p.location.lon_mdeg <= 180000
                && p.skill_milli >= -1000 && p.skill_milli <= 1000 && p.dc_pings.len() == n_dcs;
            if !ok {
                proof {
                    assert(!old(self).profile_ok(profiles@[v as int]));
                }
                return Err(SimError::InvalidPlayer);
            }
            let mut d: usize = 0;
            while d < p.dc_pings.len()
                invariant
                    d <= p.dc_pings@.len(),
                    v < profiles@.len(),
                    *p == profiles@[v as int],
                    *self == *old(self),
                    self.wf(),
                    forall|e: int| 0 <= e < d ==> #[trigger] p.dc_pings@[e] <= SAMPLE_CAP,
                decreases p.dc_pings@.len() - d,
            {
                if p.dc_pings[d] > SAMPLE_CAP {
                    proof {
                        assert(profiles@[v as int].dc_pings@[d as int] > SAMPLE_CAP);
                        assert(!old(self).profile_ok(profiles@[v as int]));
                    }
                    return Err(SimError::InvalidPlayer);
                }
                d = d + 1;
            }
            v = v + 1;
        }
        // Build the players; ids continue from the current table.
        let ghost pre = *self;
        let mut w: usize = 0;
        while w < profiles.len()
            invariant
                w <= profiles@.len(),
                n_dcs == self.n_dcs(),
                n_dcs >= 1,
                self.wf(),
                forall|i: int| 0 <= i < profiles@.len() ==> pre.profile_ok(#[trigger] profiles@[i]),
                self.players@.len() == pre.players@.len() + w,
                pre.players@.len() + profiles@.len() <= 1000000000,
                forall|i: int| 0 <= i < pre.players@.len() ==> #[trigger] self.players@[i] == pre.players@[i],
                forall|i: int|
                    pre.players@.len() <= i < self.players@.len() ==> {
                        &&& (#[trigger] self.players@[i]).state == PlayerState::Offline
                        &&& self.players@[i].location == profiles@[i - pre.players@.len()].location
                        &&& self.players@[i].skill_milli == profiles@[i - pre.players@.len()].skill_milli
                        &&& self.players@[i].matches_played == 0
                    },
                self.data_centers == pre.data_centers,
                self.searches == pre.searches,
                self.matches == pre.matches,
                self.current_time == pre.current_time,
                self.config == pre.config,
                self.stats == pre.stats,
                self.rng_seed == pre.rng_seed,
                self.next_match_id == pre.next_match_id,
                self.next_search_id == pre.next_search_id,
                self.arrival_rate_milli == pre.arrival_rate_milli,
            decreases profiles@.len() - w,
        {
            let prof: &PlayerProfile = &profiles[w];
            // Lowest ping decides the home data center.
            let mut best_dc: usize = 0;
            let mut best_ping: u64 = prof.dc_pings[0];
            let mut d: usize = 1;
            while d < prof.dc_pings.len()
                invariant
                    1 <= d <= prof.dc_pings@.len(),
                    best_dc < d,
                    best_ping == prof.dc_pings@[best_dc as int],
                    forall|e: int| 0 <= e < d ==> best_ping <= #[trigger] prof.dc_pings@[e],
                decreases prof.dc_pings@.len() - d,
            {
                if prof.dc_pings[d] < best_ping {
                    best_dc = d;
                    best_ping = prof.dc_pings[d];
                }
                d = d + 1;
            }
            let id: usize = self.players.len();
            let player = Player {
                id,
                location: prof.location,
                platform: prof.platform,
                input_device: prof.input_device,
                voice_chat_enabled: prof.voice_chat_enabled,
                skill_milli: prof.skill_milli,
                skill_percentile_milli: 500,
                skill_bucket: 1,
                state: PlayerState::Offline,
                current_match: None,
                party_id: None,
                preferred_playlists: prof.preferred_playlists,
                dc_pings: prof.dc_pings.clone(),
                best_dc: Some(best_dc),
                best_ping,
                search_start_time: None,
                matches_played: 0,
                total_kills: 0,
                total_deaths: 0,
                wins: 0,
                losses: 0,
                recent_delta_pings: Vec::new(),
                recent_search_times: Vec::new(),
                recent_blowouts: Vec::new(),
                continuation_prob_milli: 850,
            };
            let ghost at_entry = *self;
            self.players.push(player);
            proof {
                assert(pre.profile_ok(profiles@[w as int]));
                assert(self.players@[id as int].wf(
                    self.n_dcs(),
                    self.config.num_skill_buckets as int,
                ));
                assert forall|a: int, pid: usize|
                    0 <= a < self.searches@.len() && #[trigger] search_has(self.searches@[a], pid)
                        implies self.players@[pid as int].state == PlayerState::Searching by {
                    assert(at_entry.searches@[a] == self.searches@[a]);
                    assert(search_has(at_entry.searches@[a], pid));
                    assert(at_entry.searches@[a].wf(at_entry.n_dcs()));
                    let w2 = choose|w2: int|
                        0 <= w2 < at_entry.searches@[a].player_ids@.len()
                            && at_entry.searches@[a].player_ids@[w2] == pid;
                    assert(pid == owner(at_entry.searches@[a]));
                    assert(owner(at_entry.searches@[a]) < at_entry.players@.len());
                    assert(at_entry.players@[pid as int].state == PlayerState::Searching);
                }
                assert forall|j2: int| 0 <= j2 < self.matches@.len() implies self.match_wf(
                    #[trigger] self.matches@[j2],
                ) by {
                    assert(at_entry.matches@[j2] == self.matches@[j2]);
                    assert(at_entry.match_wf(at_entry.matches@[j2]));
                    assert forall|pid: usize| #[trigger] match_contains(self.matches@[j2], pid)
                        implies pid < self.n_players() && self.players@[pid as int].state
                        == PlayerState::InMatch && self.players@[pid as int].current_match == Some(
                        self.matches@[j2].id,
                    ) by {
                        assert(match_contains(at_entry.matches@[j2], pid));
                        assert(pid < at_entry.n_players());
                    }
                }
                assert forall|i2: int|
                    0 <= i2 < self.n_players() && (#[trigger] self.players@[i2]).state
                        == PlayerState::InMatch implies exists|j2: int|
                    0 <= j2 < self.matches@.len() && (#[trigger] self.matches@[j2]).id
                        == self.players@[i2].current_match->0 && match_contains(
                        self.matches@[j2],
                        i2 as usize,
                    ) by {
                    assert(i2 < at_entry.n_players());
                    assert(at_entry.players@[i2].state == PlayerState::InMatch);
                    let j2 = choose|j2: int|
                        0 <= j2 < at_entry.matches@.len() && (#[trigger] at_entry.matches@[j2]).id
                            == at_entry.players@[i2].current_match->0 && match_contains(
                            at_entry.matches@[j2],
                            i2 as usize,
                        );
                    assert(self.matches@[j2] == at_entry.matches@[j2]);
                    assert(match_contains(self.matches@[j2], i2 as usize));
                }
            }
            w = w + 1;
        }
        self.update_skill_percentiles();
        Ok(())
    }
}


/// Counter offset of player `i`'s search-start draw: one draw per
/// lobby player, in index order.
pub open spec fn count_lobby_before(s: Seq<Player>, i: int) -> int {
    count_state(s.subrange(0, i), PlayerState::InLobby)
}

/// Whether the player at index `i` starts searching this tick: it is in
/// the lobby and its Bernoulli(0.3) draw of the named stream fires.
pub open spec fn spec_starts_search(s: Seq<Player>, ts: u64, ctr0: u64, i: int) -> bool {
    s[i].state == PlayerState::InLobby && DrawStream::spec_bernoulli(
        ts,
        vstd::wrapping::u64_specs::wrapping_add(ctr0, count_lobby_before(s, i) as u64),
        300,
    )
}

/// Number of starters among the first `i` players.
pub open spec fn count_starts_before(s: Seq<Player>, ts: u64, ctr0: u64, i: int) -> int
    decreases i,
{
    if i <= 0 {
        0
    } else {
        count_starts_before(s, ts, ctr0, i - 1) + (if 0 <= i - 1 < s.len() && spec_starts_search(
            s,
            ts,
            ctr0,
            i - 1,
        ) {
            1int
        } else {
            0int
        })
    }
}

pub proof fn lemma_csb_mono(s: Seq<Player>, ts: u64, c0: u64, a: int, b: int)
    requires
        a <= b,
    ensures
        count_starts_before(s, ts, c0, a) <= count_starts_before(s, ts, c0, b),
    decreases b - a,
{
    if a < b {
        lemma_csb_mono(s, ts, c0, a, b - 1);
    }
}

/// Advancing a wrapped counter one more step lands where a single
/// wrapped step of the incremented offset lands.
pub proof fn lemma_wrapping_add_chain(c0: u64, j: u64)
    requires
        j < 0xffffffffffffffff,
    ensures
        vstd::wrapping::u64_specs::wrapping_add(
            vstd::wrapping::u64_specs::wrapping_add(c0, j),
            1,
        ) == vstd::wrapping::u64_specs::wrapping_add(c0, (j + 1) as u64),
{
}

/// A player record changed only in its lifecycle state.
pub open spec fn same_but_state(a: Player, b: Player) -> bool {
    b == (Player { state: b.state, ..a })
}

impl Simulation {
    /// Poisson arrivals: exactly the first `min(k, #offline)` offline
    /// players in id order are promoted to the lobby, where `k` is the
    /// Poisson draw of the tick's named stream. A zero rate promotes
    /// nobody.
    pub fn process_arrivals(&mut self, ds: &mut DrawStream)
        requires
            old(self).wf(),
        ensures
            final(self).wf(),
            final(self).players@.len() == old(self).players@.len(),
            forall|i: int|
                0 <= i < final(self).players@.len() ==> #[trigger] final(self).players@[i] == (
                if old(self).players@[i].state == PlayerState::Offline && count_state(
                    old(self).players@.subrange(0, i),
                    PlayerState::Offline,
                ) < crate::rng::spec_poisson_from(
                    old(ds).tick_seed,
                    old(ds).counter,
                    SCALE12,
                    crate::units::spec_exp_neg_milli(old(self).arrival_rate_milli),
                ).0 {
                    (Player { state: PlayerState::InLobby, ..old(self).players@[i] })
                } else {
                    old(self).players@[i]
                }),
            forall|i: int|
                0 <= i < final(self).players@.len() ==> (#[trigger] final(self).players@[i]
                    == old(self).players@[i] || (old(self).players@[i].state
                    == PlayerState::Offline && same_but_state(
                    old(self).players@[i],
                    final(self).players@[i],
                ) && final(self).players@[i].state == PlayerState::InLobby)),
            old(self).arrival_rate_milli == 0 ==> final(self).players == old(self).players,
            final(self).searches == old(self).searches,
            final(self).matches == old(self).matches,
            final(self).data_centers == old(self).data_centers,
            final(self).stats == old(self).stats,
            final(self).config == old(self).config,
            final(self).current_time == old(self).current_time,
            final(self).rng_seed == old(self).rng_seed,
            final(self).next_match_id == old(self).next_match_id,
            final(self).next_search_id == old(self).next_search_id,
            final(self).arrival_rate_milli == old(self).arrival_rate_milli,
    {
        let k: u64 = ds.poisson(self.arrival_rate_milli);
        let ghost kk = crate::rng::spec_poisson_from(
            old(ds).tick_seed,
            old(ds).counter,
            SCALE12,
            crate::units::spec_exp_neg_milli(old(self).arrival_rate_milli),
        ).0;
        let n: usize = self.players.len();
        let mut promoted: u64 = 0;
        let mut i: usize = 0;
        proof {
            assert(old(self).players@.subrange(0, 0) =~= Seq::<Player>::empty());
        }
        while i < n
            invariant
                i <= n,
                n == self.players@.len(),
                n == old(self).players@.len(),
                self.wf(),
                old(self).arrival_rate_milli == 0 ==> k == 0,
                k == 0 ==> promoted == 0,
                promoted <= k,
                k == kk,
                promoted == (if count_state(
                    old(self).players@.subrange(0, i as int),
                    PlayerState::Offline,
                ) < kk {
                    count_state(old(self).players@.subrange(0, i as int), PlayerState::Offline)
                } else {
                    kk
                }),
                forall|a: int|
                    0 <= a < i ==> #[trigger] self.players@[a] == (if old(self).players@[a].state
                        == PlayerState::Offline && count_state(
                        old(self).players@.subrange(0, a),
                        PlayerState::Offline,
                    ) < kk {
                        (Player { state: PlayerState::InLobby, ..old(self).players@[a] })
                    } else {
                        old(self).players@[a]
                    }),
                forall|a: int| i <= a < n ==> #[trigger] self.players@[a] == old(self).players@[a],
                forall|a: int|
                    0 <= a < n ==> (#[trigger] self.players@[a] == old(self).players@[a] || (
                    old(self).players@[a].state == PlayerState::Offline && same_but_state(
                        old(self).players@[a],
                        self.players@[a],
                    ) && self.players@[a].state == PlayerState::InLobby)),
                promoted == 0 ==> self.players == old(self).players,
                self.searches == old(self).searches,
                self.matches == old(self).matches,
                self.data_centers == old(self).data_centers,
                self.stats == old(self).stats,
                self.config == old(self).config,
                self.current_time == old(self).current_time,
                self.rng_seed == old(self).rng_seed,
                self.next_match_id == old(self).next_match_id,
                self.next_search_id == old(self).next_search_id,
                self.arrival_rate_milli == old(self).arrival_rate_milli,
            decreases n - i,
        {
            proof {
                assert(old(self).players@.subrange(0, i + 1).drop_last() == old(
                    self,
                ).players@.subrange(0, i as int));
            }
            if promoted < k && self.players[i].state == PlayerState::Offline {
                let ghost at_entry = *self;
                let mut p: Player = self.players.remove(i);
                p.state = PlayerState::InLobby;
                self.players.insert(i, p);
                promoted = promoted + 1;
                proof {
                    assert(self.players@ =~= at_entry.players@.update(
                        i as int,
                        self.players@[i as int],
                    ));
                    assert(same_but_state(at_entry.players@[i as int], self.players@[i as int]));
                    assert forall|a: int, pid: usize|
                        0 <= a < self.searches@.len() && #[trigger] search_has(
                            self.searches@[a],
                            pid,
                        ) implies self.players@[pid as int].state == PlayerState::Searching by {
                        assert(at_entry.searches@[a] == self.searches@[a]);
                        assert(search_has(at_entry.searches@[a], pid));
                        assert(at_entry.players@[pid as int].state == PlayerState::Searching);
                        assert(at_entry.searches@[a].wf(at_entry.n_dcs()));
                        let w2 = choose|w2: int|
                            0 <= w2 < at_entry.searches@[a].player_ids@.len()
                                && at_entry.searches@[a].player_ids@[w2] == pid;
                        assert(pid == owner(at_entry.searches@[a]));
                        assert(owner(at_entry.searches@[a]) < at_entry.players@.len());
                        assert(pid as int != i as int);
                    }
                    assert forall|j2: int| 0 <= j2 < self.matches@.len() implies self.match_wf(
                        #[trigger] self.matches@[j2],
                    ) by {
                        assert(at_entry.matches@[j2] == self.matches@[j2]);
                        assert(at_entry.match_wf(at_entry.matches@[j2]));
                        assert forall|pid: usize| #[trigger] match_contains(self.matches@[j2], pid)
                            implies pid < self.n_players() && self.players@[pid as int].state
                            == PlayerState::InMatch && self.players@[pid as int].current_match
                            == Some(self.matches@[j2].id) by {
                            assert(match_contains(at_entry.matches@[j2], pid));
                            assert(at_entry.players@[pid as int].state == PlayerState::InMatch);
                            assert(pid as int != i as int);
                        }
                    }
                    assert forall|i2: int|
                        0 <= i2 < self.n_players() && (#[trigger] self.players@[i2]).state
                            == PlayerState::InMatch implies exists|j2: int|
                        0 <= j2 < self.matches@.len() && (#[trigger] self.matches@[j2]).id
                            == self.players@[i2].current_match->0 && match_contains(
                            self.matches@[j2],
                            i2 as usize,
                        ) by {
                        assert(i2 != i as int);
                        assert(at_entry.players@[i2].state == PlayerState::InMatch);
                        let j2 = choose|j2: int|
                            0 <= j2 < at_entry.matches@.len() && (#[trigger] at_entry.matches@[j2]).id
                                == at_entry.players@[i2].current_match->0 && match_contains(
                                at_entry.matches@[j2],
                                i2 as usize,
                            );
                        assert(self.matches@[j2] == at_entry.matches@[j2]);
                        assert(match_contains(self.matches@[j2], i2 as usize));
                    }
                }
            }
            i = i + 1;
        }
        proof {
            assert(old(self).players@.subrange(0, n as int) == old(self).players@);
        }
    }

    /// Each lobby player independently begins searching exactly when
    /// its Bernoulli(0.3) draw of the named stream fires, creating its
    /// search object stamped with the current tick; one search is
    /// appended per starter, in index order.
    #[verifier::rlimit(100)]
    pub fn process_search_starts(&mut self, ds: &mut DrawStream)
        requires
            old(self).wf(),
        ensures
            final(self).wf(),
            final(self).players@.len() == old(self).players@.len(),
            final(self).searches@.len() >= old(self).searches@.len(),
            final(self).searches@.len() <= old(self).searches@.len() + old(self).players@.len(),
            // Exactly the stream's decisions: who starts, and one queue
            // entry per starter at its rank among the starters.
            forall|i: int|
                0 <= i < old(self).players@.len() ==> #[trigger] final(self).players@[i] == (
                if spec_starts_search(old(self).players@, old(ds).tick_seed, old(ds).counter, i) {
                    (Player {
                        state: PlayerState::Searching,
                        search_start_time: Some(old(self).current_time),
                        ..old(self).players@[i]
                    })
                } else {
                    old(self).players@[i]
                }),
            final(self).searches@.len() == old(self).searches@.len() + count_starts_before(
                old(self).players@,
                old(ds).tick_seed,
                old(ds).counter,
                old(self).players@.len() as int,
            ),
            forall|i: int|
                0 <= i < old(self).players@.len() && spec_starts_search(
                    old(self).players@,
                    old(ds).tick_seed,
                    old(ds).counter,
                    i,
                ) ==> owner(
                    #[trigger] final(self).searches@[old(self).searches@.len()
                        + count_starts_before(
                        old(self).players@,
                        old(ds).tick_seed,
                        old(ds).counter,
                        i,
                    )],
                ) == i,
            final(ds).tick_seed == old(ds).tick_seed,
            final(ds).counter == vstd::wrapping::u64_specs::wrapping_add(
                old(ds).counter,
                count_lobby_before(old(self).players@, old(self).players@.len() as int) as u64,
            ),
            forall|a: int|
                0 <= a < old(self).searches@.len() ==> #[trigger] final(self).searches@[a] == old(self).searches@[a],
            (forall|i: int|
                0 <= i < old(self).players@.len() ==> (#[trigger] old(self).players@[i]).state
                    != PlayerState::InLobby) ==> final(self).players == old(self).players && final(self).searches == old(self).searches && final(self).next_search_id == old(self).next_search_id,
            // Only lobby players may change, each to Searching with a
            // fresh search stamped at the current tick.
            forall|i: int|
                0 <= i < old(self).players@.len() ==> (#[trigger] final(self).players@[i] == old(self).players@[i] || (old(self).players@[i].state == PlayerState::InLobby && final(self).players@[i] == (Player {
                    state: PlayerState::Searching,
                    search_start_time: Some(old(self).current_time),
                    ..old(self).players@[i]
                }))),
            forall|a: int|
                old(self).searches@.len() <= a < final(self).searches@.len() ==> {
                    &&& (#[trigger] final(self).searches@[a]).player_ids@.len() == 1
                    &&& owner(final(self).searches@[a]) < old(self).players@.len()
                    &&& old(self).players@[owner(final(self).searches@[a]) as int].state
                        == PlayerState::InLobby
                    &&& final(self).searches@[a].search_start_time == old(self).current_time
                    &&& final(self).searches@[a].avg_skill_percentile_milli == old(self).players@[owner(final(self).searches@[a]) as int].skill_percentile_milli
                    &&& final(self).searches@[a].skill_disparity_milli == 0
                    &&& final(self).searches@[a].acceptable_playlists == old(self).players@[owner(
                        final(self).searches@[a],
                    ) as int].preferred_playlists
                },
            final(self).matches == old(self).matches,
            final(self).data_centers == old(self).data_centers,
            final(self).stats == old(self).stats,
            final(self).config == old(self).config,
            final(self).current_time == old(self).current_time,
            final(self).rng_seed == old(self).rng_seed,
            final(self).next_match_id == old(self).next_match_id,
            final(self).arrival_rate_milli == old(self).arrival_rate_milli,
    {
        let n: usize = self.players.len();
        let n_dcs: usize = self.data_centers.len();
        let mut i: usize = 0;
        while i < n
            invariant
                i <= n,
                n == self.players@.len(),
                n == old(self).players@.len(),
                n_dcs == self.n_dcs(),
                self.wf(),
                self.searches@.len() >= old(self).searches@.len(),
                self.searches@.len() <= old(self).searches@.len() + i,
                ds.tick_seed == old(ds).tick_seed,
                ds.counter == vstd::wrapping::u64_specs::wrapping_add(
                    old(ds).counter,
                    count_lobby_before(old(self).players@, i as int) as u64,
                ),
                self.searches@.len() == old(self).searches@.len() + count_starts_before(
                    old(self).players@,
                    old(ds).tick_seed,
                    old(ds).counter,
                    i as int,
                ),
                forall|i2: int|
                    0 <= i2 < i ==> #[trigger] self.players@[i2] == (if spec_starts_search(
                        old(self).players@,
                        old(ds).tick_seed,
                        old(ds).counter,
                        i2,
                    ) {
                        (Player {
                            state: PlayerState::Searching,
                            search_start_time: Some(old(self).current_time),
                            ..old(self).players@[i2]
                        })
                    } else {
                        old(self).players@[i2]
                    }),
                forall|i2: int| i <= i2 < n ==> #[trigger] self.players@[i2] == old(self).players@[i2],
                forall|i2: int|
                    0 <= i2 < i && spec_starts_search(
                        old(self).players@,
                        old(ds).tick_seed,
                        old(ds).counter,
                        i2,
                    ) ==> owner(
                        #[trigger] self.searches@[old(self).searches@.len() + count_starts_before(
                            old(self).players@,
                            old(ds).tick_seed,
                            old(ds).counter,
                            i2,
                        )],
                    ) == i2,
                forall|a: int|
                    0 <= a < old(self).searches@.len() ==> #[trigger] self.searches@[a] == old(self).searches@[a],
                (forall|i2: int|
                    0 <= i2 < old(self).players@.len() ==> (#[trigger] old(self).players@[i2]).state != PlayerState::InLobby) ==> self.players == old(self).players && self.searches == old(self).searches && self.next_search_id == old(self).next_search_id,
                forall|i2: int|
                    0 <= i2 < old(self).players@.len() ==> (#[trigger] self.players@[i2] == old(self).players@[i2] || (old(self).players@[i2].state == PlayerState::InLobby
                        && self.players@[i2] == (Player {
                        state: PlayerState::Searching,
                        search_start_time: Some(old(self).current_time),
                        ..old(self).players@[i2]
                    }))),
                forall|a: int|
                    old(self).searches@.len() <= a < self.searches@.len() ==> {
                        &&& (#[trigger] self.searches@[a]).player_ids@.len() == 1
                        &&& owner(self.searches@[a]) < old(self).players@.len()
                        &&& old(self).players@[owner(self.searches@[a]) as int].state
                            == PlayerState::InLobby
                        &&& self.searches@[a].search_start_time == old(self).current_time
                        &&& self.searches@[a].avg_skill_percentile_milli == old(self).players@[owner(self.searches@[a]) as int].skill_percentile_milli
                        &&& self.searches@[a].skill_disparity_milli == 0
                        &&& self.searches@[a].acceptable_playlists == old(self).players@[owner(
                            self.searches@[a],
                        ) as int].preferred_playlists
                    },
                self.matches == old(self).matches,
                self.data_centers == old(self).data_centers,
                self.stats == old(self).stats,
                self.config == old(self).config,
                self.current_time == old(self).current_time,
                self.rng_seed == old(self).rng_seed,
                self.next_match_id == old(self).next_match_id,
                self.arrival_rate_milli == old(self).arrival_rate_milli,
            decreases n - i,
        {
            proof {
                assert(old(self).players@.subrange(0, i + 1).drop_last() == old(
                    self,
                ).players@.subrange(0, i as int));
                assert(self.players@[i as int] == old(self).players@[i as int]);
                lemma_count_state_bound(
                    old(self).players@.subrange(0, i as int),
                    PlayerState::InLobby,
                );
            }
            let ghost j = count_lobby_before(old(self).players@, i as int);
            if self.players[i].state == PlayerState::InLobby {
                let started: bool = ds.bernoulli(300);
                proof {
                    lemma_wrapping_add_chain(old(ds).counter, j as u64);
                    assert(started == spec_starts_search(
                        old(self).players@,
                        old(ds).tick_seed,
                        old(ds).counter,
                        i as int,
                    ));
                }
                if started {
                    let ghost at_entry = *self;
                    let mut p: Player = self.players.remove(i);
                    p.state = PlayerState::Searching;
                    p.search_start_time = Some(self.current_time);
                    let mut ids: Vec<usize> = Vec::new();
                    ids.push(i);
                    let mut mask: Vec<bool> = Vec::new();
                    let mut d: usize = 0;
                    while d < n_dcs
                        invariant
                            d <= n_dcs,
                            mask@.len() == d,
                        decreases n_dcs - d,
                    {
                        mask.push(false);
                        d = d + 1;
                    }
                    let so = SearchObject {
                        id: self.next_search_id,
                        player_ids: ids,
                        avg_skill_percentile_milli: p.skill_percentile_milli,
                        skill_disparity_milli: 0,
                        avg_location: p.location,
                        platforms: PlatformCounts::one(p.platform),
                        input_devices: InputCounts::one(p.input_device),
                        acceptable_playlists: p.preferred_playlists,
                        search_start_time: self.current_time,
                        acceptable_dcs: mask,
                    };
                    self.players.insert(i, p);
                    self.searches.push(so);
                    self.next_search_id = self.next_search_id.wrapping_add(1);
                    proof {
                        assert(self.players@ =~= at_entry.players@.update(
                            i as int,
                            self.players@[i as int],
                        ));
                        let m = self.searches@.len() - 1;
                        assert(self.searches@[m].wf(n_dcs as int));
                        assert(self.searches@[m].player_ids@[0] == i);
                        assert(owner(self.searches@[m]) == i);
                        assert(m == old(self).searches@.len() + count_starts_before(
                            old(self).players@,
                            old(ds).tick_seed,
                            old(ds).counter,
                            i as int,
                        ));
                        assert forall|i2: int|
                            0 <= i2 < i && spec_starts_search(
                                old(self).players@,
                                old(ds).tick_seed,
                                old(ds).counter,
                                i2,
                            ) implies owner(
                            #[trigger] self.searches@[old(self).searches@.len()
                                + count_starts_before(
                                old(self).players@,
                                old(ds).tick_seed,
                                old(ds).counter,
                                i2,
                            )],
                        ) == i2 by {
                            lemma_csb_mono(
                                old(self).players@,
                                old(ds).tick_seed,
                                old(ds).counter,
                                i2 + 1,
                                i as int,
                            );
                            assert(count_starts_before(
                                old(self).players@,
                                old(ds).tick_seed,
                                old(ds).counter,
                                i2 + 1,
                            ) == count_starts_before(
                                old(self).players@,
                                old(ds).tick_seed,
                                old(ds).counter,
                                i2,
                            ) + 1);
                            let idx = old(self).searches@.len() + count_starts_before(
                                old(self).players@,
                                old(ds).tick_seed,
                                old(ds).counter,
                                i2,
                            );
                            lemma_csb_mono(
                                old(self).players@,
                                old(ds).tick_seed,
                                old(ds).counter,
                                0,
                                i2,
                            );
                            assert(idx < m);
                            assert(0 <= idx);
                            assert(owner(at_entry.searches@[idx]) == i2);
                            assert(self.searches@ =~= at_entry.searches@.push(
                                self.searches@[m as int],
                            ));
                            assert(at_entry.searches@.push(self.searches@[m as int])[idx]
                                == at_entry.searches@[idx]);
                            assert(self.searches@[idx] == at_entry.searches@[idx]);
                        }
                        assert forall|a: int, pid: usize|
                            0 <= a < self.searches@.len() && #[trigger] search_has(
                                self.searches@[a],
                                pid,
                            ) implies self.players@[pid as int].state == PlayerState::Searching by {
                            if a < m {
                                assert(at_entry.searches@[a] == self.searches@[a]);
                                assert(search_has(at_entry.searches@[a], pid));
                                assert(at_entry.players@[pid as int].state
                                    == PlayerState::Searching);
                                assert(at_entry.searches@[a].wf(at_entry.n_dcs()));
                                let w2 = choose|w2: int|
                                    0 <= w2 < at_entry.searches@[a].player_ids@.len()
                                        && at_entry.searches@[a].player_ids@[w2] == pid;
                                assert(pid == owner(at_entry.searches@[a]));
                                assert(owner(at_entry.searches@[a]) < at_entry.players@.len());
                                assert(pid as int != i as int);
                            } else {
                                let w2 = choose|w2: int|
                                    0 <= w2 < self.searches@[a].player_ids@.len()
                                        && self.searches@[a].player_ids@[w2] == pid;
                                assert(pid == i);
                            }
                        }
                        assert forall|a: int, b: int, pid: usize|
                            0 <= a < self.searches@.len() && 0 <= b < self.searches@.len() && a != b
                                implies !(#[trigger] search_has(self.searches@[a], pid)
                                && #[trigger] search_has(self.searches@[b], pid)) by {
                            if a < m && b < m {
                                assert(at_entry.searches@[a] == self.searches@[a]);
                                assert(at_entry.searches@[b] == self.searches@[b]);
                                assert(!(search_has(at_entry.searches@[a], pid) && search_has(
                                    at_entry.searches@[b],
                                    pid,
                                )));
                            } else if a == m && b < m {
                                if search_has(self.searches@[a], pid) && search_has(
                                    self.searches@[b],
                                    pid,
                                ) {
                                    let w2 = choose|w2: int|
                                        0 <= w2 < self.searches@[a].player_ids@.len()
                                            && self.searches@[a].player_ids@[w2] == pid;
                                    assert(pid == i);
                                    assert(at_entry.searches@[b] == self.searches@[b]);
                                    assert(search_has(at_entry.searches@[b], pid));
                                    assert(at_entry.players@[pid as int].state
                                        == PlayerState::Searching);
                                    assert(false);
                                }
                            } else if b == m && a < m {
                                if search_has(self.searches@[a], pid) && search_has(
                                    self.searches@[b],
                                    pid,
                                ) {
                                    let w2 = choose|w2: int|
                                        0 <= w2 < self.searches@[b].player_ids@.len()
                                            && self.searches@[b].player_ids@[w2] == pid;
                                    assert(pid == i);
                                    assert(at_entry.searches@[a] == self.searches@[a]);
                                    assert(search_has(at_entry.searches@[a], pid));
                                    assert(at_entry.players@[pid as int].state
                                        == PlayerState::Searching);
                                    assert(false);
                                }
                            }
                        }
                        assert forall|j2: int| 0 <= j2 < self.matches@.len() implies self.match_wf(
                            #[trigger] self.matches@[j2],
                        ) by {
                            assert(at_entry.matches@[j2] == self.matches@[j2]);
                            assert(at_entry.match_wf(at_entry.matches@[j2]));
                            assert forall|pid: usize|
                                #[trigger] match_contains(self.matches@[j2], pid) implies pid
                                < self.n_players() && self.players@[pid as int].state
                                == PlayerState::InMatch && self.players@[pid as int].current_match
                                == Some(self.matches@[j2].id) by {
                                assert(match_contains(at_entry.matches@[j2], pid));
                                assert(at_entry.players@[pid as int].state == PlayerState::InMatch);
                                assert(pid as int != i as int);
                            }
                        }
                        assert forall|i2: int|
                            0 <= i2 < self.n_players() && (#[trigger] self.players@[i2]).state
                                == PlayerState::InMatch implies exists|j2: int|
                            0 <= j2 < self.matches@.len() && (#[trigger] self.matches@[j2]).id
                                == self.players@[i2].current_match->0 && match_contains(
                                self.matches@[j2],
                                i2 as usize,
                            ) by {
                            assert(i2 != i as int);
                            assert(at_entry.players@[i2].state == PlayerState::InMatch);
                            let j2 = choose|j2: int|
                                0 <= j2 < at_entry.matches@.len() && (
                                #[trigger] at_entry.matches@[j2]).id
                                    == at_entry.players@[i2].current_match->0 && match_contains(
                                    at_entry.matches@[j2],
                                    i2 as usize,
                                );
                            assert(self.matches@[j2] == at_entry.matches@[j2]);
                            assert(match_contains(self.matches@[j2], i2 as usize));
                        }
                    }
                }
            }
            i = i + 1;
        }
    }
}


/// Probability in thousandths that team 0 wins, the logistic
/// `1 / (1 + e^(-2 delta))` of the team-skill difference in milli-units.
pub open spec fn spec_win_prob_milli(delta: i64) -> int {
    let a = 2 * (if delta >= 0 {
        delta as int
    } else {
        -delta as int
    });
    let e = crate::units::spec_exp_neg_milli(a as u64);
    let p_hi = 1000 * (SCALE12 as int) / (SCALE12 + e);
    if delta >= 0 {
        p_hi
    } else {
        1000 - p_hi
    }
}

pub fn win_prob_milli(delta: i64) -> (r: u64)
    requires
        -2000 <= delta <= 2000,
    ensures
        r == spec_win_prob_milli(delta),
        r <= 1000,
{
    let neg: i64 = -delta;
    let a: u64 = if delta >= 0 {
        2 * (delta as u64)
    } else {
        2 * (neg as u64)
    };
    let e: u64 = exp_neg_milli(a);
    proof {
        assert(1000 * (SCALE12 as int) / (SCALE12 as int + e as int) <= 1000) by (nonlinear_arith)
            requires 0 <= e <= SCALE12;
        assert(1000 * (SCALE12 as int) / (SCALE12 as int + e as int) >= 0) by (nonlinear_arith)
            requires 0 <= e;
    }
    let p_hi: u64 = ((1000u128 * (SCALE12 as u128)) / ((SCALE12 as u128) + (e as u128))) as u64;
    if delta >= 0 {
        p_hi
    } else {
        1000 - p_hi
    }
}

/// Blowout probability in thousandths, a bounded piecewise function of
/// the absolute team-skill difference and the win-probability imbalance.
pub open spec fn spec_blowout_prob_milli(delta_abs: i64, imbalance: int) -> int {
    if delta_abs > 100 {
        let sc = if delta_abs - 100 <= 400 {
            delta_abs - 100
        } else {
            400
        };
        let raw = 100 + sc + 3 * imbalance / 10;
        if raw <= 900 {
            raw as int
        } else {
            900
        }
    } else if imbalance > 400 {
        imbalance / 2
    } else if delta_abs > 50 {
        50 + imbalance / 10
    } else {
        20
    }
}

pub fn blowout_prob_milli(delta_abs: i64, imbalance: u64) -> (r: u64)
    requires
        0 <= delta_abs <= 2000,
        imbalance <= 1000,
    ensures
        r == spec_blowout_prob_milli(delta_abs, imbalance as int),
        r <= 900,
{
    if delta_abs > 100 {
        let sc: u64 = if delta_abs - 100 <= 400 {
            (delta_abs - 100) as u64
        } else {
            400
        };
        let raw: u64 = 100 + sc + 3 * imbalance / 10;
        if raw <= 900 {
            raw
        } else {
            900
        }
    } else if imbalance > 400 {
        imbalance / 2
    } else if delta_abs > 50 {
        50 + imbalance / 10
    } else {
        20
    }
}

/// Retention probability in thousandths:
/// `clamp(base - 0.2 min(adp/100, 1) - 0.15 min(as/120, 1) - 0.2 br, 0.3, 1)`.
pub open spec fn spec_continue_prob_milli(base: int, adp: int, asearch: int, brate: int) -> int {
    let p1 = if 2 * adp <= 200 {
        2 * adp
    } else {
        200
    };
    let p2 = if 150 * asearch / 120 <= 150 {
        150 * asearch / 120
    } else {
        150
    };
    let p3 = 200 * brate / 1000;
    let raw = base - p1 - p2 - p3;
    if raw < 300 {
        300
    } else if raw > 1000 {
        1000
    } else {
        raw
    }
}

pub fn continue_prob_milli(base: u64, adp: u64, asearch: u64, brate: u64) -> (r: u64)
    requires
        base <= 1000,
        adp <= SAMPLE_CAP,
        asearch <= SAMPLE_CAP,
        brate <= 1000,
    ensures
        r == spec_continue_prob_milli(base as int, adp as int, asearch as int, brate as int),
        300 <= r <= 1000,
{
    let p1: u64 = if 2 * adp <= 200 {
        2 * adp
    } else {
        200
    };
    let p2: u64 = if 150 * asearch / 120 <= 150 {
        150 * asearch / 120
    } else {
        150
    };
    let p3: u64 = 200 * brate / 1000;
    let raw: i64 = (base as i64) - (p1 as i64) - (p2 as i64) - (p3 as i64);
    if raw < 300 {
        300
    } else if raw > 1000 {
        1000
    } else {
        raw as u64
    }
}

/// Whether some proposal of the batch lists player `pid`.
pub open spec fn in_some_proposal(prs: Seq<MatchProposal>, pid: usize) -> bool {
    exists|x: int, k: int|
        0 <= x < prs.len() && 0 <= k < prs[x].player_ids@.len() && #[trigger] prs[x].player_ids@[k]
            == pid
}

/// The structural facts create_matches needs of a batch of proposals.
pub open spec fn proposals_fit(prs: Seq<MatchProposal>, sim: Simulation) -> bool {
    &&& proposals_disjoint(prs)
    &&& forall|x: int|
        0 <= x < prs.len() ==> {
            let pr = #[trigger] prs[x];
            &&& pr.player_ids@.len() == pr.playlist.spec_required_players()
            &&& no_dup(pr.player_ids@)
            &&& pr.teams@.len() == pr.playlist.spec_team_count()
            &&& forall|k: int|
                0 <= k < pr.teams@.len() ==> (#[trigger] pr.teams@[k])@.len()
                    == pr.playlist.spec_required_players() as int
                    / pr.playlist.spec_team_count() as int
            &&& teams_no_dup(teams_view(pr.teams))
            &&& forall|pid: usize|
                teams_contain(teams_view(pr.teams), pid) <==> pr.player_ids@.contains(pid)
            &&& forall|i: int|
                0 <= i < pr.player_ids@.len() ==> {
                    &&& (#[trigger] pr.player_ids@[i]) < sim.n_players()
                    &&& sim.players@[pr.player_ids@[i] as int].state == PlayerState::Searching
                    &&& !from_queue(sim.searches@, pr.player_ids@[i])
                }
            &&& pr.data_center_id < sim.n_dcs()
            &&& pr.skill_disparity_milli <= SAMPLE_CAP
            &&& pr.avg_delta_ping <= SAMPLE_CAP
            &&& pr.avg_wait_seconds <= SAMPLE_CAP
        }
}

/// With zero capacity for a playlist in every data center, the
/// matchmaker never proposes that playlist; searches that accept only
/// that playlist therefore stay queued with widening tolerances.
pub proof fn lemma_zero_capacity_starves(
    prs: Seq<MatchProposal>,
    q0: Seq<SearchObject>,
    players: Seq<Player>,
    dcs: Seq<DataCenter>,
    cfg: MatchmakingConfig,
    p: Playlist,
)
    requires
        forall|x: int| 0 <= x < prs.len() ==> proposal_ok(#[trigger] prs[x], q0, players, dcs, cfg),
        forall|d: int| 0 <= d < dcs.len() ==> (#[trigger] dcs[d]).server_capacity.spec_get(p) == 0,
    ensures
        forall|x: int| 0 <= x < prs.len() ==> (#[trigger] prs[x]).playlist != p,
{
    assert forall|x: int| 0 <= x < prs.len() implies (#[trigger] prs[x]).playlist != p by {
        if prs[x].playlist == p {
            assert(dcs[prs[x].data_center_id as int].server_capacity.spec_get(p) >= 1);
        }
    }
}

impl Simulation {
    /// Run one matchmaking pass over the queue, debiting server
    /// capacity for each proposal. No player is referenced twice across
    /// the returned proposals, every proposed player leaves the queue,
    /// and an empty queue produces no proposals and no change.
    pub fn run_matchmaking(&mut self) -> (r: Vec<MatchProposal>)
        requires
            old(self).wf(),
        ensures
            final(self).wf(),
            proposals_fit(r@, *final(self)),
            r@.len() <= old(self).searches@.len(),
            final(self).searches@.len() <= old(self).searches@.len(),
            final(self).next_search_id == old(self).next_search_id,
            // Queue conservation: survivors come from the old queue, a
            // player leaves it only into a proposal, and no proposed
            // player stays queued.
            forall|a: int, pid: usize|
                0 <= a < final(self).searches@.len() && #[trigger] search_has(
                    final(self).searches@[a],
                    pid,
                ) ==> from_queue(old(self).searches@, pid),
            forall|pid: usize|
                from_queue(old(self).searches@, pid) && !from_queue(final(self).searches@, pid)
                    ==> exists|x: int|
                    0 <= x < r@.len() && #[trigger] r@[x].player_ids@.contains(pid),
            forall|x: int, a: int, pid: usize|
                0 <= x < r@.len() && 0 <= a < final(self).searches@.len() ==> !(
                #[trigger] r@[x].player_ids@.contains(pid) && #[trigger] search_has(
                    final(self).searches@[a],
                    pid,
                )),
            forall|x: int|
                0 <= x < r@.len() ==> proposal_ok(
                    #[trigger] r@[x],
                    old(self).searches@,
                    old(self).players@,
                    old(self).data_centers@,
                    old(self).config,
                ),
            final(self).players == old(self).players,
            final(self).matches == old(self).matches,
            final(self).stats == old(self).stats,
            final(self).config == old(self).config,
            final(self).current_time == old(self).current_time,
            final(self).rng_seed == old(self).rng_seed,
            final(self).next_match_id == old(self).next_match_id,
            final(self).arrival_rate_milli == old(self).arrival_rate_milli,
            final(self).data_centers@.len() == old(self).data_centers@.len(),
            forall|d: int|
                0 <= d < final(self).data_centers@.len()
                    ==> (#[trigger] final(self).data_centers@[d]).server_capacity
                    == old(self).data_centers@[d].server_capacity,
            // Atomic debit: busy counts rise by exactly the proposals
            // placed on each data center and playlist.
            forall|d: int, p: Playlist|
                0 <= d < final(self).data_centers@.len()
                    ==> #[trigger] final(self).data_centers@[d].busy_servers.spec_get(p)
                    == old(self).data_centers@[d].busy_servers.spec_get(p) + count_props_on(
                    r@,
                    d,
                    p,
                ),
            old(self).searches@.len() == 0 ==> r@.len() == 0 && final(self).searches@
                == old(self).searches@ && final(self).data_centers@ == old(self).data_centers@,
    {
        let mm = Matchmaker::new(self.config);
        let ghost pre = *self;
        proof {
            assert forall|i: int| 0 <= i < pre.players@.len() implies {
                &&& (#[trigger] pre.players@[i]).dc_pings@.len() == pre.n_dcs()
                &&& forall|d: int|
                    0 <= d < pre.n_dcs() ==> #[trigger] pre.players@[i].dc_pings@[d] <= SAMPLE_CAP
                &&& pre.players@[i].best_ping <= SAMPLE_CAP
                &&& forall|d: int|
                    0 <= d < pre.n_dcs() ==> pre.players@[i].best_ping
                        <= #[trigger] pre.players@[i].dc_pings@[d]
            } by {
                assert(pre.players@[i].wf(pre.n_dcs(), pre.config.num_skill_buckets as int));
            }
            assert(players_net_ok(pre.players@, pre.n_dcs()));
        }
        let current_time: u64 = self.current_time;
        let r: Vec<MatchProposal> = mm.run_tick(
            &mut self.searches,
            &self.players,
            &mut self.data_centers,
            current_time,
        );
        proof {
            // Remaining queue players are still Searching.
            assert forall|a: int, pid: usize|
                0 <= a < self.searches@.len() && #[trigger] search_has(self.searches@[a], pid)
                    implies self.players@[pid as int].state == PlayerState::Searching by {
                assert(from_queue(pre.searches@, pid));
                let j = choose|j: int|
                    0 <= j < pre.searches@.len() && #[trigger] search_has(pre.searches@[j], pid);
                assert(pre.searches@[j].wf(pre.n_dcs()));
                let w2 = choose|w2: int|
                    0 <= w2 < pre.searches@[j].player_ids@.len() && pre.searches@[j].player_ids@[w2]
                        == pid;
                assert(pid == owner(pre.searches@[j]));
                assert(owner(pre.searches@[j]) < pre.players@.len());
                assert(pre.players@[pid as int].state == PlayerState::Searching);
                assert(self.players@[pid as int] == pre.players@[pid as int]);
            }
            // The match store and the players are untouched.
            assert forall|j2: int| 0 <= j2 < self.matches@.len() implies self.match_wf(
                #[trigger] self.matches@[j2],
            ) by {
                assert(pre.matches@[j2] == self.matches@[j2]);
                assert(pre.match_wf(pre.matches@[j2]));
            }
            assert forall|i2: int|
                0 <= i2 < self.n_players() && (#[trigger] self.players@[i2]).state
                    == PlayerState::InMatch implies exists|j2: int|
                0 <= j2 < self.matches@.len() && (#[trigger] self.matches@[j2]).id
                    == self.players@[i2].current_match->0 && match_contains(
                    self.matches@[j2],
                    i2 as usize,
                ) by {
                assert(pre.players@[i2].state == PlayerState::InMatch);
                let j2 = choose|j2: int|
                    0 <= j2 < pre.matches@.len() && (#[trigger] pre.matches@[j2]).id
                        == pre.players@[i2].current_match->0 && match_contains(
                        pre.matches@[j2],
                        i2 as usize,
                    );
                assert(self.matches@[j2] == pre.matches@[j2]);
                assert(match_contains(self.matches@[j2], i2 as usize));
            }
            assert(self.wf());
            // The emitted proposals fit the post-state.
            assert forall|x: int| 0 <= x < r@.len() implies {
                let pr = #[trigger] r@[x];
                forall|i: int|
                    0 <= i < pr.player_ids@.len() ==> {
                        &&& (#[trigger] pr.player_ids@[i]) < self.n_players()
                        &&& self.players@[pr.player_ids@[i] as int].state
                            == PlayerState::Searching
                        &&& !from_queue(self.searches@, pr.player_ids@[i])
                    }
            } by {
                let pr = r@[x];
                assert(proposal_ok(pr, pre.searches@, pre.players@, pre.data_centers@, pre.config));
                assert forall|i: int| 0 <= i < pr.player_ids@.len() implies {
                    &&& (#[trigger] pr.player_ids@[i]) < self.n_players()
                    &&& self.players@[pr.player_ids@[i] as int].state == PlayerState::Searching
                    &&& !from_queue(self.searches@, pr.player_ids@[i])
                } by {
                    let pid = pr.player_ids@[i];
                    assert(from_queue(pre.searches@, pid));
                    let j = choose|j: int|
                        0 <= j < pre.searches@.len() && #[trigger] search_has(
                            pre.searches@[j],
                            pid,
                        );
                    assert(pre.players@[pid as int].state == PlayerState::Searching);
                    if from_queue(self.searches@, pid) {
                        let a = choose|a: int|
                            0 <= a < self.searches@.len() && #[trigger] search_has(
                                self.searches@[a],
                                pid,
                            );
                        assert(r@[x].player_ids@.contains(pid));
                        assert(false);
                    }
                }
            }
            assert(proposals_fit(r@, *self));
        }
        r
    }
}


/// A player record as it enters a match: lifecycle fields point at the
/// match, the experience windows may have absorbed new samples, and
/// everything else is unchanged.
pub open spec fn entered_match(a: Player, b: Player, mid: u64) -> bool {
    &&& b == (Player {
        state: PlayerState::InMatch,
        current_match: Some(mid),
        search_start_time: None,
        recent_delta_pings: b.recent_delta_pings,
        recent_search_times: b.recent_search_times,
        ..a
    })
    &&& b.recent_delta_pings@.len() <= WINDOW
    &&& b.recent_search_times@.len() <= WINDOW
    &&& forall|i: int|
        0 <= i < b.recent_delta_pings@.len() ==> #[trigger] b.recent_delta_pings@[i] <= SAMPLE_CAP
    &&& forall|i: int|
        0 <= i < b.recent_search_times@.len() ==> #[trigger] b.recent_search_times@[i] <= SAMPLE_CAP
}

/// The per-proposal part of `proposals_fit`.
pub open spec fn proposal_fits_one(pr: MatchProposal, sim: Simulation) -> bool {
    &&& pr.player_ids@.len() == pr.playlist.spec_required_players()
    &&& no_dup(pr.player_ids@)
    &&& pr.teams@.len() == pr.playlist.spec_team_count()
    &&& forall|k: int|
        0 <= k < pr.teams@.len() ==> (#[trigger] pr.teams@[k])@.len()
            == pr.playlist.spec_required_players() as int / pr.playlist.spec_team_count() as int
    &&& teams_no_dup(teams_view(pr.teams))
    &&& forall|pid: usize|
        teams_contain(teams_view(pr.teams), pid) <==> pr.player_ids@.contains(pid)
    &&& forall|i: int|
        0 <= i < pr.player_ids@.len() ==> {
            &&& (#[trigger] pr.player_ids@[i]) < sim.n_players()
            &&& sim.players@[pr.player_ids@[i] as int].state == PlayerState::Searching
            &&& !from_queue(sim.searches@, pr.player_ids@[i])
        }
    &&& pr.data_center_id < sim.n_dcs()
    &&& pr.skill_disparity_milli <= SAMPLE_CAP
    &&& pr.avg_delta_ping <= SAMPLE_CAP
    &&& pr.avg_wait_seconds <= SAMPLE_CAP
}

impl Simulation {
    /// Consume one proposal: assign the next match id, move every listed
    /// player into the match recording their search-time and delta-ping
    /// samples, and store the match with its expected duration.
    #[verifier::rlimit(80)]
    fn apply_proposal(&mut self, pr: MatchProposal, ds: &mut DrawStream)
        requires
            old(self).wf(),
            proposal_fits_one(pr, *old(self)),
            old(self).next_match_id < 0xffffffffffffffff,
            old(self).stats.total_matches < 0xffffffffffffffff,
        ensures
            final(self).wf(),
            final(self).players@.len() == old(self).players@.len(),
            forall|i: int|
                0 <= i < final(self).players@.len() ==> (if pr.player_ids@.contains(i as usize) {
                    entered_match(
                        old(self).players@[i],
                        #[trigger] final(self).players@[i],
                        old(self).next_match_id,
                    )
                } else {
                    final(self).players@[i] == old(self).players@[i]
                }),
            final(self).matches@.len() == old(self).matches@.len() + 1,
            forall|j: int|
                0 <= j < old(self).matches@.len() ==> #[trigger] final(self).matches@[j] == old(self).matches@[j],
            final(self).matches@.last().id == old(self).next_match_id,
            final(self).matches@.last().playlist == pr.playlist,
            final(self).matches@.last().teams == pr.teams,
            final(self).matches@.last().data_center_id == pr.data_center_id,
            final(self).matches@.last().start_time == old(self).current_time,
            final(self).matches@.last().quality_score_milli == pr.quality_score_milli,
            final(self).matches@.last().skill_disparity_milli == pr.skill_disparity_milli,
            final(self).matches@.last().avg_delta_ping == pr.avg_delta_ping,
            // Duration: the playlist's mean, scaled by the stream's
            // uniform variance draw in [0.8, 1.2), floored to ticks.
            final(self).matches@.last().expected_duration
                == pr.playlist.spec_avg_match_duration_seconds() * (800 + crate::rng::stream_draw(
                crate::rng::spec_mix(old(ds).tick_seed, old(ds).counter),
                400,
            )) / (1000 * old(self).config.tick_interval),
            final(self).next_match_id == old(self).next_match_id + 1,
            final(self).searches == old(self).searches,
            final(self).data_centers == old(self).data_centers,
            final(self).config == old(self).config,
            final(self).current_time == old(self).current_time,
            final(self).rng_seed == old(self).rng_seed,
            final(self).next_search_id == old(self).next_search_id,
            final(self).arrival_rate_milli == old(self).arrival_rate_milli,
            final(self).stats.total_matches == old(self).stats.total_matches + 1,
            final(self).stats.blowout_count == old(self).stats.blowout_count,
    {
        let ghost pre = *self;
        let ghost gpr = pr;
        let mid: u64 = self.next_match_id;
        let now: u64 = self.current_time;
        let dc: usize = pr.data_center_id;

        // Mean skill per team.
        let mut team_skills: Vec<i64> = Vec::new();
        let mut k: usize = 0;
        while k < pr.teams.len()
            invariant
                k <= pr.teams@.len(),
                *self == pre,
                pre.wf(),
                pr == gpr,
                proposal_fits_one(gpr, pre),
                team_skills@.len() == k,
                forall|a: int|
                    0 <= a < k ==> -1000 <= #[trigger] team_skills@[a] <= 1000,
            decreases pr.teams@.len() - k,
        {
            let team: &Vec<usize> = &pr.teams[k];
            let mut sum: i64 = 0;
            let mut t: usize = 0;
            while t < team.len()
                invariant
                    t <= team@.len(),
                    team@.len() <= 64,
                    *self == pre,
                    pre.wf(),
                    *team == gpr.teams@[k as int],
                    k < gpr.teams@.len(),
                    proposal_fits_one(gpr, pre),
                    -1000 * (t as int) <= sum <= 1000 * (t as int),
                decreases team@.len() - t,
            {
                proof {
                    assert(0 <= k < teams_view(gpr.teams).len());
                    assert(teams_view(gpr.teams)[k as int] == gpr.teams@[k as int]@);
                    assert(teams_view(gpr.teams)[k as int][t as int] == team@[t as int]);
                    assert(teams_contain(teams_view(gpr.teams), team@[t as int]));
                    assert(gpr.player_ids@.contains(team@[t as int]));
                    let w = choose|w: int|
                        0 <= w < gpr.player_ids@.len() && gpr.player_ids@[w] == team@[t as int];
                    assert(team@[t as int] < pre.n_players());
                    assert(pre.players@[team@[t as int] as int].wf(
                        pre.n_dcs(),
                        pre.config.num_skill_buckets as int,
                    ));
                }
                let pid: usize = team[t];
                sum = sum + self.players[pid].skill_milli;
                t = t + 1;
            }
            proof {
                if team@.len() > 0 {
                    if sum >= 0 {
                        assert((sum as int) / (team@.len() as int) <= 1000) by (nonlinear_arith)
                            requires 0 <= sum <= 1000 * team@.len(), team@.len() >= 1;
                    } else {
                        assert((-sum as int) / (team@.len() as int) <= 1000) by (nonlinear_arith)
                            requires 0 <= -sum <= 1000 * team@.len(), team@.len() >= 1;
                    }
                }
            }
            let avg: i64 = if team.len() == 0 {
                0
            } else if sum >= 0 {
                sum / (team.len() as i64)
            } else {
                -((-sum) / (team.len() as i64))
            };
            team_skills.push(avg);
            k = k + 1;
        }

        // Duration with uniform variance in [0.8, 1.2).
        let u: u64 = ds.range(800, 1200);
        let base: u64 = pr.playlist.avg_match_duration_seconds();
        let duration: u64 = (base * u) / (1000 * self.config.tick_interval);

        // Move every listed player into the match.
        let mut i2: usize = 0;
        while i2 < pr.player_ids.len()
            invariant
                i2 <= pr.player_ids@.len(),
                pre.wf(),
                pr == gpr,
                proposal_fits_one(gpr, pre),
                mid == pre.next_match_id,
                now == pre.current_time,
                dc == pr.data_center_id,
                self.players@.len() == pre.players@.len(),
                forall|i: int|
                    0 <= i < self.players@.len() ==> (if exists|a: int|
                        0 <= a < i2 && #[trigger] pr.player_ids@[a] == i {
                        entered_match(pre.players@[i], #[trigger] self.players@[i], mid)
                    } else {
                        self.players@[i] == pre.players@[i]
                    }),
                self.searches == pre.searches,
                self.matches == pre.matches,
                self.data_centers == pre.data_centers,
                self.config == pre.config,
                self.current_time == pre.current_time,
                self.rng_seed == pre.rng_seed,
                self.next_match_id == pre.next_match_id,
                self.next_search_id == pre.next_search_id,
                self.arrival_rate_milli == pre.arrival_rate_milli,
                self.stats.wf(),
                self.stats.total_matches == pre.stats.total_matches,
                self.stats.blowout_count == pre.stats.blowout_count,
                self.stats.bucket_stats == pre.stats.bucket_stats,
            decreases pr.player_ids@.len() - i2,
        {
            let pid: usize = pr.player_ids[i2];
            proof {
                assert(gpr.player_ids@[i2 as int] < pre.n_players());
                assert(pre.players@[pid as int].state == PlayerState::Searching);
                if exists|a: int| 0 <= a < i2 && #[trigger] gpr.player_ids@[a] == pid as int {
                    let a = choose|a: int|
                        0 <= a < i2 && #[trigger] gpr.player_ids@[a] == pid as int;
                    assert(false);
                }
                assert(self.players@[pid as int] == pre.players@[pid as int]);
                assert(pre.players@[pid as int].wf(
                    pre.n_dcs(),
                    pre.config.num_skill_buckets as int,
                ));
            }
            let mut p: Player = self.players.remove(pid);
            // Search-time sample, in clamped seconds.
            let st: u64 = match p.search_start_time {
                Option::Some(st) => st,
                Option::None => now,
            };
            let wait: u64 = now - st;
            let wait_c: u64 = if wait <= SAMPLE_CAP {
                wait
            } else {
                SAMPLE_CAP
            };
            proof {
                assert(wait_c * self.config.tick_interval <= 1000000 * 86400) by (nonlinear_arith)
                    requires wait_c <= 1000000, self.config.tick_interval <= 86400;
            }
            let wsec_raw: u64 = wait_c * self.config.tick_interval;
            let wsec: u64 = if wsec_raw <= SAMPLE_CAP {
                wsec_raw
            } else {
                SAMPLE_CAP
            };
            push_rolling(&mut p.recent_search_times, wsec);
            record_sample(&mut self.stats.search_time_samples, wsec);
            // Delta-ping sample against the chosen data center.
            let ping: u64 = p.dc_pings[dc];
            let delta: u64 = ping - p.best_ping;
            push_rolling(&mut p.recent_delta_pings, delta);
            record_sample(&mut self.stats.delta_ping_samples, delta);
            p.state = PlayerState::InMatch;
            p.current_match = Some(mid);
            p.search_start_time = None;
            self.players.insert(pid, p);
            proof {
                let ghost prev = pre.players@.len();
                assert(self.players@.len() == prev);
                assert(entered_match(pre.players@[pid as int], self.players@[pid as int], mid));
                assert forall|i: int| 0 <= i < self.players@.len() implies (if exists|a: int|
                    0 <= a < i2 + 1 && #[trigger] gpr.player_ids@[a] == i {
                    entered_match(pre.players@[i], #[trigger] self.players@[i], mid)
                } else {
                    self.players@[i] == pre.players@[i]
                }) by {
                    if i == pid as int {
                        assert(gpr.player_ids@[i2 as int] == i);
                    } else {
                        if exists|a: int| 0 <= a < i2 + 1 && #[trigger] gpr.player_ids@[a] == i {
                            let a = choose|a: int|
                                0 <= a < i2 + 1 && #[trigger] gpr.player_ids@[a] == i;
                            assert(a < i2);
                            assert(exists|a2: int|
                                0 <= a2 < i2 && #[trigger] gpr.player_ids@[a2] == i);
                        }
                    }
                }
            }
            i2 = i2 + 1;
        }

        // Record the disparity sample and store the match.
        record_sample(&mut self.stats.skill_disparity_samples, pr.skill_disparity_milli);
        let np: usize = self.players.len();
        let game = Match {
            id: mid,
            playlist: pr.playlist,
            data_center_id: dc,
            teams: pr.teams,
            start_time: now,
            expected_duration: duration,
            team_skills_milli: team_skills,
            quality_score_milli: pr.quality_score_milli,
            skill_disparity_milli: pr.skill_disparity_milli,
            avg_delta_ping: pr.avg_delta_ping,
        };
        self.matches.push(game);
        self.stats.total_matches = self.stats.total_matches + 1;
        self.next_match_id = mid + 1;
        proof {
            let m = self.matches@.len() - 1;
            assert(self.matches@[m].teams == gpr.teams);
            // Each listed player entered the match, and only they did.
            assert forall|i: int| 0 <= i < self.players@.len() implies (if gpr.player_ids@.contains(
                i as usize,
            ) {
                entered_match(pre.players@[i], #[trigger] self.players@[i], mid)
            } else {
                self.players@[i] == pre.players@[i]
            }) by {
                if gpr.player_ids@.contains(i as usize) {
                    let a = choose|a: int|
                        0 <= a < gpr.player_ids@.len() && gpr.player_ids@[a] == i as usize;
                    assert(gpr.player_ids@[a] == i);
                    assert(exists|a2: int|
                        0 <= a2 < gpr.player_ids@.len() && #[trigger] gpr.player_ids@[a2] == i);
                } else {
                    if exists|a: int|
                        0 <= a < gpr.player_ids@.len() && #[trigger] gpr.player_ids@[a] == i {
                        let a = choose|a: int|
                            0 <= a < gpr.player_ids@.len() && #[trigger] gpr.player_ids@[a] == i;
                        assert(gpr.player_ids@.contains(gpr.player_ids@[a]));
                        assert(false);
                    }
                }
            }
            // Well-formedness of the whole state.
            assert forall|i: int| 0 <= i < self.n_players() implies (#[trigger] self.players@[i]).wf(
                self.n_dcs(),
                self.config.num_skill_buckets as int,
            ) && self.players@[i].id == i && self.players@[i].wins + self.players@[i].losses
                == self.players@[i].matches_played && (self.players@[i].search_start_time matches
                Some(st2) ==> st2 <= self.current_time) by {
                assert(pre.players@[i].wf(pre.n_dcs(), pre.config.num_skill_buckets as int));
            }
            assert forall|a: int, pid: usize|
                0 <= a < self.searches@.len() && #[trigger] search_has(self.searches@[a], pid)
                    implies self.players@[pid as int].state == PlayerState::Searching by {
                assert(pre.searches@[a] == self.searches@[a]);
                assert(search_has(pre.searches@[a], pid));
                assert(pre.players@[pid as int].state == PlayerState::Searching);
                assert(pre.searches@[a].wf(pre.n_dcs()));
                let w2 = choose|w2: int|
                    0 <= w2 < pre.searches@[a].player_ids@.len() && pre.searches@[a].player_ids@[w2]
                        == pid;
                assert(pid == owner(pre.searches@[a]));
                assert(owner(pre.searches@[a]) < pre.players@.len());
                if gpr.player_ids@.contains(pid) {
                    let b = choose|b: int|
                        0 <= b < gpr.player_ids@.len() && gpr.player_ids@[b] == pid;
                    assert(!from_queue(pre.searches@, gpr.player_ids@[b]));
                    assert(search_has(pre.searches@[a], gpr.player_ids@[b]));
                    assert(false);
                }
                assert(self.players@[pid as int] == pre.players@[pid as int]);
            }
            assert forall|j2: int| 0 <= j2 < self.matches@.len() implies self.match_wf(
                #[trigger] self.matches@[j2],
            ) by {
                if j2 < m {
                    assert(pre.matches@[j2] == self.matches@[j2]);
                    assert(pre.match_wf(pre.matches@[j2]));
                    assert forall|pid: usize| #[trigger] match_contains(self.matches@[j2], pid)
                        implies pid < self.n_players() && self.players@[pid as int].state
                        == PlayerState::InMatch && self.players@[pid as int].current_match == Some(
                        self.matches@[j2].id,
                    ) by {
                        assert(match_contains(pre.matches@[j2], pid));
                        assert(pid < pre.n_players());
                        assert(pre.players@[pid as int].state == PlayerState::InMatch);
                        if gpr.player_ids@.contains(pid) {
                            let b = choose|b: int|
                                0 <= b < gpr.player_ids@.len() && gpr.player_ids@[b] == pid;
                            assert(pre.players@[gpr.player_ids@[b] as int].state
                                == PlayerState::Searching);
                            assert(false);
                        }
                        assert(self.players@[pid as int] == pre.players@[pid as int]);
                    }
                } else {
                    assert forall|pid: usize| #[trigger] match_contains(self.matches@[m], pid)
                        implies pid < self.n_players() && self.players@[pid as int].state
                        == PlayerState::InMatch && self.players@[pid as int].current_match == Some(
                        self.matches@[m].id,
                    ) by {
                        assert(teams_contain(teams_view(gpr.teams), pid));
                        assert(gpr.player_ids@.contains(pid));
                        let b = choose|b: int|
                            0 <= b < gpr.player_ids@.len() && gpr.player_ids@[b] == pid;
                        assert(gpr.player_ids@[b] < pre.n_players());
                        assert(entered_match(pre.players@[pid as int], self.players@[pid as int], mid));
                    }
                }
            }
            assert forall|a: int, b: int|
                0 <= a < b < self.matches@.len() implies (#[trigger] self.matches@[a]).id
                != (#[trigger] self.matches@[b]).id by {
                if b < m {
                    assert(pre.matches@[a] == self.matches@[a]);
                    assert(pre.matches@[b] == self.matches@[b]);
                } else {
                    assert(pre.matches@[a] == self.matches@[a]);
                    assert(pre.match_wf(pre.matches@[a]));
                }
            }
            assert forall|i3: int|
                0 <= i3 < self.n_players() && (#[trigger] self.players@[i3]).state
                    == PlayerState::InMatch implies exists|j3: int|
                0 <= j3 < self.matches@.len() && (#[trigger] self.matches@[j3]).id
                    == self.players@[i3].current_match->0 && match_contains(
                    self.matches@[j3],
                    i3 as usize,
                ) by {
                if gpr.player_ids@.contains(i3 as usize) {
                    assert(entered_match(pre.players@[i3], self.players@[i3], mid));
                    assert(self.matches@[m].id == mid);
                    assert(teams_contain(teams_view(gpr.teams), i3 as usize));
                    assert(match_contains(self.matches@[m], i3 as usize));
                } else {
                    assert(self.players@[i3] == pre.players@[i3]);
                    assert(pre.players@[i3].state == PlayerState::InMatch);
                    let j3 = choose|j3: int|
                        0 <= j3 < pre.matches@.len() && (#[trigger] pre.matches@[j3]).id
                            == pre.players@[i3].current_match->0 && match_contains(
                            pre.matches@[j3],
                            i3 as usize,
                        );
                    assert(self.matches@[j3] == pre.matches@[j3]);
                    assert(match_contains(self.matches@[j3], i3 as usize));
                }
            }
            assert(self.wf());
        }
    }

    /// Create one match per proposal, in order: the `x`-th proposal
    /// becomes the stored match with the `x`-th fresh id, carrying the
    /// proposal's playlist, teams and data center; every listed player
    /// enters that match with its search-time and delta-ping samples
    /// recorded, and nobody else changes.
    pub fn create_matches(&mut self, results: Vec<MatchProposal>, ds: &mut DrawStream)
        requires
            old(self).wf(),
            proposals_fit(results@, *old(self)),
            old(self).next_match_id + results@.len() <= 0xffffffffffffffff,
            old(self).stats.total_matches + results@.len() <= 0xffffffffffffffff,
        ensures
            final(self).wf(),
            final(self).matches@.len() == old(self).matches@.len() + results@.len(),
            forall|j: int|
                0 <= j < old(self).matches@.len() ==> #[trigger] final(self).matches@[j]
                    == old(self).matches@[j],
            forall|x: int|
                0 <= x < results@.len() ==> {
                    let m = #[trigger] final(self).matches@[old(self).matches@.len() + x];
                    &&& m.id == old(self).next_match_id + x
                    &&& m.playlist == results@[x].playlist
                    &&& m.teams == results@[x].teams
                    &&& m.data_center_id == results@[x].data_center_id
                    &&& m.start_time == old(self).current_time
                    &&& m.quality_score_milli == results@[x].quality_score_milli
                    &&& m.skill_disparity_milli == results@[x].skill_disparity_milli
                    &&& m.avg_delta_ping == results@[x].avg_delta_ping
                },
            final(self).next_match_id == old(self).next_match_id + results@.len(),
            forall|x: int, k: int|
                0 <= x < results@.len() && 0 <= k < results@[x].player_ids@.len()
                    ==> entered_match(
                    old(self).players@[#[trigger] results@[x].player_ids@[k] as int],
                    final(self).players@[results@[x].player_ids@[k] as int],
                    (old(self).next_match_id + x) as u64,
                ),
            forall|i: int|
                0 <= i < final(self).players@.len() && !in_some_proposal(results@, i as usize)
                    ==> #[trigger] final(self).players@[i] == old(self).players@[i],
            final(self).players@.len() == old(self).players@.len(),
            final(self).searches == old(self).searches,
            final(self).data_centers == old(self).data_centers,
            final(self).config == old(self).config,
            final(self).current_time == old(self).current_time,
            final(self).rng_seed == old(self).rng_seed,
            final(self).next_search_id == old(self).next_search_id,
            final(self).arrival_rate_milli == old(self).arrival_rate_milli,
            final(self).stats.total_matches == old(self).stats.total_matches + results@.len(),
    {
        let ghost rs = results@;
        let mut work: Vec<MatchProposal> = results;
        let n_results: usize = work.len();
        let ghost pre = *self;
        let mut x: usize = 0;
        while x < n_results
            invariant
                n_results == rs.len(),
                x <= rs.len(),
                work@ == rs.subrange(x as int, rs.len() as int),
                self.wf(),
                proposals_disjoint(rs),
                proposals_fit(rs, pre),
                forall|y: int|
                    x <= y < rs.len() ==> proposal_fits_one(#[trigger] rs[y], *self),
                self.matches@.len() == pre.matches@.len() + x,
                forall|j: int|
                    0 <= j < pre.matches@.len() ==> #[trigger] self.matches@[j]
                        == pre.matches@[j],
                forall|y: int|
                    0 <= y < x ==> {
                        let m = #[trigger] self.matches@[pre.matches@.len() + y];
                        &&& m.id == pre.next_match_id + y
                        &&& m.playlist == rs[y].playlist
                        &&& m.teams == rs[y].teams
                        &&& m.data_center_id == rs[y].data_center_id
                        &&& m.start_time == pre.current_time
                        &&& m.quality_score_milli == rs[y].quality_score_milli
                        &&& m.skill_disparity_milli == rs[y].skill_disparity_milli
                        &&& m.avg_delta_ping == rs[y].avg_delta_ping
                    },
                forall|y: int, k: int|
                    0 <= y < x && 0 <= k < rs[y].player_ids@.len() ==> entered_match(
                        pre.players@[#[trigger] rs[y].player_ids@[k] as int],
                        self.players@[rs[y].player_ids@[k] as int],
                        (pre.next_match_id + y) as u64,
                    ),
                forall|i: int|
                    0 <= i < self.players@.len() && !in_some_proposal(rs.subrange(0, x as int), i as usize)
                        ==> #[trigger] self.players@[i] == pre.players@[i],
                self.players@.len() == pre.players@.len(),
                self.searches == pre.searches,
                self.data_centers == pre.data_centers,
                self.config == pre.config,
                self.current_time == pre.current_time,
                self.rng_seed == pre.rng_seed,
                self.next_match_id == pre.next_match_id + x,
                self.next_search_id == pre.next_search_id,
                self.arrival_rate_milli == pre.arrival_rate_milli,
                self.stats.total_matches == pre.stats.total_matches + x,
                pre.next_match_id + rs.len() <= 0xffffffffffffffff,
                pre.stats.total_matches + rs.len() <= 0xffffffffffffffff,
            decreases rs.len() - x,
        {
            let ghost at_entry = *self;
            let pr: MatchProposal = work.remove(0);
            proof {
                assert(pr == rs[x as int]);
                assert(work@ =~= rs.subrange(x + 1, rs.len() as int));
            }
            self.apply_proposal(pr, ds);
            proof {
                // Accumulate the per-proposal effects: earlier entrants
                // are disjoint from this proposal, so they kept their
                // match references; everyone unlisted is untouched.
                assert forall|y: int, k: int|
                    0 <= y < x + 1 && 0 <= k < rs[y].player_ids@.len() implies entered_match(
                    pre.players@[#[trigger] rs[y].player_ids@[k] as int],
                    self.players@[rs[y].player_ids@[k] as int],
                    (pre.next_match_id + y) as u64,
                ) by {
                    let pid = rs[y].player_ids@[k];
                    assert(rs[y].player_ids@[k] < pre.n_players());
                    if y < x {
                        assert(entered_match(
                            pre.players@[pid as int],
                            at_entry.players@[pid as int],
                            (pre.next_match_id + y) as u64,
                        ));
                        assert(!rs[x as int].player_ids@.contains(pid)) by {
                            if rs[x as int].player_ids@.contains(pid) {
                                let b = choose|b: int|
                                    0 <= b < rs[x as int].player_ids@.len()
                                        && rs[x as int].player_ids@[b] == pid;
                                assert(rs[y].player_ids@[k] == rs[x as int].player_ids@[b]);
                                assert(false);
                            }
                        }
                        assert(self.players@[pid as int] == at_entry.players@[pid as int]);
                    } else {
                        assert(at_entry.players@[pid as int] == pre.players@[pid as int]) by {
                            if in_some_proposal(rs.subrange(0, x as int), pid) {
                                let (y2, k2) = choose|y2: int, k2: int|
                                    0 <= y2 < rs.subrange(0, x as int).len() && 0 <= k2
                                        < rs.subrange(0, x as int)[y2].player_ids@.len()
                                        && #[trigger] rs.subrange(
                                        0,
                                        x as int,
                                    )[y2].player_ids@[k2] == pid;
                                assert(rs[y2].player_ids@[k2] == rs[x as int].player_ids@[k]);
                                assert(false);
                            }
                        }
                        assert(entered_match(
                            at_entry.players@[pid as int],
                            self.players@[pid as int],
                            (pre.next_match_id + x) as u64,
                        ));
                    }
                }
                assert forall|i: int|
                    0 <= i < self.players@.len() && !in_some_proposal(
                        rs.subrange(0, x + 1),
                        i as usize,
                    ) implies #[trigger] self.players@[i] == pre.players@[i] by {
                    assert(!rs[x as int].player_ids@.contains(i as usize)) by {
                        if rs[x as int].player_ids@.contains(i as usize) {
                            let b = choose|b: int|
                                0 <= b < rs[x as int].player_ids@.len()
                                    && rs[x as int].player_ids@[b] == i as usize;
                            assert(rs.subrange(0, x + 1)[x as int].player_ids@[b] == i as usize);
                            assert(in_some_proposal(rs.subrange(0, x + 1), i as usize));
                            assert(false);
                        }
                    }
                    assert(self.players@[i] == at_entry.players@[i]);
                    assert(!in_some_proposal(rs.subrange(0, x as int), i as usize)) by {
                        if in_some_proposal(rs.subrange(0, x as int), i as usize) {
                            let (y2, k2) = choose|y2: int, k2: int|
                                0 <= y2 < rs.subrange(0, x as int).len() && 0 <= k2 < rs.subrange(
                                    0,
                                    x as int,
                                )[y2].player_ids@.len() && #[trigger] rs.subrange(
                                    0,
                                    x as int,
                                )[y2].player_ids@[k2] == i as usize;
                            assert(rs.subrange(0, x + 1)[y2].player_ids@[k2] == i as usize);
                            assert(in_some_proposal(rs.subrange(0, x + 1), i as usize));
                            assert(false);
                        }
                    }
                }
                // Later proposals still fit: their players are disjoint
                // from this proposal's, so they stayed untouched.
                assert forall|y: int|
                    x + 1 <= y < rs.len() implies proposal_fits_one(
                    #[trigger] rs[y],
                    *self,
                ) by {
                    assert(proposal_fits_one(rs[y], at_entry));
                    assert forall|i: int| 0 <= i < rs[y].player_ids@.len() implies {
                        &&& (#[trigger] rs[y].player_ids@[i]) < self.n_players()
                        &&& self.players@[rs[y].player_ids@[i] as int].state
                            == PlayerState::Searching
                        &&& !from_queue(self.searches@, rs[y].player_ids@[i])
                    } by {
                        let pid = rs[y].player_ids@[i];
                        if rs[x as int].player_ids@.contains(pid) {
                            let b = choose|b: int|
                                0 <= b < rs[x as int].player_ids@.len()
                                    && rs[x as int].player_ids@[b] == pid;
                            assert(rs[y].player_ids@[i] == rs[x as int].player_ids@[b]);
                            assert(false);
                        }
                        assert(self.players@[pid as int] == at_entry.players@[pid as int]);
                        assert(self.searches@ == at_entry.searches@);
                    }
                }
            }
            x = x + 1;
        }
    }
}


/// Team `wt` of match `m` won: every resident participant whose tally
/// could advance gains a win exactly when it stands on that team, and a
/// loss otherwise.
pub open spec fn team_outcome_ok(
    pre_players: Seq<Player>,
    post_players: Seq<Player>,
    m: Match,
    wt: int,
) -> bool {
    forall|i: int|
        0 <= i < post_players.len() && pre_players[i].current_match == Some(m.id)
            && pre_players[i].state == PlayerState::InMatch && pre_players[i].matches_played
            < 0xffffffffffffffff ==> (#[trigger] post_players[i]).wins == pre_players[i].wins + (
        if teams_view(m.teams)[wt].contains(i as usize) {
            1int
        } else {
            0int
        })
}

/// A player record as its match completes: the tallies advance by one
/// completion event, the match reference is cleared, and the player
/// returns to the lobby or goes offline; everything else is unchanged.
pub open spec fn completed_player(a: Player, b: Player) -> bool {
    &&& b == (Player {
        state: b.state,
        current_match: None,
        matches_played: b.matches_played,
        wins: b.wins,
        losses: b.losses,
        recent_blowouts: b.recent_blowouts,
        ..a
    })
    &&& b.state == PlayerState::InLobby || b.state == PlayerState::Offline
    &&& b.matches_played == (if a.matches_played < 0xffffffffffffffff {
        (a.matches_played + 1) as u64
    } else {
        a.matches_played
    })
    &&& b.wins + b.losses == b.matches_played
    &&& b.wins >= a.wins
    &&& b.losses >= a.losses
    // Exactly one blowout flag is appended, FIFO within the window.
    &&& b.recent_blowouts@.len() >= 1
    &&& b.recent_blowouts@ == (if a.recent_blowouts@.len() < WINDOW {
        a.recent_blowouts@.push(b.recent_blowouts@.last())
    } else {
        a.recent_blowouts@.subrange(1, WINDOW as int).push(b.recent_blowouts@.last())
    })
    &&& b.recent_blowouts@.len() <= WINDOW
}

/// Whether `m` is one of the stored match values.
pub open spec fn in_store(ms: Seq<Match>, m: Match) -> bool {
    exists|j: int| 0 <= j < ms.len() && m == #[trigger] ms[j]
}

/// Whether `id` belongs to some stored match already expired at `now`.
pub open spec fn id_of_over(ms: Seq<Match>, now: u64, id: u64) -> bool {
    exists|j: int| 0 <= j < ms.len() && match_over(#[trigger] ms[j], now) && ms[j].id == id
}

/// Whether a match has run out its expected duration at tick `now`.
pub open spec fn match_over(m: Match, now: u64) -> bool {
    now - m.start_time >= m.expected_duration
}

/// Completed matches among `ms` placed on data center `d` with playlist
/// `p`: how many servers their completion releases there.
pub open spec fn count_over_on(ms: Seq<Match>, now: u64, d: int, p: Playlist) -> int
    decreases ms.len(),
{
    if ms.len() == 0 {
        0
    } else {
        count_over_on(ms.drop_last(), now, d, p) + (if match_over(ms.last(), now)
            && ms.last().data_center_id == d && ms.last().playlist == p {
            1int
        } else {
            0int
        })
    }
}


pub proof fn lemma_count_over_nonneg(ms: Seq<Match>, now: u64, d: int, p: Playlist)
    ensures
        0 <= count_over_on(ms, now, d, p) <= ms.len(),
    decreases ms.len(),
{
    if ms.len() > 0 {
        lemma_count_over_nonneg(ms.drop_last(), now, d, p);
    }
}

pub proof fn lemma_count_over_none(ms: Seq<Match>, now: u64, d: int, p: Playlist)
    requires
        forall|a: int| 0 <= a < ms.len() ==> !match_over(#[trigger] ms[a], now),
    ensures
        count_over_on(ms, now, d, p) == 0,
    decreases ms.len(),
{
    if ms.len() > 0 {
        lemma_count_over_none(ms.drop_last(), now, d, p);
    }
}

/// Removing one match lowers the release count exactly by that match's
/// own contribution.
pub proof fn lemma_count_over_remove(ms: Seq<Match>, now: u64, j: int, d: int, p: Playlist)
    requires
        0 <= j < ms.len(),
    ensures
        count_over_on(ms.remove(j), now, d, p) == count_over_on(ms, now, d, p) - (if match_over(
            ms[j],
            now,
        ) && ms[j].data_center_id == d && ms[j].playlist == p {
            1int
        } else {
            0int
        }),
    decreases ms.len(),
{
    if j == ms.len() - 1 {
        assert(ms.remove(j) =~= ms.drop_last());
    } else {
        assert(ms.remove(j).drop_last() =~= ms.drop_last().remove(j));
        lemma_count_over_remove(ms.drop_last(), now, j, d, p);
    }
}

impl Simulation {
    /// Whether match `j` has run out its expected duration.
    pub open spec fn spec_completed(self, j: int) -> bool {
        match_over(self.matches@[j], self.current_time)
    }

    /// Complete one match: release its server, decide the outcome and a
    /// blowout flag, and for every participant advance the tallies by
    /// exactly this one completion event and decide retention.
    #[verifier::rlimit(80)]
    fn complete_match(&mut self, j: usize, ds: &mut DrawStream)
        requires
            old(self).wf(),
            j < old(self).matches@.len(),
            old(self).spec_completed(j as int),
        ensures
            final(self).wf(),
            final(self).matches@ == old(self).matches@.remove(j as int),
            final(self).players@.len() == old(self).players@.len(),
            forall|i: int|
                0 <= i < final(self).players@.len() ==> (if old(self).players@[i].current_match
                    == Some(old(self).matches@[j as int].id) && old(self).players@[i].state
                    == PlayerState::InMatch {
                    completed_player(old(self).players@[i], #[trigger] final(self).players@[i])
                } else {
                    final(self).players@[i] == old(self).players@[i]
                }),
            // One team wins; its members get the win, the others the loss.
            exists|wt: int|
                0 <= wt < old(self).matches@[j as int].teams@.len() && #[trigger] team_outcome_ok(
                    old(self).players@,
                    final(self).players@,
                    old(self).matches@[j as int],
                    wt,
                ),
            final(self).searches == old(self).searches,
            final(self).config == old(self).config,
            final(self).current_time == old(self).current_time,
            final(self).rng_seed == old(self).rng_seed,
            final(self).next_match_id == old(self).next_match_id,
            final(self).next_search_id == old(self).next_search_id,
            final(self).arrival_rate_milli == old(self).arrival_rate_milli,
            final(self).stats.total_matches == old(self).stats.total_matches,
            final(self).stats.search_time_samples == old(self).stats.search_time_samples,
            final(self).stats.delta_ping_samples == old(self).stats.delta_ping_samples,
            final(self).stats.skill_disparity_samples == old(self).stats.skill_disparity_samples,
            final(self).data_centers@.len() == old(self).data_centers@.len(),
            forall|d: int|
                0 <= d < final(self).data_centers@.len() ==> {
                    &&& (#[trigger] final(self).data_centers@[d]).server_capacity
                        == old(self).data_centers@[d].server_capacity
                    &&& final(self).data_centers@[d].id == old(self).data_centers@[d].id
                    &&& final(self).data_centers@[d].location == old(self).data_centers@[d].location
                    &&& forall|p: Playlist|
                        #[trigger] final(self).data_centers@[d].busy_servers.spec_get(p) == (
                        if d == old(self).matches@[j as int].data_center_id as int && p == old(self).matches@[j as int].playlist {
                            if old(self).data_centers@[d].busy_servers.spec_get(p) > 0 {
                                (old(self).data_centers@[d].busy_servers.spec_get(p) - 1) as u64
                            } else {
                                0u64
                            }
                        } else {
                            old(self).data_centers@[d].busy_servers.spec_get(p)
                        })
                },
    {
        let ghost pre = *self;
        let m: Match = self.matches.remove(j);
        let mid: u64 = m.id;
        proof {
            assert(pre.match_wf(pre.matches@[j as int]));
        }

        // Release the server.
        let dcid: usize = m.data_center_id;
        let mut dcv: DataCenter = self.data_centers[dcid];
        proof {
            assert(pre.data_centers@[dcid as int].wf());
        }
        dcv.credit(m.playlist);
        self.data_centers.set(dcid, dcv);

        // Outcome: two-team matches follow the logistic of the skill
        // difference; others report team 0 and no blowout.
        let mut winning_team: usize = 0;
        let mut is_blowout: bool = false;
        if m.team_skills_milli.len() == 2 {
            let delta: i64 = m.team_skills_milli[0] - m.team_skills_milli[1];
            let p: u64 = win_prob_milli(delta);
            if !ds.bernoulli(p) {
                winning_team = 1;
            }
            let imb: u64 = if p >= 500 {
                2 * (p - 500)
            } else {
                2 * (500 - p)
            };
            let dabs: i64 = if delta >= 0 {
                delta
            } else {
                -delta
            };
            let bp: u64 = blowout_prob_milli(dabs, imb);
            is_blowout = ds.bernoulli(bp);
        }
        if is_blowout {
            self.stats.blowout_count = self.stats.blowout_count + 1;
        }

        // Every participant is updated by exactly this completion event.
        let n: usize = self.players.len();
        let mut i: usize = 0;
        while i < n
            invariant
                i <= n,
                n == self.players@.len(),
                n == pre.players@.len(),
                pre.wf(),
                j < pre.matches@.len(),
                m == pre.matches@[j as int],
                mid == m.id,
                winning_team < m.teams@.len(),
                self.matches@ == pre.matches@.remove(j as int),
                forall|i2: int|
                    0 <= i2 < n ==> (if i2 < i && pre.players@[i2].current_match == Some(mid)
                        && pre.players@[i2].state == PlayerState::InMatch {
                        completed_player(pre.players@[i2], #[trigger] self.players@[i2])
                    } else {
                        self.players@[i2] == pre.players@[i2]
                    }),
                forall|i2: int|
                    0 <= i2 < i && pre.players@[i2].current_match == Some(mid)
                        && pre.players@[i2].state == PlayerState::InMatch
                        && pre.players@[i2].matches_played < 0xffffffffffffffff
                        ==> (#[trigger] self.players@[i2]).wins == pre.players@[i2].wins + (
                    if teams_view(m.teams)[winning_team as int].contains(i2 as usize) {
                        1int
                    } else {
                        0int
                    }),
                self.searches == pre.searches,
                self.config == pre.config,
                self.current_time == pre.current_time,
                self.rng_seed == pre.rng_seed,
                self.next_match_id == pre.next_match_id,
                self.next_search_id == pre.next_search_id,
                self.arrival_rate_milli == pre.arrival_rate_milli,
                self.stats.wf(),
                self.stats.total_matches == pre.stats.total_matches,
                self.stats.blowout_count <= pre.stats.blowout_count + 1,
                self.stats.search_time_samples == pre.stats.search_time_samples,
                self.stats.delta_ping_samples == pre.stats.delta_ping_samples,
                self.stats.skill_disparity_samples == pre.stats.skill_disparity_samples,
                self.data_centers@.len() == pre.data_centers@.len(),
                dcs_ok(self.data_centers@),
                forall|d: int|
                    0 <= d < self.data_centers@.len() ==> {
                        &&& (#[trigger] self.data_centers@[d]).server_capacity
                            == pre.data_centers@[d].server_capacity
                        &&& self.data_centers@[d].id == pre.data_centers@[d].id
                        &&& self.data_centers@[d].location == pre.data_centers@[d].location
                        &&& forall|p: Playlist|
                            #[trigger] self.data_centers@[d].busy_servers.spec_get(p) == (if d
                                == m.data_center_id as int && p == m.playlist {
                                if pre.data_centers@[d].busy_servers.spec_get(p) > 0 {
                                    (pre.data_centers@[d].busy_servers.spec_get(p) - 1) as u64
                                } else {
                                    0u64
                                }
                            } else {
                                pre.data_centers@[d].busy_servers.spec_get(p)
                            })
                    },
            decreases n - i,
        {
            let in_this_match: bool = match self.players[i].current_match {
                Option::Some(cm) => cm == mid && matches!(self.players[i].state, PlayerState::InMatch),
                Option::None => false,
            };
            if in_this_match {
                proof {
                    assert(self.players@[i as int] == pre.players@[i as int]);
                    assert(pre.players@[i as int].wf(
                        pre.n_dcs(),
                        pre.config.num_skill_buckets as int,
                    ));
                }
                let mut p: Player = self.players.remove(i);
                // Did this player's team win?
                let mut won: bool = false;
                let team: &Vec<usize> = &m.teams[winning_team];
                let mut t: usize = 0;
                while t < team.len()
                    invariant
                        t <= team@.len(),
                        won ==> team@.contains(i),
                        !won ==> forall|t2: int| 0 <= t2 < t ==> #[trigger] team@[t2] != i,
                    decreases team@.len() - t,
                {
                    if team[t] == i {
                        won = true;
                    }
                    t = t + 1;
                }
                proof {
                    if !won && team@.contains(i) {
                        let t2 = choose|t2: int| 0 <= t2 < team@.len() && team@[t2] == i;
                        assert(false);
                    }
                    assert(won == team@.contains(i));
                    assert(teams_view(m.teams)[winning_team as int] == team@);
                }
                if p.matches_played < 0xffffffffffffffff {
                    p.matches_played = p.matches_played + 1;
                    if won {
                        p.wins = p.wins + 1;
                    } else {
                        p.losses = p.losses + 1;
                    }
                }
                push_rolling_flag(&mut p.recent_blowouts, is_blowout);
                p.current_match = None;
                // Retention: experience-driven continuation.
                let adp: u64 = window_avg(&p.recent_delta_pings);
                let ast: u64 = window_avg(&p.recent_search_times);
                let brate: u64 = flag_rate_milli(&p.recent_blowouts);
                let cp: u64 = continue_prob_milli(p.continuation_prob_milli, adp, ast, brate);
                if ds.bernoulli(cp) {
                    p.state = PlayerState::InLobby;
                } else {
                    p.state = PlayerState::Offline;
                }
                self.players.insert(i, p);
                proof {
                    assert(completed_player(pre.players@[i as int], self.players@[i as int]));
                }
            }
            i = i + 1;
        }
        proof {
            // The removed match's members all left it; every other
            // cross-reference is untouched.
            assert forall|i2: int| 0 <= i2 < self.n_players() implies (#[trigger] self.players@[i2]).wf(
                self.n_dcs(),
                self.config.num_skill_buckets as int,
            ) && self.players@[i2].id == i2 && self.players@[i2].wins + self.players@[i2].losses
                == self.players@[i2].matches_played && (self.players@[i2].search_start_time matches
                Some(st2) ==> st2 <= self.current_time) by {
                assert(pre.players@[i2].wf(pre.n_dcs(), pre.config.num_skill_buckets as int));
            }
            assert forall|a: int, pid: usize|
                0 <= a < self.searches@.len() && #[trigger] search_has(self.searches@[a], pid)
                    implies self.players@[pid as int].state == PlayerState::Searching by {
                assert(pre.searches@[a] == self.searches@[a]);
                assert(search_has(pre.searches@[a], pid));
                assert(pre.players@[pid as int].state == PlayerState::Searching);
                assert(pre.searches@[a].wf(pre.n_dcs()));
                let w2 = choose|w2: int|
                    0 <= w2 < pre.searches@[a].player_ids@.len() && pre.searches@[a].player_ids@[w2]
                        == pid;
                assert(pid == owner(pre.searches@[a]));
                assert(owner(pre.searches@[a]) < pre.players@.len());
                assert(self.players@[pid as int] == pre.players@[pid as int]);
            }
            assert forall|j2: int| 0 <= j2 < self.matches@.len() implies self.match_wf(
                #[trigger] self.matches@[j2],
            ) by {
                let j3 = if j2 < j as int {
                    j2
                } else {
                    j2 + 1
                };
                assert(self.matches@[j2] == pre.matches@[j3]);
                assert(pre.match_wf(pre.matches@[j3]));
                assert forall|pid: usize| #[trigger] match_contains(self.matches@[j2], pid)
                    implies pid < self.n_players() && self.players@[pid as int].state
                    == PlayerState::InMatch && self.players@[pid as int].current_match == Some(
                    self.matches@[j2].id,
                ) by {
                    assert(match_contains(pre.matches@[j3], pid));
                    assert(pid < pre.n_players());
                    assert(pre.players@[pid as int].state == PlayerState::InMatch);
                    assert(pre.players@[pid as int].current_match == Some(pre.matches@[j3].id));
                    // Different id from the removed match, so untouched.
                    if j3 < j as int {
                        assert(pre.matches@[j3].id != pre.matches@[j as int].id);
                    } else {
                        assert(pre.matches@[j as int].id != pre.matches@[j3].id);
                    }
                    assert(self.players@[pid as int] == pre.players@[pid as int]);
                }
            }
            assert forall|a: int, b: int|
                0 <= a < b < self.matches@.len() implies (#[trigger] self.matches@[a]).id
                != (#[trigger] self.matches@[b]).id by {
                let a3 = if a < j as int {
                    a
                } else {
                    a + 1
                };
                let b3 = if b < j as int {
                    b
                } else {
                    b + 1
                };
                assert(self.matches@[a] == pre.matches@[a3]);
                assert(self.matches@[b] == pre.matches@[b3]);
            }
            assert forall|i3: int|
                0 <= i3 < self.n_players() && (#[trigger] self.players@[i3]).state
                    == PlayerState::InMatch implies exists|j3: int|
                0 <= j3 < self.matches@.len() && (#[trigger] self.matches@[j3]).id
                    == self.players@[i3].current_match->0 && match_contains(
                    self.matches@[j3],
                    i3 as usize,
                ) by {
                assert(self.players@[i3] == pre.players@[i3]);
                assert(pre.players@[i3].state == PlayerState::InMatch);
                let j4 = choose|j4: int|
                    0 <= j4 < pre.matches@.len() && (#[trigger] pre.matches@[j4]).id
                        == pre.players@[i3].current_match->0 && match_contains(
                        pre.matches@[j4],
                        i3 as usize,
                    );
                // The resolving match is not the removed one: its members
                // were updated out of the InMatch state.
                assert(j4 != j as int) by {
                    if j4 == j as int {
                        assert(pre.players@[i3].current_match == Some(mid));
                        assert(completed_player(pre.players@[i3], self.players@[i3]));
                        assert(false);
                    }
                }
                let j5 = if j4 < j as int {
                    j4
                } else {
                    j4 - 1
                };
                assert(self.matches@[j5] == pre.matches@[j4]);
                assert(match_contains(self.matches@[j5], i3 as usize));
            }
            assert(self.stats.blowout_count + self.matches@.len() <= self.stats.total_matches);
            assert(team_outcome_ok(pre.players@, self.players@, m, winning_team as int));
            assert(self.wf());
        }
    }

    /// Complete every match whose expected duration has elapsed: exactly
    /// the expired matches leave the store, each releases one server
    /// where it ran, and each of its participants is advanced by exactly
    /// one completion event; everything else is untouched.
    #[verifier::rlimit(100)]
    pub fn process_match_completions(&mut self, ds: &mut DrawStream)
        requires
            old(self).wf(),
        ensures
            final(self).wf(),
            final(self).players@.len() == old(self).players@.len(),
            final(self).searches == old(self).searches,
            final(self).config == old(self).config,
            final(self).current_time == old(self).current_time,
            final(self).rng_seed == old(self).rng_seed,
            final(self).next_match_id == old(self).next_match_id,
            final(self).next_search_id == old(self).next_search_id,
            final(self).arrival_rate_milli == old(self).arrival_rate_milli,
            final(self).stats.total_matches == old(self).stats.total_matches,
            final(self).stats.search_time_samples == old(self).stats.search_time_samples,
            final(self).stats.delta_ping_samples == old(self).stats.delta_ping_samples,
            final(self).stats.skill_disparity_samples == old(self).stats.skill_disparity_samples,
            // Expired matches are gone, the others survive as values.
            forall|j: int|
                0 <= j < old(self).matches@.len() && match_over(
                    #[trigger] old(self).matches@[j],
                    old(self).current_time,
                ) ==> forall|a: int|
                    0 <= a < final(self).matches@.len() ==> (#[trigger] final(self).matches@[a]).id
                        != old(self).matches@[j].id,
            forall|j: int|
                0 <= j < old(self).matches@.len() && !match_over(
                    #[trigger] old(self).matches@[j],
                    old(self).current_time,
                ) ==> in_store(final(self).matches@, old(self).matches@[j]),
            forall|a: int|
                0 <= a < final(self).matches@.len() ==> in_store(
                    old(self).matches@,
                    #[trigger] final(self).matches@[a],
                ) && !match_over(final(self).matches@[a], old(self).current_time),
            // Each participant of an expired match is advanced by exactly
            // one completion event; everyone else is untouched.
            forall|i: int|
                0 <= i < final(self).players@.len() ==> (if old(self).players@[i].state
                    == PlayerState::InMatch && (exists|j: int|
                    0 <= j < old(self).matches@.len() && match_over(
                        #[trigger] old(self).matches@[j],
                        old(self).current_time,
                    ) && old(self).matches@[j].id == old(self).players@[i].current_match->0) {
                    completed_player(old(self).players@[i], #[trigger] final(self).players@[i])
                } else {
                    final(self).players@[i] == old(self).players@[i]
                }),
            // For each expired match one team won: its members gain the
            // win, the other participants the loss.
            forall|j: int|
                0 <= j < old(self).matches@.len() && match_over(
                    #[trigger] old(self).matches@[j],
                    old(self).current_time,
                ) ==> exists|wt: int|
                    0 <= wt < old(self).matches@[j].teams@.len() && #[trigger] team_outcome_ok(
                        old(self).players@,
                        final(self).players@,
                        old(self).matches@[j],
                        wt,
                    ),
            // Each expired match releases exactly one server where it ran.
            final(self).data_centers@.len() == old(self).data_centers@.len(),
            forall|d: int|
                0 <= d < final(self).data_centers@.len() ==> {
                    &&& (#[trigger] final(self).data_centers@[d]).server_capacity
                        == old(self).data_centers@[d].server_capacity
                    &&& final(self).data_centers@[d].id == old(self).data_centers@[d].id
                    &&& final(self).data_centers@[d].location == old(self).data_centers@[d].location
                    &&& forall|p: Playlist|
                        #[trigger] final(self).data_centers@[d].busy_servers.spec_get(p) as int
                            == (if old(self).data_centers@[d].busy_servers.spec_get(p)
                            >= count_over_on(
                            old(self).matches@,
                            old(self).current_time,
                            d,
                            p,
                        ) {
                            old(self).data_centers@[d].busy_servers.spec_get(p) - count_over_on(
                                old(self).matches@,
                                old(self).current_time,
                                d,
                                p,
                            )
                        } else {
                            0int
                        })
                },
    {
        let ghost pre = *self;
        let ghost now0 = pre.current_time;
        let ghost mut done_ids: Seq<u64> = Seq::empty();
        proof {
            assert forall|a: int| 0 <= a < self.matches@.len() implies in_store(
                pre.matches@,
                #[trigger] self.matches@[a],
            ) by {
                assert(self.matches@[a] == pre.matches@[a]);
            }
            assert forall|j: int| 0 <= j < pre.matches@.len() implies in_store(
                self.matches@,
                #[trigger] pre.matches@[j],
            ) || done_ids.contains(pre.matches@[j].id) by {
                assert(pre.matches@[j] == self.matches@[j]);
            }
        }
        loop
            invariant
                self.wf(),
                self.players@.len() == pre.players@.len(),
                self.searches == pre.searches,
                self.config == pre.config,
                self.current_time == now0,
                pre.current_time == now0,
                self.rng_seed == pre.rng_seed,
                self.next_match_id == pre.next_match_id,
                self.next_search_id == pre.next_search_id,
                self.arrival_rate_milli == pre.arrival_rate_milli,
                self.stats.total_matches == pre.stats.total_matches,
                self.stats.search_time_samples == pre.stats.search_time_samples,
                self.stats.delta_ping_samples == pre.stats.delta_ping_samples,
                self.stats.skill_disparity_samples == pre.stats.skill_disparity_samples,
                pre.wf(),
                // Current matches are survivors of the initial store; a
                // match of the initial store is present or marked done.
                forall|a: int|
                    0 <= a < self.matches@.len() ==> in_store(
                        pre.matches@,
                        #[trigger] self.matches@[a],
                    ),
                forall|j: int|
                    0 <= j < pre.matches@.len() ==> in_store(
                        self.matches@,
                        #[trigger] pre.matches@[j],
                    ) || done_ids.contains(pre.matches@[j].id),
                // Only expired matches are marked done, and none of them
                // is still stored.
                forall|k: int|
                    0 <= k < done_ids.len() ==> id_of_over(
                        pre.matches@,
                        now0,
                        #[trigger] done_ids[k],
                    ),
                forall|a: int|
                    0 <= a < self.matches@.len() ==> !done_ids.contains(
                        (#[trigger] self.matches@[a]).id,
                    ),
                // A participant is updated exactly when its match is done.
                forall|i: int|
                    0 <= i < self.players@.len() ==> (if pre.players@[i].state
                        == PlayerState::InMatch && done_ids.contains(
                        pre.players@[i].current_match->0,
                    ) {
                        completed_player(pre.players@[i], #[trigger] self.players@[i])
                    } else {
                        self.players@[i] == pre.players@[i]
                    }),
                // Each processed match carries a winning team.
                forall|j: int|
                    0 <= j < pre.matches@.len() && match_over(#[trigger] pre.matches@[j], now0)
                        && done_ids.contains(pre.matches@[j].id) ==> exists|wt: int|
                        0 <= wt < pre.matches@[j].teams@.len() && #[trigger] team_outcome_ok(
                            pre.players@,
                            self.players@,
                            pre.matches@[j],
                            wt,
                        ),
                // Releases so far telescope against the remaining store.
                self.data_centers@.len() == pre.data_centers@.len(),
                forall|d: int|
                    0 <= d < self.data_centers@.len() ==> {
                        &&& (#[trigger] self.data_centers@[d]).server_capacity
                            == pre.data_centers@[d].server_capacity
                        &&& self.data_centers@[d].id == pre.data_centers@[d].id
                        &&& self.data_centers@[d].location == pre.data_centers@[d].location
                        &&& forall|p: Playlist|
                            #[trigger] self.data_centers@[d].busy_servers.spec_get(p) as int == (
                            if pre.data_centers@[d].busy_servers.spec_get(p) >= count_over_on(
                                pre.matches@,
                                now0,
                                d,
                                p,
                            ) - count_over_on(self.matches@, now0, d, p) {
                                pre.data_centers@[d].busy_servers.spec_get(p) - (count_over_on(
                                    pre.matches@,
                                    now0,
                                    d,
                                    p,
                                ) - count_over_on(self.matches@, now0, d, p))
                            } else {
                                0int
                            })
                    },
            ensures
                self.wf(),
                self.players@.len() == pre.players@.len(),
                self.searches == pre.searches,
                self.config == pre.config,
                self.current_time == now0,
                pre.current_time == now0,
                self.rng_seed == pre.rng_seed,
                self.next_match_id == pre.next_match_id,
                self.next_search_id == pre.next_search_id,
                self.arrival_rate_milli == pre.arrival_rate_milli,
                self.stats.total_matches == pre.stats.total_matches,
                self.stats.search_time_samples == pre.stats.search_time_samples,
                self.stats.delta_ping_samples == pre.stats.delta_ping_samples,
                self.stats.skill_disparity_samples == pre.stats.skill_disparity_samples,
                pre.wf(),
                // Current matches are survivors of the initial store; a
                // match of the initial store is present or marked done.
                forall|a: int|
                    0 <= a < self.matches@.len() ==> in_store(
                        pre.matches@,
                        #[trigger] self.matches@[a],
                    ),
                forall|j: int|
                    0 <= j < pre.matches@.len() ==> in_store(
                        self.matches@,
                        #[trigger] pre.matches@[j],
                    ) || done_ids.contains(pre.matches@[j].id),
                // Only expired matches are marked done, and none of them
                // is still stored.
                forall|k: int|
                    0 <= k < done_ids.len() ==> id_of_over(
                        pre.matches@,
                        now0,
                        #[trigger] done_ids[k],
                    ),
                forall|a: int|
                    0 <= a < self.matches@.len() ==> !done_ids.contains(
                        (#[trigger] self.matches@[a]).id,
                    ),
                // A participant is updated exactly when its match is done.
                forall|i: int|
                    0 <= i < self.players@.len() ==> (if pre.players@[i].state
                        == PlayerState::InMatch && done_ids.contains(
                        pre.players@[i].current_match->0,
                    ) {
                        completed_player(pre.players@[i], #[trigger] self.players@[i])
                    } else {
                        self.players@[i] == pre.players@[i]
                    }),
                // Each processed match carries a winning team.
                forall|j: int|
                    0 <= j < pre.matches@.len() && match_over(#[trigger] pre.matches@[j], now0)
                        && done_ids.contains(pre.matches@[j].id) ==> exists|wt: int|
                        0 <= wt < pre.matches@[j].teams@.len() && #[trigger] team_outcome_ok(
                            pre.players@,
                            self.players@,
                            pre.matches@[j],
                            wt,
                        ),
                // Releases so far telescope against the remaining store.
                self.data_centers@.len() == pre.data_centers@.len(),
                forall|d: int|
                    0 <= d < self.data_centers@.len() ==> {
                        &&& (#[trigger] self.data_centers@[d]).server_capacity
                            == pre.data_centers@[d].server_capacity
                        &&& self.data_centers@[d].id == pre.data_centers@[d].id
                        &&& self.data_centers@[d].location == pre.data_centers@[d].location
                        &&& forall|p: Playlist|
                            #[trigger] self.data_centers@[d].busy_servers.spec_get(p) as int == (
                            if pre.data_centers@[d].busy_servers.spec_get(p) >= count_over_on(
                                pre.matches@,
                                now0,
                                d,
                                p,
                            ) - count_over_on(self.matches@, now0, d, p) {
                                pre.data_centers@[d].busy_servers.spec_get(p) - (count_over_on(
                                    pre.matches@,
                                    now0,
                                    d,
                                    p,
                                ) - count_over_on(self.matches@, now0, d, p))
                            } else {
                                0int
                            })
                    },
                forall|a: int|
                    0 <= a < self.matches@.len() ==> !match_over(
                        #[trigger] self.matches@[a],
                        now0,
                    ),
            decreases self.matches@.len(),
        {
            // Find the first completed match, if any.
            let mut found: usize = self.matches.len();
            let mut j: usize = 0;
            let now: u64 = self.current_time;
            while j < self.matches.len()
                invariant
                    self.wf(),
                    j <= self.matches@.len(),
                    now == self.current_time,
                    found == self.matches@.len() || (found < j && self.spec_completed(
                        found as int,
                    )),
                    forall|a: int|
                        0 <= a < j && found == self.matches@.len() ==> !match_over(
                            #[trigger] self.matches@[a],
                            now,
                        ),
                decreases self.matches@.len() - j,
            {
                if found == self.matches.len() {
                    let st: u64 = self.matches[j].start_time;
                    proof {
                        assert(self.match_wf(self.matches@[j as int]));
                    }
                    if now - st >= self.matches[j].expected_duration {
                        found = j;
                    }
                }
                j = j + 1;
            }
            if found == self.matches.len() {
                proof {
                    assert forall|d: int, p: Playlist|
                        0 <= d < self.data_centers@.len() implies count_over_on(
                        self.matches@,
                        now0,
                        d,
                        p,
                    ) == 0 by {
                        lemma_count_over_none(self.matches@, now0, d, p);
                    }
                }
                break;
            }
            let ghost cur = *self;
            let ghost mm = cur.matches@[found as int];
            self.complete_match(found, ds);
            proof {
                assert(match_over(mm, now0));
                // Counting: the removal lowers the store's release count
                // exactly by the removed match's contribution.
                assert forall|d: int, p: Playlist| 0 <= d < self.data_centers@.len() implies
                    count_over_on(self.matches@, now0, d, p) == count_over_on(
                    cur.matches@,
                    now0,
                    d,
                    p,
                ) - (if mm.data_center_id == d && mm.playlist == p {
                    1int
                } else {
                    0int
                }) && count_over_on(cur.matches@, now0, d, p) >= 0 && count_over_on(
                    pre.matches@,
                    now0,
                    d,
                    p,
                ) >= 0 by {
                    lemma_count_over_remove(cur.matches@, now0, found as int, d, p);
                    lemma_count_over_nonneg(cur.matches@, now0, d, p);
                    lemma_count_over_nonneg(pre.matches@, now0, d, p);
                }
                // The removed match's value appears only at `found`.
                assert forall|a: int| 0 <= a < cur.matches@.len() && cur.matches@[a] == mm implies a
                    == found as int by {
                    if a != found as int {
                        if a < found as int {
                            assert(cur.matches@[a].id != cur.matches@[found as int].id);
                        } else {
                            assert(cur.matches@[found as int].id != cur.matches@[a].id);
                        }
                    }
                }
                // Survivor clauses transfer across the removal.
                assert forall|a: int| 0 <= a < self.matches@.len() implies in_store(
                    pre.matches@,
                    #[trigger] self.matches@[a],
                ) by {
                    let a2 = if a < found as int {
                        a
                    } else {
                        a + 1
                    };
                    assert(self.matches@[a] == cur.matches@[a2]);
                    assert(in_store(pre.matches@, cur.matches@[a2]));
                }
                let new_done = done_ids.push(mm.id);
                assert(new_done[new_done.len() - 1] == mm.id);
                assert(new_done.contains(mm.id));
                assert forall|x: u64| done_ids.contains(x) implies new_done.contains(x) by {
                    let k = choose|k: int| 0 <= k < done_ids.len() && done_ids[k] == x;
                    assert(new_done[k] == x);
                }
                assert forall|j2: int| 0 <= j2 < pre.matches@.len() implies in_store(
                    self.matches@,
                    #[trigger] pre.matches@[j2],
                ) || new_done.contains(pre.matches@[j2].id) by {
                    if !new_done.contains(pre.matches@[j2].id) {
                        assert(!done_ids.contains(pre.matches@[j2].id)) by {
                            if done_ids.contains(pre.matches@[j2].id) {
                                assert(new_done.contains(pre.matches@[j2].id));
                            }
                        }
                        assert(in_store(cur.matches@, pre.matches@[j2]));
                        let a = choose|a: int|
                            0 <= a < cur.matches@.len() && pre.matches@[j2]
                                == #[trigger] cur.matches@[a];
                        assert(a != found as int) by {
                            if a == found as int {
                                assert(pre.matches@[j2] == mm);
                                assert(new_done.contains(mm.id));
                            }
                        }
                        let a3 = if a < found as int {
                            a
                        } else {
                            a - 1
                        };
                        assert(self.matches@[a3] == cur.matches@[a]);
                        assert(in_store(self.matches@, cur.matches@[a]));
                    }
                }
                assert forall|k: int| 0 <= k < new_done.len() implies id_of_over(
                    pre.matches@,
                    now0,
                    #[trigger] new_done[k],
                ) by {
                    if k == new_done.len() - 1 {
                        assert(in_store(pre.matches@, mm));
                        let j2 = choose|j2: int|
                            0 <= j2 < pre.matches@.len() && mm == #[trigger] pre.matches@[j2];
                        assert(pre.matches@[j2].id == mm.id);
                        assert(match_over(pre.matches@[j2], now0));
                    } else {
                        assert(new_done[k] == done_ids[k]);
                    }
                }
                assert forall|a: int| 0 <= a < self.matches@.len() implies !new_done.contains(
                    (#[trigger] self.matches@[a]).id,
                ) by {
                    let a2 = if a < found as int {
                        a
                    } else {
                        a + 1
                    };
                    assert(self.matches@[a] == cur.matches@[a2]);
                    if new_done.contains(self.matches@[a].id) {
                        let k = choose|k: int|
                            0 <= k < new_done.len() && new_done[k] == self.matches@[a].id;
                        if k < done_ids.len() {
                            assert(done_ids[k] == self.matches@[a].id);
                            assert(done_ids.contains(cur.matches@[a2].id));
                            assert(false);
                        } else {
                            assert(self.matches@[a].id == mm.id);
                            assert(cur.matches@[a2].id == cur.matches@[found as int].id);
                            assert(a2 == found as int);
                            assert(false);
                        }
                    }
                }
                // Participant clause: players of the removed match were
                // untouched so far and are updated now; others keep.
                assert forall|i: int| 0 <= i < self.players@.len() implies (if pre.players@[i].state
                    == PlayerState::InMatch && new_done.contains(
                    pre.players@[i].current_match->0,
                ) {
                    completed_player(pre.players@[i], #[trigger] self.players@[i])
                } else {
                    self.players@[i] == pre.players@[i]
                }) by {
                    if pre.players@[i].state == PlayerState::InMatch && done_ids.contains(
                        pre.players@[i].current_match->0,
                    ) {
                        // Done in an earlier round; its reference is cleared,
                        // so this round leaves it alone.
                        assert(new_done.contains(pre.players@[i].current_match->0));
                        assert(completed_player(pre.players@[i], cur.players@[i]));
                        assert(cur.players@[i].current_match is None);
                        assert(self.players@[i] == cur.players@[i]);
                    } else if pre.players@[i].state == PlayerState::InMatch
                        && pre.players@[i].current_match->0 == mm.id {
                        assert(cur.players@[i] == pre.players@[i]);
                        assert(cur.players@[i].current_match == Some(mm.id));
                        assert(completed_player(cur.players@[i], self.players@[i]));
                        assert(new_done.contains(pre.players@[i].current_match->0));
                    } else {
                        assert(cur.players@[i] == pre.players@[i]);
                        assert(!new_done.contains(pre.players@[i].current_match->0)
                            || pre.players@[i].state != PlayerState::InMatch) by {
                            if pre.players@[i].state == PlayerState::InMatch && new_done.contains(
                                pre.players@[i].current_match->0,
                            ) {
                                let k = choose|k: int|
                                    0 <= k < new_done.len() && new_done[k]
                                        == pre.players@[i].current_match->0;
                                if k < done_ids.len() {
                                    assert(done_ids[k] == pre.players@[i].current_match->0);
                                    assert(done_ids.contains(pre.players@[i].current_match->0));
                                    assert(false);
                                } else {
                                    assert(pre.players@[i].current_match->0 == mm.id);
                                    assert(false);
                                }
                            }
                        }
                        assert(self.players@[i] == cur.players@[i]) by {
                            if cur.players@[i].current_match == Some(mm.id) && cur.players@[i].state
                                == PlayerState::InMatch {
                                assert(pre.players@[i].state == PlayerState::InMatch);
                                assert(pre.players@[i].current_match->0 == mm.id);
                                assert(false);
                            }
                        }
                    }
                }
                // Win attribution carries over: earlier matches'
                // participants were untouched this round, and the round's
                // own match hands its outcome through unchanged baselines.
                assert forall|j2: int|
                    0 <= j2 < pre.matches@.len() && match_over(#[trigger] pre.matches@[j2], now0)
                        && new_done.contains(pre.matches@[j2].id) implies exists|wt: int|
                    0 <= wt < pre.matches@[j2].teams@.len() && #[trigger] team_outcome_ok(
                        pre.players@,
                        self.players@,
                        pre.matches@[j2],
                        wt,
                    ) by {
                    if done_ids.contains(pre.matches@[j2].id) {
                        let wt = choose|wt: int|
                            0 <= wt < pre.matches@[j2].teams@.len() && #[trigger] team_outcome_ok(
                                pre.players@,
                                cur.players@,
                                pre.matches@[j2],
                                wt,
                            );
                        assert forall|i: int|
                            0 <= i < self.players@.len() && pre.players@[i].current_match == Some(
                                pre.matches@[j2].id,
                            ) && pre.players@[i].state == PlayerState::InMatch
                                && pre.players@[i].matches_played < 0xffffffffffffffff implies (
                        #[trigger] self.players@[i]).wins == pre.players@[i].wins + (
                        if teams_view(pre.matches@[j2].teams)[wt].contains(i as usize) {
                            1int
                        } else {
                            0int
                        }) by {
                            assert(completed_player(pre.players@[i], cur.players@[i]));
                            assert(cur.players@[i].current_match is None);
                            assert(self.players@[i] == cur.players@[i]);
                        }
                        assert(team_outcome_ok(pre.players@, self.players@, pre.matches@[j2], wt));
                    } else {
                        assert(pre.matches@[j2].id == mm.id);
                        assert(in_store(pre.matches@, mm));
                        let jm = choose|jm: int|
                            0 <= jm < pre.matches@.len() && mm == #[trigger] pre.matches@[jm];
                        assert(pre.matches@[j2] == mm) by {
                            if j2 != jm {
                                if j2 < jm {
                                    assert(pre.matches@[j2].id != pre.matches@[jm].id);
                                } else {
                                    assert(pre.matches@[jm].id != pre.matches@[j2].id);
                                }
                            }
                        }
                        let wt = choose|wt: int|
                            0 <= wt < mm.teams@.len() && #[trigger] team_outcome_ok(
                                cur.players@,
                                self.players@,
                                mm,
                                wt,
                            );
                        assert forall|i: int|
                            0 <= i < self.players@.len() && pre.players@[i].current_match == Some(
                                mm.id,
                            ) && pre.players@[i].state == PlayerState::InMatch
                                && pre.players@[i].matches_played < 0xffffffffffffffff implies (
                        #[trigger] self.players@[i]).wins == pre.players@[i].wins + (
                        if teams_view(mm.teams)[wt].contains(i as usize) {
                            1int
                        } else {
                            0int
                        }) by {
                            assert(cur.players@[i] == pre.players@[i]);
                        }
                        assert(team_outcome_ok(pre.players@, self.players@, mm, wt));
                    }
                }
                done_ids = new_done;
            }
        }
        proof {
            // At exit nothing stored is expired; the telescoped release
            // counts close against the full initial count.
            assert forall|d: int, p: Playlist|
                0 <= d < self.data_centers@.len() implies count_over_on(
                self.matches@,
                now0,
                d,
                p,
            ) == 0 && count_over_on(pre.matches@, now0, d, p) >= 0 by {
                lemma_count_over_none(self.matches@, now0, d, p);
                lemma_count_over_nonneg(pre.matches@, now0, d, p);
            }
            assert forall|j: int|
                0 <= j < pre.matches@.len() && match_over(
                    #[trigger] pre.matches@[j],
                    now0,
                ) implies done_ids.contains(pre.matches@[j].id) by {
                if in_store(self.matches@, pre.matches@[j]) {
                    let a = choose|a: int|
                        0 <= a < self.matches@.len() && pre.matches@[j]
                            == #[trigger] self.matches@[a];
                    assert(match_over(self.matches@[a], now0));
                    assert(false);
                }
            }
            assert forall|j: int|
                0 <= j < pre.matches@.len() && match_over(
                    #[trigger] pre.matches@[j],
                    now0,
                ) implies forall|a: int|
                0 <= a < self.matches@.len() ==> (#[trigger] self.matches@[a]).id
                    != pre.matches@[j].id by {
                assert(done_ids.contains(pre.matches@[j].id));
            }
            assert forall|j: int|
                0 <= j < pre.matches@.len() && !match_over(
                    #[trigger] pre.matches@[j],
                    now0,
                ) implies in_store(self.matches@, pre.matches@[j]) by {
                if done_ids.contains(pre.matches@[j].id) {
                    let k = choose|k: int| 0 <= k < done_ids.len() && done_ids[k] == pre.matches@[j].id;
                    assert(id_of_over(pre.matches@, now0, done_ids[k]));
                    let j2 = choose|j2: int|
                        0 <= j2 < pre.matches@.len() && match_over(#[trigger] pre.matches@[j2], now0)
                            && pre.matches@[j2].id == done_ids[k];
                    // Two originals with one id are one match.
                    if j2 != j {
                        if j2 < j {
                            assert(pre.matches@[j2].id != pre.matches@[j].id);
                        } else {
                            assert(pre.matches@[j].id != pre.matches@[j2].id);
                        }
                    }
                    assert(false);
                }
            }
            assert forall|a: int| 0 <= a < self.matches@.len() implies in_store(
                pre.matches@,
                #[trigger] self.matches@[a],
            ) && !match_over(self.matches@[a], now0) by {}
            // The participant condition takes its public form: a done id
            // is exactly an expired original's id.
            assert forall|i: int| 0 <= i < self.players@.len() implies (if pre.players@[i].state
                == PlayerState::InMatch && (exists|j: int|
                0 <= j < pre.matches@.len() && match_over(#[trigger] pre.matches@[j], now0)
                    && pre.matches@[j].id == pre.players@[i].current_match->0) {
                completed_player(pre.players@[i], #[trigger] self.players@[i])
            } else {
                self.players@[i] == pre.players@[i]
            }) by {
                if pre.players@[i].state == PlayerState::InMatch {
                    if exists|j: int|
                        0 <= j < pre.matches@.len() && match_over(#[trigger] pre.matches@[j], now0)
                            && pre.matches@[j].id == pre.players@[i].current_match->0 {
                        let j = choose|j: int|
                            0 <= j < pre.matches@.len() && match_over(
                                #[trigger] pre.matches@[j],
                                now0,
                            ) && pre.matches@[j].id == pre.players@[i].current_match->0;
                        assert(done_ids.contains(pre.matches@[j].id));
                    } else {
                        if done_ids.contains(pre.players@[i].current_match->0) {
                            let k = choose|k: int|
                                0 <= k < done_ids.len() && done_ids[k]
                                    == pre.players@[i].current_match->0;
                            assert(id_of_over(pre.matches@, now0, done_ids[k]));
                            let j2 = choose|j2: int|
                                0 <= j2 < pre.matches@.len() && match_over(
                                    #[trigger] pre.matches@[j2],
                                    now0,
                                ) && pre.matches@[j2].id == done_ids[k];
                            assert(false);
                        }
                    }
                }
            }
        }
    }
}


/// Number of players in a given lifecycle state.
pub open spec fn count_state(s: Seq<Player>, st: PlayerState) -> int
    decreases s.len(),
{
    if s.len() == 0 {
        0
    } else {
        count_state(s.drop_last(), st) + (if s.last().state == st {
            1int
        } else {
            0int
        })
    }
}

pub proof fn lemma_count_state_bound(s: Seq<Player>, st: PlayerState)
    ensures
        0 <= count_state(s, st) <= s.len(),
    decreases s.len(),
{
    if s.len() > 0 {
        lemma_count_state_bound(s.drop_last(), st);
    }
}

/// Every player is in exactly one state, so the four per-state counts
/// partition the population.
pub proof fn lemma_state_counts_partition(s: Seq<Player>)
    ensures
        count_state(s, PlayerState::Offline) + count_state(s, PlayerState::InLobby) + count_state(
            s,
            PlayerState::Searching,
        ) + count_state(s, PlayerState::InMatch) == s.len(),
    decreases s.len(),
{
    if s.len() > 0 {
        lemma_state_counts_partition(s.drop_last());
    }
}

/// Number of players in a given skill bucket.
pub open spec fn count_bucket(s: Seq<Player>, b: usize) -> int
    decreases s.len(),
{
    if s.len() == 0 {
        0
    } else {
        count_bucket(s.drop_last(), b) + (if s.last().skill_bucket == b {
            1int
        } else {
            0int
        })
    }
}

/// Total wins over a skill bucket.
pub open spec fn sum_bucket_wins(s: Seq<Player>, b: usize) -> int
    decreases s.len(),
{
    if s.len() == 0 {
        0
    } else {
        sum_bucket_wins(s.drop_last(), b) + (if s.last().skill_bucket == b {
            s.last().wins as int
        } else {
            0int
        })
    }
}

/// Total matches played over a skill bucket.
pub open spec fn sum_bucket_played(s: Seq<Player>, b: usize) -> int
    decreases s.len(),
{
    if s.len() == 0 {
        0
    } else {
        sum_bucket_played(s.drop_last(), b) + (if s.last().skill_bucket == b {
            s.last().matches_played as int
        } else {
            0int
        })
    }
}

/// Total kills over a skill bucket.
pub open spec fn sum_bucket_kills(s: Seq<Player>, b: usize) -> int
    decreases s.len(),
{
    if s.len() == 0 {
        0
    } else {
        sum_bucket_kills(s.drop_last(), b) + (if s.last().skill_bucket == b {
            s.last().total_kills as int
        } else {
            0int
        })
    }
}

/// Total deaths over a skill bucket.
pub open spec fn sum_bucket_deaths(s: Seq<Player>, b: usize) -> int
    decreases s.len(),
{
    if s.len() == 0 {
        0
    } else {
        sum_bucket_deaths(s.drop_last(), b) + (if s.last().skill_bucket == b {
            s.last().total_deaths as int
        } else {
            0int
        })
    }
}

/// One skill bucket's rollup: win rate as total wins per total
/// matches, kills per death, both in thousandths, and the summed match
/// count, each saturating at the machine width.
pub open spec fn bucket_rollup_ok(s: Seq<Player>, r: BucketStats, b: usize) -> bool {
    &&& r.bucket_id == b
    &&& r.player_count == count_bucket(s, b)
    &&& r.win_rate_milli == (if sum_bucket_played(s, b) > 0 {
        sum_bucket_wins(s, b) * 1000 / sum_bucket_played(s, b)
    } else {
        0int
    })
    &&& r.avg_kd_milli as int == (if sum_bucket_deaths(s, b) > 0 {
        if sum_bucket_kills(s, b) * 1000 / sum_bucket_deaths(s, b) <= 0xffffffffffffffff {
            sum_bucket_kills(s, b) * 1000 / sum_bucket_deaths(s, b)
        } else {
            0xffffffffffffffff
        }
    } else {
        1000int
    })
    &&& r.matches_played as int == (if sum_bucket_played(s, b) <= 0xffffffffffffffff {
        sum_bucket_played(s, b)
    } else {
        0xffffffffffffffff
    })
}

impl Simulation {
    /// Refresh the per-tick statistics: exact player-state counts (which
    /// partition the population), active matches, elapsed time, blowout
    /// rate and the per-bucket rollups. Order statistics over the sample
    /// vectors are recomputed on demand by `SimulationStats`.
    pub fn update_stats(&mut self)
        requires
            old(self).wf(),
        ensures
            final(self).wf(),
            final(self).stats.players_offline == count_state(
                old(self).players@,
                PlayerState::Offline,
            ),
            final(self).stats.players_in_lobby == count_state(
                old(self).players@,
                PlayerState::InLobby,
            ),
            final(self).stats.players_searching == count_state(
                old(self).players@,
                PlayerState::Searching,
            ),
            final(self).stats.players_in_match == count_state(
                old(self).players@,
                PlayerState::InMatch,
            ),
            final(self).stats.players_offline + final(self).stats.players_in_lobby
                + final(self).stats.players_searching + final(self).stats.players_in_match
                == old(self).players@.len(),
            final(self).stats.active_matches == old(self).matches@.len(),
            final(self).stats.ticks == old(self).current_time,
            final(self).stats.total_matches == old(self).stats.total_matches,
            final(self).stats.blowout_count == old(self).stats.blowout_count,
            old(self).stats.total_matches > 0 ==> final(self).stats.blowout_rate_milli
                == (old(self).stats.blowout_count as int) * 1000 / (
                old(self).stats.total_matches as int),
            old(self).stats.total_matches == 0 ==> final(self).stats.blowout_rate_milli
                == old(self).stats.blowout_rate_milli,
            final(self).stats.search_time_samples == old(self).stats.search_time_samples,
            final(self).stats.delta_ping_samples == old(self).stats.delta_ping_samples,
            final(self).stats.skill_disparity_samples == old(self).stats.skill_disparity_samples,
            // The order statistics are refreshed on demand by
            // `SimulationStats::refresh_percentiles`; this pass leaves
            // them as they were.
            final(self).stats.avg_search_time == old(self).stats.avg_search_time,
            final(self).stats.search_time_p50 == old(self).stats.search_time_p50,
            final(self).stats.search_time_p90 == old(self).stats.search_time_p90,
            final(self).stats.search_time_p99 == old(self).stats.search_time_p99,
            final(self).stats.avg_delta_ping == old(self).stats.avg_delta_ping,
            final(self).stats.delta_ping_p50 == old(self).stats.delta_ping_p50,
            final(self).stats.delta_ping_p90 == old(self).stats.delta_ping_p90,
            final(self).stats.avg_skill_disparity_milli == old(
                self,
            ).stats.avg_skill_disparity_milli,
            // The per-bucket rollups are rebuilt from the player table.
            final(self).stats.bucket_stats@.len() == old(self).config.num_skill_buckets,
            forall|b: int|
                0 <= b < final(self).stats.bucket_stats@.len() ==> bucket_rollup_ok(
                    old(self).players@,
                    #[trigger] final(self).stats.bucket_stats@[b],
                    (b + 1) as usize,
                ),
            final(self).players == old(self).players,
            final(self).searches == old(self).searches,
            final(self).matches == old(self).matches,
            final(self).data_centers == old(self).data_centers,
            final(self).config == old(self).config,
            final(self).current_time == old(self).current_time,
            final(self).rng_seed == old(self).rng_seed,
            final(self).next_match_id == old(self).next_match_id,
            final(self).next_search_id == old(self).next_search_id,
            final(self).arrival_rate_milli == old(self).arrival_rate_milli,
    {
        let n: usize = self.players.len();
        let mut off: u64 = 0;
        let mut lobby: u64 = 0;
        let mut searching: u64 = 0;
        let mut inmatch: u64 = 0;
        let mut i: usize = 0;
        while i < n
            invariant
                i <= n,
                n == self.players@.len(),
                *self == *old(self),
                self.wf(),
                off == count_state(self.players@.subrange(0, i as int), PlayerState::Offline),
                lobby == count_state(self.players@.subrange(0, i as int), PlayerState::InLobby),
                searching == count_state(
                    self.players@.subrange(0, i as int),
                    PlayerState::Searching,
                ),
                inmatch == count_state(self.players@.subrange(0, i as int), PlayerState::InMatch),
                off + lobby + searching + inmatch == i,
            decreases n - i,
        {
            proof {
                assert(self.players@.subrange(0, i + 1).drop_last() == self.players@.subrange(
                    0,
                    i as int,
                ));
            }
            match self.players[i].state {
                PlayerState::Offline => {
                    off = off + 1;
                }
                PlayerState::InLobby => {
                    lobby = lobby + 1;
                }
                PlayerState::Searching => {
                    searching = searching + 1;
                }
                PlayerState::InMatch => {
                    inmatch = inmatch + 1;
                }
            }
            i = i + 1;
        }
        proof {
            assert(self.players@.subrange(0, n as int) == self.players@);
        }
        self.stats.players_offline = off;
        self.stats.players_in_lobby = lobby;
        self.stats.players_searching = searching;
        self.stats.players_in_match = inmatch;
        self.stats.active_matches = self.matches.len() as u64;
        self.stats.ticks = self.current_time;
        proof {
            if self.current_time <= 1000000000000 {
                assert(self.current_time * self.config.tick_interval <= 1000000000000 * 86400)
                    by (nonlinear_arith)
                    requires self.current_time <= 1000000000000, self.config.tick_interval <= 86400;
            }
        }
        let te: u64 = if self.current_time <= 1000000000000 {
            self.current_time * self.config.tick_interval
        } else {
            0xffffffffffffffff
        };
        self.stats.time_elapsed = te;
        if self.stats.total_matches > 0 {
            proof {
                assert(self.stats.blowout_count <= self.stats.total_matches);
                assert((self.stats.blowout_count as int) * 1000 / (self.stats.total_matches as int)
                    <= 1000) by (nonlinear_arith)
                    requires
                        0 <= self.stats.blowout_count <= self.stats.total_matches,
                        self.stats.total_matches >= 1,
                ;
            }
            let rate: u64 = (((self.stats.blowout_count as u128) * 1000) / (
            self.stats.total_matches as u128)) as u64;
            self.stats.blowout_rate_milli = rate;
        }
        self.update_bucket_stats();
    }

    /// Rebuild the per-skill-bucket rollups.
    fn update_bucket_stats(&mut self)
        requires
            old(self).wf(),
        ensures
            final(self).wf(),
            final(self).stats.bucket_stats@.len() == old(self).config.num_skill_buckets,
            forall|b: int|
                0 <= b < final(self).stats.bucket_stats@.len() ==> bucket_rollup_ok(
                    old(self).players@,
                    #[trigger] final(self).stats.bucket_stats@[b],
                    (b + 1) as usize,
                ) && final(self).stats.bucket_stats@[b].win_rate_milli <= 1000,
            final(self).players == old(self).players,
            final(self).searches == old(self).searches,
            final(self).matches == old(self).matches,
            final(self).data_centers == old(self).data_centers,
            final(self).config == old(self).config,
            final(self).current_time == old(self).current_time,
            final(self).rng_seed == old(self).rng_seed,
            final(self).next_match_id == old(self).next_match_id,
            final(self).next_search_id == old(self).next_search_id,
            final(self).arrival_rate_milli == old(self).arrival_rate_milli,
            final(self).stats == (SimulationStats {
                bucket_stats: final(self).stats.bucket_stats,
                ..old(self).stats
            }),
    {
        let nb: usize = self.config.num_skill_buckets;
        let n: usize = self.players.len();
        let mut rollups: Vec<BucketStats> = Vec::new();
        let mut b: usize = 1;
        while b <= nb
            invariant
                1 <= b <= nb + 1,
                nb == self.config.num_skill_buckets,
                n == self.players@.len(),
                *self == *old(self),
                self.wf(),
                rollups@.len() == b - 1,
                forall|c: int|
                    0 <= c < rollups@.len() ==> bucket_rollup_ok(
                        self.players@,
                        #[trigger] rollups@[c],
                        (c + 1) as usize,
                    ) && rollups@[c].win_rate_milli <= 1000,
            decreases nb + 1 - b,
        {
            let mut count: u64 = 0;
            let mut search_sum: u64 = 0;
            let mut ping_sum: u64 = 0;
            let mut wins_sum: u128 = 0;
            let mut mp_sum: u128 = 0;
            let mut kills_sum: u128 = 0;
            let mut deaths_sum: u128 = 0;
            let mut i: usize = 0;
            while i < n
                invariant
                    i <= n,
                    n == self.players@.len(),
                    *self == *old(self),
                    self.wf(),
                    1 <= b,
                    count == count_bucket(self.players@.subrange(0, i as int), b),
                    count <= i,
                    search_sum <= count * SAMPLE_CAP,
                    ping_sum <= count * SAMPLE_CAP,
                    wins_sum <= mp_sum,
                    wins_sum == sum_bucket_wins(self.players@.subrange(0, i as int), b),
                    mp_sum == sum_bucket_played(self.players@.subrange(0, i as int), b),
                    kills_sum == sum_bucket_kills(self.players@.subrange(0, i as int), b),
                    deaths_sum == sum_bucket_deaths(self.players@.subrange(0, i as int), b),
                    mp_sum <= (i as int) * 0x10000000000000000,
                    kills_sum <= (i as int) * 0x10000000000000000,
                    deaths_sum <= (i as int) * 0x10000000000000000,
                decreases n - i,
            {
                proof {
                    assert(self.players@.subrange(0, i + 1).drop_last() == self.players@.subrange(
                        0,
                        i as int,
                    ));
                    assert(self.players@[i as int].wf(
                        self.n_dcs(),
                        self.config.num_skill_buckets as int,
                    ));
                }
                if self.players[i].skill_bucket == b {
                    count = count + 1;
                    let sa: u64 = window_avg(&self.players[i].recent_search_times);
                    let pa: u64 = window_avg(&self.players[i].recent_delta_pings);
                    proof {
                        assert((count as int) * SAMPLE_CAP + SAMPLE_CAP == ((count as int) + 1)
                            * SAMPLE_CAP) by (nonlinear_arith);
                        assert(count * SAMPLE_CAP <= 0x10000000000000000 * SAMPLE_CAP)
                            by (nonlinear_arith)
                            requires count <= 0x10000000000000000;
                    }
                    search_sum = search_sum + sa;
                    ping_sum = ping_sum + pa;
                    wins_sum = wins_sum + (self.players[i].wins as u128);
                    mp_sum = mp_sum + (self.players[i].matches_played as u128);
                    kills_sum = kills_sum + (self.players[i].total_kills as u128);
                    deaths_sum = deaths_sum + (self.players[i].total_deaths as u128);
                    proof {
                        assert(self.players@[i as int].wins
                            <= self.players@[i as int].matches_played);
                    }
                } else {
                    proof {
                        assert((i as int) * 0x10000000000000000 + 0x10000000000000000 == ((
                        i + 1) as int) * 0x10000000000000000) by (nonlinear_arith);
                    }
                }
                proof {
                    assert((i as int) * 0x10000000000000000 + 0x10000000000000000 == ((i
                        + 1) as int) * 0x10000000000000000) by (nonlinear_arith);
                    assert(i * SAMPLE_CAP + SAMPLE_CAP == (i + 1) * SAMPLE_CAP)
                        by (nonlinear_arith);
                }
                i = i + 1;
            }
            proof {
                assert(self.players@.subrange(0, n as int) == self.players@);
            }
            let avg_search: u64 = if count > 0 {
                proof {
                    assert(search_sum / count <= SAMPLE_CAP) by (nonlinear_arith)
                        requires search_sum <= count * SAMPLE_CAP, count >= 1, search_sum >= 0;
                    assert(ping_sum / count <= SAMPLE_CAP) by (nonlinear_arith)
                        requires ping_sum <= count * SAMPLE_CAP, count >= 1, ping_sum >= 0;
                }
                search_sum / count
            } else {
                0
            };
            let avg_ping: u64 = if count > 0 {
                ping_sum / count
            } else {
                0
            };
            let win_rate: u64 = if mp_sum > 0 {
                proof {
                    assert((wins_sum as int) * 1000 / (mp_sum as int) <= 1000) by (nonlinear_arith)
                        requires 0 <= wins_sum <= mp_sum, mp_sum >= 1;
                }
                ((wins_sum * 1000) / mp_sum) as u64
            } else {
                0
            };
            let kd: u64 = if deaths_sum > 0 {
                let r128: u128 = (kills_sum * 1000) / deaths_sum;
                if r128 <= 0xffffffffffffffff {
                    r128 as u64
                } else {
                    0xffffffffffffffff
                }
            } else {
                1000
            };
            let mp_total: u64 = if mp_sum <= 0xffffffffffffffff as u128 {
                mp_sum as u64
            } else {
                0xffffffffffffffff
            };
            rollups.push(
                BucketStats {
                    bucket_id: b,
                    player_count: count,
                    avg_search_time: avg_search,
                    avg_delta_ping: avg_ping,
                    win_rate_milli: win_rate,
                    avg_kd_milli: kd,
                    matches_played: mp_total,
                },
            );
            b = b + 1;
        }
        self.stats.bucket_stats = rollups;
    }

    /// Advance the simulation by one tick: arrivals, search starts,
    /// matchmaking, match creation, completions, statistics, clock.
    #[verifier::rlimit(100)]
    pub fn tick(&mut self)
        requires
            old(self).wf(),
            old(self).current_time < 0xffffffffffffffff,
            old(self).next_match_id + old(self).searches@.len() + old(self).players@.len()
                < 0xffffffffffffffff,
        ensures
            final(self).wf(),
            final(self).current_time == old(self).current_time + 1,
            final(self).players@.len() == old(self).players@.len(),
            final(self).rng_seed == old(self).rng_seed,
            final(self).config == old(self).config,
            final(self).next_match_id <= old(self).next_match_id + old(self).searches@.len()
                + old(self).players@.len(),
            final(self).searches@.len() <= old(self).searches@.len() + old(self).players@.len(),
            final(self).arrival_rate_milli == old(self).arrival_rate_milli,
            final(self).data_centers@.len() == old(self).data_centers@.len(),
            forall|d: int|
                0 <= d < final(self).data_centers@.len()
                    ==> (#[trigger] final(self).data_centers@[d]).server_capacity
                    == old(self).data_centers@[d].server_capacity,
            // Idle frame: with an empty queue and store, nobody in the
            // lobby and a zero arrival rate, only the clock and the
            // statistics change.
            (old(self).searches@.len() == 0 && old(self).matches@.len() == 0 && old(self).arrival_rate_milli == 0 && (forall|i: int|
                0 <= i < old(self).players@.len() ==> (#[trigger] old(self).players@[i]).state
                    != PlayerState::InLobby)) ==> final(self).players@ == old(self).players@
                && final(self).searches@.len() == 0 && final(self).matches@.len() == 0 && final(self).data_centers@ == old(self).data_centers@ && final(self).next_search_id == old(self).next_search_id && final(self).next_match_id == old(self).next_match_id,
    {
        let ghost idle = old(self).searches@.len() == 0 && old(self).matches@.len() == 0 && old(self).arrival_rate_milli == 0 && (forall|i: int|
            0 <= i < old(self).players@.len() ==> (#[trigger] old(self).players@[i]).state
                != PlayerState::InLobby);
        let tick_seed: u64 = self.rng_seed.wrapping_add(self.current_time);
        let mut ds = DrawStream::new(tick_seed);
        self.process_arrivals(&mut ds);
        let ghost s1 = *self;
        proof {
            if idle {
                assert(s1.players == old(self).players);
            }
        }
        self.process_search_starts(&mut ds);
        let ghost s2 = *self;
        proof {
            if idle {
                assert forall|i: int| 0 <= i < s1.players@.len() implies (
                #[trigger] s1.players@[i]).state != PlayerState::InLobby by {
                    assert(s1.players@[i] == old(self).players@[i]);
                }
                assert(s2.players == s1.players);
                assert(s2.searches == s1.searches);
            }
        }
        let proposals: Vec<MatchProposal> = self.run_matchmaking();
        let ghost s3 = *self;
        proof {
            if idle {
                assert(s2.searches@.len() == 0);
                assert(s3.searches@ == s2.searches@);
                assert(s3.data_centers@ == s2.data_centers@);
                assert(proposals@.len() == 0);
                assert(s3.players == s2.players);
                assert(s3.matches == s2.matches);
            }
        }
        self.create_matches(proposals, &mut ds);
        let ghost s4 = *self;
        proof {
            if idle {
                assert forall|i: int| 0 <= i < s4.players@.len() implies #[trigger] s4.players@[i]
                    == s3.players@[i] by {
                    assert(!in_some_proposal(proposals@, i as usize));
                }
                assert(s4.players@ =~= s3.players@);
                assert(s4.matches@.len() == 0);
                assert(s4.data_centers == s3.data_centers);
            }
        }
        self.process_match_completions(&mut ds);
        proof {
            if idle {
                assert forall|i: int| 0 <= i < self.players@.len() implies
                    #[trigger] self.players@[i] == s4.players@[i] by {}
                assert(self.players@ =~= s4.players@);
                assert(self.matches@.len() == 0) by {
                    if self.matches@.len() > 0 {
                        assert(in_store(s4.matches@, self.matches@[0]));
                    }
                }
                assert forall|d: int| 0 <= d < self.data_centers@.len() implies
                    #[trigger] self.data_centers@[d] == s4.data_centers@[d] by {
                    assert(count_over_on(s4.matches@, s4.current_time, d, Playlist::TeamDeathmatch)
                        == 0);
                    let dc0 = s4.data_centers@[d];
                    let dc1 = self.data_centers@[d];
                    assert forall|p: Playlist| #[trigger] dc1.busy_servers.spec_get(p)
                        == dc0.busy_servers.spec_get(p) by {
                        lemma_count_over_none(s4.matches@, s4.current_time, d, p);
                    }
                    assert(dc1.busy_servers.spec_get(Playlist::TeamDeathmatch)
                        == dc0.busy_servers.spec_get(Playlist::TeamDeathmatch));
                    assert(dc1.busy_servers.spec_get(Playlist::SearchAndDestroy)
                        == dc0.busy_servers.spec_get(Playlist::SearchAndDestroy));
                    assert(dc1.busy_servers.spec_get(Playlist::Domination)
                        == dc0.busy_servers.spec_get(Playlist::Domination));
                    assert(dc1.busy_servers.spec_get(Playlist::GroundWar)
                        == dc0.busy_servers.spec_get(Playlist::GroundWar));
                    assert(dc1.busy_servers.spec_get(Playlist::FreeForAll)
                        == dc0.busy_servers.spec_get(Playlist::FreeForAll));
                }
                assert(self.data_centers@ =~= s4.data_centers@);
            }
        }
        self.update_stats();
        self.current_time = self.current_time + 1;
        proof {
            assert(self.wf());
        }
    }

    /// Advance the simulation by `ticks` ticks.
    pub fn run(&mut self, ticks: u64)
        requires
            old(self).wf(),
            ticks <= 1048576,
            old(self).current_time + ticks <= 1099511627776,
            old(self).next_match_id <= 1152921504606846976,
            old(self).players@.len() <= 1048576,
            old(self).searches@.len() <= 1073741824,
        ensures
            final(self).wf(),
            final(self).current_time == old(self).current_time + ticks,
            final(self).rng_seed == old(self).rng_seed,
            final(self).players@.len() == old(self).players@.len(),
            final(self).config == old(self).config,
            final(self).arrival_rate_milli == old(self).arrival_rate_milli,
            final(self).data_centers@.len() == old(self).data_centers@.len(),
            forall|d: int|
                0 <= d < final(self).data_centers@.len()
                    ==> (#[trigger] final(self).data_centers@[d]).server_capacity
                    == old(self).data_centers@[d].server_capacity,
    {
        let ghost pre = *self;
        let ghost bound: int = pre.searches@.len() + (ticks as int) * (pre.players@.len() as int)
            + pre.players@.len();
        let mut t: u64 = 0;
        while t < ticks
            invariant
                t <= ticks,
                ticks <= 1048576,
                self.wf(),
                self.current_time == pre.current_time + t,
                pre.current_time + ticks <= 1099511627776,
                self.rng_seed == pre.rng_seed,
                self.players@.len() == pre.players@.len(),
                self.config == pre.config,
                self.arrival_rate_milli == pre.arrival_rate_milli,
                self.data_centers@.len() == pre.data_centers@.len(),
                forall|d: int|
                    0 <= d < self.data_centers@.len()
                        ==> (#[trigger] self.data_centers@[d]).server_capacity
                        == pre.data_centers@[d].server_capacity,
                pre.players@.len() <= 1048576,
                pre.searches@.len() <= 1073741824,
                pre.next_match_id <= 1152921504606846976,
                bound == pre.searches@.len() + (ticks as int) * (pre.players@.len() as int)
                    + pre.players@.len(),
                self.searches@.len() <= pre.searches@.len() + (t as int) * (
                pre.players@.len() as int),
                self.next_match_id <= pre.next_match_id + (t as int) * bound,
            decreases ticks - t,
        {
            proof {
                assert((t as int) * (pre.players@.len() as int) <= 1048576 * 1048576)
                    by (nonlinear_arith)
                    requires 0 <= t <= 1048576, 0 <= pre.players@.len() <= 1048576;
                assert(bound <= 1073741824 + 1048576 * 1048576 + 1048576) by (nonlinear_arith)
                    requires
                        bound == pre.searches@.len() + (ticks as int) * (
                        pre.players@.len() as int) + pre.players@.len(),
                        pre.searches@.len() <= 1073741824,
                        ticks <= 1048576,
                        pre.players@.len() <= 1048576,
                ;
                assert((t as int) * bound <= 1048576 * (1073741824 + 1048576 * 1048576 + 1048576))
                    by (nonlinear_arith)
                    requires 0 <= t <= 1048576, 0 <= bound <= 1073741824 + 1048576 * 1048576 + 1048576;
            }
            let ghost at_entry = *self;
            self.tick();
            proof {
                assert(self.searches@.len() <= at_entry.searches@.len()
                    + pre.players@.len());
                assert((t as int) * (pre.players@.len() as int) + pre.players@.len() == ((t
                    + 1) as int) * (pre.players@.len() as int)) by (nonlinear_arith);
                assert((t as int) * (pre.players@.len() as int) <= (ticks as int) * (
                pre.players@.len() as int)) by (nonlinear_arith)
                    requires 0 <= t <= ticks, pre.players@.len() >= 0;
                assert(at_entry.searches@.len() + pre.players@.len() <= bound);
                assert((t as int) * bound + bound == ((t + 1) as int) * bound)
                    by (nonlinear_arith);
            }
            t = t + 1;
        }
    }

    /// Set the Poisson arrival rate (players per tick, in thousandths),
    /// capped at the machine limit of the sampler.
    pub fn set_arrival_rate(&mut self, rate_milli: u64)
        requires
            old(self).wf(),
        ensures
            final(self).wf(),
            final(self).arrival_rate_milli == (if rate_milli <= MICRO {
                rate_milli
            } else {
                MICRO
            }),
            *final(self) == (Simulation {
                arrival_rate_milli: final(self).arrival_rate_milli,
                ..*old(self)
            }),
    {
        self.arrival_rate_milli = if rate_milli <= MICRO {
            rate_milli
        } else {
            MICRO
        };
    }

    /// Replace the configuration; takes effect from the next tick. The
    /// skill buckets are re-derived for the new bucket count. An
    /// out-of-range configuration is rejected unchanged.
    pub fn update_config(&mut self, config: MatchmakingConfig) -> (r: Result<(), SimError>)
        requires
            old(self).wf(),
        ensures
            final(self).wf(),
            r is Ok <==> config.wf(),
            r is Ok ==> final(self).config == config,
            r is Ok ==> final(self).players@.len() == old(self).players@.len(),
            r is Ok ==> forall|i: int|
                0 <= i < final(self).players@.len() ==> {
                    &&& same_but_rank(old(self).players@[i], #[trigger] final(self).players@[i])
                    &&& final(self).players@[i].skill_percentile_milli == spec_percentile_milli(
                        spec_rank(old(self).players@, i),
                        old(self).players@.len() as int,
                    )
                    &&& final(self).players@[i].skill_bucket == Player::spec_bucket(
                        final(self).players@[i].skill_percentile_milli as u64,
                        config.num_skill_buckets,
                    )
                },
            r is Ok ==> final(self).searches == old(self).searches && final(self).matches
                == old(self).matches && final(self).data_centers == old(self).data_centers
                && final(self).current_time == old(self).current_time,
            r is Err ==> *final(self) == *old(self) && r->Err_0 == SimError::InvalidConfig,
    {
        match config.validate() {
            Result::Err(e) => Err(e),
            Result::Ok(_) => {
                self.config = config;
                proof {
                    assert forall|j: int| 0 <= j < self.matches@.len() implies self.match_wf(
                        #[trigger] self.matches@[j],
                    ) by {
                        assert(old(self).matches@[j] == self.matches@[j]);
                        assert(old(self).match_wf(old(self).matches@[j]));
                    }
                }
                self.update_skill_percentiles();
                Ok(())
            }
        }
    }

    /// The band within twenty even divisions of [-1, 1] that a raw
    /// skill value falls in.
    pub open spec fn spec_skill_band(sk: i64) -> int {
        (sk + 1000) * 19 / 2000
    }

    /// Number of players whose skill falls in a band.
    pub open spec fn count_band(s: Seq<Player>, band: int) -> int
        decreases s.len(),
    {
        if s.len() == 0 {
            0
        } else {
            Simulation::count_band(s.drop_last(), band) + (if Simulation::spec_skill_band(
                s.last().skill_milli,
            ) == band {
                1int
            } else {
                0int
            })
        }
    }

    pub proof fn lemma_count_band_bound(s: Seq<Player>, band: int)
        ensures
            0 <= Simulation::count_band(s, band) <= s.len(),
        decreases s.len(),
    {
        if s.len() > 0 {
            Simulation::lemma_count_band_bound(s.drop_last(), band);
        }
    }

    /// Histogram of raw skill over twenty even bands of [-1, 1]: each
    /// entry carries the band's center in milli-units and the exact
    /// count of players whose skill falls in the band, so the counts
    /// partition the population.
    pub fn get_skill_distribution(&self) -> (r: Vec<(i64, u64)>)
        requires
            self.wf(),
        ensures
            r@.len() == 20,
            forall|b: int|
                0 <= b < 20 ==> (#[trigger] r@[b]).1 == Simulation::count_band(self.players@, b)
                    && r@[b].0 == b * 2000 / 19 - 1000,
    {
        let mut counts: Vec<u64> = Vec::new();
        let mut b: usize = 0;
        while b < 20
            invariant
                counts@.len() == b,
                b <= 20,
                forall|w: int| 0 <= w < b ==> #[trigger] counts@[w] == 0,
            decreases 20 - b,
        {
            counts.push(0);
            b = b + 1;
        }
        let n: usize = self.players.len();
        let mut i: usize = 0;
        while i < n
            invariant
                i <= n,
                n == self.players@.len(),
                self.wf(),
                counts@.len() == 20,
                forall|w: int|
                    0 <= w < 20 ==> #[trigger] counts@[w] == Simulation::count_band(
                        self.players@.subrange(0, i as int),
                        w,
                    ),
            decreases n - i,
        {
            proof {
                assert(self.players@[i as int].wf(
                    self.n_dcs(),
                    self.config.num_skill_buckets as int,
                ));
                assert forall|w: int| 0 <= w < 20 implies Simulation::count_band(
                    self.players@.subrange(0, i + 1),
                    w,
                ) == Simulation::count_band(self.players@.subrange(0, i as int), w) + (
                if Simulation::spec_skill_band(self.players@[i as int].skill_milli) == w {
                    1int
                } else {
                    0int
                }) by {
                    assert(self.players@.subrange(0, i + 1).drop_last() == self.players@.subrange(
                        0,
                        i as int,
                    ));
                }
                Simulation::lemma_count_band_bound(
                    self.players@.subrange(0, i as int),
                    Simulation::spec_skill_band(self.players@[i as int].skill_milli),
                );
            }
            let sk: i64 = self.players[i].skill_milli;
            let shifted: u64 = (sk + 1000) as u64;
            let band_raw: u64 = shifted * 19 / 2000;
            proof {
                assert(band_raw <= 19);
                assert(band_raw as int == Simulation::spec_skill_band(sk));
            }
            let band: usize = band_raw as usize;
            let c: u64 = counts[band];
            counts.set(band, c + 1);
            i = i + 1;
        }
        proof {
            assert(self.players@.subrange(0, n as int) == self.players@);
        }
        let mut r: Vec<(i64, u64)> = Vec::new();
        let mut b2: usize = 0;
        while b2 < 20
            invariant
                r@.len() == b2,
                b2 <= 20,
                counts@.len() == 20,
                forall|w: int|
                    0 <= w < 20 ==> #[trigger] counts@[w] == Simulation::count_band(
                        self.players@,
                        w,
                    ),
                forall|w: int|
                    0 <= w < b2 ==> (#[trigger] r@[w]).1 == Simulation::count_band(
                        self.players@,
                        w,
                    ) && r@[w].0 == w * 2000 / 19 - 1000,
            decreases 20 - b2,
        {
            let center: i64 = ((b2 as i64) * 2000) / 19 - 1000;
            r.push((center, counts[b2]));
            b2 = b2 + 1;
        }
        r
    }
}

} // verus!
