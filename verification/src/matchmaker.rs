//! The matchmaker: the per-tick seed-and-fill grouping algorithm.
//!
//! Each tick the queue is walked oldest wait first. Every unconsumed
//! search in turn anchors a grouping attempt: it picks a target playlist
//! and data center, gathers compatible candidates by composite distance,
//! and commits a proposal when a full match's worth of players has been
//! gathered.

use vstd::prelude::*;
use crate::config::MatchmakingConfig;
use crate::datacenter::DataCenter;
use crate::geo::spec_distance_km;
use crate::model::{Playlist, NUM_PLAYLISTS, PlatformCounts, InputCounts};
use crate::player::{Player, SAMPLE_CAP};
use crate::search::SearchObject;
use crate::units::isqrt;

verus! {

/// A complete match proposal emitted by one tick of matchmaking.
#[derive(Clone, Debug)]
pub struct MatchProposal {
    pub playlist: Playlist,
    pub data_center_id: usize,
    /// Teams in snake-draft order; their concatenation is `player_ids`.
    pub teams: Vec<Vec<usize>>,
    pub player_ids: Vec<usize>,
    /// Raw quality score in thousandths; not clamped.
    pub quality_score_milli: i64,
    /// Percentile range across the gathered members.
    pub skill_disparity_milli: u64,
    /// Mean latency inflation across members (ms).
    pub avg_delta_ping: u64,
    /// Mean wait of the absorbed searches, in seconds, capped.
    pub avg_wait_seconds: u64,
}

/// Whether search `s` includes player `pid`.
pub open spec fn search_has(s: SearchObject, pid: usize) -> bool {
    s.player_ids@.contains(pid)
}

/// No player appears in two searches of the queue, nor twice in one.
pub open spec fn queue_distinct(q: Seq<SearchObject>) -> bool {
    forall|i: int, j: int, pid: usize|
        0 <= i < q.len() && 0 <= j < q.len() && i != j ==> !(#[trigger] search_has(q[i], pid)
            && #[trigger] search_has(q[j], pid))
}

/// Whether some search of the queue includes player `pid`.
pub open spec fn from_queue(q: Seq<SearchObject>, pid: usize) -> bool {
    exists|j: int| 0 <= j < q.len() && #[trigger] search_has(q[j], pid)
}

/// No entry occurs twice.
pub open spec fn no_dup(s: Seq<usize>) -> bool {
    forall|i: int, j: int| 0 <= i < j < s.len() ==> s[i] != s[j]
}

/// The owning player of a (single-member) search.
pub open spec fn owner(s: SearchObject) -> usize {
    s.player_ids@[0]
}

/// The structural facts that hold of every emitted proposal.
pub open spec fn proposal_ok(
    pr: MatchProposal,
    q0: Seq<SearchObject>,
    players: Seq<Player>,
    dcs: Seq<DataCenter>,
    cfg: MatchmakingConfig,
) -> bool {
    &&& pr.player_ids@.len() == pr.playlist.spec_required_players()
    &&& no_dup(pr.player_ids@)
    &&& pr.teams@.len() == pr.playlist.spec_team_count()
    &&& forall|k: int|
        0 <= k < pr.teams@.len() ==> (#[trigger] pr.teams@[k])@.len()
            == pr.playlist.spec_required_players() as int / pr.playlist.spec_team_count() as int
    &&& teams_no_dup(teams_view(pr.teams))
    &&& forall|pid: usize| teams_contain(teams_view(pr.teams), pid) <==> pr.player_ids@.contains(pid)
    &&& forall|i: int|
        0 <= i < pr.player_ids@.len() ==> (#[trigger] pr.player_ids@[i]) < players.len()
    &&& forall|i: int|
        0 <= i < pr.player_ids@.len() ==> from_queue(q0, #[trigger] pr.player_ids@[i])
    &&& pr.data_center_id < dcs.len()
    &&& dcs[pr.data_center_id as int].server_capacity.spec_get(pr.playlist) >= 1
    &&& pr.skill_disparity_milli <= cfg.max_skill_disparity_max
    &&& pr.avg_delta_ping <= SAMPLE_CAP
    &&& pr.avg_wait_seconds <= SAMPLE_CAP
    &&& pr.quality_score_milli == spec_quality_milli(
        pr.avg_delta_ping,
        pr.skill_disparity_milli,
        pr.avg_wait_seconds,
        cfg,
    )
    &&& exists|j: int|
        0 <= j < q0.len() && (#[trigger] q0[j]).acceptable_playlists.spec_contains(pr.playlist)
}


/// Proposals of the batch placed on data center `d` for playlist `p`.
pub open spec fn count_props_on(prs: Seq<MatchProposal>, d: int, p: Playlist) -> int
    decreases prs.len(),
{
    if prs.len() == 0 {
        0
    } else {
        count_props_on(prs.drop_last(), d, p) + (if prs.last().data_center_id == d
            && prs.last().playlist == p {
            1int
        } else {
            0int
        })
    }
}

/// Proposals never reference a player twice, within one proposal or
/// across two proposals of the same tick.
pub open spec fn proposals_disjoint(prs: Seq<MatchProposal>) -> bool {
    forall|a: int, b: int, i: int, j: int|
        0 <= a < prs.len() && 0 <= b < prs.len() && 0 <= i < prs[a].player_ids@.len() && 0 <= j
            < prs[b].player_ids@.len() && (a != b || i != j) ==> #[trigger] prs[a].player_ids@[i]
            != #[trigger] prs[b].player_ids@[j]
}

/// Cosine mismatch of two histograms, in thousandths: `1000` minus the
/// scaled cosine similarity `dot * 1000 / sqrt(na * nb)`.
pub open spec fn spec_cos_mismatch(dot: int, na: int, nb: int) -> int {
    if na <= 0 || nb <= 0 {
        1000
    } else {
        let root = choose|r: u64| #[trigger] crate::units::is_isqrt((na * nb) as u64, r);
        let sim = if dot * 1000 / (root as int) <= 1000 {
            dot * 1000 / (root as int)
        } else {
            1000
        };
        1000 - sim
    }
}

/// Shared histogram mismatch: counts are bounded by 1000 each.
fn cos_mismatch(dot: u64, na: u64, nb: u64) -> (r: u64)
    requires
        dot <= 3000000,
        na <= 3000000,
        nb <= 3000000,
    ensures
        r == spec_cos_mismatch(dot as int, na as int, nb as int),
        r <= 1000,
{
    if na == 0 || nb == 0 {
        return 1000;
    }
    proof {
        assert(na * nb <= 9000000000000) by (nonlinear_arith)
            requires na <= 3000000, nb <= 3000000;
        assert(na * nb >= 1) by (nonlinear_arith)
            requires na >= 1, nb >= 1;
    }
    let prod: u64 = na * nb;
    let root: u64 = isqrt(prod);
    proof {
        assert(exists|r: u64| #[trigger] crate::units::is_isqrt(prod, r)) by {
            assert(crate::units::is_isqrt(prod, root));
        }
        let w = choose|r: u64| #[trigger] crate::units::is_isqrt(prod, r);
        crate::units::lemma_isqrt_unique(prod, root, w);
        assert(root >= 1) by {
            if root == 0 {
                assert((root + 1) * (root + 1) > prod);
                assert(prod == 0);
                assert(false);
            }
        }
    }
    let sim_raw: u64 = dot * 1000 / root;
    let sim: u64 = if sim_raw <= 1000 {
        sim_raw
    } else {
        1000
    };
    1000 - sim
}

/// Mismatch of the platform histograms of two searches.
pub open spec fn spec_platform_mismatch(a: PlatformCounts, b: PlatformCounts) -> int {
    spec_cos_mismatch(
        a.pc * b.pc + a.playstation * b.playstation + a.xbox * b.xbox,
        a.pc * a.pc + a.playstation * a.playstation + a.xbox * a.xbox,
        b.pc * b.pc + b.playstation * b.playstation + b.xbox * b.xbox,
    )
}

pub fn platform_mismatch(a: &PlatformCounts, b: &PlatformCounts) -> (r: u64)
    requires
        a.pc + a.playstation + a.xbox <= 1000,
        b.pc + b.playstation + b.xbox <= 1000,
    ensures
        r == spec_platform_mismatch(*a, *b),
        r <= 1000,
{
    proof {
        assert(a.pc * b.pc + a.playstation * b.playstation + a.xbox * b.xbox <= 3000000
            && a.pc * a.pc + a.playstation * a.playstation + a.xbox * a.xbox <= 3000000
            && b.pc * b.pc + b.playstation * b.playstation + b.xbox * b.xbox <= 3000000)
            by (nonlinear_arith)
            requires
                a.pc + a.playstation + a.xbox <= 1000,
                b.pc + b.playstation + b.xbox <= 1000,
        ;
    }
    cos_mismatch(
        a.pc * b.pc + a.playstation * b.playstation + a.xbox * b.xbox,
        a.pc * a.pc + a.playstation * a.playstation + a.xbox * a.xbox,
        b.pc * b.pc + b.playstation * b.playstation + b.xbox * b.xbox,
    )
}

/// Mismatch of the input-device histograms of two searches.
pub open spec fn spec_input_mismatch(a: InputCounts, b: InputCounts) -> int {
    spec_cos_mismatch(
        a.controller * b.controller + a.mouse_keyboard * b.mouse_keyboard,
        a.controller * a.controller + a.mouse_keyboard * a.mouse_keyboard,
        b.controller * b.controller + b.mouse_keyboard * b.mouse_keyboard,
    )
}

pub fn input_mismatch(a: &InputCounts, b: &InputCounts) -> (r: u64)
    requires
        a.controller + a.mouse_keyboard <= 1000,
        b.controller + b.mouse_keyboard <= 1000,
    ensures
        r == spec_input_mismatch(*a, *b),
        r <= 1000,
{
    proof {
        assert(a.controller * b.controller + a.mouse_keyboard * b.mouse_keyboard <= 3000000
            && a.controller * a.controller + a.mouse_keyboard * a.mouse_keyboard <= 3000000
            && b.controller * b.controller + b.mouse_keyboard * b.mouse_keyboard <= 3000000)
            by (nonlinear_arith)
            requires
                a.controller + a.mouse_keyboard <= 1000,
                b.controller + b.mouse_keyboard <= 1000,
        ;
    }
    cos_mismatch(
        a.controller * b.controller + a.mouse_keyboard * b.mouse_keyboard,
        a.controller * a.controller + a.mouse_keyboard * a.mouse_keyboard,
        b.controller * b.controller + b.mouse_keyboard * b.mouse_keyboard,
    )
}

/// Composite distance between a seed and a candidate, in millionths:
/// `wg * geo / 20000km + ws * |dskill| + wi * input + wp * platform`,
/// with the weights in thousandths and the component terms in
/// thousandths.
pub open spec fn spec_composite_distance(
    s: SearchObject,
    c: SearchObject,
    cfg: MatchmakingConfig,
) -> int {
    let geo = spec_distance_km(s.avg_location, c.avg_location);
    let dskill = if s.avg_skill_percentile_milli >= c.avg_skill_percentile_milli {
        s.avg_skill_percentile_milli - c.avg_skill_percentile_milli
    } else {
        c.avg_skill_percentile_milli - s.avg_skill_percentile_milli
    };
    cfg.weight_geo * geo * 1000 / 20000 + cfg.weight_skill * dskill + cfg.weight_input
        * spec_input_mismatch(s.input_devices, c.input_devices) + cfg.weight_platform
        * spec_platform_mismatch(s.platforms, c.platforms)
}

pub fn composite_distance(s: &SearchObject, c: &SearchObject, cfg: &MatchmakingConfig) -> (r: u64)
    requires
        cfg.wf(),
        s.wf(s.acceptable_dcs@.len() as int),
        c.wf(c.acceptable_dcs@.len() as int),
    ensures
        r == spec_composite_distance(*s, *c, *cfg),
        r <= 4000000000,
{
    let geo: u64 = s.avg_location.distance_km(&c.avg_location);
    let dskill: u64 = if s.avg_skill_percentile_milli >= c.avg_skill_percentile_milli {
        s.avg_skill_percentile_milli - c.avg_skill_percentile_milli
    } else {
        c.avg_skill_percentile_milli - s.avg_skill_percentile_milli
    };
    let im: u64 = input_mismatch(&s.input_devices, &c.input_devices);
    let pm: u64 = platform_mismatch(&s.platforms, &c.platforms);
    proof {
        assert(cfg.weight_geo * geo <= 20016000 && cfg.weight_skill * dskill <= 1000000
            && cfg.weight_input * im <= 1000000 && cfg.weight_platform * pm <= 1000000)
            by (nonlinear_arith)
            requires
                cfg.weight_geo <= 1000,
                geo <= 20016,
                cfg.weight_skill <= 1000,
                dskill <= 1000,
                cfg.weight_input <= 1000,
                im <= 1000,
                cfg.weight_platform <= 1000,
                pm <= 1000,
        ;
    }
    cfg.weight_geo * geo * 1000 / 20000 + cfg.weight_skill * dskill + cfg.weight_input * im
        + cfg.weight_platform * pm
}

/// Raw quality score of a proposal in thousandths, from its mean delta
/// ping, its skill disparity and its mean wait in seconds:
/// `qp * (1 - adp/dp_max) + qs * (1 - disp/d_max) + qw * (1 - min(1, aws/120))`.
pub open spec fn spec_quality_milli(adp: u64, disp: u64, aws: u64, cfg: MatchmakingConfig) -> int {
    let t1 = 1000 * (adp as int) / (cfg.delta_ping_max as int);
    let t2 = 1000 * (disp as int) / (cfg.max_skill_disparity_max as int);
    let t3r = 1000 * (aws as int) / 120;
    let t3 = if t3r <= 1000 {
        t3r as int
    } else {
        1000
    };
    let num = cfg.quality_weight_ping * (1000 - t1) + cfg.quality_weight_skill_balance * (1000
        - t2) + cfg.quality_weight_wait_time * (1000 - t3);
    if num >= 0 {
        num / 1000
    } else {
        -((-num) / 1000)
    }
}

pub fn quality_milli(adp: u64, disp: u64, aws: u64, cfg: &MatchmakingConfig) -> (r: i64)
    requires
        cfg.wf(),
        adp <= SAMPLE_CAP,
        disp <= SAMPLE_CAP,
        aws <= SAMPLE_CAP,
    ensures
        r == spec_quality_milli(adp, disp, aws, *cfg),
{
    let t1: i64 = ((1000 * adp) / cfg.delta_ping_max) as i64;
    let t2: i64 = ((1000 * disp) / cfg.max_skill_disparity_max) as i64;
    let t3r: u64 = (1000 * aws) / 120;
    let t3: i64 = if t3r <= 1000 {
        t3r as i64
    } else {
        1000
    };
    proof {
        assert(0 <= 1000 * (adp as int) / (cfg.delta_ping_max as int) <= 1000000000)
            by (nonlinear_arith)
            requires adp <= 1000000, cfg.delta_ping_max >= 1;
        assert(0 <= 1000 * (disp as int) / (cfg.max_skill_disparity_max as int) <= 1000000000)
            by (nonlinear_arith)
            requires disp <= 1000000, cfg.max_skill_disparity_max >= 1;
        assert(cfg.quality_weight_ping * (1000 - t1) <= 1000 * 1000 && cfg.quality_weight_ping * (
        1000 - t1) >= 1000 * (-1000000000)) by (nonlinear_arith)
            requires 0 <= cfg.quality_weight_ping <= 1000, -1000000000 <= 1000 - t1 <= 1000;
        assert(cfg.quality_weight_skill_balance * (1000 - t2) <= 1000 * 1000
            && cfg.quality_weight_skill_balance * (1000 - t2) >= 1000 * (-1000000000))
            by (nonlinear_arith)
            requires
                0 <= cfg.quality_weight_skill_balance <= 1000,
                -1000000000 <= 1000 - t2 <= 1000,
        ;
        assert(cfg.quality_weight_wait_time * (1000 - t3) <= 1000 * 1000
            && cfg.quality_weight_wait_time * (1000 - t3) >= 0) by (nonlinear_arith)
            requires 0 <= cfg.quality_weight_wait_time <= 1000, 0 <= 1000 - t3 <= 1000;
    }
    let qp: i64 = cfg.quality_weight_ping as i64;
    let qs: i64 = cfg.quality_weight_skill_balance as i64;
    let qw: i64 = cfg.quality_weight_wait_time as i64;
    let num: i64 = qp * (1000 - t1) + qs * (1000 - t2) + qw * (1000 - t3);
    if num >= 0 {
        num / 1000
    } else {
        -((-num) / 1000)
    }
}

/// Whether player `pid` stands in some team of `teams`.
pub open spec fn teams_contain(teams: Seq<Seq<usize>>, pid: usize) -> bool {
    exists|k: int, i: int|
        0 <= k < teams.len() && 0 <= i < teams[k].len() && #[trigger] teams[k][i] == pid
}

/// No player stands in two team slots.
pub open spec fn teams_no_dup(teams: Seq<Seq<usize>>) -> bool {
    forall|k1: int, i1: int, k2: int, i2: int|
        0 <= k1 < teams.len() && 0 <= i1 < teams[k1].len() && 0 <= k2 < teams.len() && 0 <= i2
            < teams[k2].len() && (k1 != k2 || i1 != i2) ==> #[trigger] teams[k1][i1]
            != #[trigger] teams[k2][i2]
}

/// The view of a vector of teams.
pub open spec fn teams_view(teams: Vec<Vec<usize>>) -> Seq<Seq<usize>> {
    teams@.map_values(|t: Vec<usize>| t@)
}

/// Snake-draft team assignment: the members are picked best skill first
/// and dealt to the teams in alternating order (ABBA), so each team
/// receives exactly `per_team` members and every member stands in
/// exactly one slot.
pub fn assemble_teams(members: &Vec<usize>, skills: &Vec<i64>, team_count: usize, per_team: usize)
    -> (teams: Vec<Vec<usize>>)
    requires
        members@.len() == skills@.len(),
        members@.len() == team_count * per_team,
        1 <= team_count <= 64,
        1 <= per_team <= 64,
        no_dup(members@),
    ensures
        teams@.len() == team_count,
        forall|k: int| 0 <= k < teams@.len() ==> (#[trigger] teams@[k])@.len() == per_team,
        teams_no_dup(teams_view(teams)),
        forall|pid: usize| teams_contain(teams_view(teams), pid) <==> members@.contains(pid),
{
    let n: usize = members.len();
    proof {
        assert(n == team_count * per_team);
        assert(team_count * per_team >= team_count * 1) by (nonlinear_arith)
            requires per_team >= 1, team_count >= 0;
    }
    let mut used: Vec<bool> = Vec::new();
    let mut i: usize = 0;
    while i < n
        invariant
            i <= n,
            used@.len() == i,
            forall|j: int| 0 <= j < i ==> !(#[trigger] used@[j]),
        decreases n - i,
    {
        used.push(false);
        i = i + 1;
    }
    let mut teams: Vec<Vec<usize>> = Vec::new();
    let mut k: usize = 0;
    while k < team_count
        invariant
            k <= team_count,
            teams@.len() == k,
            forall|j: int| 0 <= j < k ==> (#[trigger] teams@[j])@.len() == 0,
        decreases team_count - k,
    {
        teams.push(Vec::new());
        k = k + 1;
    }
    proof {
        lemma_count_used_zero(used@);
    }
    let mut round: usize = 0;
    while round < per_team
        invariant
            round <= per_team,
            n == members@.len(),
            n == skills@.len(),
            n == team_count * per_team,
            1 <= team_count <= 64,
            1 <= per_team <= 64,
            no_dup(members@),
            used@.len() == n,
            teams@.len() == team_count,
            forall|kk: int| 0 <= kk < team_count ==> (#[trigger] teams@[kk])@.len() == round,
            forall|idx: int|
                0 <= idx < n ==> (#[trigger] used@[idx] <==> teams_contain(
                    teams_view(teams),
                    members@[idx],
                )),
            forall|pid: usize|
                #[trigger] teams_contain(teams_view(teams), pid) ==> members@.contains(pid),
            teams_no_dup(teams_view(teams)),
            count_used(used@) == round * team_count,
        decreases per_team - round,
    {
        let mut pos: usize = 0;
        while pos < team_count
            invariant
                pos <= team_count,
                round < per_team,
                n == members@.len(),
                n == skills@.len(),
                n == team_count * per_team,
                1 <= team_count <= 64,
                1 <= per_team <= 64,
                no_dup(members@),
                used@.len() == n,
                teams@.len() == team_count,
                forall|kk: int|
                    0 <= kk < team_count ==> (#[trigger] teams@[kk])@.len() as int == (
                    if (round % 2 == 0 && kk < pos) || (round % 2 == 1 && kk >= team_count - pos) {
                        round + 1
                    } else {
                        round as int
                    }),
                forall|idx: int|
                    0 <= idx < n ==> (#[trigger] used@[idx] <==> teams_contain(
                        teams_view(teams),
                        members@[idx],
                    )),
                forall|pid: usize|
                    #[trigger] teams_contain(teams_view(teams), pid) ==> members@.contains(pid),
                teams_no_dup(teams_view(teams)),
                count_used(used@) == round * team_count + pos,
            decreases team_count - pos,
        {
            proof {
                assert(round * team_count + pos < n) by (nonlinear_arith)
                    requires
                        round < per_team,
                        pos < team_count,
                        n == team_count * per_team,
                        team_count >= 1,
                        per_team >= 1,
                ;
            }
            // Pick the strongest unused member (ties to the lowest index).
            let mut best: usize = n;
            let mut idx: usize = 0;
            while idx < n
                invariant
                    idx <= n,
                    n == members@.len(),
                    n == skills@.len(),
                    used@.len() == n,
                    best <= n,
                    best < n ==> !used@[best as int],
                    best == n ==> forall|a: int| 0 <= a < idx ==> #[trigger] used@[a],
                decreases n - idx,
            {
                if !used[idx] {
                    if best == n {
                        best = idx;
                    } else if skills[idx] > skills[best] {
                        best = idx;
                    }
                }
                idx = idx + 1;
            }
            proof {
                if best == n {
                    lemma_count_used_total(used@);
                    assert(false);
                }
            }
            let team_idx: usize = if round % 2 == 0 {
                pos
            } else {
                team_count - 1 - pos
            };
            let ghost before = teams_view(teams);
            let ghost used_before = used@;
            let pid: usize = members[best];
            proof {
                // The picked member is not placed yet, so it differs from
                // every slot already dealt.
                assert(!teams_contain(before, pid));
            }
            let mut team: Vec<usize> = teams.remove(team_idx);
            team.push(pid);
            teams.insert(team_idx, team);
            used.set(best, true);
            proof {
                assert(teams_view(teams) =~= before.update(
                    team_idx as int,
                    before[team_idx as int].push(pid),
                ));
                let after = teams_view(teams);
                assert forall|p: usize| #[trigger] teams_contain(after, p) implies (
                teams_contain(before, p) || p == pid) by {
                    let (kk, ii) = choose|kk: int, ii: int|
                        0 <= kk < after.len() && 0 <= ii < after[kk].len() && #[trigger] after[kk][ii]
                            == p;
                    if kk != team_idx as int || ii < before[team_idx as int].len() {
                        assert(teams_contain(before, p));
                    }
                }
                assert forall|p: usize| teams_contain(before, p) || p == pid implies
                    #[trigger] teams_contain(after, p) by {
                    if p == pid {
                        assert(after[team_idx as int][before[team_idx as int].len() as int] == p);
                    } else {
                        let (kk, ii) = choose|kk: int, ii: int|
                            0 <= kk < before.len() && 0 <= ii < before[kk].len()
                                && #[trigger] before[kk][ii] == p;
                        assert(after[kk][ii] == p);
                    }
                }
                assert forall|idx2: int| 0 <= idx2 < n implies (#[trigger] used@[idx2]
                    <==> teams_contain(after, members@[idx2])) by {
                    if idx2 == best as int {
                        assert(teams_contain(after, pid));
                    } else {
                        if members@[idx2] == pid {
                            assert(false);
                        }
                    }
                }
                lemma_count_used_set(used_before, best as int);
            }
            pos = pos + 1;
        }
        proof {
            assert((round + 1) * team_count == round * team_count + team_count)
                by (nonlinear_arith);
        }
        round = round + 1;
    }
    proof {
        assert(forall|kk: int|
            0 <= kk < team_count ==> (#[trigger] teams@[kk])@.len() as int == per_team);
        assert(count_used(used@) == per_team * team_count);
        assert(per_team * team_count == team_count * per_team) by (nonlinear_arith);
        lemma_count_used_all(used@);
        assert forall|pid: usize| members@.contains(pid) implies #[trigger] teams_contain(
            teams_view(teams),
            pid,
        ) by {
            let idx = choose|idx: int| 0 <= idx < members@.len() && members@[idx] == pid;
            assert(used@[idx]);
        }
    }
    teams
}

pub proof fn lemma_count_used_all(used: Seq<bool>)
    requires
        count_used(used) == used.len(),
    ensures
        forall|a: int| 0 <= a < used.len() ==> #[trigger] used[a],
    decreases used.len(),
{
    if used.len() > 0 {
        lemma_count_used_bound(used.drop_last());
        lemma_count_used_all(used.drop_last());
        assert forall|a: int| 0 <= a < used.len() implies #[trigger] used[a] by {
            if a < used.len() - 1 {
                assert(used.drop_last()[a]);
            }
        }
    }
}

pub proof fn lemma_count_used_bound(used: Seq<bool>)
    ensures
        0 <= count_used(used) <= used.len(),
    decreases used.len(),
{
    if used.len() > 0 {
        lemma_count_used_bound(used.drop_last());
    }
}

pub proof fn lemma_count_used_zero(used: Seq<bool>)
    requires
        forall|a: int| 0 <= a < used.len() ==> !(#[trigger] used[a]),
    ensures
        count_used(used) == 0,
    decreases used.len(),
{
    if used.len() > 0 {
        lemma_count_used_zero(used.drop_last());
    }
}

/// Number of used slots.
pub open spec fn count_used(used: Seq<bool>) -> int
    decreases used.len(),
{
    if used.len() == 0 {
        0
    } else {
        count_used(used.drop_last()) + (if used.last() {
            1int
        } else {
            0int
        })
    }
}

pub proof fn lemma_count_used_total(used: Seq<bool>)
    requires
        forall|a: int| 0 <= a < used.len() ==> #[trigger] used[a],
    ensures
        count_used(used) == used.len(),
    decreases used.len(),
{
    if used.len() > 0 {
        lemma_count_used_total(used.drop_last());
    }
}

pub proof fn lemma_count_used_set(before: Seq<bool>, i: int)
    requires
        0 <= i < before.len(),
        !before[i],
    ensures
        count_used(before.update(i, true)) == count_used(before) + 1,
    decreases before.len(),
{
    if before.len() > 0 {
        if i == before.len() - 1 {
            assert(before.update(i, true).drop_last() == before.drop_last());
        } else {
            assert(before.update(i, true).drop_last() == before.drop_last().update(i, true));
            lemma_count_used_set(before.drop_last(), i);
        }
    }
}


/// Two searches that agree on everything but the per-tick data-center
/// acceptance mask.
pub open spec fn same_core(a: SearchObject, b: SearchObject) -> bool {
    &&& a.id == b.id
    &&& a.player_ids@ == b.player_ids@
    &&& a.avg_skill_percentile_milli == b.avg_skill_percentile_milli
    &&& a.skill_disparity_milli == b.skill_disparity_milli
    &&& a.avg_location == b.avg_location
    &&& a.platforms == b.platforms
    &&& a.input_devices == b.input_devices
    &&& a.acceptable_playlists == b.acceptable_playlists
    &&& a.search_start_time == b.search_start_time
}

/// Queue well-formedness against `n_dcs` data centers.
pub open spec fn queue_wf(q: Seq<SearchObject>, n_dcs: int) -> bool {
    forall|i: int| 0 <= i < q.len() ==> (#[trigger] q[i]).wf(n_dcs)
}

/// Oldest wait first: the queue is sorted by search start time.
pub open spec fn queue_sorted(q: Seq<SearchObject>) -> bool {
    forall|i: int, j: int|
        0 <= i <= j < q.len() ==> q[i].search_start_time <= q[j].search_start_time
}

/// Every queued search began at or before the current tick.
pub open spec fn queue_started(q: Seq<SearchObject>, now: u64) -> bool {
    forall|i: int| 0 <= i < q.len() ==> (#[trigger] q[i]).search_start_time <= now
}

/// Every queued search is owned by a resident player.
pub open spec fn queue_owners_ok(q: Seq<SearchObject>, players: Seq<Player>) -> bool {
    forall|i: int| 0 <= i < q.len() ==> (#[trigger] owner(q[i])) < players.len()
}

/// The network facts the matchmaker needs of every player: a ping per
/// data center, all bounded, and a coherent best ping.
pub open spec fn players_net_ok(players: Seq<Player>, n_dcs: int) -> bool {
    forall|i: int|
        0 <= i < players.len() ==> {
            &&& (#[trigger] players[i]).dc_pings@.len() == n_dcs
            &&& forall|d: int|
                0 <= d < n_dcs ==> #[trigger] players[i].dc_pings@[d] <= SAMPLE_CAP
            &&& players[i].best_ping <= SAMPLE_CAP
            &&& forall|d: int|
                0 <= d < n_dcs ==> players[i].best_ping <= #[trigger] players[i].dc_pings@[d]
        }
}

/// Data centers stand at their own index and are well-formed.
pub open spec fn dcs_ok(dcs: Seq<DataCenter>) -> bool {
    forall|d: int| 0 <= d < dcs.len() ==> (#[trigger] dcs[d]).wf() && dcs[d].id == d
}

/// Refresh every search's data-center acceptance mask from its owner's
/// pings and the delta-ping backoff at its current wait.
fn refresh_queue(
    searches: &mut Vec<SearchObject>,
    players: &Vec<Player>,
    cfg: &MatchmakingConfig,
    now: u64,
    n_dcs: usize,
)
    requires
        cfg.wf(),
        queue_started(old(searches)@, now),
        queue_owners_ok(old(searches)@, players@),
        forall|i: int|
            0 <= i < old(searches)@.len()
                ==> (#[trigger] old(searches)@[i]).player_ids@.len() == 1,
        players_net_ok(players@, n_dcs as int),
    ensures
        final(searches)@.len() == old(searches)@.len(),
        forall|i: int|
            0 <= i < final(searches)@.len() ==> same_core(
                #[trigger] final(searches)@[i],
                old(searches)@[i],
            ),
        forall|i: int|
            0 <= i < final(searches)@.len()
                ==> (#[trigger] final(searches)@[i]).acceptable_dcs@.len() == n_dcs,
{
    let n: usize = searches.len();
    let ghost q0 = searches@;
    let mut i: usize = 0;
    while i < n
        invariant
            i <= n,
            n == q0.len(),
            searches@.len() == n,
            cfg.wf(),
            queue_started(q0, now),
            queue_owners_ok(q0, players@),
            players_net_ok(players@, n_dcs as int),
            forall|a: int| 0 <= a < n ==> (#[trigger] q0[a]).player_ids@.len() == 1,
            forall|a: int| i <= a < n ==> #[trigger] searches@[a] == q0[a],
            forall|a: int| 0 <= a < i ==> same_core(#[trigger] searches@[a], q0[a]),
            forall|a: int|
                0 <= a < i ==> (#[trigger] searches@[a]).acceptable_dcs@.len() == n_dcs,
        decreases n - i,
    {
        let ghost pre = searches@;
        proof {
            assert(searches@[i as int] == q0[i as int]);
            assert(owner(q0[i as int]) < players@.len());
        }
        let mut so: SearchObject = searches.remove(i);
        let pid: usize = so.player_ids[0];
        proof {
            assert(so == q0[i as int]);
            assert(pid == owner(q0[i as int]));
            assert(players@[pid as int].dc_pings@.len() == n_dcs);
            assert(forall|d: int|
                0 <= d < n_dcs ==> #[trigger] players@[pid as int].dc_pings@[d] <= SAMPLE_CAP);
        }
        let wait: u64 = now - so.search_start_time;
        let mask: Vec<bool> = players[pid].acceptable_dcs(wait, cfg);
        so.acceptable_dcs = mask;
        searches.insert(i, so);
        proof {
            assert(searches@ =~= pre.update(i as int, searches@[i as int]));
        }
        i = i + 1;
    }
}

/// For the seed search, pick the playlist it accepts with the most
/// compatible waiting searches (ties to the lowest ordinal).
fn choose_playlist(searches: &Vec<SearchObject>, consumed: &Vec<bool>, si: usize) -> (r: Option<
    Playlist,
>)
    requires
        si < searches@.len(),
        consumed@.len() == searches@.len(),
    ensures
        r matches Some(p) ==> searches@[si as int].acceptable_playlists.spec_contains(p),
{
    let n: usize = searches.len();
    let mut best: Option<Playlist> = None;
    let mut best_count: u64 = 0;
    let mut ord: usize = 0;
    while ord < NUM_PLAYLISTS
        invariant
            ord <= NUM_PLAYLISTS,
            si < searches@.len(),
            consumed@.len() == searches@.len(),
            n == searches@.len(),
            best matches Some(p) ==> searches@[si as int].acceptable_playlists.spec_contains(p),
        decreases NUM_PLAYLISTS - ord,
    {
        let p: Playlist = Playlist::from_ordinal(ord);
        if searches[si].acceptable_playlists.contains(p) {
            let mut count: u64 = 0;
            let mut j: usize = 0;
            while j < n
                invariant
                    j <= n,
                    n == searches@.len(),
                    consumed@.len() == n,
                    count <= j,
                decreases n - j,
            {
                if !consumed[j] && searches[j].acceptable_playlists.contains(p) {
                    count = count + 1;
                }
                j = j + 1;
            }
            match best {
                Option::None => {
                    best = Some(p);
                    best_count = count;
                }
                Option::Some(_) => {
                    if count > best_count {
                        best = Some(p);
                        best_count = count;
                    }
                }
            }
        }
        ord = ord + 1;
    }
    best
}

/// Among the seed's acceptable data centers with a free server for the
/// playlist, pick the one with the lowest seed ping (ties to the lowest
/// id). `None` exactly when no acceptable data center has a free server.
pub fn choose_dc(
    seed: &SearchObject,
    owner_pings: &Vec<u64>,
    dcs: &Vec<DataCenter>,
    playlist: Playlist,
) -> (r: Option<usize>)
    requires
        seed.acceptable_dcs@.len() == dcs@.len(),
        owner_pings@.len() == dcs@.len(),
        dcs_ok(dcs@),
    ensures
        r matches Some(d) ==> {
            &&& d < dcs@.len()
            &&& seed.acceptable_dcs@[d as int]
            &&& dcs@[d as int].spec_available_servers(playlist) >= 1
        },
        r is None ==> forall|d: int|
            0 <= d < dcs@.len() ==> !(seed.acceptable_dcs@[d]
                && (#[trigger] dcs@[d]).spec_available_servers(playlist) >= 1),
{
    let n: usize = dcs.len();
    let mut best: Option<usize> = None;
    let mut best_ping: u64 = 0;
    let mut d: usize = 0;
    while d < n
        invariant
            d <= n,
            n == dcs@.len(),
            seed.acceptable_dcs@.len() == n,
            owner_pings@.len() == n,
            dcs_ok(dcs@),
            best matches Some(b) ==> {
                &&& b < n
                &&& seed.acceptable_dcs@[b as int]
                &&& dcs@[b as int].spec_available_servers(playlist) >= 1
            },
            best is None ==> forall|e: int|
                0 <= e < d ==> !(seed.acceptable_dcs@[e]
                    && (#[trigger] dcs@[e]).spec_available_servers(playlist) >= 1),
        decreases n - d,
    {
        if seed.acceptable_dcs[d] && dcs[d].available_servers(playlist) >= 1 {
            let ping: u64 = owner_pings[d];
            match best {
                Option::None => {
                    best = Some(d);
                    best_ping = ping;
                }
                Option::Some(_) => {
                    if ping < best_ping {
                        best = Some(d);
                        best_ping = ping;
                    }
                }
            }
        }
        d = d + 1;
    }
    best
}

/// The matchmaker: configuration plus the per-tick grouping algorithm.
#[derive(Clone, Copy, Debug)]
pub struct Matchmaker {
    pub config: MatchmakingConfig,
}

impl Matchmaker {
    pub fn new(config: MatchmakingConfig) -> (r: Matchmaker)
        ensures
            r.config == config,
    {
        Matchmaker { config }
    }
}


/// Gather the seed and compatible candidates for one grouping attempt:
/// filter by playlist, data center and skill window, then greedily fill
/// by composite distance under the disparity cap.
fn gather_group(
    searches: &Vec<SearchObject>,
    consumed: &Vec<bool>,
    si: usize,
    playlist: Playlist,
    dc: usize,
    cfg: &MatchmakingConfig,
    now: u64,
    n_dcs: usize,
) -> (r: (Vec<usize>, u64, u64))
    requires
        cfg.wf(),
        si < searches@.len(),
        consumed@.len() == searches@.len(),
        !consumed@[si as int],
        queue_wf(searches@, n_dcs as int),
        queue_started(searches@, now),
        dc < n_dcs,
        searches@[si as int].acceptable_playlists.spec_contains(playlist),
        searches@[si as int].acceptable_dcs@[dc as int],
    ensures
        1 <= r.0@.len() <= playlist.spec_required_players(),
        r.0@[0] == si,
        no_dup(r.0@),
        forall|a: int|
            0 <= a < r.0@.len() ==> (#[trigger] r.0@[a]) < searches@.len(),
        forall|a: int|
            0 <= a < r.0@.len() ==> !consumed@[#[trigger] r.0@[a] as int],
        forall|a: int|
            0 <= a < r.0@.len() ==> searches@[#[trigger] r.0@[a] as int].acceptable_playlists.spec_contains(playlist),
        forall|a: int|
            0 <= a < r.0@.len() ==> searches@[#[trigger] r.0@[a] as int].acceptable_dcs@[dc as int],
        r.1 <= r.2 <= 1000,
        r.2 - r.1 <= cfg.max_skill_disparity_max,
        forall|a: int|
            0 <= a < r.0@.len() ==> r.1 <= searches@[#[trigger] r.0@[a] as int].avg_skill_percentile_milli <= r.2,
{
    let n: usize = searches.len();
    let wait_s: u64 = now - searches[si].search_start_time;
    let cap: u64 = cfg.skill_disparity_backoff(wait_s);
    let pct_s: u64 = searches[si].avg_skill_percentile_milli;

    // Candidate filtering (spec steps d and e).
    let mut cidx: Vec<usize> = Vec::new();
    let mut cdist: Vec<u64> = Vec::new();
    let mut j: usize = 0;
    while j < n
        invariant
            j <= n,
            n == searches@.len(),
            consumed@.len() == n,
            cfg.wf(),
            si < n,
            dc < n_dcs,
            queue_wf(searches@, n_dcs as int),
            queue_started(searches@, now),
            cidx@.len() == cdist@.len(),
            forall|a: int, b: int| 0 <= a < b < cidx@.len() ==> cidx@[a] < cidx@[b],
            forall|a: int| 0 <= a < cidx@.len() ==> (#[trigger] cidx@[a]) < j,
            forall|a: int| 0 <= a < cidx@.len() ==> (#[trigger] cidx@[a]) != si,
            forall|a: int| 0 <= a < cidx@.len() ==> !consumed@[#[trigger] cidx@[a] as int],
            forall|a: int|
                0 <= a < cidx@.len() ==> searches@[#[trigger] cidx@[a] as int].acceptable_playlists.spec_contains(playlist),
            forall|a: int|
                0 <= a < cidx@.len() ==> searches@[#[trigger] cidx@[a] as int].acceptable_dcs@[dc as int],
        decreases n - j,
    {
        if j != si && !consumed[j] && searches[j].acceptable_playlists.contains(playlist)
            && searches[j].acceptable_dcs[dc] {
            let wait_c: u64 = now - searches[j].search_start_time;
            let wmax: u64 = if wait_s >= wait_c {
                wait_s
            } else {
                wait_c
            };
            let win: u64 = cfg.skill_similarity_backoff(wmax);
            let pct_c: u64 = searches[j].avg_skill_percentile_milli;
            let dskill: u64 = if pct_s >= pct_c {
                pct_s - pct_c
            } else {
                pct_c - pct_s
            };
            if dskill <= win {
                let d: u64 = composite_distance(&searches[si], &searches[j], cfg);
                cidx.push(j);
                cdist.push(d);
            }
        }
        j = j + 1;
    }

    // Greedy fill (spec step g): walk the candidates lowest composite
    // distance first, keeping at most top-K, and skip any candidate that
    // would push the running disparity above the cap.
    let required: usize = playlist.required_players();
    let mut group: Vec<usize> = Vec::new();
    group.push(si);
    let mut minp: u64 = pct_s;
    let mut maxp: u64 = pct_s;
    let m: usize = cidx.len();
    let mut picked: Vec<bool> = Vec::new();
    let mut c: usize = 0;
    while c < m
        invariant
            c <= m,
            picked@.len() == c,
            forall|a: int| 0 <= a < c ==> !(#[trigger] picked@[a]),
        decreases m - c,
    {
        picked.push(false);
        c = c + 1;
    }
    let mut k: usize = 0;
    while k < cfg.top_k_candidates
        invariant
            cfg.wf(),
            n == searches@.len(),
            consumed@.len() == n,
            si < n,
            dc < n_dcs,
            queue_wf(searches@, n_dcs as int),
            cidx@.len() == m,
            cdist@.len() == m,
            picked@.len() == m,
            forall|a: int, b: int| 0 <= a < b < m ==> cidx@[a] < cidx@[b],
            forall|a: int| 0 <= a < m ==> (#[trigger] cidx@[a]) < n,
            forall|a: int| 0 <= a < m ==> (#[trigger] cidx@[a]) != si,
            forall|a: int| 0 <= a < m ==> !consumed@[#[trigger] cidx@[a] as int],
            forall|a: int|
                0 <= a < m ==> searches@[#[trigger] cidx@[a] as int].acceptable_playlists.spec_contains(playlist),
            forall|a: int|
                0 <= a < m ==> searches@[#[trigger] cidx@[a] as int].acceptable_dcs@[dc as int],
            1 <= group@.len() <= required,
            required == playlist.spec_required_players(),
            group@[0] == si,
            no_dup(group@),
            forall|a: int| 0 <= a < group@.len() ==> (#[trigger] group@[a]) < n,
            forall|a: int| 0 <= a < group@.len() ==> !consumed@[#[trigger] group@[a] as int],
            forall|a: int|
                0 <= a < group@.len() ==> searches@[#[trigger] group@[a] as int].acceptable_playlists.spec_contains(playlist),
            forall|a: int|
                0 <= a < group@.len() ==> searches@[#[trigger] group@[a] as int].acceptable_dcs@[dc as int],
            forall|cc: int| 0 <= cc < m && !(#[trigger] picked@[cc]) ==> !group@.contains(cidx@[cc]),
            minp <= maxp <= 1000,
            maxp - minp <= cap,
            cap <= cfg.max_skill_disparity_max,
            forall|a: int|
                0 <= a < group@.len() ==> minp <= searches@[#[trigger] group@[a] as int].avg_skill_percentile_milli <= maxp,
        decreases cfg.top_k_candidates - k,
    {
        if group.len() >= required {
            break;
        }
        // Lowest-distance unpicked candidate, ties to the earliest.
        let mut bsel: usize = m;
        let mut cc: usize = 0;
        while cc < m
            invariant
                cc <= m,
                cidx@.len() == m,
                cdist@.len() == m,
                picked@.len() == m,
                bsel <= m,
                bsel < m ==> !picked@[bsel as int],
            decreases m - cc,
        {
            if !picked[cc] {
                if bsel == m {
                    bsel = cc;
                } else if cdist[cc] < cdist[bsel] {
                    bsel = cc;
                }
            }
            cc = cc + 1;
        }
        if bsel == m {
            break;
        }
        let cand: usize = cidx[bsel];
        let pct: u64 = searches[cand].avg_skill_percentile_milli;
        proof {
            assert(searches@[cand as int].wf(n_dcs as int));
        }
        let nmin: u64 = if pct < minp {
            pct
        } else {
            minp
        };
        let nmax: u64 = if pct > maxp {
            pct
        } else {
            maxp
        };
        if nmax - nmin <= cap {
            proof {
                assert(!group@.contains(cidx@[bsel as int]));
                assert forall|a: int| 0 <= a < group@.len() implies #[trigger] group@[a] != cand by {
                    if group@[a] == cand {
                        assert(group@.contains(cidx@[bsel as int]));
                    }
                }
            }
            group.push(cand);
            minp = nmin;
            maxp = nmax;
        }
        picked.set(bsel, true);
        k = k + 1;
    }
    (group, minp, maxp)
}


impl Matchmaker {
    /// One matchmaking tick: walk the queue oldest wait first, anchor a
    /// grouping attempt on each unconsumed search, and commit full
    /// proposals, debiting the chosen data center atomically so later
    /// seeds see the reduced capacity.
    ///
    /// The contract carries the observable guarantees: proposals never
    /// reference a player twice (within or across proposals), all their
    /// players come from the incoming queue and leave it, a proposal is
    /// only placed on a data center with capacity, remaining searches
    /// stay queued in order, and an empty queue changes nothing.
    pub fn run_tick(
        &self,
        searches: &mut Vec<SearchObject>,
        players: &Vec<Player>,
        data_centers: &mut Vec<DataCenter>,
        current_time: u64,
    ) -> (proposals: Vec<MatchProposal>)
        requires
            self.config.wf(),
            queue_wf(old(searches)@, old(data_centers)@.len() as int),
            queue_sorted(old(searches)@),
            queue_started(old(searches)@, current_time),
            queue_distinct(old(searches)@),
            queue_owners_ok(old(searches)@, players@),
            players_net_ok(players@, old(data_centers)@.len() as int),
            dcs_ok(old(data_centers)@),
        ensures
            queue_wf(final(searches)@, final(data_centers)@.len() as int),
            queue_sorted(final(searches)@),
            queue_started(final(searches)@, current_time),
            queue_distinct(final(searches)@),
            queue_owners_ok(final(searches)@, players@),
            final(searches)@.len() <= old(searches)@.len(),
            forall|a: int, pid: usize|
                0 <= a < final(searches)@.len() && #[trigger] search_has(final(searches)@[a], pid)
                    ==> from_queue(old(searches)@, pid),
            forall|x: int|
                0 <= x < proposals@.len() ==> proposal_ok(
                    #[trigger] proposals@[x],
                    old(searches)@,
                    players@,
                    old(data_centers)@,
                    self.config,
                ),
            proposals@.len() <= old(searches)@.len(),
            proposals_disjoint(proposals@),
            forall|x: int, a: int, pid: usize|
                0 <= x < proposals@.len() && 0 <= a < final(searches)@.len() ==> !(
                #[trigger] proposals@[x].player_ids@.contains(pid) && #[trigger] search_has(
                    final(searches)@[a],
                    pid,
                )),
            forall|pid: usize|
                from_queue(old(searches)@, pid) && !from_queue(final(searches)@, pid)
                    ==> exists|x: int|
                    0 <= x < proposals@.len() && #[trigger] proposals@[x].player_ids@.contains(
                        pid,
                    ),
            final(data_centers)@.len() == old(data_centers)@.len(),
            dcs_ok(final(data_centers)@),
            forall|d: int|
                0 <= d < final(data_centers)@.len() ==> {
                    &&& (#[trigger] final(data_centers)@[d]).server_capacity == old(
                        data_centers,
                    )@[d].server_capacity
                    &&& final(data_centers)@[d].id == old(data_centers)@[d].id
                    &&& final(data_centers)@[d].location == old(data_centers)@[d].location
                    &&& forall|p: Playlist|
                        #[trigger] final(data_centers)@[d].busy_servers.spec_get(p) >= old(
                            data_centers,
                        )@[d].busy_servers.spec_get(p)
                },
            // The debit is atomic within the tick: each data center's
            // busy count rises by exactly the proposals placed on it.
            forall|d: int, p: Playlist|
                0 <= d < final(data_centers)@.len()
                    ==> #[trigger] final(data_centers)@[d].busy_servers.spec_get(p) == old(
                    data_centers,
                )@[d].busy_servers.spec_get(p) + count_props_on(proposals@, d, p),
            old(searches)@.len() == 0 ==> proposals@.len() == 0 && final(searches)@ == old(
                searches,
            )@ && final(data_centers)@ == old(data_centers)@,
    {
        let cfg: MatchmakingConfig = self.config;
        let n_dcs: usize = data_centers.len();
        let ghost q0 = searches@;
        let ghost dcs0 = data_centers@;
        proof {
            assert(forall|i: int|
                0 <= i < q0.len() ==> (#[trigger] q0[i]).player_ids@.len() == 1);
        }
        refresh_queue(searches, players, &cfg, current_time, n_dcs);
        let ghost q1 = searches@;
        proof {
            assert forall|i: int| 0 <= i < q1.len() implies (#[trigger] q1[i]).wf(
                n_dcs as int,
            ) by {
                assert(same_core(q1[i], q0[i]));
                assert(q0[i].wf(n_dcs as int));
            }
            assert forall|i: int, j: int, pid: usize|
                0 <= i < q1.len() && 0 <= j < q1.len() && i != j implies !(#[trigger] search_has(
                q1[i],
                pid,
            ) && #[trigger] search_has(q1[j], pid)) by {
                assert(q1[i].player_ids@ == q0[i].player_ids@);
                assert(q1[j].player_ids@ == q0[j].player_ids@);
                assert(!(search_has(q0[i], pid) && search_has(q0[j], pid)));
            }
            assert(queue_distinct(q1));
            assert(queue_sorted(q1));
            assert(queue_started(q1, current_time));
            assert forall|i: int| 0 <= i < q1.len() implies (#[trigger] owner(q1[i]))
                < players@.len() by {
                assert(same_core(q1[i], q0[i]));
                assert(owner(q0[i]) < players@.len());
            }
            assert(queue_owners_ok(q1, players@));
        }
        let n: usize = searches.len();
        let mut consumed: Vec<bool> = Vec::new();
        let mut ci: usize = 0;
        while ci < n
            invariant
                ci <= n,
                consumed@.len() == ci,
                forall|a: int| 0 <= a < ci ==> !(#[trigger] consumed@[a]),
            decreases n - ci,
        {
            consumed.push(false);
            ci = ci + 1;
        }
        let mut proposals: Vec<MatchProposal> = Vec::new();
        let mut si: usize = 0;
        while si < n
            invariant
                si <= n,
                n == q1.len(),
                searches@ == q1,
                n == q0.len(),
                consumed@.len() == n,
                cfg == self.config,
                cfg.wf(),
                n_dcs == dcs0.len(),
                queue_wf(q1, n_dcs as int),
                queue_sorted(q1),
                queue_started(q1, current_time),
                queue_distinct(q1),
                queue_owners_ok(q1, players@),
                forall|i: int| 0 <= i < n ==> same_core(#[trigger] q1[i], q0[i]),
                players_net_ok(players@, n_dcs as int),
                data_centers@.len() == n_dcs,
                dcs_ok(data_centers@),
                forall|d: int|
                    0 <= d < n_dcs ==> {
                        &&& (#[trigger] data_centers@[d]).server_capacity
                            == dcs0[d].server_capacity
                        &&& data_centers@[d].id == dcs0[d].id
                        &&& data_centers@[d].location == dcs0[d].location
                        &&& forall|p: Playlist|
                            #[trigger] data_centers@[d].busy_servers.spec_get(p)
                                >= dcs0[d].busy_servers.spec_get(p)
                    },
                forall|d: int, p: Playlist|
                    0 <= d < n_dcs ==> #[trigger] data_centers@[d].busy_servers.spec_get(p)
                        == dcs0[d].busy_servers.spec_get(p) + count_props_on(proposals@, d, p),
                forall|x: int|
                    0 <= x < proposals@.len() ==> proposal_ok(
                        #[trigger] proposals@[x],
                        q0,
                        players@,
                        dcs0,
                        cfg,
                    ),
                proposals_disjoint(proposals@),
                forall|x: int, i: int, pid: usize|
                    0 <= x < proposals@.len() && 0 <= i < n && !consumed@[i] ==> !(
                    #[trigger] proposals@[x].player_ids@.contains(pid) && #[trigger] search_has(
                        q1[i],
                        pid,
                    )),
                forall|i: int|
                    0 <= i < n && #[trigger] consumed@[i] ==> exists|x: int|
                        0 <= x < proposals@.len() && #[trigger] proposals@[x].player_ids@.contains(
                            owner(q1[i]),
                        ),
                proposals@.len() == 0 ==> data_centers@ == dcs0,
                proposals@.len() <= si,
            decreases n - si,
        {
            if !consumed[si] {
                let pl_opt: Option<Playlist> = choose_playlist(searches, &consumed, si);
                match pl_opt {
                    Option::None => {}
                    Option::Some(playlist) => {
                        let pid_s: usize = searches[si].player_ids[0];
                        proof {
                            assert(owner(q1[si as int]) < players@.len());
                            assert(pid_s == owner(q1[si as int]));
                            assert(players@[pid_s as int].dc_pings@.len() == n_dcs);
                        }
                        let dc_opt: Option<usize> = choose_dc(
                            &searches[si],
                            &players[pid_s].dc_pings,
                            data_centers,
                            playlist,
                        );
                        match dc_opt {
                            Option::None => {}
                            Option::Some(dc) => {
                                let gr: (Vec<usize>, u64, u64) = gather_group(
                                    searches,
                                    &consumed,
                                    si,
                                    playlist,
                                    dc,
                                    &cfg,
                                    current_time,
                                    n_dcs,
                                );
                                let group: Vec<usize> = gr.0;
                                let minp: u64 = gr.1;
                                let maxp: u64 = gr.2;
                                let required: usize = playlist.required_players();
                                if group.len() == required {
                                    let ghost props_before = proposals@;
                                    commit_proposal(
                                        searches,
                                        players,
                                        data_centers,
                                        &mut consumed,
                                        &mut proposals,
                                        &group,
                                        playlist,
                                        dc,
                                        minp,
                                        maxp,
                                        &cfg,
                                        current_time,
                                        Ghost(q0),
                                        Ghost(q1),
                                        Ghost(dcs0),
                                    );
                                    proof {
                                        assert(proposals@.drop_last() =~= props_before);
                                        assert forall|d: int, p: Playlist|
                                            0 <= d < n_dcs implies count_props_on(
                                            proposals@,
                                            d,
                                            p,
                                        ) == count_props_on(props_before, d, p) + (
                                        if proposals@.last().data_center_id == d
                                            && proposals@.last().playlist == p {
                                            1int
                                        } else {
                                            0int
                                        }) by {}
                                    }
                                }
                            }
                        }
                    }
                }
            }
            si = si + 1;
        }
        // Remove the consumed searches, preserving queue order.
        let mut kept: usize = 0;
        let mut i: usize = 0;
        let ghost mut origins: Seq<int> = Seq::empty();
        while i < n
            invariant
                i <= n,
                kept <= i,
                n == q1.len(),
                n == q0.len(),
                consumed@.len() == n,
                searches@.len() == kept + (n - i),
                forall|a: int| kept <= a < searches@.len() ==> #[trigger] searches@[a] == q1[a + i - kept],
                origins.len() == kept,
                forall|a: int, b: int| 0 <= a < b < kept ==> origins[a] < origins[b],
                forall|a: int|
                    0 <= a < kept ==> {
                        &&& 0 <= #[trigger] origins[a] < i
                        &&& !consumed@[origins[a]]
                        &&& searches@[a] == q1[origins[a]]
                    },
                forall|j: int|
                    0 <= j < i && !(#[trigger] consumed@[j]) ==> exists|a: int|
                        0 <= a < kept && #[trigger] origins[a] == j,
            decreases n - i,
        {
            if consumed[i] {
                let ghost pre = searches@;
                let _ = searches.remove(kept);
                proof {
                    assert(forall|a: int|
                        kept <= a < searches@.len() ==> #[trigger] searches@[a] == pre[a + 1]);
                }
            } else {
                proof {
                    let origins_old = origins;
                    origins = origins.push(i as int);
                    assert(origins[kept as int] == i as int);
                    assert forall|j: int| 0 <= j < i + 1 && !(#[trigger] consumed@[j]) implies
                        exists|a: int| 0 <= a < kept + 1 && #[trigger] origins[a] == j by {
                        if j < i {
                            let a = choose|a: int|
                                0 <= a < kept && #[trigger] origins_old[a] == j;
                            assert(origins[a] == origins_old[a]);
                            assert(origins[a] == j);
                        } else {
                            assert(origins[kept as int] == j);
                        }
                    }
                }
                kept = kept + 1;
            }
            i = i + 1;
        }
        proof {
            assert(searches@.len() == kept);
            // Remaining searches inherit order, distinctness and
            // well-formedness from the refreshed queue.
            assert forall|a: int| 0 <= a < kept implies (#[trigger] searches@[a]).wf(
                n_dcs as int,
            ) by {
                assert(searches@[a] == q1[origins[a]]);
            }
            assert(queue_wf(searches@, data_centers@.len() as int));
            assert forall|a: int| 0 <= a < kept implies (#[trigger] searches@[a]).search_start_time
                <= current_time by {
                assert(searches@[a] == q1[origins[a]]);
            }
            assert(queue_started(searches@, current_time));
            assert forall|a: int| 0 <= a < kept implies (#[trigger] owner(searches@[a]))
                < players@.len() by {
                assert(searches@[a] == q1[origins[a]]);
                assert(owner(q1[origins[a]]) < players@.len());
            }
            assert(queue_owners_ok(searches@, players@));
            assert forall|a: int, b: int| 0 <= a <= b < kept implies searches@[a].search_start_time
                <= searches@[b].search_start_time by {
                assert(searches@[a] == q1[origins[a]]);
                assert(searches@[b] == q1[origins[b]]);
                assert(origins[a] <= origins[b]);
            }
            assert(queue_sorted(searches@));
            assert forall|a: int, b: int, pid: usize|
                0 <= a < kept && 0 <= b < kept && a != b implies !(#[trigger] search_has(
                searches@[a],
                pid,
            ) && #[trigger] search_has(searches@[b], pid)) by {
                assert(searches@[a] == q1[origins[a]]);
                assert(searches@[b] == q1[origins[b]]);
                assert(origins[a] != origins[b]);
            }
            assert(queue_distinct(searches@));
            assert forall|a: int, pid: usize|
                0 <= a < kept && #[trigger] search_has(searches@[a], pid) implies from_queue(
                q0,
                pid,
            ) by {
                let j = origins[a];
                assert(searches@[a] == q1[j]);
                assert(q1[j].player_ids@ == q0[j].player_ids@);
                assert(search_has(q0[j], pid));
            }
            // A player who left the queue was consumed, hence proposed.
            assert forall|pid: usize|
                from_queue(q0, pid) && !from_queue(searches@, pid) implies exists|x: int|
                0 <= x < proposals@.len() && #[trigger] proposals@[x].player_ids@.contains(
                    pid,
                ) by {
                let j = choose|j: int| 0 <= j < q0.len() && #[trigger] search_has(q0[j], pid);
                assert(q1[j].player_ids@ == q0[j].player_ids@);
                assert(search_has(q1[j], pid));
                if !consumed@[j] {
                    let a = choose|a: int| 0 <= a < kept && #[trigger] origins[a] == j;
                    assert(searches@[a] == q1[j]);
                    assert(search_has(searches@[a], pid));
                    assert(from_queue(searches@, pid));
                } else {
                    let x = choose|x: int|
                        0 <= x < proposals@.len()
                            && #[trigger] proposals@[x].player_ids@.contains(owner(q1[j]));
                    assert(q1[j].player_ids@.len() == 1);
                    assert(q1[j].player_ids@[0] == pid) by {
                        let w = choose|w: int|
                            0 <= w < q1[j].player_ids@.len() && q1[j].player_ids@[w] == pid;
                    }
                    assert(proposals@[x].player_ids@.contains(pid));
                }
            }
            // Remaining searches are disjoint from every proposal.
            assert forall|x: int, a: int, pid: usize|
                0 <= x < proposals@.len() && 0 <= a < kept implies !(
            #[trigger] proposals@[x].player_ids@.contains(pid) && #[trigger] search_has(
                searches@[a],
                pid,
            )) by {
                let j = origins[a];
                assert(searches@[a] == q1[j]);
                assert(!consumed@[j]);
            }
            if q0.len() == 0 {
                assert(searches@ =~= q0);
                assert(data_centers@ =~= dcs0);
            }
        }
        proposals
    }
}


/// Commit one full group as a proposal: build the teams, compute the
/// averages and the quality score, debit the data center, mark the
/// absorbed searches consumed and append the proposal.
#[verifier::rlimit(60)]
fn commit_proposal(
    searches: &Vec<SearchObject>,
    players: &Vec<Player>,
    data_centers: &mut Vec<DataCenter>,
    consumed: &mut Vec<bool>,
    proposals: &mut Vec<MatchProposal>,
    group: &Vec<usize>,
    playlist: Playlist,
    dc: usize,
    minp: u64,
    maxp: u64,
    cfg: &MatchmakingConfig,
    now: u64,
    Ghost(q0): Ghost<Seq<SearchObject>>,
    Ghost(q1): Ghost<Seq<SearchObject>>,
    Ghost(dcs0): Ghost<Seq<DataCenter>>,
)
    requires
        cfg.wf(),
        searches@ == q1,
        q0.len() == q1.len(),
        forall|i: int| 0 <= i < q1.len() ==> same_core(#[trigger] q1[i], q0[i]),
        queue_wf(q1, dcs0.len() as int),
        queue_distinct(q1),
        queue_started(q1, now),
        queue_owners_ok(q1, players@),
        players_net_ok(players@, dcs0.len() as int),
        old(consumed)@.len() == q1.len(),
        old(data_centers)@.len() == dcs0.len(),
        dcs_ok(old(data_centers)@),
        forall|d: int|
            0 <= d < dcs0.len() ==> {
                &&& (#[trigger] old(data_centers)@[d]).server_capacity == dcs0[d].server_capacity
                &&& old(data_centers)@[d].id == dcs0[d].id
                &&& old(data_centers)@[d].location == dcs0[d].location
                &&& forall|p: Playlist|
                    #[trigger] old(data_centers)@[d].busy_servers.spec_get(p)
                        >= dcs0[d].busy_servers.spec_get(p)
            },
        forall|x: int|
            0 <= x < old(proposals)@.len() ==> proposal_ok(
                #[trigger] old(proposals)@[x],
                q0,
                players@,
                dcs0,
                *cfg,
            ),
        proposals_disjoint(old(proposals)@),
        forall|x: int, i: int, pid: usize|
            0 <= x < old(proposals)@.len() && 0 <= i < q1.len() && !old(consumed)@[i] ==> !(
            #[trigger] old(proposals)@[x].player_ids@.contains(pid) && #[trigger] search_has(
                q1[i],
                pid,
            )),
        forall|i: int|
            0 <= i < q1.len() && #[trigger] old(consumed)@[i] ==> exists|x: int|
                0 <= x < old(proposals)@.len()
                    && #[trigger] old(proposals)@[x].player_ids@.contains(owner(q1[i])),
        group@.len() == playlist.spec_required_players(),
        no_dup(group@),
        forall|a: int| 0 <= a < group@.len() ==> (#[trigger] group@[a]) < q1.len(),
        forall|a: int| 0 <= a < group@.len() ==> !old(consumed)@[#[trigger] group@[a] as int],
        forall|a: int|
            0 <= a < group@.len() ==> q1[#[trigger] group@[a] as int].acceptable_playlists.spec_contains(playlist),
        minp <= maxp <= 1000,
        maxp - minp <= cfg.max_skill_disparity_max,
        dc < dcs0.len(),
        old(data_centers)@[dc as int].spec_available_servers(playlist) >= 1,
    ensures
        final(consumed)@.len() == q1.len(),
        forall|i: int|
            0 <= i < q1.len() ==> (#[trigger] final(consumed)@[i] == (old(consumed)@[i]
                || group@.contains(i as usize))),
        final(data_centers)@.len() == dcs0.len(),
        dcs_ok(final(data_centers)@),
        forall|d: int|
            0 <= d < dcs0.len() ==> {
                &&& (#[trigger] final(data_centers)@[d]).server_capacity
                    == dcs0[d].server_capacity
                &&& final(data_centers)@[d].id == dcs0[d].id
                &&& final(data_centers)@[d].location == dcs0[d].location
                &&& forall|p: Playlist|
                    #[trigger] final(data_centers)@[d].busy_servers.spec_get(p)
                        >= dcs0[d].busy_servers.spec_get(p)
            },
        // One server is taken exactly where the proposal is placed.
        forall|d: int, p: Playlist|
            0 <= d < dcs0.len() ==> #[trigger] final(data_centers)@[d].busy_servers.spec_get(p)
                == old(data_centers)@[d].busy_servers.spec_get(p) + (if d == dc as int && p
                == playlist {
                1int
            } else {
                0int
            }),
        final(proposals)@.last().data_center_id == dc,
        final(proposals)@.last().playlist == playlist,
        final(proposals)@.len() == old(proposals)@.len() + 1,
        forall|x: int|
            0 <= x < old(proposals)@.len() ==> #[trigger] final(proposals)@[x] == old(
                proposals,
            )@[x],
        forall|x: int|
            0 <= x < final(proposals)@.len() ==> proposal_ok(
                #[trigger] final(proposals)@[x],
                q0,
                players@,
                dcs0,
                *cfg,
            ),
        proposals_disjoint(final(proposals)@),
        forall|x: int, i: int, pid: usize|
            0 <= x < final(proposals)@.len() && 0 <= i < q1.len() && !final(consumed)@[i] ==> !(
            #[trigger] final(proposals)@[x].player_ids@.contains(pid) && #[trigger] search_has(
                q1[i],
                pid,
            )),
        forall|i: int|
            0 <= i < q1.len() && #[trigger] final(consumed)@[i] ==> exists|x: int|
                0 <= x < final(proposals)@.len()
                    && #[trigger] final(proposals)@[x].player_ids@.contains(owner(q1[i])),
{
    let required: usize = group.len();
    let n_dcs: usize = data_centers.len();
    let qlen: usize = consumed.len();
    proof {
        assert(q1.len() == qlen);
    }

    // Collect the gathered players and their skills; distinct because
    // the searches of the queue are player-disjoint.
    let mut members: Vec<usize> = Vec::new();
    let mut skills: Vec<i64> = Vec::new();
    let mut g: usize = 0;
    while g < required
        invariant
            g <= required,
            required == group@.len(),
            searches@ == q1,
            queue_wf(q1, dcs0.len() as int),
            queue_distinct(q1),
            queue_owners_ok(q1, players@),
            no_dup(group@),
            forall|a: int| 0 <= a < group@.len() ==> (#[trigger] group@[a]) < q1.len(),
            members@.len() == g,
            skills@.len() == g,
            forall|a: int|
                0 <= a < g ==> #[trigger] members@[a] == owner(q1[group@[a] as int]),
            forall|a: int| 0 <= a < g ==> (#[trigger] members@[a]) < players@.len(),
            no_dup(members@),
        decreases required - g,
    {
        let sidx: usize = group[g];
        proof {
            assert(q1[sidx as int].wf(dcs0.len() as int));
            assert(owner(q1[sidx as int]) < players@.len());
        }
        let pid: usize = searches[sidx].player_ids[0];
        proof {
            assert(pid == owner(q1[sidx as int]));
            assert(q1[sidx as int].player_ids@[0] == pid);
            assert(search_has(q1[sidx as int], pid));
            assert forall|a: int| 0 <= a < g implies #[trigger] members@[a] != pid by {
                let oidx = group@[a] as int;
                assert(q1[oidx].wf(dcs0.len() as int));
                assert(q1[oidx].player_ids@[0] == members@[a]);
                assert(search_has(q1[oidx], members@[a]));
                if members@[a] == pid {
                    assert(oidx != sidx as int);
                    assert(!(search_has(q1[oidx], pid) && search_has(q1[sidx as int], pid)));
                }
            }
        }
        members.push(pid);
        skills.push(players[pid].skill_milli);
        g = g + 1;
    }

    // Snake-draft the teams.
    let team_count: usize = playlist.team_count();
    let per_team: usize = required / team_count;
    proof {
        playlist.lemma_teams_divide_required();
        vstd::arithmetic::div_mod::lemma_fundamental_div_mod(required as int, team_count as int);
        assert(required == team_count * per_team);
        assert(per_team >= 1) by (nonlinear_arith)
            requires
                required >= 12,
                team_count <= 12,
                required == team_count * per_team,
                team_count >= 1,
        ;
        assert(per_team <= 64) by (nonlinear_arith)
            requires
                required <= 64,
                required == team_count * per_team,
                team_count >= 1,
                per_team >= 1,
        ;
    }
    let teams: Vec<Vec<usize>> = assemble_teams(&members, &skills, team_count, per_team);

    // Mean latency inflation across the members.
    let mut dp_sum: u64 = 0;
    let mut a: usize = 0;
    while a < required
        invariant
            a <= required,
            required == members@.len(),
            required <= 64,
            n_dcs == dcs0.len(),
            dc < n_dcs,
            players_net_ok(players@, dcs0.len() as int),
            forall|b: int| 0 <= b < required ==> (#[trigger] members@[b]) < players@.len(),
            dp_sum <= a * SAMPLE_CAP,
        decreases required - a,
    {
        let pid: usize = members[a];
        proof {
            assert(players@[pid as int].dc_pings@.len() == dcs0.len());
            assert(players@[pid as int].dc_pings@[dc as int] <= SAMPLE_CAP);
            assert(players@[pid as int].best_ping <= players@[pid as int].dc_pings@[dc as int]);
        }
        let ping: u64 = players[pid].dc_pings[dc];
        let delta: u64 = ping - players[pid].best_ping;
        dp_sum = dp_sum + delta;
        a = a + 1;
    }
    proof {
        assert(dp_sum / (required as u64) <= SAMPLE_CAP) by (nonlinear_arith)
            requires dp_sum <= required * SAMPLE_CAP, required >= 1;
    }
    let avg_delta_ping: u64 = dp_sum / (required as u64);

    // Mean wait of the absorbed searches, in clamped seconds.
    let mut w_sum: u64 = 0;
    let mut b: usize = 0;
    while b < required
        invariant
            b <= required,
            required == group@.len(),
            required <= 64,
            searches@ == q1,
            cfg.wf(),
            queue_started(q1, now),
            forall|c: int| 0 <= c < group@.len() ==> (#[trigger] group@[c]) < q1.len(),
            w_sum <= b * SAMPLE_CAP,
        decreases required - b,
    {
        let sidx: usize = group[b];
        let wait: u64 = now - searches[sidx].search_start_time;
        let wait_c: u64 = if wait <= SAMPLE_CAP {
            wait
        } else {
            SAMPLE_CAP
        };
        proof {
            assert(wait_c * cfg.tick_interval <= 1000000 * 86400) by (nonlinear_arith)
                requires wait_c <= 1000000, cfg.tick_interval <= 86400;
        }
        let wsec_raw: u64 = wait_c * cfg.tick_interval;
        let wsec: u64 = if wsec_raw <= SAMPLE_CAP {
            wsec_raw
        } else {
            SAMPLE_CAP
        };
        w_sum = w_sum + wsec;
        b = b + 1;
    }
    proof {
        assert(w_sum / (required as u64) <= SAMPLE_CAP) by (nonlinear_arith)
            requires w_sum <= required * SAMPLE_CAP, required >= 1;
    }
    let avg_wait_seconds: u64 = w_sum / (required as u64);

    let disparity: u64 = maxp - minp;
    let quality: i64 = quality_milli(avg_delta_ping, disparity, avg_wait_seconds, cfg);

    // Atomic capacity debit: later seeds in this tick see it.
    let mut dcv: DataCenter = data_centers[dc];
    dcv.debit(playlist);
    data_centers.set(dc, dcv);
    proof {
        assert forall|d: int| 0 <= d < dcs0.len() implies {
            &&& (#[trigger] data_centers@[d]).server_capacity == dcs0[d].server_capacity
            &&& data_centers@[d].id == dcs0[d].id
            &&& data_centers@[d].location == dcs0[d].location
            &&& forall|p: Playlist|
                #[trigger] data_centers@[d].busy_servers.spec_get(p)
                    >= dcs0[d].busy_servers.spec_get(p)
        } by {
            if d != dc as int {
                assert(data_centers@[d] == old(data_centers)@[d]);
            }
        }
    }

    let ghost consumed_before = consumed@;
    let ghost proposals_before = proposals@;

    let pr = MatchProposal {
        playlist,
        data_center_id: dc,
        teams,
        player_ids: members,
        quality_score_milli: quality,
        skill_disparity_milli: disparity,
        avg_delta_ping,
        avg_wait_seconds,
    };
    proof {
        // The new proposal satisfies the structural bundle.
        assert(pr.player_ids@.len() == playlist.spec_required_players());
        assert forall|i: int| 0 <= i < pr.player_ids@.len() implies from_queue(
            q0,
            #[trigger] pr.player_ids@[i],
        ) by {
            let sidx = group@[i] as int;
            assert(pr.player_ids@[i] == owner(q1[sidx]));
            assert(same_core(q1[sidx], q0[sidx]));
            assert(q0[sidx].player_ids@[0] == pr.player_ids@[i]);
            assert(search_has(q0[sidx], pr.player_ids@[i]));
        }
        assert(dcs0[dc as int].server_capacity.spec_get(playlist) >= 1) by {
            assert(old(data_centers)@[dc as int].spec_available_servers(playlist) >= 1);
            assert(old(data_centers)@[dc as int].server_capacity
                == dcs0[dc as int].server_capacity);
        }
        assert(exists|j: int|
            0 <= j < q0.len() && (#[trigger] q0[j]).acceptable_playlists.spec_contains(
                playlist,
            )) by {
            let sidx = group@[0] as int;
            assert(same_core(q1[sidx], q0[sidx]));
            assert(q0[sidx].acceptable_playlists.spec_contains(playlist));
        }
        assert(proposal_ok(pr, q0, players@, dcs0, *cfg));
        // Its players stand in no earlier proposal: they were unconsumed.
        assert forall|x: int, i: int|
            0 <= x < proposals_before.len() && 0 <= i < pr.player_ids@.len() implies !(
        #[trigger] proposals_before[x].player_ids@.contains(#[trigger] pr.player_ids@[i])) by {
            let sidx = group@[i] as int;
            assert(pr.player_ids@[i] == owner(q1[sidx]));
            assert(q1[sidx].wf(dcs0.len() as int));
            assert(q1[sidx].player_ids@[0] == pr.player_ids@[i]);
            assert(search_has(q1[sidx], pr.player_ids@[i]));
            assert(!consumed_before[sidx]);
        }
    }
    proposals.push(pr);

    // Mark the absorbed searches consumed.
    let mut c: usize = 0;
    while c < required
        invariant
            c <= required,
            required == group@.len(),
            consumed@.len() == q1.len(),
            forall|a2: int| 0 <= a2 < group@.len() ==> (#[trigger] group@[a2]) < q1.len(),
            forall|i: int|
                0 <= i < q1.len() ==> (#[trigger] consumed@[i] == (consumed_before[i]
                    || exists|a2: int| 0 <= a2 < c && #[trigger] group@[a2] == i)),
        decreases required - c,
    {
        let sidx: usize = group[c];
        consumed.set(sidx, true);
        proof {
            assert forall|i: int| 0 <= i < q1.len() implies (#[trigger] consumed@[i] == (
            consumed_before[i] || exists|a2: int| 0 <= a2 < c + 1 && #[trigger] group@[a2]
                == i)) by {
                if i == sidx as int {
                    assert(group@[c as int] == i);
                }
            }
        }
        c = c + 1;
    }
    proof {
        assert forall|i: int| 0 <= i < q1.len() implies (#[trigger] consumed@[i] == (
        consumed_before[i] || group@.contains(i as usize))) by {
            if consumed@[i] && !consumed_before[i] {
                let a2 = choose|a2: int| 0 <= a2 < required && #[trigger] group@[a2] == i;
                assert(group@[a2] == i as usize);
                assert(group@.contains(i as usize));
            }
            if !consumed@[i] && group@.contains(i as usize) {
                let a2 = choose|a2: int|
                    0 <= a2 < group@.len() && #[trigger] group@[a2] == i as usize;
                assert(group@[a2] as int == i);
                assert(exists|a3: int| 0 <= a3 < required && #[trigger] group@[a3] == i);
                assert(false);
            }
        }
        // Unconsumed searches stay disjoint from all proposals.
        assert forall|x: int, i: int, pid: usize|
            0 <= x < proposals@.len() && 0 <= i < q1.len() && !consumed@[i] implies !(
        #[trigger] proposals@[x].player_ids@.contains(pid) && #[trigger] search_has(
            q1[i],
            pid,
        )) by {
            if x < proposals_before.len() {
                assert(proposals@[x] == proposals_before[x]);
                assert(!consumed_before[i]);
            } else {
                assert(proposals@[x] == pr);
                if pr.player_ids@.contains(pid) && search_has(q1[i], pid) {
                    let a2 = choose|a2: int|
                        0 <= a2 < pr.player_ids@.len() && pr.player_ids@[a2] == pid;
                    let sidx = group@[a2] as int;
                    assert(q1[sidx].player_ids@[0] == pid);
                    assert(search_has(q1[sidx], pid));
                    assert(group@.contains(group@[a2]));
                    assert(consumed@[sidx]);
                    assert(i != sidx);
                    assert(!(search_has(q1[i], pid) && search_has(q1[sidx], pid)));
                }
            }
        }
        // Every consumed search has its owner in some proposal.
        assert forall|i: int| 0 <= i < q1.len() && #[trigger] consumed@[i] implies exists|x: int|
            0 <= x < proposals@.len() && #[trigger] proposals@[x].player_ids@.contains(
                owner(q1[i]),
            ) by {
            if consumed_before[i] {
                let x = choose|x: int|
                    0 <= x < proposals_before.len()
                        && #[trigger] proposals_before[x].player_ids@.contains(owner(q1[i]));
                assert(proposals@[x].player_ids@.contains(owner(q1[i])));
            } else {
                let a2 = choose|a2: int| 0 <= a2 < group@.len() && group@[a2] == i as usize;
                assert(pr.player_ids@[a2] == owner(q1[i]));
                assert(pr.player_ids@.contains(owner(q1[i])));
                assert(proposals@[proposals_before.len() as int] == pr);
            }
        }
        // The grown proposal list still never references a player twice.
        assert forall|x1: int, x2: int, i1: int, i2: int|
            0 <= x1 < proposals@.len() && 0 <= x2 < proposals@.len() && 0 <= i1
                < proposals@[x1].player_ids@.len() && 0 <= i2 < proposals@[x2].player_ids@.len()
                && (x1 != x2 || i1 != i2) implies #[trigger] proposals@[x1].player_ids@[i1]
            != #[trigger] proposals@[x2].player_ids@[i2] by {
            let newx = proposals_before.len() as int;
            if x1 < newx && x2 < newx {
                assert(proposals@[x1] == proposals_before[x1]);
                assert(proposals@[x2] == proposals_before[x2]);
            } else if x1 == newx && x2 == newx {
                assert(no_dup(pr.player_ids@));
            } else if x1 == newx && x2 < newx {
                assert(proposals@[x2] == proposals_before[x2]);
                if proposals@[x1].player_ids@[i1] == proposals@[x2].player_ids@[i2] {
                    assert(proposals_before[x2].player_ids@.contains(pr.player_ids@[i1]));
                }
            } else {
                assert(proposals@[x1] == proposals_before[x1]);
                if proposals@[x1].player_ids@[i1] == proposals@[x2].player_ids@[i2] {
                    assert(proposals_before[x1].player_ids@.contains(pr.player_ids@[i2]));
                }
            }
        }
    }
}

} // verus!
