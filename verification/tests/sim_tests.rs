use matchsim::config::{MatchmakingConfig, SimError};
use matchsim::geo::Location;
use matchsim::model::{Playlist, PlaylistSet, PlaylistCounts, Platform, InputDevice, PlayerState,
    PlatformCounts, InputCounts};
use matchsim::player::Player;
use matchsim::rng::DrawStream;
use matchsim::search::SearchObject;
use matchsim::simulation::{Simulation, PlayerProfile};

fn tdm_only() -> PlaylistSet {
    PlaylistSet {
        team_deathmatch: true,
        search_and_destroy: false,
        domination: false,
        ground_war: false,
        free_for_all: false,
    }
}

fn capacities(c: u64) -> PlaylistCounts {
    PlaylistCounts {
        team_deathmatch: c,
        search_and_destroy: c,
        domination: c,
        ground_war: c,
        free_for_all: c,
    }
}

fn profile(lat: i64, lon: i64, skill: i64, pings: Vec<u64>) -> PlayerProfile {
    PlayerProfile {
        location: Location::new(lat, lon),
        platform: Platform::PC,
        input_device: InputDevice::MouseKeyboard,
        voice_chat_enabled: true,
        skill_milli: skill,
        dc_pings: pings,
        preferred_playlists: tdm_only(),
    }
}

/// A simulation with one data center and `n` players already searching
/// for TeamDeathmatch, each behind a hand-made search object with a
/// common skill percentile.
fn searching_sim(n: usize, cap: u64) -> Simulation {
    let mut sim = Simulation::new(MatchmakingConfig::default(), 7).unwrap();
    sim.register_data_center(Location::new(0, 0), capacities(cap));
    let mut profiles = Vec::new();
    for i in 0..n {
        profiles.push(profile(0, 0, (i as i64) - (n as i64) / 2, vec![20]));
    }
    sim.ingest_players(profiles).unwrap();
    for i in 0..n {
        sim.players[i].state = PlayerState::Searching;
        sim.players[i].search_start_time = Some(0);
        let so = SearchObject {
            id: i as u64,
            player_ids: vec![i],
            avg_skill_percentile_milli: 500,
            skill_disparity_milli: 0,
            avg_location: Location::new(0, 0),
            platforms: PlatformCounts::one(Platform::PC),
            input_devices: InputCounts::one(InputDevice::MouseKeyboard),
            acceptable_playlists: tdm_only(),
            search_start_time: 0,
            acceptable_dcs: vec![true],
        };
        sim.searches.push(so);
    }
    sim
}

#[test]
fn exactly_one_match_worth_gives_one_proposal() {
    // required_players == queued searches: a single proposal is emitted
    // and the queue empties.
    let mut sim = searching_sim(12, 200);
    let proposals = sim.run_matchmaking();
    assert_eq!(proposals.len(), 1);
    assert_eq!(proposals[0].playlist, Playlist::TeamDeathmatch);
    assert_eq!(proposals[0].player_ids.len(), 12);
    assert_eq!(proposals[0].teams.len(), 2);
    assert_eq!(proposals[0].teams[0].len(), 6);
    assert_eq!(proposals[0].teams[1].len(), 6);
    assert!(sim.searches.is_empty());
    assert_eq!(sim.data_centers[0].busy_servers.team_deathmatch, 1);
    // No player referenced twice.
    let mut seen = vec![false; 12];
    for &pid in &proposals[0].player_ids {
        assert!(!seen[pid]);
        seen[pid] = true;
    }
}

#[test]
fn too_few_searches_give_no_proposal() {
    let mut sim = searching_sim(11, 200);
    let proposals = sim.run_matchmaking();
    assert_eq!(proposals.len(), 0);
    assert_eq!(sim.searches.len(), 11);
    assert_eq!(sim.data_centers[0].busy_servers.team_deathmatch, 0);
}

#[test]
fn zero_capacity_playlist_starves() {
    // DC capacity zero everywhere for the playlist: seeds wanting it
    // remain queued indefinitely; no data center is chosen.
    let mut sim = searching_sim(12, 0);
    for _ in 0..3 {
        let proposals = sim.run_matchmaking();
        assert_eq!(proposals.len(), 0);
        assert_eq!(sim.searches.len(), 12);
    }
}

#[test]
fn full_match_lifecycle_updates_tallies() {
    // Conservation: one completed match adds exactly one played match,
    // and a win or a loss, to each participant.
    let mut sim = searching_sim(12, 200);
    let proposals = sim.run_matchmaking();
    let mut ds = DrawStream::new(3);
    sim.create_matches(proposals, &mut ds);
    assert_eq!(sim.matches.len(), 1);
    assert_eq!(sim.stats.total_matches, 1);
    for i in 0..12 {
        assert_eq!(sim.players[i].state, PlayerState::InMatch);
        assert_eq!(sim.players[i].current_match, Some(0));
        assert_eq!(sim.players[i].matches_played, 0);
    }
    // Let the expected duration elapse, then complete.
    sim.current_time = sim.matches[0].start_time + sim.matches[0].expected_duration + 1;
    sim.process_match_completions(&mut ds);
    assert!(sim.matches.is_empty());
    assert_eq!(sim.data_centers[0].busy_servers.team_deathmatch, 0);
    let mut wins = 0u64;
    for i in 0..12 {
        assert_eq!(sim.players[i].matches_played, 1);
        assert_eq!(sim.players[i].wins + sim.players[i].losses, 1);
        assert_eq!(sim.players[i].current_match, None);
        assert!(
            sim.players[i].state == PlayerState::InLobby
                || sim.players[i].state == PlayerState::Offline
        );
        wins += sim.players[i].wins;
    }
    // Exactly one team of six won.
    assert_eq!(wins, 6);
}

#[test]
fn empty_queue_tick_only_clock_and_stats() {
    // Empty queue tick: no proposals, no state change except clock and
    // statistics.
    let mut sim = Simulation::new(MatchmakingConfig::default(), 1).unwrap();
    sim.register_data_center(Location::new(0, 0), capacities(200));
    sim.set_arrival_rate(0);
    let before_players = sim.players.clone();
    sim.tick();
    assert_eq!(sim.current_time, 1);
    assert!(sim.searches.is_empty());
    assert!(sim.matches.is_empty());
    assert_eq!(sim.players, before_players);
    assert_eq!(sim.stats.total_matches, 0);
}

#[test]
fn zero_arrival_rate_changes_no_player() {
    // Lambda = 0: no arrivals; offline players stay offline.
    let mut sim = Simulation::new(MatchmakingConfig::default(), 5).unwrap();
    sim.register_data_center(Location::new(0, 0), capacities(200));
    let mut profiles = Vec::new();
    for i in 0..20 {
        profiles.push(profile(1000 * i, 2000 * i, 50 * i, vec![20]));
    }
    sim.ingest_players(profiles).unwrap();
    sim.set_arrival_rate(0);
    for _ in 0..5 {
        sim.tick();
    }
    for p in &sim.players {
        assert_eq!(p.state, PlayerState::Offline);
    }
}

#[test]
fn ingest_requires_data_centers() {
    let mut sim = Simulation::new(MatchmakingConfig::default(), 1).unwrap();
    let r = sim.ingest_players(vec![profile(0, 0, 0, vec![])]);
    assert_eq!(r, Err(SimError::NoDataCenters));
}

#[test]
fn ingest_rejects_inconsistent_record() {
    let mut sim = Simulation::new(MatchmakingConfig::default(), 1).unwrap();
    sim.register_data_center(Location::new(0, 0), capacities(200));
    // Wrong number of pings.
    let r = sim.ingest_players(vec![profile(0, 0, 0, vec![20, 30])]);
    assert_eq!(r, Err(SimError::InvalidPlayer));
    // Skill out of range.
    let r2 = sim.ingest_players(vec![profile(0, 0, 2000, vec![20])]);
    assert_eq!(r2, Err(SimError::InvalidPlayer));
    assert_eq!(sim.players.len(), 0);
}

#[test]
fn percentiles_spread_and_buckets() {
    let mut sim = Simulation::new(MatchmakingConfig::default(), 1).unwrap();
    sim.register_data_center(Location::new(0, 0), capacities(200));
    let mut profiles = Vec::new();
    for i in 0..10 {
        profiles.push(profile(0, 0, (i as i64) * 100 - 500, vec![20]));
    }
    sim.ingest_players(profiles).unwrap();
    // Ranks 0..9 give percentiles (1000 r + 500) / 10.
    for i in 0..10 {
        let expect = (1000 * (i as u64) + 500) / 10;
        assert_eq!(sim.players[i].skill_percentile_milli, expect);
    }
    // Buckets are clamp(floor(pct * 10 / 1000), 1, 10).
    assert_eq!(sim.players[0].skill_bucket, 1);
    assert_eq!(sim.players[9].skill_bucket, 9);
}

#[test]
fn backoff_widens_dc_acceptance() {
    // Two locations with no common acceptable data center at first
    // become compatible once the delta-ping allowance has grown.
    let cfg = MatchmakingConfig::default();
    let mut sim = Simulation::new(cfg, 1).unwrap();
    sim.register_data_center(Location::new(0, 0), capacities(200));
    sim.register_data_center(Location::new(0, 90000), capacities(200));
    sim.ingest_players(vec![
        profile(0, 0, 0, vec![10, 105]),
        profile(0, 90000, 0, vec![105, 10]),
    ])
    .unwrap();
    let a = &sim.players[0];
    let b = &sim.players[1];
    // At wait 42 the allowance is 94: ping 105 > 10 + 94.
    let mask_a = a.acceptable_dcs(42, &cfg);
    let mask_b = b.acceptable_dcs(42, &cfg);
    assert_eq!(mask_a, vec![true, false]);
    assert_eq!(mask_b, vec![false, true]);
    // At wait 43 the allowance is 96: both accept both.
    let mask_a2 = a.acceptable_dcs(43, &cfg);
    let mask_b2 = b.acceptable_dcs(43, &cfg);
    assert_eq!(mask_a2, vec![true, true]);
    assert_eq!(mask_b2, vec![true, true]);
    // By (max - initial) / rate = 45 ticks they are certainly compatible.
    assert_eq!(a.acceptable_dcs(45, &cfg), vec![true, true]);
}

fn seeded_population(n: usize) -> Vec<PlayerProfile> {
    let mut profiles = Vec::new();
    for i in 0..n {
        let skill = ((i as i64) * 37) % 2001 - 1000;
        let lat = ((i as i64) * 131) % 120000 - 60000;
        let lon = ((i as i64) * 211) % 300000 - 150000;
        let ping0 = 15 + ((i as u64) * 7) % 60;
        let ping1 = 15 + ((i as u64) * 13) % 60;
        let mut p = profile(lat, lon, skill, vec![ping0, ping1]);
        if i % 3 == 0 {
            p.platform = Platform::Xbox;
            p.input_device = InputDevice::Controller;
        }
        profiles.push(p);
    }
    profiles
}

fn built_world(seed: u64, n: usize) -> Simulation {
    let mut sim = Simulation::new(MatchmakingConfig::default(), seed).unwrap();
    sim.register_data_center(Location::new(40000, -75000), capacities(200));
    sim.register_data_center(Location::new(50000, 9000), capacities(200));
    sim.ingest_players(seeded_population(n)).unwrap();
    sim.set_arrival_rate(1000000);
    sim
}

#[test]
fn determinism_two_runs_identical() {
    // Two runs with identical (seed, config, initial population)
    // produce identical states at every step.
    let mut sim1 = built_world(42, 40);
    let mut sim2 = built_world(42, 40);
    for _ in 0..60 {
        sim1.tick();
        sim2.tick();
        assert!(sim1 == sim2);
    }
}

#[test]
fn different_seeds_diverge() {
    let mut sim1 = built_world(1, 40);
    let mut sim2 = built_world(2, 40);
    for _ in 0..30 {
        sim1.tick();
        sim2.tick();
    }
    assert!(sim1 != sim2);
}

#[test]
fn small_world_sanity() {
    // A small end-to-end run: the state counts always partition the
    // population, capacity accounting holds, and matches are played.
    let mut sim = built_world(0, 40);
    for _ in 0..120 {
        sim.tick();
        let s = &sim.stats;
        assert_eq!(
            s.players_offline + s.players_in_lobby + s.players_searching + s.players_in_match,
            40
        );
        for dc in &sim.data_centers {
            assert!(dc.busy_servers.team_deathmatch <= dc.server_capacity.team_deathmatch);
            assert!(dc.busy_servers.ground_war <= dc.server_capacity.ground_war);
        }
        assert!(s.blowout_rate_milli <= 1000);
        // Every in-match player resolves to exactly one active match
        // containing them.
        for p in &sim.players {
            if p.state == PlayerState::InMatch {
                let mid = p.current_match.unwrap();
                let holders: Vec<_> = sim
                    .matches
                    .iter()
                    .filter(|m| {
                        m.id == mid && m.teams.iter().any(|t| t.contains(&p.id))
                    })
                    .collect();
                assert_eq!(holders.len(), 1);
            } else {
                assert_eq!(p.current_match, None);
            }
        }
    }
    assert!(sim.stats.total_matches > 0, "no matches after 120 ticks");
    // On-demand order statistics stay consistent.
    sim.stats.refresh_percentiles();
    assert!(sim.stats.search_time_p50 <= sim.stats.search_time_p90);
    assert!(sim.stats.search_time_p90 <= sim.stats.search_time_p99);
}

#[test]
fn update_config_rebuckets_players() {
    let mut sim = Simulation::new(MatchmakingConfig::default(), 1).unwrap();
    sim.register_data_center(Location::new(0, 0), capacities(200));
    sim.register_data_center(Location::new(0, 90000), capacities(200));
    sim.ingest_players(seeded_population(20)).unwrap();
    let mut cfg = MatchmakingConfig::default();
    cfg.num_skill_buckets = 4;
    sim.update_config(cfg).unwrap();
    for p in &sim.players {
        assert!(p.skill_bucket >= 1 && p.skill_bucket <= 4);
    }
    let mut bad = MatchmakingConfig::default();
    bad.top_k_candidates = 0;
    assert_eq!(sim.update_config(bad), Err(SimError::InvalidConfig));
}

#[test]
fn skill_distribution_has_twenty_bands() {
    let mut sim = Simulation::new(MatchmakingConfig::default(), 1).unwrap();
    sim.register_data_center(Location::new(0, 0), capacities(200));
    sim.register_data_center(Location::new(0, 90000), capacities(200));
    sim.ingest_players(seeded_population(30)).unwrap();
    let dist = sim.get_skill_distribution();
    assert_eq!(dist.len(), 20);
    let total: u64 = dist.iter().map(|&(_, c)| c).sum();
    assert_eq!(total, 30);
}

#[test]
fn poisson_zero_rate_is_zero() {
    let mut ds = DrawStream::new(99);
    for _ in 0..50 {
        assert_eq!(ds.poisson(0), 0);
    }
}

#[test]
fn bucket_stats_cover_population() {
    let mut sim = built_world(3, 30);
    for _ in 0..40 {
        sim.tick();
    }
    assert_eq!(sim.stats.bucket_stats.len(), 10);
    let covered: u64 = sim.stats.bucket_stats.iter().map(|b| b.player_count).sum();
    assert_eq!(covered, 30);
    for b in &sim.stats.bucket_stats {
        assert!(b.win_rate_milli <= 1000);
    }
}

#[test]
fn player_window_is_bounded_fifo() {
    let mut w: Vec<u64> = Vec::new();
    for x in 0..25u64 {
        matchsim::player::push_rolling(&mut w, x);
        assert!(w.len() <= 10);
    }
    assert_eq!(w, (15..25).collect::<Vec<u64>>());
}

#[test]
fn player_new_defaults() {
    let p = Player::new(3, Location::new(1000, 2000), 250);
    assert_eq!(p.id, 3);
    assert_eq!(p.state, PlayerState::Offline);
    assert_eq!(p.continuation_prob_milli, 850);
    assert!(p.preferred_playlists.team_deathmatch);
    assert!(!p.preferred_playlists.ground_war);
}

fn playlist_only(p: Playlist) -> PlaylistSet {
    PlaylistSet {
        team_deathmatch: p == Playlist::TeamDeathmatch,
        search_and_destroy: p == Playlist::SearchAndDestroy,
        domination: p == Playlist::Domination,
        ground_war: p == Playlist::GroundWar,
        free_for_all: p == Playlist::FreeForAll,
    }
}

fn searching_sim_for(n: usize, cap: u64, playlist: Playlist) -> Simulation {
    let mut sim = Simulation::new(MatchmakingConfig::default(), 7).unwrap();
    sim.register_data_center(Location::new(0, 0), capacities(cap));
    let mut profiles = Vec::new();
    for i in 0..n {
        let mut p = profile(0, 0, (i as i64) % 1000, vec![20]);
        p.preferred_playlists = playlist_only(playlist);
        profiles.push(p);
    }
    sim.ingest_players(profiles).unwrap();
    for i in 0..n {
        sim.players[i].state = PlayerState::Searching;
        sim.players[i].search_start_time = Some(0);
        let so = SearchObject {
            id: i as u64,
            player_ids: vec![i],
            avg_skill_percentile_milli: 500,
            skill_disparity_milli: 0,
            avg_location: Location::new(0, 0),
            platforms: PlatformCounts::one(Platform::PC),
            input_devices: InputCounts::one(InputDevice::MouseKeyboard),
            acceptable_playlists: playlist_only(playlist),
            search_start_time: 0,
            acceptable_dcs: vec![true],
        };
        sim.searches.push(so);
    }
    sim
}

#[test]
fn free_for_all_reports_first_team_no_blowout() {
    // Single-member teams: the first team is reported the winner and no
    // blowout is drawn.
    let mut sim = searching_sim_for(12, 200, Playlist::FreeForAll);
    let proposals = sim.run_matchmaking();
    assert_eq!(proposals.len(), 1);
    assert_eq!(proposals[0].teams.len(), 12);
    for t in &proposals[0].teams {
        assert_eq!(t.len(), 1);
    }
    let mut ds = DrawStream::new(11);
    sim.create_matches(proposals, &mut ds);
    sim.current_time = sim.matches[0].start_time + sim.matches[0].expected_duration;
    sim.process_match_completions(&mut ds);
    let wins: u64 = sim.players.iter().map(|p| p.wins).sum();
    assert_eq!(wins, 1);
    assert_eq!(sim.stats.blowout_count, 0);
}

#[test]
fn ground_war_needs_wider_candidate_pool() {
    // The default keeps only the 50 lowest-distance candidates per seed,
    // one short of the 63 a GroundWar seed must absorb; widening the
    // pool lets the 64-player match form with two teams of 32.
    let mut sim = searching_sim_for(64, 50, Playlist::GroundWar);
    let proposals = sim.run_matchmaking();
    assert_eq!(proposals.len(), 0);
    assert_eq!(sim.searches.len(), 64);

    let mut cfg = MatchmakingConfig::default();
    cfg.top_k_candidates = 100;
    let mut sim2 = searching_sim_for(64, 50, Playlist::GroundWar);
    sim2.update_config(cfg).unwrap();
    let proposals2 = sim2.run_matchmaking();
    assert_eq!(proposals2.len(), 1);
    assert_eq!(proposals2[0].playlist, Playlist::GroundWar);
    assert_eq!(proposals2[0].player_ids.len(), 64);
    assert_eq!(proposals2[0].teams.len(), 2);
    assert_eq!(proposals2[0].teams[0].len(), 32);
    assert_eq!(proposals2[0].teams[1].len(), 32);
    assert_eq!(sim2.data_centers[0].busy_servers.ground_war, 1);
}

#[test]
fn snake_draft_balances_strongest_players() {
    // The two strongest gathered players land on different teams.
    let mut sim = searching_sim(12, 200);
    for i in 0..12 {
        sim.players[i].skill_milli = (i as i64) * 80;
    }
    let proposals = sim.run_matchmaking();
    assert_eq!(proposals.len(), 1);
    let teams = &proposals[0].teams;
    let best = 11usize;
    let second = 10usize;
    let t_best = teams.iter().position(|t| t.contains(&best)).unwrap();
    let t_second = teams.iter().position(|t| t.contains(&second)).unwrap();
    assert_ne!(t_best, t_second);
}

#[test]
fn capacity_squeeze_admits_one_match() {
    // GroundWar capacity 1: the first full group takes the only server;
    // the rest of the queue stays waiting with no data center to choose.
    let mut cfg = MatchmakingConfig::default();
    cfg.top_k_candidates = 200;
    let mut sim = searching_sim_for(128, 1, Playlist::GroundWar);
    sim.update_config(cfg).unwrap();
    let proposals = sim.run_matchmaking();
    assert_eq!(proposals.len(), 1);
    assert_eq!(sim.searches.len(), 64);
    assert_eq!(sim.data_centers[0].busy_servers.ground_war, 1);
    // Later passes make no further headway while the server is busy.
    let proposals2 = sim.run_matchmaking();
    assert_eq!(proposals2.len(), 0);
    assert_eq!(sim.searches.len(), 64);
}
