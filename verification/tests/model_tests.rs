use matchsim::model::Playlist;
use matchsim::config::{MatchmakingConfig, SimError};
use matchsim::geo::Location;
use matchsim::units::{isqrt, exp_neg_milli, backoff_value};
use matchsim::stats::{kth_smallest, mean};
use matchsim::simulation::{win_prob_milli, blowout_prob_milli, continue_prob_milli};
use matchsim::matchmaker::quality_milli;
use matchsim::snapshot::{encode_config, decode_config};

#[test]
fn playlist_constants() {
    assert_eq!(Playlist::TeamDeathmatch.required_players(), 12);
    assert_eq!(Playlist::SearchAndDestroy.required_players(), 12);
    assert_eq!(Playlist::Domination.required_players(), 12);
    assert_eq!(Playlist::GroundWar.required_players(), 64);
    assert_eq!(Playlist::FreeForAll.required_players(), 12);
    assert_eq!(Playlist::TeamDeathmatch.team_count(), 2);
    assert_eq!(Playlist::GroundWar.team_count(), 2);
    assert_eq!(Playlist::FreeForAll.team_count(), 12);
    assert_eq!(Playlist::TeamDeathmatch.avg_match_duration_seconds(), 600);
    assert_eq!(Playlist::SearchAndDestroy.avg_match_duration_seconds(), 900);
    assert_eq!(Playlist::GroundWar.avg_match_duration_seconds(), 1200);
}

#[test]
fn default_config_values() {
    let cfg = MatchmakingConfig::default();
    assert_eq!(cfg.max_ping, 200);
    assert_eq!(cfg.delta_ping_initial, 10);
    assert_eq!(cfg.delta_ping_rate, 2);
    assert_eq!(cfg.delta_ping_max, 100);
    assert_eq!(cfg.skill_similarity_initial, 50);
    assert_eq!(cfg.skill_similarity_max, 500);
    assert_eq!(cfg.max_skill_disparity_max, 800);
    assert_eq!(cfg.tick_interval, 5);
    assert_eq!(cfg.num_skill_buckets, 10);
    assert_eq!(cfg.top_k_candidates, 50);
    assert!(cfg.validate().is_ok());
}

#[test]
fn config_rejects_out_of_range() {
    let mut cfg = MatchmakingConfig::default();
    cfg.tick_interval = 0;
    assert_eq!(cfg.validate(), Err(SimError::InvalidConfig));
    let mut cfg2 = MatchmakingConfig::default();
    cfg2.num_skill_buckets = 0;
    assert_eq!(cfg2.validate(), Err(SimError::InvalidConfig));
    let mut cfg3 = MatchmakingConfig::default();
    cfg3.delta_ping_max = 0;
    assert_eq!(cfg3.validate(), Err(SimError::InvalidConfig));
}

#[test]
fn tolerance_backoff_values() {
    let cfg = MatchmakingConfig::default();
    // delta ping: 10 + 2w capped at 100
    assert_eq!(cfg.delta_ping_backoff(0), 10);
    assert_eq!(cfg.delta_ping_backoff(10), 30);
    assert_eq!(cfg.delta_ping_backoff(45), 100);
    assert_eq!(cfg.delta_ping_backoff(1000), 100);
    // skill window: 50 + 10w capped at 500
    assert_eq!(cfg.skill_similarity_backoff(0), 50);
    assert_eq!(cfg.skill_similarity_backoff(20), 250);
    assert_eq!(cfg.skill_similarity_backoff(100), 500);
    // disparity: 100 + 20w capped at 800
    assert_eq!(cfg.skill_disparity_backoff(0), 100);
    assert_eq!(cfg.skill_disparity_backoff(5), 200);
    assert_eq!(cfg.skill_disparity_backoff(40), 800);
}

#[test]
fn tolerance_backoff_monotone_samples() {
    let cfg = MatchmakingConfig::default();
    let mut prev = 0u64;
    for w in 0..200u64 {
        let v = cfg.delta_ping_backoff(w);
        assert!(v >= prev);
        prev = v;
    }
}

#[test]
fn isqrt_values() {
    assert_eq!(isqrt(0), 0);
    assert_eq!(isqrt(1), 1);
    assert_eq!(isqrt(3), 1);
    assert_eq!(isqrt(4), 2);
    assert_eq!(isqrt(999999), 999);
    assert_eq!(isqrt(1000000), 1000);
    assert_eq!(isqrt(1000000000000), 1000000);
}

#[test]
fn exp_neg_values() {
    assert_eq!(exp_neg_milli(0), 1000000000000);
    // e^-1 is about 0.367879
    let e1 = exp_neg_milli(1000);
    assert!(e1 > 367000000000 && e1 < 368000000000, "e1 = {}", e1);
    // e^-10 is about 0.0000454
    let e10 = exp_neg_milli(10000);
    assert!(e10 > 45000000 && e10 < 46000000, "e10 = {}", e10);
}

#[test]
fn backoff_envelope_raw() {
    assert_eq!(backoff_value(10, 2, 100, 0), 10);
    assert_eq!(backoff_value(10, 2, 100, 45), 100);
    assert_eq!(backoff_value(10, 0, 100, 99), 10);
    assert_eq!(backoff_value(200, 5, 100, 0), 100);
}

#[test]
fn distance_zero_and_symmetry() {
    let a = Location::new(48000, 2000);
    let b = Location::new(-33000, 151000);
    assert_eq!(a.distance_km(&a), 0);
    assert_eq!(a.distance_km(&b), b.distance_km(&a));
}

#[test]
fn distance_quarter_circle() {
    // Two points on the equator 90 degrees apart: a quarter
    // circumference, about 10008 km.
    let a = Location::new(0, 0);
    let b = Location::new(0, 90000);
    let d = a.distance_km(&b);
    assert!(d > 9900 && d < 10100, "d = {}", d);
}

#[test]
fn distance_small_span() {
    // One degree of longitude at the equator is about 111 km.
    let a = Location::new(0, 0);
    let b = Location::new(0, 1000);
    let d = a.distance_km(&b);
    assert!(d > 100 && d < 125, "d = {}", d);
}

#[test]
fn kth_smallest_and_mean() {
    let v: Vec<u64> = vec![5, 1, 3];
    assert_eq!(kth_smallest(&v, 0), 1);
    assert_eq!(kth_smallest(&v, 1), 3);
    assert_eq!(kth_smallest(&v, 2), 5);
    assert_eq!(mean(&v), 3);
    let w: Vec<u64> = vec![7, 7, 7, 7];
    assert_eq!(kth_smallest(&w, 3), 7);
    assert_eq!(mean(&w), 7);
    let empty: Vec<u64> = Vec::new();
    assert_eq!(mean(&empty), 0);
}

#[test]
fn win_probability_balanced() {
    // Outcome fairness: equal team skills give an even match, and a
    // tiny skill edge stays near even.
    assert_eq!(win_prob_milli(0), 500);
    for d in 1..10i64 {
        let p = win_prob_milli(d);
        assert!(p >= 470 && p <= 530, "p({}) = {}", d, p);
        // Symmetry between the two teams.
        assert_eq!(p + win_prob_milli(-d), 1000);
    }
}

#[test]
fn win_probability_skewed() {
    // A strong favourite: skill edge of 1.0 gives sigma(2) of about 0.88.
    let p = win_prob_milli(1000);
    assert!(p > 850 && p < 900, "p = {}", p);
    assert!(win_prob_milli(2000) > p);
}

#[test]
fn blowout_probability_bands() {
    assert_eq!(blowout_prob_milli(0, 0), 20);
    assert_eq!(blowout_prob_milli(50, 0), 20);
    assert_eq!(blowout_prob_milli(60, 0), 50);
    assert_eq!(blowout_prob_milli(60, 100), 60);
    assert_eq!(blowout_prob_milli(0, 500), 250);
    assert_eq!(blowout_prob_milli(200, 0), 200);
    assert_eq!(blowout_prob_milli(2000, 1000), 800);
    // Capped at 0.9 by construction.
    for d in 0..2000i64 {
        assert!(blowout_prob_milli(d, 1000) <= 900);
    }
}

#[test]
fn continuation_probability_formula() {
    // No penalties: the base probability.
    assert_eq!(continue_prob_milli(850, 0, 0, 0), 850);
    // Ping penalty: 0.2 * min(adp/100, 1).
    assert_eq!(continue_prob_milli(850, 50, 0, 0), 750);
    assert_eq!(continue_prob_milli(850, 100, 0, 0), 650);
    assert_eq!(continue_prob_milli(850, 1000, 0, 0), 650);
    // Search penalty: 0.15 * min(as/120, 1).
    assert_eq!(continue_prob_milli(850, 0, 120, 0), 700);
    // Blowout penalty: 0.2 * rate.
    assert_eq!(continue_prob_milli(850, 0, 0, 1000), 650);
    // Floor at 0.3.
    assert_eq!(continue_prob_milli(850, 1000, 1000, 1000), 300);
}

#[test]
fn quality_score_formula() {
    let cfg = MatchmakingConfig::default();
    // Perfect match: no delta ping, no disparity, no wait.
    assert_eq!(quality_milli(0, 0, 0, &cfg), 1000);
    // Worst ping: the ping term drops out entirely.
    assert_eq!(quality_milli(100, 0, 0, &cfg), 600);
    // Saturated wait (>= 120 s): the wait term drops out.
    assert_eq!(quality_milli(0, 0, 120, &cfg), 800);
    // Worst disparity.
    assert_eq!(quality_milli(0, 800, 0, &cfg), 600);
}

#[test]
fn config_snapshot_round_trip() {
    // Serialise then deserialise restores the record exactly, so any
    // step taken afterwards starts from the same configuration.
    let cfg = MatchmakingConfig::default();
    let words = encode_config(&cfg);
    assert_eq!(words.len(), 20);
    assert_eq!(decode_config(&words), Some(cfg));
    let mut cfg2 = MatchmakingConfig::default();
    cfg2.delta_ping_rate = 7;
    cfg2.num_skill_buckets = 4;
    let words2 = encode_config(&cfg2);
    assert_eq!(decode_config(&words2), Some(cfg2));
}

#[test]
fn config_snapshot_rejects_malformed() {
    let cfg = MatchmakingConfig::default();
    let mut words = encode_config(&cfg);
    words.pop();
    assert_eq!(decode_config(&words), None);
    let mut bad = encode_config(&cfg);
    bad[17] = 0; // tick interval out of range
    assert_eq!(decode_config(&bad), None);
}
