//! Snapshot codec for the configuration record.
//!
//! The knob bundle is the part of the persisted state whose wire shape
//! is fixed here: twenty words, one per knob, in declaration order. The
//! round trip through the codec restores the record exactly, so a run
//! resumed from a snapshot continues from the same knobs.

use vstd::prelude::*;
use crate::config::MatchmakingConfig;

verus! {

/// The wire shape: one word per knob, in declaration order.
pub open spec fn spec_encode_config(c: MatchmakingConfig) -> Seq<u64> {
    seq![
        c.max_ping,
        c.delta_ping_initial,
        c.delta_ping_rate,
        c.delta_ping_max,
        c.skill_similarity_initial,
        c.skill_similarity_rate,
        c.skill_similarity_max,
        c.max_skill_disparity_initial,
        c.max_skill_disparity_rate,
        c.max_skill_disparity_max,
        c.weight_geo,
        c.weight_skill,
        c.weight_input,
        c.weight_platform,
        c.quality_weight_ping,
        c.quality_weight_skill_balance,
        c.quality_weight_wait_time,
        c.tick_interval,
        c.num_skill_buckets as u64,
        c.top_k_candidates as u64,
    ]
}

pub fn encode_config(c: &MatchmakingConfig) -> (r: Vec<u64>)
    requires
        c.wf(),
    ensures
        r@ == spec_encode_config(*c),
{
    let mut r: Vec<u64> = Vec::new();
    r.push(c.max_ping);
    r.push(c.delta_ping_initial);
    r.push(c.delta_ping_rate);
    r.push(c.delta_ping_max);
    r.push(c.skill_similarity_initial);
    r.push(c.skill_similarity_rate);
    r.push(c.skill_similarity_max);
    r.push(c.max_skill_disparity_initial);
    r.push(c.max_skill_disparity_rate);
    r.push(c.max_skill_disparity_max);
    r.push(c.weight_geo);
    r.push(c.weight_skill);
    r.push(c.weight_input);
    r.push(c.weight_platform);
    r.push(c.quality_weight_ping);
    r.push(c.quality_weight_skill_balance);
    r.push(c.quality_weight_wait_time);
    r.push(c.tick_interval);
    r.push(c.num_skill_buckets as u64);
    r.push(c.top_k_candidates as u64);
    proof {
        assert(r@ =~= spec_encode_config(*c));
    }
    r
}

/// Decode twenty words back into a knob bundle; rejects a malformed or
/// out-of-range snapshot.
pub fn decode_config(v: &Vec<u64>) -> (r: Option<MatchmakingConfig>)
    ensures
        r matches Some(c) ==> c.wf() && v@ == spec_encode_config(c),
        forall|c: MatchmakingConfig|
            c.wf() && v@ == spec_encode_config(c) ==> r == Some(c),
{
    if v.len() != 20 {
        return None;
    }
    if v[18] > 1000 || v[19] > 1000000 {
        return None;
    }
    let c = MatchmakingConfig {
        max_ping: v[0],
        delta_ping_initial: v[1],
        delta_ping_rate: v[2],
        delta_ping_max: v[3],
        skill_similarity_initial: v[4],
        skill_similarity_rate: v[5],
        skill_similarity_max: v[6],
        max_skill_disparity_initial: v[7],
        max_skill_disparity_rate: v[8],
        max_skill_disparity_max: v[9],
        weight_geo: v[10],
        weight_skill: v[11],
        weight_input: v[12],
        weight_platform: v[13],
        quality_weight_ping: v[14],
        quality_weight_skill_balance: v[15],
        quality_weight_wait_time: v[16],
        tick_interval: v[17],
        num_skill_buckets: v[18] as usize,
        top_k_candidates: v[19] as usize,
    };
    match c.validate() {
        Result::Ok(_) => {
            proof {
                assert(v@ =~= spec_encode_config(c));
            }
            Some(c)
        }
        Result::Err(_) => None,
    }
}

/// Snapshot round trip: serialising and deserialising a well-formed
/// configuration restores it exactly, so any computation that follows
/// proceeds from an identical record.
pub proof fn lemma_config_round_trip(c: MatchmakingConfig, v: Seq<u64>)
    requires
        c.wf(),
        v == spec_encode_config(c),
    ensures
        forall|c2: MatchmakingConfig| c2.wf() && v == spec_encode_config(c2) ==> c2 == c,
{
    assert forall|c2: MatchmakingConfig| c2.wf() && v == spec_encode_config(c2) implies c2
        == c by {
        assert(spec_encode_config(c2)[0] == spec_encode_config(c)[0]);
        assert(spec_encode_config(c2)[1] == spec_encode_config(c)[1]);
        assert(spec_encode_config(c2)[2] == spec_encode_config(c)[2]);
        assert(spec_encode_config(c2)[3] == spec_encode_config(c)[3]);
        assert(spec_encode_config(c2)[4] == spec_encode_config(c)[4]);
        assert(spec_encode_config(c2)[5] == spec_encode_config(c)[5]);
        assert(spec_encode_config(c2)[6] == spec_encode_config(c)[6]);
        assert(spec_encode_config(c2)[7] == spec_encode_config(c)[7]);
        assert(spec_encode_config(c2)[8] == spec_encode_config(c)[8]);
        assert(spec_encode_config(c2)[9] == spec_encode_config(c)[9]);
        assert(spec_encode_config(c2)[10] == spec_encode_config(c)[10]);
        assert(spec_encode_config(c2)[11] == spec_encode_config(c)[11]);
        assert(spec_encode_config(c2)[12] == spec_encode_config(c)[12]);
        assert(spec_encode_config(c2)[13] == spec_encode_config(c)[13]);
        assert(spec_encode_config(c2)[14] == spec_encode_config(c)[14]);
        assert(spec_encode_config(c2)[15] == spec_encode_config(c)[15]);
        assert(spec_encode_config(c2)[16] == spec_encode_config(c)[16]);
        assert(spec_encode_config(c2)[17] == spec_encode_config(c)[17]);
        assert(spec_encode_config(c2)[18] == spec_encode_config(c)[18]);
        assert(spec_encode_config(c2)[19] == spec_encode_config(c)[19]);
    }
}

} // verus!
