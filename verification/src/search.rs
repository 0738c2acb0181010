//! Search objects: queued parties waiting to be grouped into a match.

use vstd::prelude::*;
use crate::geo::Location;
use crate::model::{PlatformCounts, InputCounts, PlaylistSet};

verus! {

/// A party of players searching together. Parties of one are the only
/// kind this design creates; larger parties are a permitted extension.
#[derive(Clone, Debug, PartialEq)]
pub struct Party {
    pub id: u64,
    pub player_ids: Vec<usize>,
    pub leader_id: usize,
    /// Mean member skill in milli-units.
    pub avg_skill_milli: i64,
    /// Skill range within the party, in milli-units.
    pub skill_disparity_milli: u64,
}

impl Party {
    pub fn size(&self) -> (r: usize)
        ensures
            r == self.player_ids@.len(),
    {
        self.player_ids.len()
    }
}

/// A queue entry representing one party (of size one in this design)
/// searching for a match.
#[derive(Clone, Debug, PartialEq)]
pub struct SearchObject {
    pub id: u64,
    pub player_ids: Vec<usize>,
    /// Mean member skill percentile in thousandths.
    pub avg_skill_percentile_milli: u64,
    /// Percentile range within the party, zero for a party of one.
    pub skill_disparity_milli: u64,
    pub avg_location: Location,
    pub platforms: PlatformCounts,
    pub input_devices: InputCounts,
    /// Intersection of the members' playlist preferences.
    pub acceptable_playlists: PlaylistSet,
    /// Tick at which the search began.
    pub search_start_time: u64,
    /// Acceptance mask over data centers, refreshed every tick.
    pub acceptable_dcs: Vec<bool>,
}

impl SearchObject {
    pub open spec fn wf(self, n_dcs: int) -> bool {
        &&& self.player_ids@.len() == 1
        &&& self.avg_skill_percentile_milli <= 1000
        &&& self.skill_disparity_milli <= 1000
        &&& self.avg_location.wf()
        &&& self.acceptable_dcs@.len() == n_dcs
        &&& 1 <= self.platforms.pc + self.platforms.playstation + self.platforms.xbox <= 1000
        &&& 1 <= self.input_devices.controller + self.input_devices.mouse_keyboard <= 1000
    }

    pub fn size(&self) -> (r: usize)
        ensures
            r == self.player_ids@.len(),
    {
        self.player_ids.len()
    }

    /// Ticks spent waiting so far.
    pub fn wait_time(&self, current_time: u64) -> (r: u64)
        requires
            self.search_start_time <= current_time,
        ensures
            r == current_time - self.search_start_time,
    {
        current_time - self.search_start_time
    }
}

} // verus!
