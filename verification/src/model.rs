//! Core enumerations and the small per-playlist tables.

use vstd::prelude::*;

verus! {

/// Hardware platforms.
#[derive(Clone, Copy, Debug, PartialEq, Eq, Structural)]
pub enum Platform {
    PC,
    PlayStation,
    Xbox,
}

/// Input devices.
#[derive(Clone, Copy, Debug, PartialEq, Eq, Structural)]
pub enum InputDevice {
    Controller,
    MouseKeyboard,
}

/// Player activity state.
#[derive(Clone, Copy, Debug, PartialEq, Eq, Structural)]
pub enum PlayerState {
    Offline,
    InLobby,
    Searching,
    InMatch,
}

/// Available playlists (game modes).
#[derive(Clone, Copy, Debug, PartialEq, Eq, Structural)]
pub enum Playlist {
    TeamDeathmatch,
    SearchAndDestroy,
    Domination,
    GroundWar,
    FreeForAll,
}

pub const NUM_PLAYLISTS: usize = 5;

impl Playlist {
    /// Number of players a full match of this playlist requires.
    pub fn required_players(&self) -> (r: usize)
        ensures
            r == self.spec_required_players(),
    {
        match self {
            Playlist::TeamDeathmatch => 12,
            Playlist::SearchAndDestroy => 12,
            Playlist::Domination => 12,
            Playlist::GroundWar => 64,
            Playlist::FreeForAll => 12,
        }
    }

    pub open spec fn spec_required_players(self) -> usize {
        match self {
            Playlist::GroundWar => 64,
            _ => 12,
        }
    }

    /// Number of teams a match of this playlist is split into.
    pub fn team_count(&self) -> (r: usize)
        ensures
            r == self.spec_team_count(),
    {
        match self {
            Playlist::FreeForAll => 12,
            Playlist::GroundWar => 2,
            _ => 2,
        }
    }

    pub open spec fn spec_team_count(self) -> usize {
        match self {
            Playlist::FreeForAll => 12,
            _ => 2,
        }
    }

    /// Mean match duration in seconds.
    pub fn avg_match_duration_seconds(&self) -> (r: u64)
        ensures
            r == self.spec_avg_match_duration_seconds(),
    {
        match self {
            Playlist::TeamDeathmatch => 600,
            Playlist::SearchAndDestroy => 900,
            Playlist::Domination => 600,
            Playlist::GroundWar => 1200,
            Playlist::FreeForAll => 600,
        }
    }

    pub open spec fn spec_avg_match_duration_seconds(self) -> u64 {
        match self {
            Playlist::SearchAndDestroy => 900,
            Playlist::GroundWar => 1200,
            _ => 600,
        }
    }

    /// Position of the playlist in the enumeration, used to break ties.
    pub fn ordinal(&self) -> (r: usize)
        ensures
            r == self.spec_ordinal(),
            r < NUM_PLAYLISTS,
    {
        match self {
            Playlist::TeamDeathmatch => 0,
            Playlist::SearchAndDestroy => 1,
            Playlist::Domination => 2,
            Playlist::GroundWar => 3,
            Playlist::FreeForAll => 4,
        }
    }

    pub open spec fn spec_ordinal(self) -> usize {
        match self {
            Playlist::TeamDeathmatch => 0,
            Playlist::SearchAndDestroy => 1,
            Playlist::Domination => 2,
            Playlist::GroundWar => 3,
            Playlist::FreeForAll => 4,
        }
    }

    /// The playlist at a given ordinal.
    pub fn from_ordinal(i: usize) -> (r: Playlist)
        requires
            i < NUM_PLAYLISTS,
        ensures
            r.spec_ordinal() == i,
    {
        if i == 0 {
            Playlist::TeamDeathmatch
        } else if i == 1 {
            Playlist::SearchAndDestroy
        } else if i == 2 {
            Playlist::Domination
        } else if i == 3 {
            Playlist::GroundWar
        } else {
            Playlist::FreeForAll
        }
    }

    /// Every playlist fills its teams evenly: the required player count is a
    /// positive multiple of the team count.
    pub proof fn lemma_teams_divide_required(self)
        ensures
            self.spec_team_count() > 0,
            self.spec_required_players() > 0,
            self.spec_required_players() % self.spec_team_count() == 0,
    {
        match self {
            Playlist::GroundWar => {
                assert(64usize % 2usize == 0);
            }
            Playlist::FreeForAll => {
                assert(12usize % 12usize == 0);
            }
            _ => {
                assert(12usize % 2usize == 0);
            }
        }
    }
}

/// A subset of the playlists.
#[derive(Clone, Copy, Debug, PartialEq, Eq, Structural)]
pub struct PlaylistSet {
    pub team_deathmatch: bool,
    pub search_and_destroy: bool,
    pub domination: bool,
    pub ground_war: bool,
    pub free_for_all: bool,
}

impl PlaylistSet {
    pub open spec fn spec_contains(self, p: Playlist) -> bool {
        match p {
            Playlist::TeamDeathmatch => self.team_deathmatch,
            Playlist::SearchAndDestroy => self.search_and_destroy,
            Playlist::Domination => self.domination,
            Playlist::GroundWar => self.ground_war,
            Playlist::FreeForAll => self.free_for_all,
        }
    }

    pub fn contains(&self, p: Playlist) -> (r: bool)
        ensures
            r == self.spec_contains(p),
    {
        match p {
            Playlist::TeamDeathmatch => self.team_deathmatch,
            Playlist::SearchAndDestroy => self.search_and_destroy,
            Playlist::Domination => self.domination,
            Playlist::GroundWar => self.ground_war,
            Playlist::FreeForAll => self.free_for_all,
        }
    }

    pub fn empty() -> (r: PlaylistSet)
        ensures
            forall|p: Playlist| !r.spec_contains(p),
    {
        PlaylistSet {
            team_deathmatch: false,
            search_and_destroy: false,
            domination: false,
            ground_war: false,
            free_for_all: false,
        }
    }

    pub fn insert(&mut self, p: Playlist)
        ensures
            final(self).spec_contains(p),
            forall|q: Playlist|
                q != p ==> final(self).spec_contains(q) == old(self).spec_contains(q),
    {
        match p {
            Playlist::TeamDeathmatch => {
                self.team_deathmatch = true;
            }
            Playlist::SearchAndDestroy => {
                self.search_and_destroy = true;
            }
            Playlist::Domination => {
                self.domination = true;
            }
            Playlist::GroundWar => {
                self.ground_war = true;
            }
            Playlist::FreeForAll => {
                self.free_for_all = true;
            }
        }
    }
}

/// One counter per playlist; used for server capacities and busy counts.
#[derive(Clone, Copy, Debug, PartialEq, Eq, Structural)]
pub struct PlaylistCounts {
    pub team_deathmatch: u64,
    pub search_and_destroy: u64,
    pub domination: u64,
    pub ground_war: u64,
    pub free_for_all: u64,
}

impl PlaylistCounts {
    pub open spec fn spec_get(self, p: Playlist) -> u64 {
        match p {
            Playlist::TeamDeathmatch => self.team_deathmatch,
            Playlist::SearchAndDestroy => self.search_and_destroy,
            Playlist::Domination => self.domination,
            Playlist::GroundWar => self.ground_war,
            Playlist::FreeForAll => self.free_for_all,
        }
    }

    pub fn get(&self, p: Playlist) -> (r: u64)
        ensures
            r == self.spec_get(p),
    {
        match p {
            Playlist::TeamDeathmatch => self.team_deathmatch,
            Playlist::SearchAndDestroy => self.search_and_destroy,
            Playlist::Domination => self.domination,
            Playlist::GroundWar => self.ground_war,
            Playlist::FreeForAll => self.free_for_all,
        }
    }

    pub fn set(&mut self, p: Playlist, v: u64)
        ensures
            final(self).spec_get(p) == v,
            forall|q: Playlist| q != p ==> final(self).spec_get(q) == old(self).spec_get(q),
    {
        match p {
            Playlist::TeamDeathmatch => {
                self.team_deathmatch = v;
            }
            Playlist::SearchAndDestroy => {
                self.search_and_destroy = v;
            }
            Playlist::Domination => {
                self.domination = v;
            }
            Playlist::GroundWar => {
                self.ground_war = v;
            }
            Playlist::FreeForAll => {
                self.free_for_all = v;
            }
        }
    }

    pub fn zero() -> (r: PlaylistCounts)
        ensures
            forall|p: Playlist| r.spec_get(p) == 0,
    {
        PlaylistCounts {
            team_deathmatch: 0,
            search_and_destroy: 0,
            domination: 0,
            ground_war: 0,
            free_for_all: 0,
        }
    }
}

/// Platform composition of a search object.
#[derive(Clone, Copy, Debug, PartialEq, Eq, Structural)]
pub struct PlatformCounts {
    pub pc: u64,
    pub playstation: u64,
    pub xbox: u64,
}

impl PlatformCounts {
    pub fn one(p: Platform) -> (r: PlatformCounts)
        ensures
            r.pc + r.playstation + r.xbox == 1,
            p == Platform::PC ==> r.pc == 1,
            p == Platform::PlayStation ==> r.playstation == 1,
            p == Platform::Xbox ==> r.xbox == 1,
    {
        match p {
            Platform::PC => PlatformCounts { pc: 1, playstation: 0, xbox: 0 },
            Platform::PlayStation => PlatformCounts { pc: 0, playstation: 1, xbox: 0 },
            Platform::Xbox => PlatformCounts { pc: 0, playstation: 0, xbox: 1 },
        }
    }
}

/// Input-device composition of a search object.
#[derive(Clone, Copy, Debug, PartialEq, Eq, Structural)]
pub struct InputCounts {
    pub controller: u64,
    pub mouse_keyboard: u64,
}

impl InputCounts {
    pub fn one(d: InputDevice) -> (r: InputCounts)
        ensures
            r.controller + r.mouse_keyboard == 1,
            d == InputDevice::Controller ==> r.controller == 1,
            d == InputDevice::MouseKeyboard ==> r.mouse_keyboard == 1,
    {
        match d {
            InputDevice::Controller => InputCounts { controller: 1, mouse_keyboard: 0 },
            InputDevice::MouseKeyboard => InputCounts { controller: 0, mouse_keyboard: 1 },
        }
    }
}

} // verus!
