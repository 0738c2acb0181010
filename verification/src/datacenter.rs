//! Data centers and per-playlist server-capacity accounting.

use vstd::prelude::*;
use crate::geo::Location;
use crate::model::{Playlist, PlaylistCounts};

verus! {

/// A data center with per-playlist capacity accounting.
#[derive(Clone, Copy, Debug, PartialEq, Eq, Structural)]
pub struct DataCenter {
    pub id: usize,
    pub location: Location,
    /// Server capacity per playlist.
    pub server_capacity: PlaylistCounts,
    /// Currently busy servers per playlist.
    pub busy_servers: PlaylistCounts,
}

impl DataCenter {
    /// Capacity accounting is never violated: for every playlist the busy
    /// count stays within `[0, capacity]`.
    pub open spec fn wf(self) -> bool {
        &&& self.location.wf()
        &&& forall|p: Playlist|
            #[trigger] self.busy_servers.spec_get(p) <= self.server_capacity.spec_get(p)
        &&& forall|p: Playlist| #[trigger] self.server_capacity.spec_get(p) <= 1000000000
    }

    /// A data center with the default capacities (GroundWar 50, others 200)
    /// and no busy servers.
    pub fn new(id: usize, location: Location) -> (r: DataCenter)
        requires
            location.wf(),
        ensures
            r.wf(),
            r.id == id,
            r.location == location,
            forall|p: Playlist| #[trigger] r.busy_servers.spec_get(p) == 0,
            forall|p: Playlist|
                #[trigger] r.server_capacity.spec_get(p) == (if p == Playlist::GroundWar {
                    50u64
                } else {
                    200u64
                }),
    {
        let mut capacity = PlaylistCounts::zero();
        capacity.set(Playlist::TeamDeathmatch, 200);
        capacity.set(Playlist::SearchAndDestroy, 200);
        capacity.set(Playlist::Domination, 200);
        capacity.set(Playlist::GroundWar, 50);
        capacity.set(Playlist::FreeForAll, 200);
        DataCenter { id, location, server_capacity: capacity, busy_servers: PlaylistCounts::zero() }
    }

    pub open spec fn spec_available_servers(self, p: Playlist) -> u64 {
        (self.server_capacity.spec_get(p) - self.busy_servers.spec_get(p)) as u64
    }

    /// Remaining free servers for a playlist.
    pub fn available_servers(&self, p: Playlist) -> (r: u64)
        requires
            self.wf(),
        ensures
            r == self.spec_available_servers(p),
            r == self.server_capacity.spec_get(p) - self.busy_servers.spec_get(p),
    {
        self.server_capacity.get(p) - self.busy_servers.get(p)
    }

    /// Occupy one server for a playlist; only possible while one is free,
    /// so the capacity bound is preserved.
    pub fn debit(&mut self, p: Playlist)
        requires
            old(self).wf(),
            old(self).spec_available_servers(p) >= 1,
        ensures
            final(self).wf(),
            final(self).id == old(self).id,
            final(self).location == old(self).location,
            final(self).server_capacity == old(self).server_capacity,
            final(self).busy_servers.spec_get(p) == old(self).busy_servers.spec_get(p) + 1,
            forall|q: Playlist|
                q != p ==> #[trigger] final(self).busy_servers.spec_get(q) == old(
                    self,
                ).busy_servers.spec_get(q),
    {
        let b = self.busy_servers.get(p);
        self.busy_servers.set(p, b + 1);
    }

    /// Release one server for a playlist. A release with no busy server is
    /// a no-op rather than an underflow.
    pub fn credit(&mut self, p: Playlist)
        requires
            old(self).wf(),
        ensures
            final(self).wf(),
            final(self).id == old(self).id,
            final(self).location == old(self).location,
            final(self).server_capacity == old(self).server_capacity,
            final(self).busy_servers.spec_get(p) == (if old(self).busy_servers.spec_get(p) > 0 {
                (old(self).busy_servers.spec_get(p) - 1) as u64
            } else {
                0u64
            }),
            forall|q: Playlist|
                q != p ==> #[trigger] final(self).busy_servers.spec_get(q) == old(
                    self,
                ).busy_servers.spec_get(q),
    {
        let b = self.busy_servers.get(p);
        if b > 0 {
            self.busy_servers.set(p, b - 1);
        }
    }
}

} // verus!
