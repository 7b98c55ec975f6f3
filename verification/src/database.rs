//! The target database as a value: the five tables the merge and
//! import operations touch, together with the auto-increment counters
//! that hand out fresh row identities. The well-formedness predicate
//! captures exactly the constraints the storage engine enforces while
//! these operations run: identities are positive, below their counter
//! and pairwise distinct; location paths, crate names, directory paths
//! and membership pairs are unique. Referential integrity is *not*
//! part of it — the operations run with foreign-key enforcement
//! switched off to work around a schema defect in the source format.

use vstd::prelude::*;

use crate::paths::join_base;
use crate::paths::spec_join_base;
use crate::schema::Crate;
use crate::schema::CrateTrack;
use crate::schema::CrateView;
use crate::schema::Directory;
use crate::schema::Location;
use crate::schema::LocationView;
use crate::schema::Track;
use crate::schema::TrackView;
use crate::schema::views;

verus! {

/// The mathematical content of a [`TargetDatabase`].
pub struct DbView {
    pub directories: Seq<Seq<char>>,
    pub locations: Seq<LocationView>,
    pub tracks: Seq<TrackView>,
    pub crates: Seq<CrateView>,
    pub crate_tracks: Seq<(int, int)>,
    pub next_location_id: int,
    pub next_track_id: int,
    pub next_crate_id: int,
}

impl DbView {
    /// The constraints the storage engine enforces during a merge or an
    /// import: fresh positive identities and the table-level uniqueness
    /// rules.
    pub open spec fn wf(self) -> bool {
        &&& 1 <= self.next_location_id <= i32::MAX as int
        &&& 1 <= self.next_track_id <= i32::MAX as int
        &&& 1 <= self.next_crate_id <= i32::MAX as int
        &&& (forall|i: int|
            0 <= i < self.locations.len() ==> 0 < (#[trigger] self.locations[i]).id
                < self.next_location_id)
        &&& (forall|i: int, j: int|
            0 <= i < j < self.locations.len() ==> (#[trigger] self.locations[i]).id != (
            #[trigger] self.locations[j]).id)
        &&& (forall|i: int, j: int|
            0 <= i < j < self.locations.len() && (#[trigger] self.locations[i]).location is Some
                ==> self.locations[i].location != (#[trigger] self.locations[j]).location)
        &&& (forall|i: int|
            0 <= i < self.tracks.len() ==> 0 < (#[trigger] self.tracks[i]).id
                < self.next_track_id)
        &&& (forall|i: int, j: int|
            0 <= i < j < self.tracks.len() ==> (#[trigger] self.tracks[i]).id != (
            #[trigger] self.tracks[j]).id)
        &&& (forall|i: int|
            0 <= i < self.crates.len() ==> 0 < (#[trigger] self.crates[i]).id
                < self.next_crate_id)
        &&& (forall|i: int, j: int|
            0 <= i < j < self.crates.len() ==> (#[trigger] self.crates[i]).id != (
            #[trigger] self.crates[j]).id)
        &&& (forall|i: int, j: int|
            0 <= i < j < self.crates.len() ==> (#[trigger] self.crates[i]).name != (
            #[trigger] self.crates[j]).name)
        &&& (forall|i: int, j: int|
            0 <= i < j < self.crate_tracks.len() ==> (#[trigger] self.crate_tracks[i]) != (
            #[trigger] self.crate_tracks[j]))
        &&& (forall|i: int, j: int|
            0 <= i < j < self.directories.len() ==> (#[trigger] self.directories[i]) != (
            #[trigger] self.directories[j]))
    }

}

/// An in-memory value standing for the target database: the tables the
/// merge and import operations read and write, and the counters that
/// assign fresh row identities.
#[derive(Debug)]
pub struct TargetDatabase {
    pub directories: Vec<Directory>,
    pub locations: Vec<Location>,
    pub tracks: Vec<Track>,
    pub crates: Vec<Crate>,
    pub crate_tracks: Vec<CrateTrack>,
    pub next_location_id: i32,
    pub next_track_id: i32,
    pub next_crate_id: i32,
}

impl View for TargetDatabase {
    type V = DbView;

    open spec fn view(&self) -> DbView {
        DbView {
            directories: views(self.directories@),
            locations: views(self.locations@),
            tracks: views(self.tracks@),
            crates: views(self.crates@),
            crate_tracks: views(self.crate_tracks@),
            next_location_id: self.next_location_id as int,
            next_track_id: self.next_track_id as int,
            next_crate_id: self.next_crate_id as int,
        }
    }
}

impl TargetDatabase {
    /// An empty, well-formed database whose counters start at one.
    pub fn new() -> (r: TargetDatabase)
        ensures
            r@.wf(),
            r@.directories.len() == 0,
            r@.locations.len() == 0,
            r@.tracks.len() == 0,
            r@.crates.len() == 0,
            r@.crate_tracks.len() == 0,
            r@.next_location_id == 1,
            r@.next_track_id == 1,
            r@.next_crate_id == 1,
    {
        let r = TargetDatabase {
            directories: Vec::new(),
            locations: Vec::new(),
            tracks: Vec::new(),
            crates: Vec::new(),
            crate_tracks: Vec::new(),
            next_location_id: 1,
            next_track_id: 1,
            next_crate_id: 1,
        };
        proof {
            assert(r@.directories =~= Seq::<Seq<char>>::empty());
            assert(r@.locations =~= Seq::<LocationView>::empty());
            assert(r@.tracks =~= Seq::<TrackView>::empty());
            assert(r@.crates =~= Seq::<CrateView>::empty());
            assert(r@.crate_tracks =~= Seq::<(int, int)>::empty());
        }
        r
    }
}

/// The directory of a standard installation on this platform.
pub fn get_mixxx_directory() -> (r: String)
    ensures
        r@ == "~/.mixxx/"@,
{
    String::from_str("~/.mixxx/")
}

/// The database file inside the standard installation directory.
pub fn get_mixxx_database_path() -> (r: String)
    ensures
        r@ == spec_join_base("~/.mixxx/"@, "mixxxdb.sqlite"@),
{
    let dir = get_mixxx_directory();
    join_base(dir.as_str(), "mixxxdb.sqlite")
}

} // verus!
