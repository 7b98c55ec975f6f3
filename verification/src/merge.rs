//! The library merge pipeline: directories, then locations, then
//! tracks, in that order, against one target database value. The id map
//! recorded by the location step feeds the track step; both consult the
//! same directory remap table.

use vstd::prelude::*;

use crate::database::DbView;
use crate::database::TargetDatabase;
use crate::directories;
use crate::locations;
use crate::remap::IdMap;
use crate::remap::RemapTable;
use crate::schema::Directory;
use crate::schema::Location;
use crate::schema::Track;
use crate::schema::views;
use crate::text::str_eq;
use crate::tracks;

verus! {

/// Arguments of a merge run, as the command line hands them over.
pub struct Args {
    /// Source database to pull tracks from.
    pub source: Option<String>,
    /// Target database to merge into; the installation database when
    /// absent.
    pub target: Option<String>,
    /// Output database as a new file at this location; the target is
    /// edited in place when absent.
    pub output: Option<String>,
    /// Skip all prompts and force execution.
    pub force: bool,
}

impl Default for Args {
    fn default() -> (r: Args)
        ensures
            r.source is None,
            r.target is None,
            r.output is None,
            !r.force,
    {
        Args { source: None, target: None, output: None, force: false }
    }
}

/// A whole merge: directories copied first, then locations (recording
/// the id map), then tracks remapped through that id map.
pub open spec fn spec_merge(
    db: DbView,
    dirs: Seq<Seq<char>>,
    locs: Seq<crate::schema::LocationView>,
    trks: Seq<crate::schema::TrackView>,
    table: Option<Seq<(Seq<char>, Seq<char>)>>,
) -> (DbView, Seq<(int, int)>) {
    let db1 = directories::spec_insert_directories(db, dirs, table, dirs.len() as int);
    let (db2, m) = locations::spec_insert_locations(db1, locs, table, locs.len() as int);
    (tracks::spec_insert_tracks(db2, trks, m, trks.len() as int), m)
}

/// Merges one source library into the target: copies its directories,
/// copies its locations through the remap table while recording old to
/// new ids, and copies its tracks with their location ids substituted.
/// Returns the location id map for the caller's logs.
pub fn merge_libraries(
    db: &mut TargetDatabase,
    dirs: &Vec<Directory>,
    locations: Vec<Location>,
    tracks: Vec<Track>,
    directory_map: Option<&RemapTable>,
) -> (map: IdMap)
    requires
        old(db)@.wf(),
        old(db)@.next_track_id + tracks@.len() <= i32::MAX as int,
    ensures
        ({
            let (dbf, m) = spec_merge(
                old(db)@,
                views(dirs@),
                views(locations@),
                views(tracks@),
                match directory_map {
                    Some(t) => Some(t@),
                    None => None,
                },
                );
            &&& final(db)@ == dbf
            &&& map@ == m
            &&& final(db)@.wf()
        }),
{
    let ghost tv: Option<Seq<(Seq<char>, Seq<char>)>> = match directory_map {
        Some(t) => Some(t@),
        None => None,
    };
    proof {
        directories::lemma_insert_directories_props(old(db)@, views(dirs@), tv, dirs@.len() as int);
    }
    directories::insert(db, dirs, directory_map);
    proof {
        locations::lemma_insert_locations_props(
            db@,
            views(locations@),
            tv,
            locations@.len() as int,
        );
    }
    let map = locations::insert(db, locations, directory_map);
    tracks::insert(db, tracks, &map);
    map
}

/// Where the merged library is written, and whether the target file
/// must first be copied there: an explicit target and a distinct output
/// mean "copy, then edit the copy"; an explicit target alone is edited
/// in place; anything else goes to the fallback (the installation
/// database).
pub fn choose_output_path(
    target: &Option<String>,
    output: &Option<String>,
    fallback: String,
) -> (r: (String, bool))
    ensures
        match (target, output) {
            (Some(t), Some(o)) => r.0@ == o@ && (r.1 <==> t@ != o@),
            (Some(t), None) => r.0@ == t@ && !r.1,
            _ => r.0@ == fallback@ && !r.1,
        },
{
    match (target, output) {
        (Some(t), Some(o)) => {
            let same = str_eq(t.as_str(), o.as_str());
            (o.clone(), !same)
        },
        (Some(t), None) => (t.clone(), false),
        _ => (fallback, false),
    }
}

} // verus!
