//! The track copy step: copies track metadata rows into the target,
//! substituting each track's old location id with the new id recorded
//! by the location remap step. A track without a location is orphaned
//! and skipped; a track whose old location id has no entry in the map
//! is unmappable and skipped, never guessed. Every copied row keeps its
//! descriptive fields verbatim and receives a fresh identity.

use vstd::prelude::*;

use crate::database::DbView;
use crate::database::TargetDatabase;
use crate::remap::IdMap;
use crate::remap::spec_lookup;
use crate::schema::Location;
use crate::schema::LocationView;
use crate::schema::Track;
use crate::schema::TrackView;
use crate::schema::clone_opt_i64;
use crate::schema::clone_opt_string;
use crate::schema::views;
use crate::text::str_eq;

verus! {

/// The new location id a source track will be given, if any: none for
/// an orphaned track and none for one whose old location id was never
/// recorded.
pub open spec fn spec_mapped_location(t: TrackView, m: Seq<(int, int)>) -> Option<int> {
    match t.location {
        None => None,
        Some(old_id) => spec_lookup(m, old_id),
    }
}

/// The database after the first `n` source tracks are copied: each
/// mappable track is appended with a fresh identity and its location
/// replaced by the mapped id; orphaned and unmappable tracks leave the
/// database exactly as it was.
pub open spec fn spec_insert_tracks(
    db: DbView,
    tracks: Seq<TrackView>,
    m: Seq<(int, int)>,
    n: int,
) -> DbView
    decreases n,
{
    if n <= 0 {
        db
    } else {
        let db1 = spec_insert_tracks(db, tracks, m, n - 1);
        let t = tracks[n - 1];
        match spec_mapped_location(t, m) {
            None => db1,
            Some(new_loc) => DbView {
                tracks: db1.tracks.push(
                    TrackView { id: db1.next_track_id, location: Some(new_loc), ..t },
                ),
                next_track_id: db1.next_track_id + 1,
                ..db1
            },
        }
    }
}

/// How many of the first `n` source tracks are mappable.
pub open spec fn spec_count_connectable(tracks: Seq<TrackView>, m: Seq<(int, int)>, n: int) -> int
    decreases n,
{
    if n <= 0 {
        0
    } else {
        spec_count_connectable(tracks, m, n - 1) + (if spec_mapped_location(tracks[n - 1], m)
            is Some {
            1int
        } else {
            0int
        })
    }
}

/// The shape of a finished track copy: well-formedness is kept, the
/// track table grows by exactly the number of mappable inputs, and
/// nothing else in the database moves.
pub proof fn lemma_insert_tracks_props(
    db: DbView,
    tracks: Seq<TrackView>,
    m: Seq<(int, int)>,
    n: int,
)
    requires
        db.wf(),
        0 <= n <= tracks.len(),
        db.next_track_id + n <= i32::MAX as int,
    ensures
        ({
            let dbf = spec_insert_tracks(db, tracks, m, n);
            &&& dbf.wf()
            &&& dbf.next_track_id == db.next_track_id + spec_count_connectable(tracks, m, n)
            &&& dbf.tracks.len() == db.tracks.len() + spec_count_connectable(tracks, m, n)
            &&& 0 <= spec_count_connectable(tracks, m, n) <= n
            &&& dbf.directories == db.directories
            &&& dbf.locations == db.locations
            &&& dbf.crates == db.crates
            &&& dbf.crate_tracks == db.crate_tracks
            &&& dbf.next_location_id == db.next_location_id
            &&& dbf.next_crate_id == db.next_crate_id
        }),
    decreases n,
{
    if n > 0 {
        lemma_insert_tracks_props(db, tracks, m, n - 1);
        let db1 = spec_insert_tracks(db, tracks, m, n - 1);
        let t = tracks[n - 1];
        if spec_mapped_location(t, m) is Some {
            let dbf = spec_insert_tracks(db, tracks, m, n);
            assert(forall|i: int|
                0 <= i < db1.tracks.len() ==> dbf.tracks[i] == (#[trigger] db1.tracks[i]));
            assert(dbf.tracks[db1.tracks.len() as int].id == db1.next_track_id);
        }
    }
}

/// Orphaned and unmappable tracks leave no new rows at all: when none
/// of the first `n` inputs is mappable, the database is unchanged.
pub proof fn lemma_unmappable_tracks_add_no_rows(
    db: DbView,
    tracks: Seq<TrackView>,
    m: Seq<(int, int)>,
    n: int,
)
    requires
        0 <= n <= tracks.len(),
        forall|k: int| 0 <= k < n ==> spec_mapped_location(#[trigger] tracks[k], m) is None,
    ensures
        spec_insert_tracks(db, tracks, m, n) == db,
    decreases n,
{
    if n > 0 {
        lemma_unmappable_tracks_add_no_rows(db, tracks, m, n - 1);
    }
}

/// The id of the first location row holding exactly the path `p`.
pub open spec fn spec_find_location_id(locs: Seq<LocationView>, p: Seq<char>) -> Option<int>
    decreases locs.len(),
{
    if locs.len() == 0 {
        None
    } else if locs[0].location == Some(p) {
        Some(locs[0].id)
    } else {
        spec_find_location_id(locs.drop_first(), p)
    }
}

/// The first track row referencing the location id `loc_id`.
pub open spec fn spec_find_track_by_location(tracks: Seq<TrackView>, loc_id: int) -> Option<
    TrackView,
>
    decreases tracks.len(),
{
    if tracks.len() == 0 {
        None
    } else if tracks[0].location == Some(loc_id) {
        Some(tracks[0])
    } else {
        spec_find_track_by_location(tracks.drop_first(), loc_id)
    }
}

/// The track reached from an exact location path: the location row
/// holding `p`, then the track referencing that row.
pub open spec fn spec_get_by_location(db: DbView, p: Seq<char>) -> Option<TrackView> {
    match spec_find_location_id(db.locations, p) {
        None => None,
        Some(lid) => spec_find_track_by_location(db.tracks, lid),
    }
}

/// The id of the first location row holding exactly the path `path`.
fn find_location_id(locations: &Vec<Location>, path: &str) -> (r: Option<i32>)
    ensures
        (match r {
            Some(id) => Some(id as int),
            None => None,
        }) == spec_find_location_id(views(locations@), path@),
{
    let ghost lvs = views(locations@);
    let n = locations.len();
    assert(lvs.subrange(0, n as int) =~= lvs);
    let mut i: usize = 0;
    while i < n
        invariant
            n == locations@.len(),
            lvs == views(locations@),
            lvs.len() == n,
            i <= n,
            spec_find_location_id(lvs, path@) == spec_find_location_id(
                lvs.subrange(i as int, n as int),
                path@,
            ),
        decreases n - i,
    {
        let ghost pre_sub = lvs.subrange(i as int, n as int);
        assert(pre_sub[0] == lvs[i as int]);
        assert(lvs[i as int] == locations@[i as int]@);
        let matches_here = match &locations[i].location {
            Some(s) => str_eq(s.as_str(), path),
            None => false,
        };
        if matches_here {
            return Some(locations[i].id);
        }
        i += 1;
        proof {
            assert(pre_sub.drop_first() =~= lvs.subrange(i as int, n as int));
        }
    }
    assert(lvs.subrange(n as int, n as int) =~= Seq::<LocationView>::empty());
    None
}

/// The first track row referencing the location id `lid`.
fn find_track_by_location(tracks: &Vec<Track>, lid: i32) -> (r: Option<Track>)
    ensures
        (match r {
            Some(t) => Some(t@),
            None => None,
        }) == spec_find_track_by_location(views(tracks@), lid as int),
{
    let ghost tvs = views(tracks@);
    let m = tracks.len();
    assert(tvs.subrange(0, m as int) =~= tvs);
    let mut j: usize = 0;
    while j < m
        invariant
            m == tracks@.len(),
            tvs == views(tracks@),
            tvs.len() == m,
            j <= m,
            spec_find_track_by_location(tvs, lid as int) == spec_find_track_by_location(
                tvs.subrange(j as int, m as int),
                lid as int,
            ),
        decreases m - j,
    {
        let ghost pre_sub = tvs.subrange(j as int, m as int);
        assert(pre_sub[0] == tvs[j as int]);
        assert(tvs[j as int] == tracks@[j as int]@);
        let matches_here = match &tracks[j].location {
            Some(l) => *l == lid,
            None => false,
        };
        if matches_here {
            return Some(tracks[j].clone());
        }
        j += 1;
        proof {
            assert(pre_sub.drop_first() =~= tvs.subrange(j as int, m as int));
        }
    }
    assert(tvs.subrange(m as int, m as int) =~= Seq::<TrackView>::empty());
    None
}

/// Looks a track up by its location's exact path string.
pub fn get_by_location(db: &TargetDatabase, path: &str) -> (r: Option<Track>)
    ensures
        (match r {
            Some(t) => Some(t@),
            None => None,
        }) == spec_get_by_location(db@, path@),
{
    match find_location_id(&db.locations, path) {
        None => None,
        Some(lid) => find_track_by_location(&db.tracks, lid),
    }
}

/// Copies source tracks into the target, replacing each old location id
/// through the location remap map and skipping the tracks that cannot
/// be mapped.
pub fn insert(db: &mut TargetDatabase, tracks: Vec<Track>, location_map: &IdMap)
    requires
        old(db)@.wf(),
        old(db)@.next_track_id + tracks@.len() <= i32::MAX as int,
    ensures
        final(db)@ == spec_insert_tracks(
            old(db)@,
            views(tracks@),
            location_map@,
            tracks@.len() as int,
        ),
        final(db)@.wf(),
{
    let ghost tvs = views(tracks@);
    let ghost mv = location_map@;
    let mut i: usize = 0;
    while i < tracks.len()
        invariant
            old(db)@.wf(),
            old(db)@.next_track_id + tracks@.len() <= i32::MAX as int,
            i <= tracks@.len(),
            tvs == views(tracks@),
            tvs.len() == tracks@.len(),
            mv == location_map@,
            db@ == spec_insert_tracks(old(db)@, tvs, mv, i as int),
            db@.wf(),
            db@.next_track_id <= old(db)@.next_track_id + i,
        decreases tracks@.len() - i,
    {
        assert(tvs[i as int] == tracks@[i as int]@);
        proof {
            lemma_insert_tracks_props(old(db)@, tvs, mv, i as int);
        }
        let mapped: Option<i32> = match &tracks[i].location {
            None => None,
            Some(prev) => location_map.get(*prev),
        };
        match mapped {
            None => {
                assert(spec_mapped_location(tvs[i as int], mv) is None);
            },
            Some(new_loc) => {
                assert(spec_mapped_location(tvs[i as int], mv) == Some(new_loc as int));
                let new_id = db.next_track_id;
                let t = &tracks[i];
                let ghost pre_tracks = db@.tracks;
                let row = Track {
                    id: new_id,
                    artist: clone_opt_string(&t.artist),
                    title: clone_opt_string(&t.title),
                    location: Some(new_loc),
                    cuepoint: clone_opt_i64(&t.cuepoint),
                };
                db.tracks.push(row);
                db.next_track_id = new_id + 1;
                assert(db@.tracks =~= pre_tracks.push(TrackView {
                    id: new_id as int,
                    location: Some(new_loc as int),
                    ..tvs[i as int]
                }));
            },
        }
        i += 1;
        proof {
            assert(db@ == spec_insert_tracks(old(db)@, tvs, mv, i as int));
            lemma_insert_tracks_props(old(db)@, tvs, mv, i as int);
        }
    }
}

} // verus!
