//! The location remap step: copies location rows from a source
//! database into the target, applying the directory remap table to both
//! the full path and the directory column, and records the old-id to
//! new-id correspondence. A row whose path already exists in the target
//! (or that cannot be given a fresh identity) is skipped, not fatal:
//! the returned map simply lacks an entry for it, and any track
//! depending on it is skipped downstream.

use vstd::prelude::*;

use crate::database::DbView;
use crate::database::TargetDatabase;
use crate::remap::IdMap;
use crate::remap::RemapTable;
use crate::remap::spec_substitute;
use crate::schema::Location;
use crate::schema::LocationView;
use crate::schema::views;
use crate::text::str_eq;

verus! {

/// Whether some row already holds exactly the path `p`.
pub open spec fn spec_has_path(locs: Seq<LocationView>, p: Option<Seq<char>>) -> bool {
    exists|i: int| 0 <= i < locs.len() && (#[trigger] locs[i]).location == p
}

/// One row transformed through the remap table: path and directory are
/// substituted independently (they may diverge when only one matches a
/// prefix); a row missing either column is kept as it is.
pub open spec fn spec_transform_location(
    lv: LocationView,
    table: Seq<(Seq<char>, Seq<char>)>,
) -> LocationView {
    match (lv.location, lv.directory) {
        (Some(l), Some(d)) => LocationView {
            location: Some(spec_substitute(table, l)),
            directory: Some(spec_substitute(table, d)),
            ..lv
        },
        _ => lv,
    }
}

/// The transformation actually applied: none when no table was built.
pub open spec fn spec_apply_table(
    lv: LocationView,
    table: Option<Seq<(Seq<char>, Seq<char>)>>,
) -> LocationView {
    match table {
        Some(t) => spec_transform_location(lv, t),
        None => lv,
    }
}

/// One row inserted with a fresh identity. The insert is refused — and
/// the row skipped — when the row's path is already present or when no
/// fresh identity is left.
pub open spec fn spec_insert_location(db: DbView, lv: LocationView) -> (DbView, Option<int>) {
    if db.next_location_id >= i32::MAX as int || (lv.location is Some && spec_has_path(
        db.locations,
        lv.location,
    )) {
        (db, None)
    } else {
        let id = db.next_location_id;
        (
            DbView {
                locations: db.locations.push(LocationView { id: id, ..lv }),
                next_location_id: id + 1,
                ..db
            },
            Some(id),
        )
    }
}

/// The first `n` source rows copied: the database afterwards, and the
/// old-id to new-id entries recorded, one per row actually inserted.
pub open spec fn spec_insert_locations(
    db: DbView,
    locs: Seq<LocationView>,
    table: Option<Seq<(Seq<char>, Seq<char>)>>,
    n: int,
) -> (DbView, Seq<(int, int)>)
    decreases n,
{
    if n <= 0 {
        (db, Seq::empty())
    } else {
        let (db1, m1) = spec_insert_locations(db, locs, table, n - 1);
        let lv = spec_apply_table(locs[n - 1], table);
        let (db2, res) = spec_insert_location(db1, lv);
        match res {
            Some(id) => (db2, m1.push((locs[n - 1].id, id))),
            None => (db2, m1),
        }
    }
}

/// Inserting one row preserves well-formedness and touches nothing but
/// the location table and its counter.
pub proof fn lemma_insert_location_step(db: DbView, lv: LocationView)
    requires
        db.wf(),
    ensures
        ({
            let (db2, res) = spec_insert_location(db, lv);
            &&& db2.wf()
            &&& db.next_location_id <= db2.next_location_id <= db.next_location_id + 1
            &&& db2.locations.len() == db.locations.len() + (if res is Some {
                1int
            } else {
                0int
            })
            &&& (res is Some ==> res.unwrap() == db.next_location_id && db2.next_location_id == db.next_location_id
                + 1 && db2.locations[db.locations.len() as int].id == res.unwrap())
            &&& (res is None ==> db2 == db)
            &&& (forall|k: int|
                0 <= k < db.locations.len() ==> (#[trigger] db2.locations[k])
                    == db.locations[k])
            &&& db2.directories == db.directories
            &&& db2.tracks == db.tracks
            &&& db2.crates == db.crates
            &&& db2.crate_tracks == db.crate_tracks
            &&& db2.next_track_id == db.next_track_id
            &&& db2.next_crate_id == db.next_crate_id
        }),
{
    let (db2, res) = spec_insert_location(db, lv);
    if res is Some {
        let pushed = db2.locations;
        assert(forall|i: int|
            0 <= i < db.locations.len() ==> pushed[i] == (#[trigger] db.locations[i]));
        assert(pushed[db.locations.len() as int].id == db.next_location_id);
    }
}

/// The shape of a finished location copy: well-formedness is kept, the
/// table grows by exactly one row per recorded entry, the recorded new
/// ids are fresh and strictly increasing — so pairwise distinct — and
/// nothing else in the database moves.
pub proof fn lemma_insert_locations_props(
    db: DbView,
    locs: Seq<LocationView>,
    table: Option<Seq<(Seq<char>, Seq<char>)>>,
    n: int,
)
    requires
        db.wf(),
        0 <= n <= locs.len(),
    ensures
        ({
            let (dbf, m) = spec_insert_locations(db, locs, table, n);
            &&& dbf.wf()
            &&& db.next_location_id <= dbf.next_location_id <= db.next_location_id + n
            &&& dbf.locations.len() == db.locations.len() + m.len()
            &&& (forall|i: int|
                0 <= i < m.len() ==> db.next_location_id <= (#[trigger] m[i]).1
                    < dbf.next_location_id)
            &&& (forall|i: int, j: int| 0 <= i < j < m.len() ==> m[i].1 < m[j].1)
            &&& (forall|k: int|
                0 <= k < db.locations.len() ==> (#[trigger] dbf.locations[k])
                    == db.locations[k])
            &&& (forall|k: int|
                0 <= k < m.len() ==> (#[trigger] dbf.locations[db.locations.len() + k]).id == (
                #[trigger] m[k]).1)
            &&& dbf.directories == db.directories
            &&& dbf.tracks == db.tracks
            &&& dbf.crates == db.crates
            &&& dbf.crate_tracks == db.crate_tracks
            &&& dbf.next_track_id == db.next_track_id
            &&& dbf.next_crate_id == db.next_crate_id
        }),
    decreases n,
{
    if n > 0 {
        lemma_insert_locations_props(db, locs, table, n - 1);
        let (db1, m1) = spec_insert_locations(db, locs, table, n - 1);
        let lv = spec_apply_table(locs[n - 1], table);
        lemma_insert_location_step(db1, lv);
        let (dbf, m) = spec_insert_locations(db, locs, table, n);
        assert forall|k: int|
            0 <= k < m.len() implies (#[trigger] dbf.locations[db.locations.len() + k]).id == (
            #[trigger] m[k]).1 by {
            if k < m1.len() {
                assert(db1.locations[db.locations.len() + k].id == m1[k].1);
            } else {
                assert(dbf.locations[db1.locations.len() as int].id == m[k].1);
            }
        }
    }
}

/// The location remap map holds exactly one entry per row the copy
/// added to the target: the table grows by the map's size, the k-th
/// entry records the id of the k-th appended row, and the recorded new
/// ids are pairwise distinct.
pub proof fn lemma_location_map_exact(
    db: DbView,
    locs: Seq<LocationView>,
    table: Option<Seq<(Seq<char>, Seq<char>)>>,
)
    requires
        db.wf(),
    ensures
        ({
            let (dbf, m) = spec_insert_locations(db, locs, table, locs.len() as int);
            &&& dbf.locations.len() == db.locations.len() + m.len()
            &&& (forall|k: int|
                0 <= k < m.len() ==> (#[trigger] dbf.locations[db.locations.len() + k]).id == (
                #[trigger] m[k]).1)
            &&& (forall|i: int, j: int| 0 <= i < j < m.len() ==> (#[trigger] m[i]).1 != (
            #[trigger] m[j]).1)
        }),
{
    lemma_insert_locations_props(db, locs, table, locs.len() as int);
}

/// Transforms one source row through the remap table before insertion:
/// path and directory are substituted independently.
pub fn transform_location(model: Location, directory_map: &RemapTable) -> (r: Location)
    ensures
        r@ == spec_transform_location(model@, directory_map@),
{
    match (&model.location, &model.directory) {
        (Some(l), Some(d)) => {
            let nl = directory_map.substitute(l.as_str());
            let nd = directory_map.substitute(d.as_str());
            Location { id: model.id, location: Some(nl), directory: Some(nd) }
        },
        _ => model,
    }
}

/// Whether some row of the table already holds exactly the path `p`.
fn has_path(locations: &Vec<Location>, p: &Option<String>) -> (r: bool)
    ensures
        r == spec_has_path(
            views(locations@),
            match p {
                Some(s) => Some(s@),
                None => None,
            },
        ),
{
    let ghost lvs = views(locations@);
    let ghost pv = match p {
        Some(s) => Some(s@),
        None => None,
    };
    let mut i: usize = 0;
    while i < locations.len()
        invariant
            i <= locations@.len(),
            lvs == views(locations@),
            pv == (match p {
                Some(s) => Some(s@),
                None => None,
            }),
            forall|j: int| 0 <= j < i ==> (#[trigger] lvs[j]).location != pv,
        decreases locations@.len() - i,
    {
        assert(lvs[i as int] == locations@[i as int]@);
        let matches_here = match (&locations[i].location, p) {
            (Some(a), Some(b)) => str_eq(a.as_str(), b.as_str()),
            (None, None) => true,
            _ => false,
        };
        if matches_here {
            assert(lvs[i as int].location == pv);
            return true;
        }
        i += 1;
    }
    false
}

/// Copies source location rows into the target, applying the remap
/// table when one was built, skipping rows the target refuses, and
/// recording one old-id to new-id entry per row actually inserted.
pub fn insert(
    db: &mut TargetDatabase,
    locations: Vec<Location>,
    directory_map: Option<&RemapTable>,
) -> (map: IdMap)
    requires
        old(db)@.wf(),
    ensures
        ({
            let (dbf, entries) = spec_insert_locations(
                old(db)@,
                views(locations@),
                match directory_map {
                    Some(t) => Some(t@),
                    None => None,
                },
                locations@.len() as int,
            );
            &&& final(db)@ == dbf
            &&& map@ == entries
            &&& final(db)@.wf()
        }),
{
    let ghost lvs = views(locations@);
    let ghost tv: Option<Seq<(Seq<char>, Seq<char>)>> = match directory_map {
        Some(t) => Some(t@),
        None => None,
    };
    let mut map = IdMap::new();
    let mut i: usize = 0;
    while i < locations.len()
        invariant
            old(db)@.wf(),
            i <= locations@.len(),
            lvs == views(locations@),
            lvs.len() == locations@.len(),
            tv == (match directory_map {
                Some(t) => Some(t@),
                None => None,
            }),
            ({
                let (dbi, mi) = spec_insert_locations(old(db)@, lvs, tv, i as int);
                db@ == dbi && map@ == mi
            }),
            db@.wf(),
        decreases locations@.len() - i,
    {
        assert(lvs[i as int] == locations@[i as int]@);
        let prev_id = locations[i].id;
        let row = locations[i].clone();
        let data = match directory_map {
            Some(t) => transform_location(row, t),
            None => row,
        };
        assert(data@ == spec_apply_table(lvs[i as int], tv));
        proof {
            lemma_insert_location_step(db@, data@);
        }
        let refused = db.next_location_id == i32::MAX || (match &data.location {
            Some(_) => has_path(&db.locations, &data.location),
            None => false,
        });
        if !refused {
            let new_id = db.next_location_id;
            let inserted = Location { id: new_id, location: data.location, directory: data.directory };
            let ghost pre_locs = db@.locations;
            db.locations.push(inserted);
            db.next_location_id = new_id + 1;
            map.insert(prev_id, new_id);
            assert(db@.locations =~= pre_locs.push(LocationView {
                id: new_id as int,
                ..spec_apply_table(lvs[i as int], tv)
            }));
        }
        i += 1;
        proof {
            let (dbi, mi) = spec_insert_locations(old(db)@, lvs, tv, i as int);
            assert(db@ == dbi);
            assert(map@ == mi);
        }
    }
    proof {
        lemma_insert_locations_props(old(db)@, lvs, tv, lvs.len() as int);
    }
    map
}

} // verus!
