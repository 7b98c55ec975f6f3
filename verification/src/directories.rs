//! Copying directory rows into the target. A directory is identified by
//! its path string: the remap table is consulted by exact match (an
//! absent or empty replacement means "keep unchanged"), and a directory
//! already present in the target is skipped, not fatal.

use vstd::prelude::*;

use crate::database::DbView;
use crate::database::TargetDatabase;
use crate::remap::RemapTable;
use crate::remap::spec_exact_lookup;
use crate::schema::Directory;
use crate::schema::views;
use crate::text::str_eq;

verus! {

/// The path a source directory is stored under: its replacement when
/// the table names it exactly, otherwise itself.
pub open spec fn spec_directory_value(
    d: Seq<char>,
    table: Option<Seq<(Seq<char>, Seq<char>)>>,
) -> Seq<char> {
    match table {
        Some(t) => match spec_exact_lookup(t, d) {
            Some(v) => v,
            None => d,
        },
        None => d,
    }
}

/// One directory inserted; a duplicate path is skipped.
pub open spec fn spec_insert_directory(db: DbView, d: Seq<char>) -> DbView {
    if exists|i: int| 0 <= i < db.directories.len() && (#[trigger] db.directories[i]) == d {
        db
    } else {
        DbView { directories: db.directories.push(d), ..db }
    }
}

/// The database after the first `n` source directories are copied.
pub open spec fn spec_insert_directories(
    db: DbView,
    dirs: Seq<Seq<char>>,
    table: Option<Seq<(Seq<char>, Seq<char>)>>,
    n: int,
) -> DbView
    decreases n,
{
    if n <= 0 {
        db
    } else {
        let db1 = spec_insert_directories(db, dirs, table, n - 1);
        spec_insert_directory(db1, spec_directory_value(dirs[n - 1], table))
    }
}

/// Copying directories preserves well-formedness and touches nothing
/// but the directory table.
pub proof fn lemma_insert_directories_props(
    db: DbView,
    dirs: Seq<Seq<char>>,
    table: Option<Seq<(Seq<char>, Seq<char>)>>,
    n: int,
)
    requires
        db.wf(),
        0 <= n <= dirs.len(),
    ensures
        ({
            let dbf = spec_insert_directories(db, dirs, table, n);
            &&& dbf.wf()
            &&& dbf.locations == db.locations
            &&& dbf.tracks == db.tracks
            &&& dbf.crates == db.crates
            &&& dbf.crate_tracks == db.crate_tracks
            &&& dbf.next_location_id == db.next_location_id
            &&& dbf.next_track_id == db.next_track_id
            &&& dbf.next_crate_id == db.next_crate_id
        }),
    decreases n,
{
    if n > 0 {
        lemma_insert_directories_props(db, dirs, table, n - 1);
        let db1 = spec_insert_directories(db, dirs, table, n - 1);
        let d = spec_directory_value(dirs[n - 1], table);
        if !(exists|i: int| 0 <= i < db1.directories.len() && (#[trigger] db1.directories[i])
            == d) {
            let pushed = db1.directories.push(d);
            assert(forall|i: int|
                0 <= i < db1.directories.len() ==> pushed[i] == (#[trigger] db1.directories[i]));
        }
    }
}

/// Whether `d` is already a directory of the target.
fn has_directory(directories: &Vec<Directory>, d: &str) -> (r: bool)
    ensures
        r == exists|i: int|
            0 <= i < views(directories@).len() && (#[trigger] views(directories@)[i]) == d@,
{
    let ghost dvs = views(directories@);
    let mut i: usize = 0;
    while i < directories.len()
        invariant
            i <= directories@.len(),
            dvs == views(directories@),
            forall|j: int| 0 <= j < i ==> (#[trigger] dvs[j]) != d@,
        decreases directories@.len() - i,
    {
        assert(dvs[i as int] == directories@[i as int]@);
        if str_eq(directories[i].directory.as_str(), d) {
            assert(dvs[i as int] == d@);
            return true;
        }
        i += 1;
    }
    false
}

/// Copies source directory rows into the target, applying the remap
/// table by exact match and skipping directories the target already
/// holds.
pub fn insert(
    db: &mut TargetDatabase,
    directories: &Vec<Directory>,
    directory_map: Option<&RemapTable>,
)
    requires
        old(db)@.wf(),
    ensures
        final(db)@ == spec_insert_directories(
            old(db)@,
            views(directories@),
            match directory_map {
                Some(t) => Some(t@),
                None => None,
            },
            directories@.len() as int,
        ),
        final(db)@.wf(),
{
    let ghost dvs = views(directories@);
    let ghost tv: Option<Seq<(Seq<char>, Seq<char>)>> = match directory_map {
        Some(t) => Some(t@),
        None => None,
    };
    let mut i: usize = 0;
    while i < directories.len()
        invariant
            old(db)@.wf(),
            i <= directories@.len(),
            dvs == views(directories@),
            dvs.len() == directories@.len(),
            tv == (match directory_map {
                Some(t) => Some(t@),
                None => None,
            }),
            db@ == spec_insert_directories(old(db)@, dvs, tv, i as int),
            db@.wf(),
        decreases directories@.len() - i,
    {
        assert(dvs[i as int] == directories@[i as int]@);
        let value: String = match directory_map {
            Some(t) => match t.lookup_exact(directories[i].directory.as_str()) {
                Some(v) => v,
                None => directories[i].directory.clone(),
            },
            None => directories[i].directory.clone(),
        };
        assert(value@ == spec_directory_value(dvs[i as int], tv));
        if !has_directory(&db.directories, value.as_str()) {
            let ghost pre_dirs = db@.directories;
            db.directories.push(Directory { directory: value });
            assert(db@.directories =~= pre_dirs.push(spec_directory_value(dvs[i as int], tv)));
        }
        i += 1;
        proof {
            lemma_insert_directories_props(old(db)@, dvs, tv, i as int);
            assert(db@ == spec_insert_directories(old(db)@, dvs, tv, i as int));
        }
    }
}

} // verus!
