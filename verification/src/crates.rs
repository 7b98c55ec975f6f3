//! The crate reconciliation engine: get-or-create a crate by exact
//! name, clear its whole membership set exactly once per run, then
//! connect every track reached from a resolved path, with duplicate
//! connections silently ignored. The per-run set of already-cleared
//! crate ids is an explicit value owned by the calling operation, never
//! a process-wide singleton.

use vstd::prelude::*;

use crate::database::DbView;
use crate::database::TargetDatabase;
use crate::schema::Crate;
use crate::schema::CrateTrack;
use crate::schema::CrateView;
use crate::schema::views;
use crate::text::str_eq;
use crate::tracks::get_by_location;
use crate::tracks::spec_get_by_location;

verus! {

/// The id of the first crate with exactly the name `name`.
pub open spec fn spec_find_crate(crates: Seq<CrateView>, name: Seq<char>) -> Option<int>
    decreases crates.len(),
{
    if crates.len() == 0 {
        None
    } else if crates[0].name == name {
        Some(crates[0].id)
    } else {
        spec_find_crate(crates.drop_first(), name)
    }
}

/// The first crate with identity `id`.
pub open spec fn spec_find_crate_by_id(crates: Seq<CrateView>, id: int) -> Option<CrateView>
    decreases crates.len(),
{
    if crates.len() == 0 {
        None
    } else if crates[0].id == id {
        Some(crates[0])
    } else {
        spec_find_crate_by_id(crates.drop_first(), id)
    }
}

/// What a name lookup says about the table: a missing name is missing
/// from every row, a found id belongs to a row carrying the name.
pub proof fn lemma_find_crate_props(crates: Seq<CrateView>, name: Seq<char>)
    ensures
        match spec_find_crate(crates, name) {
            None => forall|i: int| 0 <= i < crates.len() ==> (#[trigger] crates[i]).name != name,
            Some(id) => exists|i: int|
                0 <= i < crates.len() && (#[trigger] crates[i]).id == id && crates[i].name == name,
        },
    decreases crates.len(),
{
    if crates.len() > 0 {
        let rest = crates.drop_first();
        lemma_find_crate_props(rest, name);
        assert(forall|i: int| 0 <= i < rest.len() ==> (#[trigger] rest[i]) == crates[i + 1]);
        if crates[0].name == name {
            let id = crates[0].id;
            assert(exists|i: int|
                0 <= i < crates.len() && (#[trigger] crates[i]).id == id && crates[i].name
                    == name) by {
                assert(crates[0].id == id && crates[0].name == name);
            }
        } else {
            match spec_find_crate(rest, name) {
                None => {
                    assert forall|i: int|
                        0 <= i < crates.len() implies (#[trigger] crates[i]).name != name by {
                        if i > 0 {
                            assert(rest[i - 1] == crates[i]);
                            assert(rest[i - 1].name != name);
                        }
                    }
                },
                Some(id) => {
                    let i = choose|i: int|
                        0 <= i < rest.len() && (#[trigger] rest[i]).id == id && rest[i].name
                            == name;
                    assert(exists|j: int|
                        0 <= j < crates.len() && (#[trigger] crates[j]).id == id && crates[j].name
                            == name) by {
                        assert(crates[i + 1].id == id && crates[i + 1].name == name);
                    }
                },
            }
        }
    }
}

/// Appending a crate with a new name leaves it findable under that
/// name when the name was absent before.
pub proof fn lemma_find_crate_push(crates: Seq<CrateView>, c: CrateView)
    requires
        spec_find_crate(crates, c.name) is None,
    ensures
        spec_find_crate(crates.push(c), c.name) == Some(c.id),
    decreases crates.len(),
{
    if crates.len() == 0 {
        assert(crates.push(c)[0] == c);
    } else {
        assert(crates.push(c)[0] == crates[0]);
        assert(crates.push(c).drop_first() =~= crates.drop_first().push(c));
        lemma_find_crate_push(crates.drop_first(), c);
    }
}

/// Get-or-create by exact name: an existing crate's id is returned and
/// nothing changes; otherwise a crate with a fresh id is appended. No
/// id is handed out when none is left.
pub open spec fn spec_get_or_create(db: DbView, name: Seq<char>) -> (DbView, Option<int>) {
    match spec_find_crate(db.crates, name) {
        Some(id) => (db, Some(id)),
        None => {
            if db.next_crate_id >= i32::MAX as int {
                (db, None)
            } else {
                (
                    DbView {
                        crates: db.crates.push(CrateView { id: db.next_crate_id, name: name }),
                        next_crate_id: db.next_crate_id + 1,
                        ..db
                    },
                    Some(db.next_crate_id),
                )
            }
        },
    }
}

/// Get-or-create keeps the database well formed, changes nothing but
/// possibly the crate table, and leaves the name findable under the
/// returned id.
pub proof fn lemma_get_or_create_props(db: DbView, name: Seq<char>)
    requires
        db.wf(),
    ensures
        ({
            let (db1, res) = spec_get_or_create(db, name);
            &&& db1.wf()
            &&& db1.directories == db.directories
            &&& db1.locations == db.locations
            &&& db1.tracks == db.tracks
            &&& db1.crate_tracks == db.crate_tracks
            &&& db1.next_location_id == db.next_location_id
            &&& db1.next_track_id == db.next_track_id
            &&& (res is None ==> db1 == db)
            &&& (res is Some ==> spec_find_crate(db1.crates, name) == res)
        }),
{
    let (db1, res) = spec_get_or_create(db, name);
    lemma_find_crate_props(db.crates, name);
    if spec_find_crate(db.crates, name) is None && db.next_crate_id < i32::MAX as int {
        let c = CrateView { id: db.next_crate_id, name: name };
        lemma_find_crate_push(db.crates, c);
        assert(forall|i: int|
            0 <= i < db.crates.len() ==> db1.crates[i] == (#[trigger] db.crates[i]));
        assert(db1.crates[db.crates.len() as int] == c);
    }
}

/// The membership rows that survive clearing the crate `crate_id`.
pub open spec fn keep_other(crate_id: int) -> spec_fn((int, int)) -> bool {
    |ct: (int, int)| ct.0 != crate_id
}

/// All membership rows of one crate removed.
pub open spec fn spec_clear_tracks(db: DbView, crate_id: int) -> DbView {
    DbView { crate_tracks: db.crate_tracks.filter(keep_other(crate_id)), ..db }
}

/// A filtered sequence keeps only elements of the original that satisfy
/// the predicate, and keeps pairwise-distinct elements distinct.
pub proof fn lemma_filter_distinct<A>(s: Seq<A>, pred: spec_fn(A) -> bool)
    requires
        forall|i: int, j: int| 0 <= i < j < s.len() ==> s[i] != s[j],
    ensures
        forall|i: int, j: int|
            0 <= i < j < s.filter(pred).len() ==> s.filter(pred)[i] != s.filter(pred)[j],
        forall|x: A| s.filter(pred).contains(x) ==> s.contains(x) && pred(x),
    decreases s.len(),
{
    reveal(Seq::filter);
    if s.len() > 0 {
        let dl = s.drop_last();
        assert(forall|i: int| 0 <= i < dl.len() ==> (#[trigger] dl[i]) == s[i]);
        lemma_filter_distinct(dl, pred);
        let sub = dl.filter(pred);
        let out = s.filter(pred);
        assert forall|x: A| sub.contains(x) implies s.contains(x) by {
            assert(dl.contains(x));
            let j = choose|j: int| 0 <= j < dl.len() && dl[j] == x;
            assert(dl[j] == s[j]);
            assert(s[j] == x);
        }
        if pred(s.last()) {
            assert(out == sub.push(s.last()));
            assert(forall|k: int| 0 <= k < sub.len() ==> (#[trigger] out[k]) == sub[k]);
            assert(out[sub.len() as int] == s.last());
            assert forall|x: A| out.contains(x) implies s.contains(x) && pred(x) by {
                let k = choose|k: int| 0 <= k < out.len() && out[k] == x;
                if k < sub.len() {
                    assert(sub[k] == x);
                    assert(sub.contains(x));
                } else {
                    assert(x == s.last());
                    assert(s[s.len() - 1] == x);
                    assert(s.contains(x));
                }
            }
            assert forall|i: int, j: int| 0 <= i < j < out.len() implies out[i] != out[j] by {
                if j == out.len() - 1 {
                    if out[i] == s.last() {
                        assert(sub[i] == s.last());
                        assert(sub.contains(s.last()));
                        assert(dl.contains(s.last()));
                        let k = choose|k: int| 0 <= k < dl.len() && dl[k] == s.last();
                        assert(s[k] == s[s.len() - 1]);
                        assert(false);
                    }
                } else {
                    assert(out[i] == sub[i] && out[j] == sub[j]);
                }
            }
        } else {
            assert(out == sub);
            assert forall|x: A| out.contains(x) implies s.contains(x) && pred(x) by {
                assert(sub.contains(x));
            }
        }
    }
}

/// Clearing a crate's memberships keeps the database well formed,
/// removes every membership of that crate and none of any other.
pub proof fn lemma_clear_tracks_props(db: DbView, crate_id: int)
    requires
        db.wf(),
    ensures
        ({
            let db1 = spec_clear_tracks(db, crate_id);
            &&& db1.wf()
            &&& db1.directories == db.directories
            &&& db1.locations == db.locations
            &&& db1.tracks == db.tracks
            &&& db1.crates == db.crates
            &&& db1.next_location_id == db.next_location_id
            &&& db1.next_track_id == db.next_track_id
            &&& db1.next_crate_id == db.next_crate_id
            &&& forall|x: (int, int)|
                db1.crate_tracks.contains(x) ==> db.crate_tracks.contains(x) && x.0 != crate_id
        }),
{
    let pred = keep_other(crate_id);
    lemma_filter_distinct(db.crate_tracks, pred);
    assert(forall|x: (int, int)| #[trigger] pred(x) ==> x.0 != crate_id);
}

/// Whether the membership pair (`c`, `t`) is already recorded.
pub open spec fn spec_has_pair(cts: Seq<(int, int)>, c: int, t: int) -> bool {
    cts.contains((c, t))
}

/// One membership connection with insert-or-ignore semantics: an
/// existing pair is left alone, a new one is appended.
pub open spec fn spec_connect_track(db: DbView, c: int, t: int) -> DbView {
    if spec_has_pair(db.crate_tracks, c, t) {
        db
    } else {
        DbView { crate_tracks: db.crate_tracks.push((c, t)), ..db }
    }
}

/// Connecting one membership keeps the database well formed and only
/// ever appends the one pair.
pub proof fn lemma_connect_track_props(db: DbView, c: int, t: int)
    requires
        db.wf(),
    ensures
        ({
            let db1 = spec_connect_track(db, c, t);
            &&& db1.wf()
            &&& db1.directories == db.directories
            &&& db1.locations == db.locations
            &&& db1.tracks == db.tracks
            &&& db1.crates == db.crates
            &&& db1.next_location_id == db.next_location_id
            &&& db1.next_track_id == db.next_track_id
            &&& db1.next_crate_id == db.next_crate_id
            &&& db.crate_tracks.len() <= db1.crate_tracks.len() <= db.crate_tracks.len() + 1
            &&& (forall|k: int|
                0 <= k < db.crate_tracks.len() ==> (#[trigger] db1.crate_tracks[k])
                    == db.crate_tracks[k])
            &&& (forall|k: int|
                db.crate_tracks.len() <= k < db1.crate_tracks.len()
                    ==> (#[trigger] db1.crate_tracks[k]) == (c, t))
            &&& db1.crate_tracks.contains((c, t))
        }),
{
    let db1 = spec_connect_track(db, c, t);
    if !spec_has_pair(db.crate_tracks, c, t) {
        let pushed = db.crate_tracks.push((c, t));
        assert(forall|i: int|
            0 <= i < db.crate_tracks.len() ==> pushed[i] == (#[trigger] db.crate_tracks[i]));
        assert(pushed[db.crate_tracks.len() as int] == (c, t));
        assert forall|i: int, j: int| 0 <= i < j < pushed.len() implies pushed[i] != pushed[j] by {
            if j == pushed.len() - 1 {
                if pushed[i] == (c, t) {
                    assert(db.crate_tracks.contains((c, t)));
                }
            }
        }
    }
}

/// The first crate with identity `id`, if any.
pub fn get_by_id(db: &TargetDatabase, id: i32) -> (r: Option<Crate>)
    ensures
        (match r {
            Some(c) => Some(c@),
            None => None,
        }) == spec_find_crate_by_id(views(db.crates@), id as int),
{
    let ghost cvs = views(db.crates@);
    let n = db.crates.len();
    assert(cvs.subrange(0, n as int) =~= cvs);
    let mut i: usize = 0;
    while i < n
        invariant
            n == db.crates@.len(),
            cvs == views(db.crates@),
            cvs.len() == n,
            i <= n,
            spec_find_crate_by_id(cvs, id as int) == spec_find_crate_by_id(
                cvs.subrange(i as int, n as int),
                id as int,
            ),
        decreases n - i,
    {
        let ghost pre_sub = cvs.subrange(i as int, n as int);
        assert(pre_sub[0] == cvs[i as int]);
        assert(cvs[i as int] == db.crates@[i as int]@);
        if db.crates[i].id == id {
            return Some(db.crates[i].clone());
        }
        i += 1;
        proof {
            assert(pre_sub.drop_first() =~= cvs.subrange(i as int, n as int));
        }
    }
    assert(cvs.subrange(n as int, n as int) =~= Seq::<CrateView>::empty());
    None
}

/// The id of the first crate named exactly `name`, if any.
fn find_crate(crates: &Vec<Crate>, name: &str) -> (r: Option<i32>)
    ensures
        (match r {
            Some(id) => Some(id as int),
            None => None,
        }) == spec_find_crate(views(crates@), name@),
{
    let ghost cvs = views(crates@);
    let n = crates.len();
    assert(cvs.subrange(0, n as int) =~= cvs);
    let mut i: usize = 0;
    while i < n
        invariant
            n == crates@.len(),
            cvs == views(crates@),
            cvs.len() == n,
            i <= n,
            spec_find_crate(cvs, name@) == spec_find_crate(cvs.subrange(i as int, n as int), name@),
        decreases n - i,
    {
        let ghost pre_sub = cvs.subrange(i as int, n as int);
        assert(pre_sub[0] == cvs[i as int]);
        assert(cvs[i as int] == crates@[i as int]@);
        if str_eq(crates[i].name.as_str(), name) {
            return Some(crates[i].id);
        }
        i += 1;
        proof {
            assert(pre_sub.drop_first() =~= cvs.subrange(i as int, n as int));
        }
    }
    assert(cvs.subrange(n as int, n as int) =~= Seq::<CrateView>::empty());
    None
}

/// Looks a crate up by exact name, creating it with a fresh id on first
/// reference. `None` comes back only when the crate is missing and no
/// fresh id is left to create it.
pub fn get_by_name_or_create(db: &mut TargetDatabase, name: &str) -> (r: Option<i32>)
    requires
        old(db)@.wf(),
    ensures
        ({
            let (dbf, res) = spec_get_or_create(old(db)@, name@);
            &&& final(db)@ == dbf
            &&& (match r {
                Some(id) => Some(id as int),
                None => None,
            }) == res
            &&& final(db)@.wf()
        }),
{
    proof {
        lemma_get_or_create_props(old(db)@, name@);
    }
    match find_crate(&db.crates, name) {
        Some(id) => Some(id),
        None => {
            if db.next_crate_id == i32::MAX {
                None
            } else {
                let id = db.next_crate_id;
                let ghost pre_crates = db@.crates;
                db.crates.push(Crate { id: id, name: name.to_owned() });
                db.next_crate_id = id + 1;
                assert(db@.crates =~= pre_crates.push(CrateView { id: id as int, name: name@ }));
                Some(id)
            }
        },
    }
}

/// Removes every membership row of the crate `crate_id`.
pub fn clear_tracks(db: &mut TargetDatabase, crate_id: i32)
    requires
        old(db)@.wf(),
    ensures
        final(db)@ == spec_clear_tracks(old(db)@, crate_id as int),
        final(db)@.wf(),
{
    proof {
        lemma_clear_tracks_props(old(db)@, crate_id as int);
    }
    let ghost base = old(db)@.crate_tracks;
    let ghost pred = keep_other(crate_id as int);
    let mut kept: Vec<CrateTrack> = Vec::new();
    assert(views(kept@) =~= Seq::<(int, int)>::empty());
    proof {
        reveal(Seq::filter);
        assert(base.subrange(0, 0) =~= Seq::<(int, int)>::empty());
    }
    let n = db.crate_tracks.len();
    let mut i: usize = 0;
    while i < n
        invariant
            n == db.crate_tracks@.len(),
            base == views(db.crate_tracks@),
            base.len() == n,
            pred == keep_other(crate_id as int),
            i <= n,
            views(kept@) == base.subrange(0, i as int).filter(pred),
        decreases n - i,
    {
        proof {
            reveal(Seq::filter);
        }
        let ghost pre_kept = views(kept@);
        assert(base[i as int] == db.crate_tracks@[i as int]@);
        if db.crate_tracks[i].crate_id != crate_id {
            kept.push(db.crate_tracks[i].clone());
            assert(views(kept@) =~= pre_kept.push(base[i as int]));
        }
        i += 1;
        proof {
            reveal(Seq::filter);
            let sub = base.subrange(0, i as int);
            assert(sub.drop_last() =~= base.subrange(0, i - 1));
            assert(sub.last() == base[i - 1]);
            assert(pred(sub.last()) == (sub.last().0 != crate_id as int));
            assert(views(kept@) == sub.filter(pred));
        }
    }
    assert(base.subrange(0, n as int) =~= base);
    db.crate_tracks = kept;
}

/// Connects one track to one crate with insert-or-ignore semantics:
/// returns whether a new membership row was added.
pub fn connect_track(db: &mut TargetDatabase, crate_id: i32, track_id: i32) -> (r: bool)
    requires
        old(db)@.wf(),
    ensures
        final(db)@ == spec_connect_track(old(db)@, crate_id as int, track_id as int),
        r == !spec_has_pair(old(db)@.crate_tracks, crate_id as int, track_id as int),
        final(db)@.wf(),
{
    proof {
        lemma_connect_track_props(old(db)@, crate_id as int, track_id as int);
    }
    let ghost cts = old(db)@.crate_tracks;
    let n = db.crate_tracks.len();
    let mut i: usize = 0;
    while i < n
        invariant
            old(db)@.wf(),
            n == db.crate_tracks@.len(),
            cts == views(db.crate_tracks@),
            cts.len() == n,
            i <= n,
            db == old(db),
            forall|j: int| 0 <= j < i ==> (#[trigger] cts[j]) != (crate_id as int, track_id as int),
        decreases n - i,
    {
        assert(cts[i as int] == db.crate_tracks@[i as int]@);
        if db.crate_tracks[i].crate_id == crate_id && db.crate_tracks[i].track_id == track_id {
            assert(spec_has_pair(cts, crate_id as int, track_id as int));
            return false;
        }
        i += 1;
    }
    assert(!spec_has_pair(cts, crate_id as int, track_id as int));
    let ghost pre = db@.crate_tracks;
    db.crate_tracks.push(CrateTrack { crate_id: crate_id, track_id: track_id });
    assert(db@.crate_tracks =~= pre.push((crate_id as int, track_id as int)));
    true
}

/// One path connected: the track reached from the resolved path, if
/// any, is connected to the crate; an unresolvable path changes
/// nothing.
pub open spec fn spec_connect_path(db: DbView, crate_id: int, p: Seq<char>) -> DbView {
    match spec_get_by_location(db, p) {
        None => db,
        Some(t) => spec_connect_track(db, crate_id, t.id),
    }
}

/// The first `n` resolved paths connected, in order.
pub open spec fn spec_connect_paths(
    db: DbView,
    crate_id: int,
    paths: Seq<Seq<char>>,
    n: int,
) -> DbView
    decreases n,
{
    if n <= 0 {
        db
    } else {
        spec_connect_path(spec_connect_paths(db, crate_id, paths, n - 1), crate_id, paths[n - 1])
    }
}

/// The id of the track a resolved path reaches, if any.
pub open spec fn spec_path_track_id(db: DbView, p: Seq<char>) -> Option<int> {
    match spec_get_by_location(db, p) {
        None => None,
        Some(t) => Some(t.id),
    }
}

/// Connecting a run of paths keeps the database well formed, only ever
/// appends membership rows of this one crate, and touches nothing else.
pub proof fn lemma_connect_paths_props(db: DbView, crate_id: int, paths: Seq<Seq<char>>, n: int)
    requires
        db.wf(),
        0 <= n <= paths.len(),
    ensures
        ({
            let dbf = spec_connect_paths(db, crate_id, paths, n);
            &&& dbf.wf()
            &&& dbf.directories == db.directories
            &&& dbf.locations == db.locations
            &&& dbf.tracks == db.tracks
            &&& dbf.crates == db.crates
            &&& dbf.next_location_id == db.next_location_id
            &&& dbf.next_track_id == db.next_track_id
            &&& dbf.next_crate_id == db.next_crate_id
            &&& db.crate_tracks.len() <= dbf.crate_tracks.len()
            &&& (forall|k: int|
                0 <= k < db.crate_tracks.len() ==> (#[trigger] dbf.crate_tracks[k])
                    == db.crate_tracks[k])
            &&& (forall|k: int|
                db.crate_tracks.len() <= k < dbf.crate_tracks.len()
                    ==> (#[trigger] dbf.crate_tracks[k]).0 == crate_id)
        }),
    decreases n,
{
    if n > 0 {
        lemma_connect_paths_props(db, crate_id, paths, n - 1);
        let db1 = spec_connect_paths(db, crate_id, paths, n - 1);
        match spec_get_by_location(db1, paths[n - 1]) {
            None => {},
            Some(t) => {
                lemma_connect_track_props(db1, crate_id, t.id);
            },
        }
    }
}

/// What one crate's membership set is after a run of connections: a
/// pair of this crate is there exactly when it was there before or some
/// connected path reaches its track; every other crate's memberships
/// are untouched.
pub proof fn lemma_connect_paths_membership(
    db: DbView,
    crate_id: int,
    paths: Seq<Seq<char>>,
    n: int,
)
    requires
        db.wf(),
        0 <= n <= paths.len(),
    ensures
        ({
            let dbf = spec_connect_paths(db, crate_id, paths, n);
            &&& (forall|t: int|
                dbf.crate_tracks.contains((crate_id, t)) <==> (db.crate_tracks.contains(
                    (crate_id, t),
                ) || exists|k: int|
                    0 <= k < n && spec_path_track_id(db, #[trigger] paths[k]) == Some(t)))
            &&& (forall|c: int, t: int|
                c != crate_id ==> (dbf.crate_tracks.contains((c, t)) <==> db.crate_tracks.contains(
                    (c, t),
                )))
        }),
    decreases n,
{
    if n > 0 {
        lemma_connect_paths_membership(db, crate_id, paths, n - 1);
        lemma_connect_paths_props(db, crate_id, paths, n - 1);
        let db1 = spec_connect_paths(db, crate_id, paths, n - 1);
        let dbf = spec_connect_paths(db, crate_id, paths, n);
        let p = paths[n - 1];
        assert(spec_get_by_location(db1, p) == spec_get_by_location(db, p));
        match spec_get_by_location(db1, p) {
            None => {
                assert(dbf == db1);
                assert forall|t: int|
                    dbf.crate_tracks.contains((crate_id, t)) implies (db.crate_tracks.contains(
                    (crate_id, t),
                ) || exists|k: int|
                    0 <= k < n && spec_path_track_id(db, #[trigger] paths[k]) == Some(t)) by {
                    assert(db1.crate_tracks.contains((crate_id, t)));
                }
            },
            Some(track) => {
                lemma_connect_track_props(db1, crate_id, track.id);
                assert forall|t: int|
                    dbf.crate_tracks.contains((crate_id, t)) implies (db.crate_tracks.contains(
                    (crate_id, t),
                ) || exists|k: int|
                    0 <= k < n && spec_path_track_id(db, #[trigger] paths[k]) == Some(t)) by {
                    let j = choose|j: int|
                        0 <= j < dbf.crate_tracks.len() && dbf.crate_tracks[j] == (crate_id, t);
                    if j < db1.crate_tracks.len() {
                        assert(db1.crate_tracks.contains((crate_id, t)));
                    } else {
                        assert(dbf.crate_tracks[j] == (crate_id, track.id));
                        assert(t == track.id);
                        assert(spec_path_track_id(db, p) == Some(t));
                        assert(0 <= n - 1 < n && spec_path_track_id(db, paths[n - 1]) == Some(t));
                    }
                }
                assert forall|t: int|
                    (db.crate_tracks.contains((crate_id, t)) || exists|k: int|
                        0 <= k < n && spec_path_track_id(db, #[trigger] paths[k]) == Some(
                            t,
                        )) implies dbf.crate_tracks.contains((crate_id, t)) by {
                    if db.crate_tracks.contains((crate_id, t)) || exists|k: int|
                        0 <= k < n - 1 && spec_path_track_id(db, #[trigger] paths[k]) == Some(t) {
                        assert(db1.crate_tracks.contains((crate_id, t)));
                        let j = choose|j: int|
                            0 <= j < db1.crate_tracks.len() && db1.crate_tracks[j] == (crate_id, t);
                        assert(dbf.crate_tracks[j] == (crate_id, t));
                        assert(dbf.crate_tracks.contains((crate_id, t)));
                    } else {
                        let k = choose|k: int|
                            0 <= k < n && spec_path_track_id(db, #[trigger] paths[k]) == Some(t);
                        assert(k == n - 1);
                        assert(t == track.id);
                        assert(dbf.crate_tracks.contains((crate_id, track.id)));
                    }
                }
                assert forall|c: int, t: int| c != crate_id implies (dbf.crate_tracks.contains(
                    (c, t),
                ) <==> db.crate_tracks.contains((c, t))) by {
                    assert(db1.crate_tracks.contains((c, t)) <==> db.crate_tracks.contains(
                        (c, t),
                    ));
                    if dbf.crate_tracks.contains((c, t)) {
                        let j = choose|j: int|
                            0 <= j < dbf.crate_tracks.len() && dbf.crate_tracks[j] == (c, t);
                        if j < db1.crate_tracks.len() {
                            assert(db1.crate_tracks.contains((c, t)));
                        } else {
                            assert(dbf.crate_tracks[j] == (crate_id, track.id));
                            assert(false);
                        }
                    }
                    if db1.crate_tracks.contains((c, t)) {
                        let j = choose|j: int|
                            0 <= j < db1.crate_tracks.len() && db1.crate_tracks[j] == (c, t);
                        assert(dbf.crate_tracks[j] == (c, t));
                        assert(dbf.crate_tracks.contains((c, t)));
                    }
                }
            },
        }
    }
}

/// The per-run set of crate ids whose membership was already cleared,
/// owned by one import operation and discarded with it.
pub struct ClearedSet {
    pub ids: Vec<i32>,
}

impl View for ClearedSet {
    type V = Seq<int>;

    open spec fn view(&self) -> Seq<int> {
        self.ids@.map_values(|id: i32| id as int)
    }
}

impl ClearedSet {
    /// No crate cleared yet.
    pub fn new() -> (r: ClearedSet)
        ensures
            r@ == Seq::<int>::empty(),
    {
        let r = ClearedSet { ids: Vec::new() };
        assert(r@ =~= Seq::<int>::empty());
        r
    }

    /// Whether this crate was already cleared in the current run.
    pub fn contains(&self, id: i32) -> (r: bool)
        ensures
            r == self@.contains(id as int),
    {
        let mut i: usize = 0;
        while i < self.ids.len()
            invariant
                i <= self.ids@.len(),
                self@.len() == self.ids@.len(),
                forall|j: int| 0 <= j < i ==> (#[trigger] self@[j]) != id as int,
            decreases self.ids@.len() - i,
        {
            assert(self@[i as int] == self.ids@[i as int] as int);
            if self.ids[i] == id {
                assert(self@.contains(id as int));
                return true;
            }
            i += 1;
        }
        false
    }

    /// Records that this crate's membership was cleared.
    pub fn insert(&mut self, id: i32)
        ensures
            final(self)@ == old(self)@.push(id as int),
    {
        let ghost pre = self@;
        self.ids.push(id);
        assert(self@ =~= pre.push(id as int));
    }
}

/// One crate reconciled: the crate is resolved or created by exact
/// name, its whole membership set is cleared unless this run cleared it
/// already, and every track reached from a resolved path is connected.
/// When the crate is missing and no fresh id is left, nothing happens.
pub open spec fn spec_reconcile(
    db: DbView,
    name: Seq<char>,
    paths: Seq<Seq<char>>,
    cleared: Seq<int>,
) -> (DbView, Seq<int>) {
    let (db1, res) = spec_get_or_create(db, name);
    match res {
        None => (db1, cleared),
        Some(id) => {
            let (db2, cleared2) = if cleared.contains(id) {
                (db1, cleared)
            } else {
                (spec_clear_tracks(db1, id), cleared.push(id))
            };
            (spec_connect_paths(db2, id, paths, paths.len() as int), cleared2)
        },
    }
}

/// Reconciles one crate against its resolved candidate paths, clearing
/// its previous membership exactly once per run.
pub fn reconcile(
    db: &mut TargetDatabase,
    crate_name: &str,
    paths: &Vec<String>,
    cleared: &mut ClearedSet,
)
    requires
        old(db)@.wf(),
    ensures
        ({
            let (dbf, cf) = spec_reconcile(old(db)@, crate_name@, views(paths@), old(cleared)@);
            &&& final(db)@ == dbf
            &&& final(cleared)@ == cf
            &&& final(db)@.wf()
        }),
{
    let id = match get_by_name_or_create(db, crate_name) {
        None => {
            return ;
        },
        Some(id) => id,
    };
    if !cleared.contains(id) {
        clear_tracks(db, id);
        cleared.insert(id);
    }
    let ghost db2v = db@;
    let ghost cfv = cleared@;
    let ghost pvs = views(paths@);
    let mut i: usize = 0;
    while i < paths.len()
        invariant
            db2v.wf(),
            i <= paths@.len(),
            pvs == views(paths@),
            pvs.len() == paths@.len(),
            db@ == spec_connect_paths(db2v, id as int, pvs, i as int),
            db@.wf(),
            cleared@ == cfv,
        decreases paths@.len() - i,
    {
        assert(pvs[i as int] == paths@[i as int]@);
        let _ = connect_track_by_location(db, id, paths[i].as_str());
        i += 1;
        proof {
            lemma_connect_paths_props(db2v, id as int, pvs, i as int);
        }
    }
}

/// Reconciling a crate twice with identical inputs leaves the database
/// exactly where the first run left it: the final membership set is
/// unchanged in size and content.
pub proof fn lemma_reconcile_idempotent(db: DbView, name: Seq<char>, paths: Seq<Seq<char>>)
    requires
        db.wf(),
    ensures
        ({
            let (db1, _) = spec_reconcile(db, name, paths, Seq::empty());
            let (db2, _) = spec_reconcile(db1, name, paths, Seq::empty());
            db2 == db1
        }),
{
    let n = paths.len() as int;
    let (dbgc, res) = spec_get_or_create(db, name);
    lemma_get_or_create_props(db, name);
    match res {
        None => {},
        Some(id) => {
            let cleared0 = Seq::<int>::empty();
            assert(!cleared0.contains(id));
            let dba = spec_clear_tracks(dbgc, id);
            lemma_clear_tracks_props(dbgc, id);
            let db1 = spec_connect_paths(dba, id, paths, n);
            lemma_connect_paths_props(dba, id, paths, n);
            // the second lookup finds the same crate, changing nothing
            assert(db1.crates == dbgc.crates);
            assert(spec_find_crate(db1.crates, name) == Some(id));
            let (dbgc2, res2) = spec_get_or_create(db1, name);
            assert(dbgc2 == db1 && res2 == Some(id));
            // the second clear rebuilds exactly the first cleared state
            let dba2 = spec_clear_tracks(db1, id);
            let pred = keep_other(id);
            let base = dba.crate_tracks;
            let suffix = db1.crate_tracks.subrange(base.len() as int, db1.crate_tracks.len() as int);
            assert(db1.crate_tracks =~= base + suffix);
            lemma_filter_all(base, pred);
            lemma_filter_none(suffix, pred);
            Seq::filter_distributes_over_add(base, suffix, pred);
            assert(dba2.crate_tracks == (base + suffix).filter(pred));
            assert(dba2.crate_tracks =~= base);
            assert(dba2 == dba);
            assert(spec_connect_paths(dba2, id, paths, n) == db1);
        },
    }
}

/// A sequence whose members all satisfy the predicate is left whole by
/// filtering.
proof fn lemma_filter_all<A>(s: Seq<A>, pred: spec_fn(A) -> bool)
    requires
        forall|i: int| 0 <= i < s.len() ==> pred(#[trigger] s[i]),
    ensures
        s.filter(pred) == s,
    decreases s.len(),
{
    reveal(Seq::filter);
    if s.len() > 0 {
        let dl = s.drop_last();
        assert(forall|i: int| 0 <= i < dl.len() ==> (#[trigger] dl[i]) == s[i]);
        lemma_filter_all(dl, pred);
        assert(pred(s.last()));
        assert(s.filter(pred) =~= s);
    }
}

/// A sequence none of whose members satisfies the predicate filters to
/// nothing.
proof fn lemma_filter_none<A>(s: Seq<A>, pred: spec_fn(A) -> bool)
    requires
        forall|i: int| 0 <= i < s.len() ==> !pred(#[trigger] s[i]),
    ensures
        s.filter(pred) == Seq::<A>::empty(),
    decreases s.len(),
{
    reveal(Seq::filter);
    if s.len() > 0 {
        let dl = s.drop_last();
        assert(forall|i: int| 0 <= i < dl.len() ==> (#[trigger] dl[i]) == s[i]);
        lemma_filter_none(dl, pred);
        assert(!pred(s.last()));
    } else {
        assert(s =~= Seq::<A>::empty());
    }
}

/// What one reconciliation run leaves behind: the crate's membership
/// set holds exactly the tracks reached from the supplied paths — any
/// membership not re-derived from the paths is gone — and every other
/// crate's memberships are untouched.
pub proof fn lemma_reconcile_membership(db: DbView, name: Seq<char>, paths: Seq<Seq<char>>)
    requires
        db.wf(),
    ensures
        ({
            let (dbf, _) = spec_reconcile(db, name, paths, Seq::empty());
            let (_, res) = spec_get_or_create(db, name);
            res is Some ==> {
                let id = res.unwrap();
                &&& (forall|t: int|
                    dbf.crate_tracks.contains((id, t)) <==> exists|k: int|
                        0 <= k < paths.len() && spec_path_track_id(db, #[trigger] paths[k])
                            == Some(t))
                &&& (forall|c: int, t: int|
                    c != id ==> (dbf.crate_tracks.contains((c, t))
                        <==> db.crate_tracks.contains((c, t))))
            }
        }),
{
    let n = paths.len() as int;
    let (dbgc, res) = spec_get_or_create(db, name);
    lemma_get_or_create_props(db, name);
    match res {
        None => {},
        Some(id) => {
            let dba = spec_clear_tracks(dbgc, id);
            lemma_clear_tracks_props(dbgc, id);
            lemma_connect_paths_membership(dba, id, paths, n);
            lemma_connect_paths_props(dba, id, paths, n);
            let (dbf, _) = spec_reconcile(db, name, paths, Seq::empty());
            // after the clear, no membership of this crate survives
            assert(forall|t: int| !dba.crate_tracks.contains((id, t))) by {
                assert(forall|x: (int, int)|
                    dba.crate_tracks.contains(x) ==> dbgc.crate_tracks.contains(x) && x.0 != id);
            }
            // lookups against the cleared state match lookups against
            // the starting state: locations and tracks never moved
            assert(dba.locations == db.locations && dba.tracks == db.tracks);
            assert(forall|k: int|
                0 <= k < n ==> spec_path_track_id(dba, #[trigger] paths[k]) == spec_path_track_id(
                    db,
                    paths[k],
                ));
            // other crates pass through the clear untouched
            assert forall|c: int, t: int| c != id implies (dba.crate_tracks.contains((c, t))
                <==> db.crate_tracks.contains((c, t))) by {
                if db.crate_tracks.contains((c, t)) {
                    let j = choose|j: int|
                        0 <= j < db.crate_tracks.len() && db.crate_tracks[j] == (c, t);
                    assert(dbgc.crate_tracks[j] == (c, t));
                    assert(keep_other(id)((c, t)));
                    dbgc.crate_tracks.lemma_filter_contains(keep_other(id), j);
                    assert(dba.crate_tracks.contains((c, t)));
                }
            }
        },
    }
}

/// Looks a track up by its location's exact resolved path and connects
/// it to the crate; tells the caller whether a track was found at all.
pub fn connect_track_by_location(db: &mut TargetDatabase, crate_id: i32, path: &str) -> (r: Option<
    (),
>)
    requires
        old(db)@.wf(),
    ensures
        final(db)@ == spec_connect_path(old(db)@, crate_id as int, path@),
        r is Some <==> spec_get_by_location(old(db)@, path@) is Some,
        final(db)@.wf(),
{
    match get_by_location(db, path) {
        None => None,
        Some(track) => {
            let _ = connect_track(db, crate_id, track.id);
            Some(())
        },
    }
}

} // verus!
