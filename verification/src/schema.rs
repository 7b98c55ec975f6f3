//! The rows this library moves between databases, together with their
//! mathematical views. Identity keys are locally assigned positive
//! integers: they are unique within one database and meaningless in any
//! other, which is why every copy step works through explicit id maps.

use vstd::prelude::*;

verus! {

/// Copies an optional string, keeping its view.
pub(crate) fn clone_opt_string(o: &Option<String>) -> (r: Option<String>)
    ensures
        (match r {
            Some(s) => Some(s@),
            None => None::<Seq<char>>,
        }) == (match o {
            Some(s) => Some(s@),
            None => None::<Seq<char>>,
        }),
{
    match o {
        Some(s) => Some(s.clone()),
        None => None,
    }
}

/// Copies an optional integer.
pub(crate) fn clone_opt_i32(o: &Option<i32>) -> (r: Option<i32>)
    ensures
        r == *o,
{
    match o {
        Some(v) => Some(*v),
        None => None,
    }
}

/// Copies an optional integer.
pub(crate) fn clone_opt_i64(o: &Option<i64>) -> (r: Option<i64>)
    ensures
        r == *o,
{
    match o {
        Some(v) => Some(*v),
        None => None,
    }
}

/// A music directory row, identified by its path string.
#[derive(Debug)]
pub struct Directory {
    pub directory: String,
}

impl View for Directory {
    type V = Seq<char>;

    open spec fn view(&self) -> Seq<char> {
        self.directory@
    }
}

/// A file-location row: a full file path and the directory expected to
/// be a prefix of it. Within one database at most one location holds a
/// given path.
#[derive(Debug)]
pub struct Location {
    pub id: i32,
    pub location: Option<String>,
    pub directory: Option<String>,
}

/// The mathematical content of a [`Location`].
pub struct LocationView {
    pub id: int,
    pub location: Option<Seq<char>>,
    pub directory: Option<Seq<char>>,
}

impl View for Location {
    type V = LocationView;

    open spec fn view(&self) -> LocationView {
        LocationView {
            id: self.id as int,
            location: match self.location {
                Some(s) => Some(s@),
                None => None,
            },
            directory: match self.directory {
                Some(s) => Some(s@),
                None => None,
            },
        }
    }
}

/// A track metadata row. `location`, when set, names a [`Location`] id
/// in the same database; a track without one is orphaned and cannot be
/// relocated. `cuepoint` is already normalized to an integer by the
/// lenient decoder.
#[derive(Debug)]
pub struct Track {
    pub id: i32,
    pub artist: Option<String>,
    pub title: Option<String>,
    pub location: Option<i32>,
    pub cuepoint: Option<i64>,
}

/// The mathematical content of a [`Track`].
pub struct TrackView {
    pub id: int,
    pub artist: Option<Seq<char>>,
    pub title: Option<Seq<char>>,
    pub location: Option<int>,
    pub cuepoint: Option<int>,
}

impl View for Track {
    type V = TrackView;

    open spec fn view(&self) -> TrackView {
        TrackView {
            id: self.id as int,
            artist: match self.artist {
                Some(s) => Some(s@),
                None => None,
            },
            title: match self.title {
                Some(s) => Some(s@),
                None => None,
            },
            location: match self.location {
                Some(i) => Some(i as int),
                None => None,
            },
            cuepoint: match self.cuepoint {
                Some(i) => Some(i as int),
                None => None,
            },
        }
    }
}

/// A crate row: a named, orderless group of tracks. Names are unique
/// within a database and crates are looked up by exact name.
#[derive(Debug)]
pub struct Crate {
    pub id: i32,
    pub name: String,
}

/// The mathematical content of a [`Crate`].
pub struct CrateView {
    pub id: int,
    pub name: Seq<char>,
}

impl View for Crate {
    type V = CrateView;

    open spec fn view(&self) -> CrateView {
        CrateView { id: self.id as int, name: self.name@ }
    }
}

/// A crate-membership row: one (crate, track) connection. The pair is
/// unique; re-adding it is a no-op.
#[derive(Debug)]
pub struct CrateTrack {
    pub crate_id: i32,
    pub track_id: i32,
}

impl View for CrateTrack {
    type V = (int, int);

    open spec fn view(&self) -> (int, int) {
        (self.crate_id as int, self.track_id as int)
    }
}

impl Clone for Directory {
    fn clone(&self) -> (r: Self)
        ensures
            r@ == self@,
    {
        Directory { directory: self.directory.clone() }
    }
}

impl Clone for Location {
    fn clone(&self) -> (r: Self)
        ensures
            r@ == self@,
    {
        Location {
            id: self.id,
            location: clone_opt_string(&self.location),
            directory: clone_opt_string(&self.directory),
        }
    }
}

impl Clone for Track {
    fn clone(&self) -> (r: Self)
        ensures
            r@ == self@,
    {
        Track {
            id: self.id,
            artist: clone_opt_string(&self.artist),
            title: clone_opt_string(&self.title),
            location: clone_opt_i32(&self.location),
            cuepoint: clone_opt_i64(&self.cuepoint),
        }
    }
}

impl Clone for Crate {
    fn clone(&self) -> (r: Self)
        ensures
            r@ == self@,
    {
        Crate { id: self.id, name: self.name.clone() }
    }
}

impl Clone for CrateTrack {
    fn clone(&self) -> (r: Self)
        ensures
            r@ == self@,
    {
        CrateTrack { crate_id: self.crate_id, track_id: self.track_id }
    }
}

/// The views of a sequence of rows.
pub open spec fn views<T: View>(s: Seq<T>) -> Seq<T::V> {
    s.map_values(|t: T| t@)
}

} // verus!
