//! Importing a folder of playlist files, one crate per playlist stem.
//! Here the mapping file is read the other way round: each declared key
//! maps to the playlist stems that feed it, so the file is inverted
//! into stem-to-crate-names entries, and every resulting crate name is
//! given this importer's fixed prefix.

use vstd::prelude::*;

use crate::import::CrateMap;
use crate::import::Error;
use crate::import::spec_find_key;
use crate::import::spec_parse_crate_map;
use crate::import::clone_string_vec;
use crate::text::str_eq;

verus! {

/// Arguments of a playlists-folder import run.
pub struct Args {
    /// The folder holding the playlist files.
    pub path: Option<String>,
}

impl Default for Args {
    fn default() -> (r: Args)
        ensures
            r.path is None,
    {
        Args { path: None }
    }
}

/// One value of one entry folded into the reverse map: an already-known
/// value gains the key, a new value opens an entry of its own.
pub open spec fn spec_rev_insert(
    acc: Seq<(Seq<char>, Seq<Seq<char>>)>,
    value: Seq<char>,
    key: Seq<char>,
) -> Seq<(Seq<char>, Seq<Seq<char>>)> {
    match spec_find_key(acc, value) {
        Some(j) => acc.update(j, (value, acc[j].1.push(key))),
        None => acc.push((value, seq![key])),
    }
}

/// The first `n` values of one entry folded into the reverse map.
pub open spec fn spec_rev_add(
    acc: Seq<(Seq<char>, Seq<Seq<char>>)>,
    key: Seq<char>,
    values: Seq<Seq<char>>,
    n: int,
) -> Seq<(Seq<char>, Seq<Seq<char>>)>
    decreases n,
{
    if n <= 0 {
        acc
    } else {
        spec_rev_insert(spec_rev_add(acc, key, values, n - 1), values[n - 1], key)
    }
}

/// The first `n` entries inverted: every value becomes a key carrying,
/// in encounter order, the keys it appeared under.
pub open spec fn spec_invert(entries: Seq<(Seq<char>, Seq<Seq<char>>)>, n: int) -> Seq<
    (Seq<char>, Seq<Seq<char>>),
>
    decreases n,
{
    if n <= 0 {
        Seq::empty()
    } else {
        let prev = spec_invert(entries, n - 1);
        spec_rev_add(prev, entries[n - 1].0, entries[n - 1].1, entries[n - 1].1.len() as int)
    }
}

/// What this importer derives from a mapping file: for each playlist
/// stem, the crate names it feeds. The file's prefix is ignored here; a
/// text without a `mappings:` section is rejected.
pub open spec fn spec_reverse_crate_map(s: Seq<char>) -> Option<Seq<(Seq<char>, Seq<Seq<char>>)>> {
    match spec_parse_crate_map(s) {
        Some((_, entries)) => Some(spec_invert(entries, entries.len() as int)),
        None => None,
    }
}

/// The index of the first entry keyed exactly `key`.
fn find_key(map: &CrateMap, key: &str) -> (r: Option<usize>)
    ensures
        (match r {
            Some(j) => Some(j as int),
            None => None,
        }) == spec_find_key(map@, key@),
        r matches Some(j) ==> j < map.entries@.len() && map@[j as int].0 == key@,
{
    let ghost entries = map@;
    let n = map.entries.len();
    assert(entries.skip(0) =~= entries);
    let mut i: usize = 0;
    while i < n
        invariant
            entries == map@,
            entries.len() == n,
            n == map.entries@.len(),
            i <= n,
            spec_find_key(entries, key@) == (match spec_find_key(entries.skip(i as int), key@) {
                Some(j) => Some(j + i as int),
                None => None::<int>,
            }),
        decreases n - i,
    {
        let ghost pre_sub = entries.skip(i as int);
        assert(pre_sub[0] == entries[i as int]);
        assert(entries[i as int].0 == map.entries@[i as int].0@);
        if str_eq(map.entries[i].0.as_str(), key) {
            return Some(i);
        }
        i += 1;
        proof {
            assert(pre_sub.drop_first() =~= entries.skip(i as int));
        }
    }
    assert(entries.skip(n as int) =~= Seq::<(Seq<char>, Seq<Seq<char>>)>::empty());
    None
}

/// Folds one key-to-value association into the reverse map.
fn rev_insert(out: &mut CrateMap, value: &String, key: &String)
    ensures
        final(out)@ == spec_rev_insert(old(out)@, value@, key@),
{
    let ghost pre = out@;
    match find_key(out, value.as_str()) {
        Some(j) => {
            let value_copy = out.entries[j].0.clone();
            let mut names = clone_string_vec(&out.entries[j].1);
            let ghost pre_names = names.deep_view();
            names.push(key.clone());
            assert(names.deep_view() =~= pre_names.push(key@));
            out.entries.set(j, (value_copy, names));
            assert(out@ =~~= pre.update(j as int, (value@, pre[j as int].1.push(key@))));
        },
        None => {
            let mut names: Vec<String> = Vec::new();
            names.push(key.clone());
            assert(names.deep_view() =~= seq![key@]);
            out.entries.push((value.clone(), names));
            assert(out@ =~~= pre.push((value@, seq![key@])));
        },
    }
}

/// Inverts a forward crate map: every value becomes a key carrying, in
/// encounter order, the keys it appeared under.
pub fn invert(map: &CrateMap) -> (r: CrateMap)
    ensures
        r@ == spec_invert(map@, map@.len() as int),
{
    let ghost entries = map@;
    let mut out = CrateMap::new();
    let mut i: usize = 0;
    while i < map.entries.len()
        invariant
            entries == map@,
            entries.len() == map.entries@.len(),
            i <= map.entries@.len(),
            out@ == spec_invert(entries, i as int),
        decreases map.entries@.len() - i,
    {
        assert(entries[i as int] == (map.entries@[i as int].0@, map.entries@[
            i as int].1.deep_view()));
        let key = &map.entries[i].0;
        let values = &map.entries[i].1;
        let ghost vals_dv = values.deep_view();
        let mut k: usize = 0;
        while k < values.len()
            invariant
                entries == map@,
                entries.len() == map.entries@.len(),
                i < map.entries@.len(),
                entries[i as int] == (key@, vals_dv),
                vals_dv == values.deep_view(),
                vals_dv.len() == values@.len(),
                k <= values@.len(),
                out@ == spec_rev_add(spec_invert(entries, i as int), key@, vals_dv, k as int),
            decreases values@.len() - k,
        {
            assert(vals_dv[k as int] == values@[k as int]@);
            rev_insert(&mut out, &values[k], key);
            k += 1;
        }
        i += 1;
    }
    assert(entries.len() == map.entries@.len());
    out
}

/// Reads a crate mapping file the stem-keyed way: for each playlist
/// stem, the crate names it feeds, in encounter order. A text without a
/// `mappings:` section is rejected.
pub fn parse_crate_map(text: &str) -> (r: Result<CrateMap, Error>)
    ensures
        match r {
            Ok(m) => spec_reverse_crate_map(text@) == Some(m@),
            Err(_) => spec_reverse_crate_map(text@) is None,
        },
{
    let forward = match crate::import::parse_document(text) {
        Ok((_, m)) => m,
        Err(e) => {
            return Err(e);
        },
    };
    Ok(invert(&forward))
}

/// The crate names one playlist stem feeds: what the reverse map
/// records for it, or the stem itself when the map never names it.
pub open spec fn spec_crate_names_for(
    entries: Seq<(Seq<char>, Seq<Seq<char>>)>,
    stem: Seq<char>,
) -> Seq<Seq<char>> {
    match spec_find_key(entries, stem) {
        Some(j) => entries[j].1,
        None => seq![stem],
    }
}

/// The crate names a playlist stem feeds: the mapped names when the
/// stem is in the reverse map, otherwise the stem alone.
pub fn crate_names_for(map: &CrateMap, stem: &str) -> (r: Vec<String>)
    ensures
        r.deep_view() == spec_crate_names_for(map@, stem@),
{
    match find_key(map, stem) {
        Some(j) => clone_string_vec(&map.entries[j].1),
        None => {
            let mut fallback: Vec<String> = Vec::new();
            fallback.push(stem.to_owned());
            assert(fallback.deep_view() =~= seq![stem@]);
            fallback
        },
    }
}

/// The crate name this importer files a playlist under: the stem (or
/// mapped name) behind the fixed marker.
pub fn prefixed_crate_name(name: &str) -> (r: String)
    ensures
        r@ == "[MixxxKit] "@ + name@,
{
    let mut out = String::from_str("[MixxxKit] ");
    out.append(name);
    out
}

} // verus!
