//! The directory remap table: an ordered set of old-prefix to
//! new-prefix substitutions, built once per merge and consulted
//! read-only. Lookup is first-match-wins over the insertion order,
//! which makes the behaviour deterministic even when an operator
//! supplies overlapping prefixes.

use vstd::prelude::*;

use crate::paths::spec_forward_slashes;
use crate::paths::spec_normalize_path;
use crate::paths::spec_trim;
use crate::paths::forward_slashes;
use crate::paths::normalize_path_str;
use crate::paths::trim_str;
use crate::schema::Directory;
use crate::text::copy_range;
use crate::text::str_eq;
use crate::text::str_is_prefix;

verus! {

/// First-match-wins prefix substitution: the first entry whose old
/// prefix starts `p` has that prefix replaced by its new prefix; when
/// no entry matches, `p` is returned unchanged.
pub open spec fn spec_substitute(entries: Seq<(Seq<char>, Seq<char>)>, p: Seq<char>) -> Seq<char>
    decreases entries.len(),
{
    if entries.len() == 0 {
        p
    } else if entries[0].0.is_prefix_of(p) {
        entries[0].1 + p.skip(entries[0].0.len() as int)
    } else {
        spec_substitute(entries.drop_first(), p)
    }
}

/// How a raw replacement answer is normalized before it enters the
/// table: trimmed, made forward-slash, then path-normalized.
pub open spec fn spec_normalize_replacement(r: Seq<char>) -> Seq<char> {
    spec_normalize_path(spec_forward_slashes(spec_trim(r)))
}

/// The table built from old directories and the raw replacement
/// answers, one answer per directory: an answer that normalizes to the
/// empty string means "keep that directory unchanged" and adds no
/// entry.
pub open spec fn spec_build(dirs: Seq<Seq<char>>, reps: Seq<Seq<char>>, n: int) -> Seq<
    (Seq<char>, Seq<char>),
>
    decreases n,
{
    if n <= 0 {
        Seq::empty()
    } else {
        let prev = spec_build(dirs, reps, n - 1);
        let norm = spec_normalize_replacement(reps[n - 1]);
        if norm.len() == 0 {
            prev
        } else {
            prev.push((dirs[n - 1], norm))
        }
    }
}

/// An old-prefix to new-prefix mapping over path strings, consulted in
/// insertion order.
pub struct RemapTable {
    pub entries: Vec<(String, String)>,
}

impl View for RemapTable {
    type V = Seq<(Seq<char>, Seq<char>)>;

    open spec fn view(&self) -> Seq<(Seq<char>, Seq<char>)> {
        self.entries@.map_values(|e: (String, String)| (e.0@, e.1@))
    }
}

impl RemapTable {
    /// An empty table: every path is kept unchanged.
    pub fn new() -> (r: RemapTable)
        ensures
            r@ == Seq::<(Seq<char>, Seq<char>)>::empty(),
    {
        let r = RemapTable { entries: Vec::new() };
        assert(r@ =~= Seq::<(Seq<char>, Seq<char>)>::empty());
        r
    }

    /// Appends one old-prefix to new-prefix entry.
    pub fn insert(&mut self, from: String, to: String)
        ensures
            final(self)@ == old(self)@.push((from@, to@)),
    {
        let ghost pre = self@;
        let ghost pair = (from@, to@);
        self.entries.push((from, to));
        assert(self@ =~= pre.push(pair));
    }

    /// Replaces the first matching old prefix of `path`, or returns
    /// `path` unchanged when no entry prefix-matches.
    pub fn substitute(&self, path: &str) -> (r: String)
        ensures
            r@ == spec_substitute(self@, path@),
    {
        let n = self.entries.len();
        assert(self@.subrange(0, n as int) =~= self@);
        let mut i: usize = 0;
        while i < n
            invariant
                n == self.entries.len(),
                self@.len() == n,
                i <= n,
                spec_substitute(self@, path@) == spec_substitute(
                    self@.subrange(i as int, n as int),
                    path@,
                ),
            decreases n - i,
        {
            let ghost pre_sub = self@.subrange(i as int, n as int);
            assert(pre_sub[0] == self@[i as int]);
            let from = &self.entries[i].0;
            if str_is_prefix(from.as_str(), path) {
                let mut out = self.entries[i].1.clone();
                let flen = from.as_str().unicode_len();
                let plen = path.unicode_len();
                let tail = copy_range(path, flen, plen);
                out.append(tail.as_str());
                assert(out@ =~= self@[i as int].1 + path@.skip(self@[i as int].0.len() as int));
                return out;
            }
            i += 1;
            proof {
                assert(pre_sub.drop_first() =~= self@.subrange(i as int, n as int));
            }
        }
        assert(self@.subrange(n as int, n as int) =~= Seq::<(Seq<char>, Seq<char>)>::empty());
        let plen = path.unicode_len();
        copy_range(path, 0, plen)
    }

    /// The new prefix recorded for exactly the key `k`, if any.
    pub fn lookup_exact(&self, key: &str) -> (r: Option<String>)
        ensures
            (match r {
                Some(s) => Some(s@),
                None => None,
            }) == spec_exact_lookup(self@, key@),
    {
        let n = self.entries.len();
        assert(self@.subrange(0, n as int) =~= self@);
        let mut i: usize = 0;
        while i < n
            invariant
                n == self.entries.len(),
                self@.len() == n,
                i <= n,
                spec_exact_lookup(self@, key@) == spec_exact_lookup(
                    self@.subrange(i as int, n as int),
                    key@,
                ),
            decreases n - i,
        {
            let ghost pre_sub = self@.subrange(i as int, n as int);
            assert(pre_sub[0] == self@[i as int]);
            if str_eq(self.entries[i].0.as_str(), key) {
                return Some(self.entries[i].1.clone());
            }
            i += 1;
            proof {
                assert(pre_sub.drop_first() =~= self@.subrange(i as int, n as int));
            }
        }
        assert(self@.subrange(n as int, n as int) =~= Seq::<(Seq<char>, Seq<char>)>::empty());
        None
    }

    /// Builds the table for one merge: one raw replacement answer per
    /// old directory, in order; an answer that normalizes to the empty
    /// string keeps its directory unchanged.
    pub fn build(dirs: &Vec<Directory>, replacements: &Vec<String>) -> (r: RemapTable)
        requires
            dirs@.len() == replacements@.len(),
        ensures
            r@ == spec_build(
                crate::schema::views(dirs@),
                crate::schema::views(replacements@),
                dirs@.len() as int,
            ),
    {
        let ghost dv = crate::schema::views(dirs@);
        let ghost rv = crate::schema::views(replacements@);
        let mut table = RemapTable::new();
        let mut i: usize = 0;
        while i < dirs.len()
            invariant
                i <= dirs@.len(),
                dirs@.len() == replacements@.len(),
                dv == crate::schema::views(dirs@),
                rv == crate::schema::views(replacements@),
                table@ == spec_build(dv, rv, i as int),
            decreases dirs@.len() - i,
        {
            assert(rv[i as int] == replacements@[i as int]@);
            assert(dv[i as int] == dirs@[i as int]@);
            let trimmed = trim_str(replacements[i].as_str());
            let forwarded = forward_slashes(trimmed.as_str());
            let normalized = normalize_path_str(forwarded.as_str());
            if normalized.as_str().unicode_len() > 0 {
                table.insert(dirs[i].directory.clone(), normalized);
            }
            i += 1;
        }
        table
    }
}

/// First-match lookup of exactly the key `k` (no prefix matching).
pub open spec fn spec_exact_lookup(entries: Seq<(Seq<char>, Seq<char>)>, k: Seq<char>) -> Option<
    Seq<char>,
>
    decreases entries.len(),
{
    if entries.len() == 0 {
        None
    } else if entries[0].0 == k {
        Some(entries[0].1)
    } else {
        spec_exact_lookup(entries.drop_first(), k)
    }
}

/// First-match lookup over recorded id correspondences.
pub open spec fn spec_lookup(entries: Seq<(int, int)>, k: int) -> Option<int>
    decreases entries.len(),
{
    if entries.len() == 0 {
        None
    } else if entries[0].0 == k {
        Some(entries[0].1)
    } else {
        spec_lookup(entries.drop_first(), k)
    }
}

/// An operation-scoped map from a source database's row identities to
/// the identities of their freshly inserted copies. It is owned by one
/// merge operation and discarded with it.
pub struct IdMap {
    pub entries: Vec<(i32, i32)>,
}

impl View for IdMap {
    type V = Seq<(int, int)>;

    open spec fn view(&self) -> Seq<(int, int)> {
        self.entries@.map_values(|e: (i32, i32)| (e.0 as int, e.1 as int))
    }
}

impl IdMap {
    /// An empty correspondence.
    pub fn new() -> (r: IdMap)
        ensures
            r@ == Seq::<(int, int)>::empty(),
    {
        let r = IdMap { entries: Vec::new() };
        assert(r@ =~= Seq::<(int, int)>::empty());
        r
    }

    /// Records one old-id to new-id correspondence.
    pub fn insert(&mut self, k: i32, v: i32)
        ensures
            final(self)@ == old(self)@.push((k as int, v as int)),
    {
        let ghost pre = self@;
        self.entries.push((k, v));
        assert(self@ =~= pre.push((k as int, v as int)));
    }

    /// The number of recorded correspondences.
    pub fn len(&self) -> (r: usize)
        ensures
            r == self@.len(),
    {
        self.entries.len()
    }

    /// The new id recorded for old id `k`, if any.
    pub fn get(&self, k: i32) -> (r: Option<i32>)
        ensures
            (match r {
                Some(v) => Some(v as int),
                None => None,
            }) == spec_lookup(self@, k as int),
    {
        let n = self.entries.len();
        assert(self@.subrange(0, n as int) =~= self@);
        let mut i: usize = 0;
        while i < n
            invariant
                n == self.entries.len(),
                self@.len() == n,
                i <= n,
                spec_lookup(self@, k as int) == spec_lookup(
                    self@.subrange(i as int, n as int),
                    k as int,
                ),
            decreases n - i,
        {
            let ghost pre_sub = self@.subrange(i as int, n as int);
            assert(pre_sub[0] == self@[i as int]);
            if self.entries[i].0 == k {
                return Some(self.entries[i].1);
            }
            i += 1;
            proof {
                assert(pre_sub.drop_first() =~= self@.subrange(i as int, n as int));
            }
        }
        assert(self@.subrange(n as int, n as int) =~= Seq::<(int, int)>::empty());
        None
    }
}

/// When no entry's old prefix starts `p`, substitution leaves `p`
/// unchanged.
pub proof fn lemma_substitute_no_prefix(entries: Seq<(Seq<char>, Seq<char>)>, p: Seq<char>)
    requires
        forall|i: int| 0 <= i < entries.len() ==> !(#[trigger] entries[i]).0.is_prefix_of(p),
    ensures
        spec_substitute(entries, p) == p,
    decreases entries.len(),
{
    if entries.len() > 0 {
        assert(!entries[0].0.is_prefix_of(p));
        assert(forall|i: int|
            0 <= i < entries.drop_first().len() ==> (#[trigger] entries.drop_first()[i])
                == entries[i + 1]);
        lemma_substitute_no_prefix(entries.drop_first(), p);
    }
}

} // verus!
