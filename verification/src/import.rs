//! Importing crates from a playlists folder: the declarative crate
//! mapping file, the audio-extension allow-list for directory sources,
//! and the per-source candidate-path production. The mapping file is a
//! small line-based document: an optional top-level `prefix:` value and
//! a top-level `mappings:` section whose indented keys each carry an
//! indented list of `- ` items.

use vstd::prelude::*;

use crate::paths::forward_slashes;
use crate::paths::resolve_base_str;
use crate::paths::spec_forward_slashes;
use crate::paths::spec_resolve_base;
use crate::paths::spec_split;
use crate::paths::spec_trim;
use crate::paths::spec_trim_surround;
use crate::paths::split_slash;
use crate::paths::trim_str;
use crate::paths::trim_surround_str;
use crate::text::copy_range;
use crate::text::is_space;
use crate::text::is_space_char;
use crate::text::push_char;
use crate::text::str_eq;
use crate::text::str_is_prefix;

verus! {

/// Arguments of an import run, as the command line hands them over.
pub struct Args {
    /// The playlists folder (or mapping file) to import from.
    pub path: Option<String>,
}

impl Default for Args {
    fn default() -> (r: Args)
        ensures
            r.path is None,
    {
        Args { path: None }
    }
}

/// Why a mapping file was rejected.
#[derive(Debug)]
pub enum Error {
    /// The text holds no `mappings:` section.
    ParsingFailed,
}

/// One line's text with a trailing carriage return removed.
pub open spec fn strip_cr(l: Seq<char>) -> Seq<char> {
    if l.len() > 0 && l.last() == '\r' {
        l.drop_last()
    } else {
        l
    }
}

/// Splitting a document into lines at `\n`, consuming it from the
/// front; each finished line loses a trailing carriage return.
pub open spec fn spec_lines_rec(s: Seq<char>, cur: Seq<char>, acc: Seq<Seq<char>>) -> Seq<Seq<char>>
    decreases s.len(),
{
    if s.len() == 0 {
        acc.push(strip_cr(cur))
    } else if s[0] == '\n' {
        spec_lines_rec(s.drop_first(), Seq::empty(), acc.push(strip_cr(cur)))
    } else {
        spec_lines_rec(s.drop_first(), cur.push(s[0]), acc)
    }
}

/// The lines of a document, under either line-ending convention.
pub open spec fn spec_lines(s: Seq<char>) -> Seq<Seq<char>> {
    spec_lines_rec(s, Seq::empty(), Seq::empty())
}

/// The lines of `s`.
pub fn split_lines(s: &str) -> (r: Vec<String>)
    ensures
        r.deep_view() == spec_lines(s@),
{
    let n = s.unicode_len();
    let mut cur = String::new();
    let mut acc: Vec<String> = Vec::new();
    assert(s@.subrange(0, n as int) =~= s@);
    assert(acc.deep_view() =~= Seq::<Seq<char>>::empty());
    let mut i: usize = 0;
    while i < n
        invariant
            n == s@.len(),
            i <= n,
            spec_lines(s@) == spec_lines_rec(s@.subrange(i as int, n as int), cur@, acc.deep_view()),
        decreases n - i,
    {
        let ghost pre_sub = s@.subrange(i as int, n as int);
        let c = s.get_char(i);
        if c == '\n' {
            let ghost old_acc = acc.deep_view();
            let ghost old_cur = cur@;
            let line = finish_line(cur);
            acc.push(line);
            cur = String::new();
            assert(acc.deep_view() =~= old_acc.push(strip_cr(old_cur)));
        } else {
            push_char(&mut cur, c);
        }
        i += 1;
        proof {
            assert(pre_sub.drop_first() =~= s@.subrange(i as int, n as int));
        }
    }
    assert(s@.subrange(n as int, n as int) =~= Seq::<char>::empty());
    let ghost old_acc = acc.deep_view();
    let ghost old_cur = cur@;
    let line = finish_line(cur);
    acc.push(line);
    assert(acc.deep_view() =~= old_acc.push(strip_cr(old_cur)));
    acc
}

/// Removes the trailing carriage return of one finished line.
fn finish_line(cur: String) -> (r: String)
    ensures
        r@ == strip_cr(cur@),
{
    let len = cur.as_str().unicode_len();
    if len > 0 && cur.as_str().get_char(len - 1) == '\r' {
        let r = copy_range(cur.as_str(), 0, len - 1);
        assert(r@ =~= strip_cr(cur@));
        r
    } else {
        cur
    }
}

/// One layer of double quotes removed, then one layer of single quotes.
pub open spec fn spec_unquote(s: Seq<char>) -> Seq<char> {
    spec_trim_surround(spec_trim_surround(s, '"'), '\'')
}

/// `s` with one surrounding layer of quotes removed.
pub fn unquote(s: &str) -> (r: String)
    ensures
        r@ == spec_unquote(s@),
{
    let a = trim_surround_str(s, '"');
    trim_surround_str(a.as_str(), '\'')
}

/// The parser's state between lines of a mapping file.
pub struct ParseState {
    /// The crate-name prefix declared so far.
    pub prefix: Seq<char>,
    /// Whether a `mappings:` section was ever opened.
    pub saw_mappings: bool,
    /// Whether lines are currently inside the `mappings:` section.
    pub in_mappings: bool,
    /// Whether items currently belong to the newest entry.
    pub active: bool,
    /// The mapping entries collected so far, in file order.
    pub entries: Seq<(Seq<char>, Seq<Seq<char>>)>,
}

/// Whether some entry already carries the key `key`.
pub open spec fn spec_key_exists(entries: Seq<(Seq<char>, Seq<Seq<char>>)>, key: Seq<char>) -> bool {
    exists|i: int| 0 <= i < entries.len() && (#[trigger] entries[i]).0 == key
}

/// The parser before any line: no prefix, no section, no entries.
pub open spec fn spec_parse_init() -> ParseState {
    ParseState {
        prefix: Seq::empty(),
        saw_mappings: false,
        in_mappings: false,
        active: false,
        entries: Seq::empty(),
    }
}

/// One line consumed. Blank lines change nothing. A top-level line
/// opens the `mappings:` section, sets the prefix, or ends the section.
/// Inside the section an indented `key:` line opens a new entry (a
/// repeated key is ignored together with its items) and an indented
/// `- ` line adds one item to the open entry.
pub open spec fn spec_parse_step(st: ParseState, l: Seq<char>) -> ParseState {
    let t = spec_trim(l);
    if t.len() == 0 {
        st
    } else if !is_space_char(l[0]) {
        if t == "mappings:"@ {
            ParseState { saw_mappings: true, in_mappings: true, active: false, ..st }
        } else if "prefix:"@.is_prefix_of(t) {
            ParseState {
                prefix: spec_unquote(spec_trim(t.skip(7))),
                in_mappings: false,
                active: false,
                ..st
            }
        } else {
            ParseState { in_mappings: false, active: false, ..st }
        }
    } else if st.in_mappings {
        if t[0] == '-' {
            let v = spec_unquote(spec_trim(t.drop_first()));
            if st.active && st.entries.len() > 0 && v.len() > 0 {
                let last = st.entries.len() - 1;
                ParseState {
                    entries: st.entries.update(
                        last,
                        (st.entries[last].0, st.entries[last].1.push(v)),
                    ),
                    ..st
                }
            } else {
                st
            }
        } else if t.last() == ':' {
            let key = spec_unquote(spec_trim(t.drop_last()));
            if key.len() == 0 || spec_key_exists(st.entries, key) {
                ParseState { active: false, ..st }
            } else {
                ParseState { entries: st.entries.push((key, Seq::empty())), active: true, ..st }
            }
        } else {
            st
        }
    } else {
        st
    }
}

/// The parser's state after the first `n` lines.
pub open spec fn spec_parse_lines(lines: Seq<Seq<char>>, n: int) -> ParseState
    decreases n,
{
    if n <= 0 {
        spec_parse_init()
    } else {
        spec_parse_step(spec_parse_lines(lines, n - 1), lines[n - 1])
    }
}

/// What a mapping file says: its prefix and its entries in file order,
/// or nothing when it never opens a `mappings:` section.
pub open spec fn spec_parse_crate_map(s: Seq<char>) -> Option<
    (Seq<char>, Seq<(Seq<char>, Seq<Seq<char>>)>),
> {
    let lines = spec_lines(s);
    let st = spec_parse_lines(lines, lines.len() as int);
    if st.saw_mappings {
        Some((st.prefix, st.entries))
    } else {
        None
    }
}

/// Every entry's key with the prefix put in front.
pub open spec fn spec_prefixed(
    prefix: Seq<char>,
    entries: Seq<(Seq<char>, Seq<Seq<char>>)>,
) -> Seq<(Seq<char>, Seq<Seq<char>>)> {
    entries.map_values(|e: (Seq<char>, Seq<Seq<char>>)| (prefix + e.0, e.1))
}

/// What this importer derives from a mapping file: one entry per
/// prefixed destination crate name, carrying its source paths.
pub open spec fn spec_import_crate_map(s: Seq<char>) -> Option<Seq<(Seq<char>, Seq<Seq<char>>)>> {
    match spec_parse_crate_map(s) {
        Some((prefix, entries)) => Some(spec_prefixed(prefix, entries)),
        None => None,
    }
}

/// An ordered association of crate names with their source paths (or of
/// source identifiers with their crate names), as a mapping file
/// declares it.
pub struct CrateMap {
    pub entries: Vec<(String, Vec<String>)>,
}

impl View for CrateMap {
    type V = Seq<(Seq<char>, Seq<Seq<char>>)>;

    open spec fn view(&self) -> Seq<(Seq<char>, Seq<Seq<char>>)> {
        self.entries@.map_values(|e: (String, Vec<String>)| (e.0@, e.1.deep_view()))
    }
}

impl CrateMap {
    /// No associations.
    pub fn new() -> (r: CrateMap)
        ensures
            r@ == Seq::<(Seq<char>, Seq<Seq<char>>)>::empty(),
    {
        let r = CrateMap { entries: Vec::new() };
        assert(r@ =~= Seq::<(Seq<char>, Seq<Seq<char>>)>::empty());
        r
    }

    /// The number of entries.
    pub fn len(&self) -> (r: usize)
        ensures
            r == self@.len(),
    {
        self.entries.len()
    }

    /// The values of the first entry keyed exactly `key`, if any.
    pub fn get(&self, key: &str) -> (r: Option<Vec<String>>)
        ensures
            ({
                let rv = match r {
                    Some(v) => Some(v.deep_view()),
                    None => None,
                };
                match spec_find_key(self@, key@) {
                    Some(i) => rv == Some(self@[i].1),
                    None => rv is None,
                }
            }),
    {
        let ghost entries = self@;
        let n = self.entries.len();
        assert(entries.skip(0) =~= entries);
        let mut i: usize = 0;
        while i < n
            invariant
                n == self.entries@.len(),
                entries == self@,
                entries.len() == n,
                i <= n,
                spec_find_key(entries, key@) == (match spec_find_key(
                    entries.skip(i as int),
                    key@,
                ) {
                    Some(j) => Some(j + i as int),
                    None => None::<int>,
                }),
            decreases n - i,
        {
            let ghost pre_sub = entries.skip(i as int);
            assert(pre_sub[0] == entries[i as int]);
            assert(entries[i as int] == (self.entries@[i as int].0@, self.entries@[i as int].1.deep_view()));
            if str_eq(self.entries[i].0.as_str(), key) {
                let values = clone_string_vec(&self.entries[i].1);
                return Some(values);
            }
            i += 1;
            proof {
                assert(pre_sub.drop_first() =~= entries.skip(i as int));
            }
        }
        assert(entries.skip(n as int) =~= Seq::<(Seq<char>, Seq<Seq<char>>)>::empty());
        None
    }
}

/// The index of the first entry keyed exactly `key`.
pub open spec fn spec_find_key(entries: Seq<(Seq<char>, Seq<Seq<char>>)>, key: Seq<char>) -> Option<
    int,
>
    decreases entries.len(),
{
    if entries.len() == 0 {
        None
    } else if entries[0].0 == key {
        Some(0)
    } else {
        match spec_find_key(entries.drop_first(), key) {
            Some(i) => Some(i + 1),
            None => None,
        }
    }
}

/// Copies a vector of strings, keeping its view.
pub(crate) fn clone_string_vec(v: &Vec<String>) -> (r: Vec<String>)
    ensures
        r.deep_view() == v.deep_view(),
{
    let mut out: Vec<String> = Vec::new();
    let mut i: usize = 0;
    while i < v.len()
        invariant
            i <= v@.len(),
            out.deep_view() =~= v.deep_view().subrange(0, i as int),
        decreases v@.len() - i,
    {
        let ghost pre = out.deep_view();
        out.push(v[i].clone());
        assert(out.deep_view() =~= pre.push(v@[i as int]@));
        i += 1;
    }
    assert(v.deep_view().subrange(0, v@.len() as int) =~= v.deep_view());
    out
}

/// Reads a crate mapping file into its declared prefix and its raw,
/// unprefixed entries; a text without a `mappings:` section is
/// rejected.
pub(crate) fn parse_document(text: &str) -> (r: Result<(String, CrateMap), Error>)
    ensures
        match r {
            Ok(pm) => spec_parse_crate_map(text@) == Some((pm.0@, pm.1@)),
            Err(_) => spec_parse_crate_map(text@) is None,
        },
{
    let lines = split_lines(text);
    let ghost lines_dv = lines.deep_view();
    let mut prefix = String::new();
    let mut saw_mappings = false;
    let mut in_mappings = false;
    let mut active = false;
    let mut out = CrateMap::new();
    let mut i: usize = 0;
    while i < lines.len()
        invariant
            lines_dv == lines.deep_view(),
            lines_dv.len() == lines@.len(),
            i <= lines@.len(),
            ({
                let st = spec_parse_lines(lines_dv, i as int);
                &&& st.prefix == prefix@
                &&& st.saw_mappings == saw_mappings
                &&& st.in_mappings == in_mappings
                &&& st.active == active
                &&& st.entries == out@
                &&& (st.active ==> st.entries.len() > 0)
            }),
        decreases lines@.len() - i,
    {
        let ghost st = spec_parse_lines(lines_dv, i as int);
        let line = &lines[i];
        assert(line@ == lines_dv[i as int]);
        let t = trim_str(line.as_str());
        let tlen = t.as_str().unicode_len();
        if tlen == 0 {
            // a blank line changes nothing
        } else {
            proof {
                crate::paths::lemma_trim_len(line@);
            }
            assert(line@.len() > 0);
            if !is_space(line.as_str().get_char(0)) {
                if str_eq(t.as_str(), "mappings:") {
                    saw_mappings = true;
                    in_mappings = true;
                    active = false;
                } else if str_is_prefix("prefix:", t.as_str()) {
                    proof {
                        reveal_strlit("prefix:");
                    }
                    let rest = copy_range(t.as_str(), 7, tlen);
                    let trimmed = trim_str(rest.as_str());
                    prefix = unquote(trimmed.as_str());
                    in_mappings = false;
                    active = false;
                } else {
                    in_mappings = false;
                    active = false;
                }
            } else if in_mappings {
                if t.as_str().get_char(0) == '-' {
                    let rest = copy_range(t.as_str(), 1, tlen);
                    assert(rest@ =~= t@.drop_first());
                    let trimmed = trim_str(rest.as_str());
                    let v = unquote(trimmed.as_str());
                    if active && out.entries.len() > 0 && v.as_str().unicode_len() > 0 {
                        let ghost pre_entries = out@;
                        let last = out.entries.len() - 1;
                        let key_copy = out.entries[last].0.clone();
                        let mut values = clone_string_vec(&out.entries[last].1);
                        let ghost pre_values = values.deep_view();
                        values.push(v);
                        assert(values.deep_view() =~= pre_values.push(
                            spec_unquote(spec_trim(t@.drop_first())),
                        ));
                        out.entries.set(last, (key_copy, values));
                        assert(out@ =~~= pre_entries.update(
                            last as int,
                            (
                                pre_entries[last as int].0,
                                pre_entries[last as int].1.push(
                                    spec_unquote(spec_trim(t@.drop_first())),
                                ),
                            ),
                        ));
                    }
                } else if t.as_str().get_char(tlen - 1) == ':' {
                    let head = copy_range(t.as_str(), 0, tlen - 1);
                    assert(head@ =~= t@.drop_last());
                    let trimmed = trim_str(head.as_str());
                    let key = unquote(trimmed.as_str());
                    let key_len = key.as_str().unicode_len();
                    if key_len == 0 || key_exists(&out, key.as_str()) {
                        active = false;
                    } else {
                        let ghost pre_entries = out@;
                        out.entries.push((key, Vec::new()));
                        assert(out@ =~~= pre_entries.push(
                            (spec_unquote(spec_trim(t@.drop_last())), Seq::<Seq<char>>::empty()),
                        ));
                        active = true;
                    }
                } else {
                    // an unrecognized indented line is ignored
                }
            } else {
                // indented text outside the mappings section is ignored
            }
        }
        i += 1;
        proof {
            assert(spec_parse_lines(lines_dv, i as int) == spec_parse_step(st, lines_dv[i - 1]));
        }
    }
    if !saw_mappings {
        return Err(Error::ParsingFailed);
    }
    Ok((prefix, out))
}

/// Reads a crate mapping file: an optional `prefix:` value and a
/// `mappings:` section associating each destination crate name with its
/// source paths. The returned entries carry the prefixed crate names in
/// file order; a text without a `mappings:` section is rejected.
pub fn parse_crate_map(text: &str) -> (r: Result<CrateMap, Error>)
    ensures
        match r {
            Ok(m) => spec_import_crate_map(text@) == Some(m@),
            Err(_) => spec_import_crate_map(text@) is None,
        },
{
    match parse_document(text) {
        Ok((prefix, raw)) => Ok(apply_prefix(prefix, raw)),
        Err(e) => Err(e),
    }
}

/// The index of the last `.` of a segment, if any.
pub open spec fn last_dot(s: Seq<char>) -> Option<int>
    decreases s.len(),
{
    if s.len() == 0 {
        None
    } else if s.last() == '.' {
        Some(s.len() - 1)
    } else {
        last_dot(s.drop_last())
    }
}

/// The extension of a path: what follows the last `.` of its final
/// segment. A name whose only `.` starts it (a hidden file) has none.
pub open spec fn spec_extension(p: Seq<char>) -> Option<Seq<char>> {
    let seg = spec_split(p).last();
    match last_dot(seg) {
        None => None,
        Some(k) => if k == 0 {
            None
        } else {
            Some(seg.skip(k + 1))
        },
    }
}

/// Whether a path carries one of the audio extensions this importer
/// accepts from directory sources: wav, aiff, aif, mp3, ogg, flac, aac
/// or m4a, exactly and case-sensitively.
pub open spec fn spec_is_supported_audio_ext(p: Seq<char>) -> bool {
    match spec_extension(p) {
        None => false,
        Some(e) => e == "wav"@ || e == "aiff"@ || e == "aif"@ || e == "mp3"@ || e == "ogg"@ || e
            == "flac"@ || e == "aac"@ || e == "m4a"@,
    }
}

/// Whether the path names a file with a supported audio extension.
pub fn is_supported_audio_ext(path: &str) -> (r: bool)
    ensures
        r == spec_is_supported_audio_ext(path@),
{
    let segs = split_slash(path);
    let ghost segs_dv = segs.deep_view();
    let last_idx = segs.len() - 1;
    let seg = &segs[last_idx];
    assert(seg@ == segs_dv.last());
    let len = seg.as_str().unicode_len();
    assert(seg@.take(len as int) =~= seg@);
    let mut j: usize = len;
    while j > 0 && seg.as_str().get_char(j - 1) != '.'
        invariant
            len == seg@.len(),
            j <= len,
            last_dot(seg@) == last_dot(seg@.take(j as int)),
        decreases j,
    {
        proof {
            let sub = seg@.take(j as int);
            assert(sub.last() == seg@[j - 1]);
            assert(sub.drop_last() =~= seg@.take(j - 1));
        }
        j -= 1;
    }
    if j == 0 {
        proof {
            assert(seg@.take(0) =~= Seq::<char>::empty());
        }
        return false;
    }
    proof {
        let sub = seg@.take(j as int);
        assert(sub.last() == seg@[j - 1]);
        assert(last_dot(seg@) == Some(j - 1));
    }
    if j == 1 {
        // the dot starts the name: a hidden file has no extension
        return false;
    }
    let ext = copy_range(seg.as_str(), j, len);
    assert(ext@ =~= seg@.skip(j as int));
    str_eq(ext.as_str(), "wav") || str_eq(ext.as_str(), "aiff") || str_eq(ext.as_str(), "aif")
        || str_eq(ext.as_str(), "mp3") || str_eq(ext.as_str(), "ogg") || str_eq(
        ext.as_str(),
        "flac",
    ) || str_eq(ext.as_str(), "aac") || str_eq(ext.as_str(), "m4a")
}

/// The index of the last `/`, if any.
pub open spec fn last_slash(s: Seq<char>) -> Option<int>
    decreases s.len(),
{
    if s.len() == 0 {
        None
    } else if s.last() == '/' {
        Some(s.len() - 1)
    } else {
        last_slash(s.drop_last())
    }
}

/// The directory containing a path: everything before its last `/`; the
/// root stays the root, and a bare name has the empty parent.
pub open spec fn spec_parent(p: Seq<char>) -> Seq<char> {
    match last_slash(p) {
        None => Seq::empty(),
        Some(k) => if k == 0 {
            seq!['/']
        } else {
            p.take(k)
        },
    }
}

/// The directory containing `path`.
pub fn parent_of(path: &str) -> (r: String)
    ensures
        r@ == spec_parent(path@),
{
    let len = path.unicode_len();
    assert(path@.take(len as int) =~= path@);
    let mut j: usize = len;
    while j > 0 && path.get_char(j - 1) != '/'
        invariant
            len == path@.len(),
            j <= len,
            last_slash(path@) == last_slash(path@.take(j as int)),
        decreases j,
    {
        proof {
            let sub = path@.take(j as int);
            assert(sub.last() == path@[j - 1]);
            assert(sub.drop_last() =~= path@.take(j - 1));
        }
        j -= 1;
    }
    if j == 0 {
        proof {
            assert(path@.take(0) =~= Seq::<char>::empty());
        }
        return String::new();
    }
    proof {
        let sub = path@.take(j as int);
        assert(sub.last() == path@[j - 1]);
        assert(last_slash(path@) == Some(j - 1));
    }
    if j == 1 {
        let mut root = String::new();
        push_char(&mut root, '/');
        assert(root@ =~= seq!['/']);
        return root;
    }
    copy_range(path, 0, j - 1)
}

/// One file-system source feeding a crate: a directory whose immediate
/// entries were listed, or a playlist file whose lines were read. The
/// tag is settled once, when the input is collected, never by
/// re-inspecting the file system.
pub enum PathSource {
    /// A directory: its path and the full paths of its immediate
    /// entries.
    Directory { path: String, entries: Vec<String> },
    /// A playlist file: its path and its lines, one path reference per
    /// line.
    Playlist { path: String, lines: Vec<String> },
}

/// How one directory entry becomes a lookup key: resolved against the
/// import root, slashes made forward.
pub open spec fn spec_entry_candidate(entry: Seq<char>, base: Seq<char>) -> Seq<char> {
    spec_forward_slashes(spec_resolve_base(entry, base))
}

/// How one playlist line becomes a lookup key: resolved against the
/// playlist's own directory, slashes made forward.
pub open spec fn spec_line_candidate(line: Seq<char>, playlist: Seq<char>) -> Seq<char> {
    spec_forward_slashes(spec_resolve_base(line, spec_parent(playlist)))
}

/// The candidate lookup keys of the first `n` directory entries: the
/// entries with a supported audio extension, resolved in order.
pub open spec fn spec_dir_candidates(entries: Seq<Seq<char>>, base: Seq<char>, n: int) -> Seq<
    Seq<char>,
>
    decreases n,
{
    if n <= 0 {
        Seq::empty()
    } else {
        let prev = spec_dir_candidates(entries, base, n - 1);
        if spec_is_supported_audio_ext(entries[n - 1]) {
            prev.push(spec_entry_candidate(entries[n - 1], base))
        } else {
            prev
        }
    }
}

/// The candidate lookup keys of the first `n` playlist lines, resolved
/// in order. Whether each candidate exists on disk is the caller's to
/// check: only existing ones may be connected.
pub open spec fn spec_playlist_candidates(
    lines: Seq<Seq<char>>,
    playlist: Seq<char>,
    n: int,
) -> Seq<Seq<char>>
    decreases n,
{
    if n <= 0 {
        Seq::empty()
    } else {
        let prev = spec_playlist_candidates(lines, playlist, n - 1);
        prev.push(spec_line_candidate(lines[n - 1], playlist))
    }
}

/// The candidate lookup keys a source produces: a directory source
/// keeps only entries on the audio allow-list and resolves them against
/// the import root `base`; a playlist source resolves every line
/// against the playlist's own directory.
pub open spec fn spec_candidate_paths(source: PathSource, base: Seq<char>) -> Seq<Seq<char>> {
    match source {
        PathSource::Directory { path: _, entries } => spec_dir_candidates(
            entries.deep_view(),
            base,
            entries.deep_view().len() as int,
        ),
        PathSource::Playlist { path, lines } => spec_playlist_candidates(
            lines.deep_view(),
            path@,
            lines.deep_view().len() as int,
        ),
    }
}

/// Produces the candidate lookup keys of one source.
pub fn candidate_paths(source: &PathSource, base: &str) -> (r: Vec<String>)
    ensures
        r.deep_view() == spec_candidate_paths(*source, base@),
{
    let mut out: Vec<String> = Vec::new();
    assert(out.deep_view() =~= Seq::<Seq<char>>::empty());
    match source {
        PathSource::Directory { path: _, entries } => {
            let ghost entries_dv = entries.deep_view();
            let mut i: usize = 0;
            while i < entries.len()
                invariant
                    entries_dv == entries.deep_view(),
                    entries_dv.len() == entries@.len(),
                    i <= entries@.len(),
                    out.deep_view() == spec_dir_candidates(entries_dv, base@, i as int),
                decreases entries@.len() - i,
            {
                assert(entries_dv[i as int] == entries@[i as int]@);
                if is_supported_audio_ext(entries[i].as_str()) {
                    let resolved = resolve_base_str(entries[i].as_str(), base);
                    let candidate = forward_slashes(resolved.as_str());
                    let ghost pre = out.deep_view();
                    out.push(candidate);
                    assert(out.deep_view() =~= pre.push(
                        spec_entry_candidate(entries_dv[i as int], base@),
                    ));
                }
                i += 1;
            }
        },
        PathSource::Playlist { path, lines } => {
            let ghost lines_dv = lines.deep_view();
            let dir = parent_of(path.as_str());
            let mut i: usize = 0;
            while i < lines.len()
                invariant
                    lines_dv == lines.deep_view(),
                    lines_dv.len() == lines@.len(),
                    i <= lines@.len(),
                    dir@ == spec_parent(path@),
                    out.deep_view() == spec_playlist_candidates(lines_dv, path@, i as int),
                decreases lines@.len() - i,
            {
                assert(lines_dv[i as int] == lines@[i as int]@);
                let resolved = resolve_base_str(lines[i].as_str(), dir.as_str());
                let candidate = forward_slashes(resolved.as_str());
                let ghost pre = out.deep_view();
                out.push(candidate);
                assert(out.deep_view() =~= pre.push(
                    spec_line_candidate(lines_dv[i as int], path@),
                ));
                i += 1;
            }
        },
    }
    out
}

/// Whether some entry already carries the key `key`.
fn key_exists(map: &CrateMap, key: &str) -> (r: bool)
    ensures
        r == spec_key_exists(map@, key@),
{
    let ghost entries = map@;
    let mut i: usize = 0;
    while i < map.entries.len()
        invariant
            entries == map@,
            entries.len() == map.entries@.len(),
            i <= map.entries@.len(),
            forall|j: int| 0 <= j < i ==> (#[trigger] entries[j]).0 != key@,
        decreases map.entries@.len() - i,
    {
        assert(entries[i as int].0 == map.entries@[i as int].0@);
        if str_eq(map.entries[i].0.as_str(), key) {
            assert(spec_key_exists(entries, key@));
            return true;
        }
        i += 1;
    }
    false
}

/// Puts the prefix in front of every key.
fn apply_prefix(prefix: String, map: CrateMap) -> (r: CrateMap)
    ensures
        r@ == spec_prefixed(prefix@, map@),
{
    let mut out = CrateMap::new();
    let ghost entries = map@;
    let mut i: usize = 0;
    while i < map.entries.len()
        invariant
            entries == map@,
            entries.len() == map.entries@.len(),
            i <= map.entries@.len(),
            out@ =~~= spec_prefixed(prefix@, entries.subrange(0, i as int)),
        decreases map.entries@.len() - i,
    {
        assert(entries[i as int] == (map.entries@[i as int].0@, map.entries@[
            i as int].1.deep_view()));
        let ghost pre = out@;
        let mut name = prefix.clone();
        name.append(map.entries[i].0.as_str());
        let values = clone_string_vec(&map.entries[i].1);
        out.entries.push((name, values));
        assert(out@ =~~= pre.push((prefix@ + entries[i as int].0, entries[i as int].1)));
        i += 1;
        assert(out@ =~~= spec_prefixed(prefix@, entries.subrange(0, i as int)));
    }
    assert(entries.subrange(0, entries.len() as int) =~= entries);
    out
}

} // verus!
