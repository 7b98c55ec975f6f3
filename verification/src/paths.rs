//! The path resolver: turns raw path strings (possibly quoted, using
//! either slash convention, absolute or relative) into normalized,
//! forward-slash lookup keys, collapsing `.` and `..` lexically.
//!
//! Paths are plain strings throughout. A path is treated as absolute
//! when it starts with `/` or when its first `/`-separated segment ends
//! in `:` (a drive designator); this one deterministic rule covers both
//! slash conventions after normalization.

use vstd::prelude::*;

use crate::text::copy_range;
use crate::text::is_space;
use crate::text::is_space_char;
use crate::text::push_char;

verus! {

/// `s` with leading whitespace characters removed.
pub open spec fn spec_trim_start(s: Seq<char>) -> Seq<char>
    decreases s.len(),
{
    if s.len() > 0 && is_space_char(s[0]) {
        spec_trim_start(s.drop_first())
    } else {
        s
    }
}

/// `s` with trailing whitespace characters removed.
pub open spec fn spec_trim_end(s: Seq<char>) -> Seq<char>
    decreases s.len(),
{
    if s.len() > 0 && is_space_char(s.last()) {
        spec_trim_end(s.drop_last())
    } else {
        s
    }
}

/// `s` with surrounding whitespace removed, as `str::trim` leaves it.
pub open spec fn spec_trim(s: Seq<char>) -> Seq<char> {
    spec_trim_end(spec_trim_start(s))
}

/// One surrounding layer of `pat` removed, when present on both ends.
pub open spec fn spec_trim_surround(s: Seq<char>, pat: char) -> Seq<char> {
    if s.len() >= 2 && s[0] == pat && s[s.len() - 1] == pat {
        s.subrange(1, s.len() - 1)
    } else {
        s
    }
}

/// A backslash made forward; other characters unchanged.
pub open spec fn spec_fwd(c: char) -> char {
    if c == '\\' {
        '/'
    } else {
        c
    }
}

/// Every backslash replaced by a forward slash.
pub open spec fn spec_forward_slashes(s: Seq<char>) -> Seq<char> {
    s.map_values(|c: char| spec_fwd(c))
}

/// The normalized form of a raw path string: surrounding whitespace
/// dropped, one layer of double quotes stripped, backslashes made
/// forward.
pub open spec fn spec_normalize_path(s: Seq<char>) -> Seq<char> {
    spec_forward_slashes(spec_trim_surround(spec_trim(s), '"'))
}

/// Trimming never lengthens a string: a non-empty trimmed form comes
/// from a non-empty original.
pub proof fn lemma_trim_len(s: Seq<char>)
    ensures
        spec_trim(s).len() <= s.len(),
    decreases s.len(),
{
    lemma_trim_start_len(s);
    lemma_trim_end_len(spec_trim_start(s));
}

proof fn lemma_trim_start_len(s: Seq<char>)
    ensures
        spec_trim_start(s).len() <= s.len(),
    decreases s.len(),
{
    if s.len() > 0 && is_space_char(s[0]) {
        lemma_trim_start_len(s.drop_first());
    }
}

proof fn lemma_trim_end_len(s: Seq<char>)
    ensures
        spec_trim_end(s).len() <= s.len(),
    decreases s.len(),
{
    if s.len() > 0 && is_space_char(s.last()) {
        lemma_trim_end_len(s.drop_last());
    }
}

/// `s` with surrounding whitespace removed.
pub fn trim_str(s: &str) -> (r: String)
    ensures
        r@ == spec_trim(s@),
{
    let n = s.unicode_len();
    assert(s@.subrange(0, n as int) =~= s@);
    let mut i: usize = 0;
    while i < n && is_space(s.get_char(i))
        invariant
            n == s@.len(),
            i <= n,
            spec_trim_start(s@) == spec_trim_start(s@.subrange(i as int, n as int)),
        decreases n - i,
    {
        proof {
            let sub = s@.subrange(i as int, n as int);
            assert(sub.drop_first() =~= s@.subrange(i + 1, n as int));
        }
        i += 1;
    }
    assert(spec_trim_start(s@) == s@.subrange(i as int, n as int));
    let mut j: usize = n;
    while j > i && is_space(s.get_char(j - 1))
        invariant
            n == s@.len(),
            i <= j <= n,
            spec_trim_end(s@.subrange(i as int, n as int)) == spec_trim_end(
                s@.subrange(i as int, j as int),
            ),
        decreases j,
    {
        proof {
            let sub = s@.subrange(i as int, j as int);
            assert(sub.last() == s@[j - 1]);
            assert(sub.drop_last() =~= s@.subrange(i as int, j - 1));
        }
        j -= 1;
    }
    assert(spec_trim_end(s@.subrange(i as int, j as int)) == s@.subrange(i as int, j as int));
    copy_range(s, i, j)
}

/// `s` with one surrounding layer of `pat` removed, when present.
pub fn trim_surround_str(s: &str, pat: char) -> (r: String)
    ensures
        r@ == spec_trim_surround(s@, pat),
{
    let n = s.unicode_len();
    if n >= 2 && s.get_char(0) == pat && s.get_char(n - 1) == pat {
        copy_range(s, 1, n - 1)
    } else {
        copy_range(s, 0, n)
    }
}

/// `s` with every backslash replaced by a forward slash.
pub fn forward_slashes(s: &str) -> (r: String)
    ensures
        r@ == spec_forward_slashes(s@),
{
    let n = s.unicode_len();
    let mut out = String::new();
    let mut i: usize = 0;
    while i < n
        invariant
            n == s@.len(),
            i <= n,
            out@ =~= s@.subrange(0, i as int).map_values(|c: char| spec_fwd(c)),
        decreases n - i,
    {
        let c = s.get_char(i);
        if c == '\\' {
            push_char(&mut out, '/');
        } else {
            push_char(&mut out, c);
        }
        i += 1;
        assert(out@ =~= s@.subrange(0, i as int).map_values(|c: char| spec_fwd(c)));
    }
    assert(s@.subrange(0, n as int) =~= s@);
    out
}

/// The normalized form of a raw path string.
pub fn normalize_path_str(s: &str) -> (r: String)
    ensures
        r@ == spec_normalize_path(s@),
{
    let t = trim_str(s);
    let u = trim_surround_str(t.as_str(), '"');
    forward_slashes(u.as_str())
}

/// Strips one surrounding layer of a repeated character.
pub trait TrimSurround: View<V = Seq<char>> + Sized {
    fn trim_surround(self, pat: char) -> (r: Self)
        ensures
            r@ == spec_trim_surround(self@, pat),
    ;
}

impl<'a> TrimSurround for &'a str {
    fn trim_surround(self, pat: char) -> (r: &'a str) {
        let n = self.unicode_len();
        if n >= 2 && self.get_char(0) == pat && self.get_char(n - 1) == pat {
            self.substring_char(1, n - 1)
        } else {
            self
        }
    }
}

impl TrimSurround for String {
    fn trim_surround(self, pat: char) -> (r: String) {
        trim_surround_str(self.as_str(), pat)
    }
}

/// Turns a raw path string into its normalized, forward-slash form.
pub trait NormalizePath: View<V = Seq<char>> + Sized {
    fn normalize_path(self) -> (r: String)
        ensures
            r@ == spec_normalize_path(self@),
    ;
}

impl<'a> NormalizePath for &'a str {
    fn normalize_path(self) -> (r: String) {
        normalize_path_str(self)
    }
}

impl NormalizePath for String {
    fn normalize_path(self) -> (r: String) {
        normalize_path_str(self.as_str())
    }
}

/// Splitting a path into `/`-separated segments, consuming the path
/// from the front with the segment built so far and the segments
/// already finished.
pub open spec fn spec_split_rec(s: Seq<char>, cur: Seq<char>, acc: Seq<Seq<char>>) -> Seq<
    Seq<char>,
>
    decreases s.len(),
{
    if s.len() == 0 {
        acc.push(cur)
    } else if s[0] == '/' {
        spec_split_rec(s.drop_first(), Seq::empty(), acc.push(cur))
    } else {
        spec_split_rec(s.drop_first(), cur.push(s[0]), acc)
    }
}

/// The `/`-separated segments of a path; always at least one segment.
pub open spec fn spec_split(s: Seq<char>) -> Seq<Seq<char>> {
    spec_split_rec(s, Seq::empty(), Seq::empty())
}

/// A drive designator segment, such as `C:`.
pub open spec fn spec_is_drive(seg: Seq<char>) -> bool {
    seg.len() > 0 && seg[seg.len() - 1] == ':'
}

/// The current-directory segment `.`.
pub open spec fn seg_is_cur(seg: Seq<char>) -> bool {
    seg.len() == 1 && seg[0] == '.'
}

/// The parent-directory segment `..`.
pub open spec fn seg_is_parent(seg: Seq<char>) -> bool {
    seg.len() == 2 && seg[0] == '.' && seg[1] == '.'
}

/// Folding segments into a component stack: empty and `.` segments are
/// dropped, `..` pops the stack when it can, anything else is pushed.
pub open spec fn spec_stack_rec(segs: Seq<Seq<char>>, st: Seq<Seq<char>>) -> Seq<Seq<char>>
    decreases segs.len(),
{
    if segs.len() == 0 {
        st
    } else {
        let s0 = segs[0];
        let st2 = if s0.len() == 0 || seg_is_cur(s0) {
            st
        } else if seg_is_parent(s0) {
            if st.len() > 0 {
                st.drop_last()
            } else {
                st
            }
        } else {
            st.push(s0)
        };
        spec_stack_rec(segs.drop_first(), st2)
    }
}

/// Segments joined with `/` between them.
pub open spec fn spec_join(parts: Seq<Seq<char>>) -> Seq<char>
    decreases parts.len(),
{
    if parts.len() == 0 {
        Seq::empty()
    } else if parts.len() == 1 {
        parts[0]
    } else {
        spec_join(parts.drop_last()) + seq!['/'] + parts.last()
    }
}

/// A path with `.` and `..` collapsed lexically: drive designator kept,
/// root kept, `..` popping one component where one is there to pop and
/// dropped otherwise. Symlinks are never consulted.
pub open spec fn spec_compress(s: Seq<char>) -> Seq<char> {
    let segs = spec_split(s);
    let has_drive = spec_is_drive(segs[0]);
    let prefix = if has_drive {
        segs[0]
    } else {
        Seq::<char>::empty()
    };
    let rest = if has_drive {
        segs.drop_first()
    } else {
        segs
    };
    let root = if has_drive {
        rest.len() > 0
    } else {
        s.len() > 0 && s[0] == '/'
    };
    let stack = spec_stack_rec(rest, Seq::empty());
    prefix + (if root {
        seq!['/']
    } else {
        Seq::<char>::empty()
    }) + spec_join(stack)
}

/// A path that stands on its own: it starts with `/` or with a drive
/// designator.
pub open spec fn spec_is_absolute(s: Seq<char>) -> bool {
    (s.len() > 0 && s[0] == '/') || spec_is_drive(spec_split(s)[0])
}

/// `base` and `rel` joined with exactly one `/` between them.
pub open spec fn spec_join_base(base: Seq<char>, rel: Seq<char>) -> Seq<char> {
    if base.len() == 0 {
        rel
    } else if base[base.len() - 1] == '/' {
        base + rel
    } else {
        base + seq!['/'] + rel
    }
}

/// An absolute path is kept as it is; a relative one is joined to
/// `base` and collapsed.
pub open spec fn spec_resolve_base(p: Seq<char>, base: Seq<char>) -> Seq<char> {
    if spec_is_absolute(p) {
        p
    } else {
        spec_compress(spec_join_base(base, p))
    }
}

/// The `/`-separated segments of `s`.
pub fn split_slash(s: &str) -> (r: Vec<String>)
    ensures
        r.deep_view() == spec_split(s@),
        r.len() >= 1,
{
    let n = s.unicode_len();
    let mut cur = String::new();
    let mut acc: Vec<String> = Vec::new();
    assert(s@.subrange(0, n as int) =~= s@);
    assert(acc.deep_view() =~= Seq::<Seq<char>>::empty());
    let mut i: usize = 0;
    while i < n
        invariant
            n == s@.len(),
            i <= n,
            spec_split(s@) == spec_split_rec(s@.subrange(i as int, n as int), cur@, acc.deep_view()),
        decreases n - i,
    {
        let ghost pre_sub = s@.subrange(i as int, n as int);
        let c = s.get_char(i);
        if c == '/' {
            let ghost old_acc = acc.deep_view();
            let ghost old_cur = cur@;
            acc.push(cur);
            cur = String::new();
            assert(acc.deep_view() =~= old_acc.push(old_cur));
        } else {
            push_char(&mut cur, c);
        }
        i += 1;
        proof {
            assert(pre_sub.drop_first() =~= s@.subrange(i as int, n as int));
        }
    }
    assert(s@.subrange(n as int, n as int) =~= Seq::<char>::empty());
    let ghost old_acc = acc.deep_view();
    let ghost last = cur@;
    acc.push(cur);
    assert(acc.deep_view() =~= old_acc.push(last));
    acc
}

/// Collapses `.` and `..` in `path` lexically, never touching the file
/// system.
pub fn compress(path: &str) -> (r: String)
    ensures
        r@ == spec_compress(path@),
{
    let segs = split_slash(path);
    let ghost segs_dv = segs.deep_view();
    assert(forall|m: int| 0 <= m < segs_dv.len() ==> segs_dv[m] == segs@[m]@);
    let first_len = segs[0].as_str().unicode_len();
    let has_drive = first_len > 0 && segs[0].as_str().get_char(first_len - 1) == ':';
    assert(has_drive == spec_is_drive(segs_dv[0]));
    let root = if has_drive {
        segs.len() > 1
    } else {
        path.unicode_len() > 0 && path.get_char(0) == '/'
    };
    let ghost rest = if has_drive {
        segs_dv.drop_first()
    } else {
        segs_dv
    };
    assert(root == if has_drive {
        rest.len() > 0
    } else {
        path@.len() > 0 && path@[0] == '/'
    });
    let start: usize = if has_drive {
        1
    } else {
        0
    };
    let mut stack: Vec<String> = Vec::new();
    assert(stack.deep_view() =~= Seq::<Seq<char>>::empty());
    assert(rest.subrange(0, rest.len() as int) =~= rest);
    let mut k: usize = start;
    while k < segs.len()
        invariant
            start <= k <= segs.len(),
            start == (if has_drive {
                1int
            } else {
                0int
            }),
            segs_dv == segs.deep_view(),
            segs_dv.len() == segs.len(),
            rest == (if has_drive {
                segs_dv.drop_first()
            } else {
                segs_dv
            }),
            spec_stack_rec(rest, Seq::empty()) == spec_stack_rec(
                rest.subrange(k - start, rest.len() as int),
                stack.deep_view(),
            ),
        decreases segs.len() - k,
    {
        proof {
            assert(rest[k - start] == segs_dv[k as int]);
            assert(segs_dv[k as int] == segs@[k as int]@);
        }
        let ghost pre_rest = rest.subrange(k - start, rest.len() as int);
        let ghost pre_stack = stack.deep_view();
        let seg = &segs[k];
        let slen = seg.as_str().unicode_len();
        if slen == 0 || (slen == 1 && seg.as_str().get_char(0) == '.') {
            // dropped
        } else if slen == 2 && seg.as_str().get_char(0) == '.' && seg.as_str().get_char(1) == '.' {
            if stack.len() > 0 {
                let _ = stack.pop();
                assert(stack.deep_view() =~= pre_stack.drop_last());
            }
        } else {
            stack.push(seg.clone());
            assert(stack.deep_view() =~= pre_stack.push(segs_dv[k as int]));
        }
        k += 1;
        proof {
            assert(pre_rest[0] == rest[k - 1 - start]);
            assert(pre_rest.drop_first() =~= rest.subrange(k - start, rest.len() as int));
        }
    }
    assert(rest.subrange(rest.len() as int, rest.len() as int) =~= Seq::<Seq<char>>::empty());
    assert(spec_stack_rec(rest, Seq::empty()) == stack.deep_view());
    let ghost prefix_part = if has_drive {
        segs_dv[0]
    } else {
        Seq::<char>::empty()
    };
    let ghost root_part = if root {
        seq!['/']
    } else {
        Seq::<char>::empty()
    };
    let mut out = String::new();
    if has_drive {
        out.append(segs[0].as_str());
    }
    if root {
        push_char(&mut out, '/');
    }
    assert(out@ =~= prefix_part + root_part);
    let ghost stack_dv = stack.deep_view();
    assert(stack_dv.subrange(0, 0) =~= Seq::<Seq<char>>::empty());
    let mut m: usize = 0;
    while m < stack.len()
        invariant
            m <= stack.len(),
            stack_dv == stack.deep_view(),
            stack_dv.len() == stack.len(),
            out@ == prefix_part + root_part + spec_join(stack_dv.subrange(0, m as int)),
        decreases stack.len() - m,
    {
        if m > 0 {
            push_char(&mut out, '/');
        }
        assert(stack@[m as int]@ == stack_dv[m as int]);
        out.append(stack[m].as_str());
        m += 1;
        proof {
            let sub = stack_dv.subrange(0, m as int);
            if m == 1 {
                assert(spec_join(sub) == sub[0]);
                assert(sub[0] == stack_dv[0]);
            } else {
                assert(sub.drop_last() =~= stack_dv.subrange(0, m - 1));
                assert(sub.last() == stack_dv[m - 1]);
            }
            assert(out@ =~= prefix_part + root_part + spec_join(sub));
        }
    }
    assert(stack_dv.subrange(0, stack_dv.len() as int) =~= stack_dv);
    assert(out@ == prefix_part + root_part + spec_join(stack_dv));
    out
}

/// Whether `path` is absolute: it starts with `/` or with a drive
/// designator.
pub fn is_absolute_path(path: &str) -> (r: bool)
    ensures
        r == spec_is_absolute(path@),
{
    if path.unicode_len() > 0 && path.get_char(0) == '/' {
        return true;
    }
    let segs = split_slash(path);
    assert(segs.deep_view()[0] == segs@[0]@);
    let first_len = segs[0].as_str().unicode_len();
    first_len > 0 && segs[0].as_str().get_char(first_len - 1) == ':'
}

/// `base` and `rel` joined with exactly one `/` between them.
pub fn join_base(base: &str, rel: &str) -> (r: String)
    ensures
        r@ == spec_join_base(base@, rel@),
{
    let blen = base.unicode_len();
    if blen == 0 {
        return rel.to_owned();
    }
    let mut out = base.to_owned();
    if base.get_char(blen - 1) != '/' {
        push_char(&mut out, '/');
    }
    out.append(rel);
    out
}

/// Resolves `p` against `base`: an absolute path is returned unchanged,
/// a relative one is joined to `base` and collapsed.
pub fn resolve_base_str(p: &str, base: &str) -> (r: String)
    ensures
        r@ == spec_resolve_base(p@, base@),
{
    if is_absolute_path(p) {
        p.to_owned()
    } else {
        let joined = join_base(base, p);
        compress(joined.as_str())
    }
}

/// Resolves a possibly relative path against a base directory.
pub trait ResolveBase: View<V = Seq<char>> + Sized {
    fn resolve_base(self, base: &str) -> (r: String)
        ensures
            r@ == spec_resolve_base(self@, base@),
    ;
}

impl<'a> ResolveBase for &'a str {
    fn resolve_base(self, base: &str) -> (r: String) {
        resolve_base_str(self, base)
    }
}

impl ResolveBase for String {
    fn resolve_base(self, base: &str) -> (r: String) {
        resolve_base_str(self.as_str(), base)
    }
}

} // verus!
