//! Path string utilities: separator-aware normalization, safe joining with
//! traversal rejection, Windows long-path prefixing, and drive letters.
//!
//! Paths are handled purely as character strings; both `\` and `/` act as
//! separators, and results are joined with `\`.

use vstd::prelude::*;
use vstd::string::StrSliceExecFns;
use vstd::string::StringExecFns;

verus! {

/// Errors from the path utilities.
#[derive(Debug, Clone, Copy, PartialEq, Eq, Structural)]
pub enum PathError {
    /// An absolute path was supplied where a relative one is required.
    AbsoluteJoin,
    /// The joined path escapes the base directory.
    Traversal,
    /// A relative path cannot be given the long-path prefix.
    NeedsAbsolute,
}

/// A path separator character.
pub open spec fn is_sep(c: char) -> bool {
    c == '\\' || c == '/'
}

/// The Windows long-path prefix `\\?\`.
pub open spec fn has_long_prefix(s: Seq<char>) -> bool {
    s.len() >= 4 && s[0] == '\\' && s[1] == '\\' && s[2] == '?' && s[3] == '\\'
}

/// The string with the long-path prefix removed, if present.
pub open spec fn strip_long_prefix(s: Seq<char>) -> Seq<char> {
    if has_long_prefix(s) {
        s.subrange(4, s.len() as int)
    } else {
        s
    }
}

/// An ASCII letter.
pub open spec fn is_ascii_alpha(c: char) -> bool {
    ('A' <= c && c <= 'Z') || ('a' <= c && c <= 'z')
}

/// Uppercase for ASCII letters, identity elsewhere.
pub open spec fn spec_upper(c: char) -> char {
    if 'a' <= c && c <= 'z' {
        ((c as u32 - 32) as u8) as char
    } else {
        c
    }
}

/// The drive letter of a path, after stripping any long-path prefix:
/// the first character, uppercased, when the second is `:`.
pub open spec fn spec_drive_letter(s: Seq<char>) -> Option<char> {
    let t = strip_long_prefix(s);
    if t.len() >= 2 && t[1] == ':' && is_ascii_alpha(t[0]) {
        Some(spec_upper(t[0]))
    } else {
        None
    }
}

/// A path that must not be joined onto a base: one that starts at a root
/// or names a drive.
pub open spec fn is_absolute_path(s: Seq<char>) -> bool {
    (s.len() >= 1 && is_sep(s[0])) || (s.len() >= 2 && s[1] == ':')
}

/// Whether a path carries the Windows long-path prefix.
pub fn is_long_path(path: &str) -> (r: bool)
    ensures
        r == has_long_prefix(path@),
{
    let n: usize = path.unicode_len();
    n >= 4 && path.get_char(0) == '\\' && path.get_char(1) == '\\' && path.get_char(2) == '?'
        && path.get_char(3) == '\\'
}

/// Removes the Windows long-path prefix if present.
pub fn from_long_path(path: &str) -> (r: String)
    ensures
        r@ == strip_long_prefix(path@),
{
    if is_long_path(path) {
        let n: usize = path.unicode_len();
        String::from_str(path.substring_char(4, n))
    } else {
        String::from_str(path)
    }
}

/// Adds the Windows long-path prefix when the path is long enough to need
/// it (260 characters or more) or when `force_long_path` is set.  A path
/// that already carries the prefix is returned unchanged.  A relative path
/// that needs the prefix is rejected: only an absolute path can carry it.
pub fn to_long_path(path: &str, force_long_path: bool) -> (r: Result<String, PathError>)
    ensures
        has_long_prefix(path@) ==> r is Ok && r->Ok_0@ == path@,
        !has_long_prefix(path@) && !(force_long_path || path@.len() >= 260) ==> r is Ok
            && r->Ok_0@ == path@,
        !has_long_prefix(path@) && (force_long_path || path@.len() >= 260) && is_absolute_path(
            path@,
        ) ==> r is Ok && r->Ok_0@ == seq!['\\', '\\', '?', '\\'] + path@,
        !has_long_prefix(path@) && (force_long_path || path@.len() >= 260) && !is_absolute_path(
            path@,
        ) ==> r == Err::<String, PathError>(PathError::NeedsAbsolute),
{
    if is_long_path(path) {
        return Ok(String::from_str(path));
    }
    let n: usize = path.unicode_len();
    let needs = force_long_path || n >= 260;
    if !needs {
        return Ok(String::from_str(path));
    }
    let absolute = (n >= 1 && {
        let c = path.get_char(0);
        c == '\\' || c == '/'
    }) || (n >= 2 && path.get_char(1) == ':');
    if absolute {
        proof {
            reveal_strlit("\\\\?\\");
        }
        let prefixed = String::from_str("\\\\?\\").concat(path);
        proof {
            assert(prefixed@ =~= seq!['\\', '\\', '?', '\\'] + path@);
        }
        Ok(prefixed)
    } else {
        Err(PathError::NeedsAbsolute)
    }
}

/// Uppercases an ASCII letter.
fn to_upper(c: char) -> (r: char)
    ensures
        r == spec_upper(c),
{
    if 'a' <= c && c <= 'z' {
        (((c as u32) - 32) as u8) as char
    } else {
        c
    }
}

/// Extracts the drive letter from a path, e.g. `C` from `C:\Windows`.
/// A path without a drive designator yields `None`.
pub fn get_drive_letter(path: &str) -> (r: Result<Option<char>, PathError>)
    ensures
        r == Ok::<Option<char>, PathError>(spec_drive_letter(path@)),
{
    let clean = from_long_path(path);
    let s = clean.as_str();
    let n: usize = s.unicode_len();
    if n >= 2 && s.get_char(1) == ':' {
        let c = s.get_char(0);
        if ('A' <= c && c <= 'Z') || ('a' <= c && c <= 'z') {
            return Ok(Some(to_upper(c)));
        }
    }
    Ok(None)
}

/// Character-wise string equality.
pub fn eq_str(a: &str, b: &str) -> (r: bool)
    ensures
        r == (a@ == b@),
{
    let n: usize = a.unicode_len();
    let m: usize = b.unicode_len();
    if n != m {
        return false;
    }
    let mut i: usize = 0;
    while i < n
        invariant
            n == a@.len(),
            n == b@.len(),
            i <= n,
            forall|q: int| 0 <= q < i ==> a@[q] == b@[q],
        decreases n - i,
    {
        if a.get_char(i) != b.get_char(i) {
            return false;
        }
        i = i + 1;
    }
    proof {
        assert(a@ =~= b@);
    }
    true
}

/// Character-wise prefix test.
pub fn starts_with_str(s: &str, prefix: &str) -> (r: bool)
    ensures
        r == (s@.len() >= prefix@.len() && s@.subrange(0, prefix@.len() as int) == prefix@),
{
    let n: usize = s.unicode_len();
    let m: usize = prefix.unicode_len();
    if n < m {
        return false;
    }
    let mut i: usize = 0;
    while i < m
        invariant
            n == s@.len(),
            m == prefix@.len(),
            m <= n,
            i <= m,
            forall|q: int| 0 <= q < i ==> s@[q] == prefix@[q],
        decreases m - i,
    {
        if s.get_char(i) != prefix.get_char(i) {
            proof {
                assert(s@.subrange(0, m as int)[i as int] != prefix@[i as int]);
            }
            return false;
        }
        i = i + 1;
    }
    proof {
        assert(s@.subrange(0, m as int) =~= prefix@);
    }
    true
}

/// Character-wise suffix test.
pub fn ends_with_str(s: &str, suffix: &str) -> (r: bool)
    ensures
        r == (s@.len() >= suffix@.len() && s@.subrange(
            s@.len() - suffix@.len(),
            s@.len() as int,
        ) == suffix@),
{
    let n: usize = s.unicode_len();
    let m: usize = suffix.unicode_len();
    if n < m {
        return false;
    }
    let mut i: usize = 0;
    while i < m
        invariant
            n == s@.len(),
            m == suffix@.len(),
            m <= n,
            i <= m,
            forall|q: int| 0 <= q < i ==> s@[n - m + q] == suffix@[q],
        decreases m - i,
    {
        if s.get_char(n - m + i) != suffix.get_char(i) {
            proof {
                assert(s@.subrange(n as int - m as int, n as int)[i as int] != suffix@[i as int]);
            }
            return false;
        }
        i = i + 1;
    }
    proof {
        assert(s@.subrange(n as int - m as int, n as int) =~= suffix@);
    }
    true
}

/// The segments of a path, split at every separator.  Empty segments are
/// kept here and dropped by normalization.
pub open spec fn split_path(s: Seq<char>) -> Seq<Seq<char>>
    decreases s.len(),
{
    if s.len() == 0 {
        seq![Seq::<char>::empty()]
    } else {
        let prev = split_path(s.drop_last());
        if is_sep(s.last()) {
            prev.push(Seq::<char>::empty())
        } else {
            prev.update(prev.len() - 1, prev.last().push(s.last()))
        }
    }
}

pub proof fn lemma_split_path_nonempty(s: Seq<char>)
    ensures
        split_path(s).len() >= 1,
    decreases s.len(),
{
    if s.len() > 0 {
        lemma_split_path_nonempty(s.drop_last());
    }
}

/// The `.` segment.
pub open spec fn is_dot_seg(seg: Seq<char>) -> bool {
    seg.len() == 1 && seg[0] == '.'
}

/// The `..` segment.
pub open spec fn is_dotdot_seg(seg: Seq<char>) -> bool {
    seg.len() == 2 && seg[0] == '.' && seg[1] == '.'
}

/// A drive designator segment such as `C:`, which `..` can never pop.
pub open spec fn is_drive_seg(seg: Seq<char>) -> bool {
    seg.len() > 0 && seg[seg.len() - 1] == ':'
}

/// Normalization over segments: empty and `.` segments are dropped, and
/// `..` pops the previous segment unless there is none or it is a drive
/// designator.
pub open spec fn norm_segs(segs: Seq<Seq<char>>) -> Seq<Seq<char>>
    decreases segs.len(),
{
    if segs.len() == 0 {
        Seq::<Seq<char>>::empty()
    } else {
        let prev = norm_segs(segs.drop_last());
        let last = segs.last();
        if last.len() == 0 || is_dot_seg(last) {
            prev
        } else if is_dotdot_seg(last) {
            if prev.len() > 0 && !is_drive_seg(prev.last()) {
                prev.drop_last()
            } else {
                prev
            }
        } else {
            prev.push(last)
        }
    }
}

/// Segments joined with `\`.
pub open spec fn join_segs(segs: Seq<Seq<char>>) -> Seq<char>
    decreases segs.len(),
{
    if segs.len() == 0 {
        Seq::<char>::empty()
    } else if segs.len() == 1 {
        segs[0]
    } else {
        join_segs(segs.drop_last()) + seq!['\\'] + segs.last()
    }
}

/// The normalized form of a path: split, normalize, join with `\`.
pub open spec fn normalized_path(s: Seq<char>) -> Seq<char> {
    join_segs(norm_segs(split_path(s)))
}

/// One segment list is a prefix of another.
pub open spec fn is_seg_prefix(a: Seq<Seq<char>>, b: Seq<Seq<char>>) -> bool {
    a.len() <= b.len() && a == b.subrange(0, a.len() as int)
}

/// Splits a path into its segments.
pub fn split_path_exec(s: &str) -> (segs: Vec<String>)
    ensures
        segs@.map_values(|t: String| t@) == split_path(s@),
{
    let n: usize = s.unicode_len();
    let mut segs: Vec<String> = Vec::new();
    let mut start: usize = 0;
    let mut i: usize = 0;
    proof {
        assert(s@.subrange(0, 0) =~= Seq::<char>::empty());
        assert(segs@.map_values(|t: String| t@) =~= Seq::<Seq<char>>::empty());
        assert(split_path(Seq::<char>::empty()) =~= Seq::<Seq<char>>::empty().push(
            Seq::<char>::empty(),
        ));
    }
    while i < n
        invariant
            n == s@.len(),
            start <= i <= n,
            split_path(s@.subrange(0, i as int)) == segs@.map_values(|t: String| t@).push(
                s@.subrange(start as int, i as int),
            ),
        decreases n - i,
    {
        let ghost pre = s@.subrange(0, i as int);
        let ghost post = s@.subrange(0, i as int + 1);
        proof {
            assert(post.drop_last() =~= pre);
            assert(post.last() == s@[i as int]);
        }
        let c = s.get_char(i);
        if c == '\\' || c == '/' {
            let ghost oldm = segs@.map_values(|t: String| t@);
            let seg = String::from_str(s.substring_char(start, i));
            segs.push(seg);
            proof {
                assert(s@.subrange(i as int + 1, i as int + 1) =~= Seq::<char>::empty());
                assert(segs@.map_values(|t: String| t@) =~= oldm.push(
                    s@.subrange(start as int, i as int),
                ));
                assert(split_path(post) == split_path(pre).push(Seq::<char>::empty()));
                assert(split_path(post) =~= segs@.map_values(|t: String| t@).push(
                    s@.subrange(i as int + 1, i as int + 1),
                ));
            }
            start = i + 1;
        } else {
            proof {
                let m = segs@.map_values(|t: String| t@);
                assert(split_path(pre) == m.push(s@.subrange(start as int, i as int)));
                assert(split_path(pre).last() == s@.subrange(start as int, i as int));
                assert(split_path(pre).len() == m.len() + 1);
                assert(s@.subrange(start as int, i as int).push(s@[i as int]) =~= s@.subrange(
                    start as int,
                    i as int + 1,
                ));
                assert(split_path(post) =~= m.push(s@.subrange(start as int, i as int + 1)));
            }
        }
        i = i + 1;
    }
    proof {
        assert(s@.subrange(0, n as int) =~= s@);
    }
    let last = String::from_str(s.substring_char(start, n));
    segs.push(last);
    proof {
        assert(segs@.map_values(|t: String| t@) =~= split_path(s@));
    }
    segs
}

/// Applies segment normalization: drops `.` and empty segments, resolves
/// `..` against the stack.
fn norm_stack_exec(segs: &Vec<String>) -> (out: Vec<String>)
    ensures
        out@.map_values(|t: String| t@) == norm_segs(segs@.map_values(|t: String| t@)),
{
    let mut out: Vec<String> = Vec::new();
    let mut j: usize = 0;
    while j < segs.len()
        invariant
            j <= segs.len(),
            out@.map_values(|t: String| t@) == norm_segs(
                segs@.map_values(|t: String| t@).subrange(0, j as int),
            ),
        decreases segs.len() - j,
    {
        let ghost all = segs@.map_values(|t: String| t@);
        let ghost pre = all.subrange(0, j as int);
        let ghost post = all.subrange(0, j as int + 1);
        proof {
            assert(post.drop_last() =~= pre);
            assert(post.last() == segs@[j as int]@);
        }
        let seg = &segs[j];
        let m = seg.as_str().unicode_len();
        if m == 0 || (m == 1 && seg.as_str().get_char(0) == '.') {
            // dropped
        } else if m == 2 && seg.as_str().get_char(0) == '.' && seg.as_str().get_char(1) == '.' {
            if out.len() > 0 {
                let t = out[out.len() - 1].as_str().unicode_len();
                let drive = t > 0 && out[out.len() - 1].as_str().get_char(t - 1) == ':';
                if !drive {
                    out.pop();
                    proof {
                        assert(out@.map_values(|t2: String| t2@) =~= norm_segs(pre).drop_last());
                    }
                }
            }
        } else {
            out.push(seg.clone());
            proof {
                assert(out@.map_values(|t2: String| t2@) =~= norm_segs(pre).push(
                    segs@[j as int]@,
                ));
            }
        }
        j = j + 1;
    }
    proof {
        assert(segs@.map_values(|t: String| t@).subrange(0, segs@.len() as int) =~= segs@.map_values(
            |t: String| t@,
        ));
    }
    out
}

/// Joins segments with `\`.
fn join_backslash(segs: &Vec<String>) -> (r: String)
    ensures
        r@ == join_segs(segs@.map_values(|t: String| t@)),
{
    let mut r = String::new();
    let mut j: usize = 0;
    while j < segs.len()
        invariant
            j <= segs.len(),
            r@ == join_segs(segs@.map_values(|t: String| t@).subrange(0, j as int)),
        decreases segs.len() - j,
    {
        let ghost all = segs@.map_values(|t: String| t@);
        let ghost pre = all.subrange(0, j as int);
        let ghost post = all.subrange(0, j as int + 1);
        proof {
            assert(post.drop_last() =~= pre);
            assert(post.last() == segs@[j as int]@);
        }
        if j > 0 {
            proof {
                reveal_strlit("\\");
            }
            r.append("\\");
        }
        r.append(segs[j].as_str());
        proof {
            if post.len() == 1 {
                assert(r@ =~= join_segs(post));
            } else {
                assert("\\"@ =~= seq!['\\']);
                assert(r@ =~= join_segs(pre) + seq!['\\'] + post.last());
            }
        }
        j = j + 1;
    }
    proof {
        assert(segs@.map_values(|t: String| t@).subrange(0, segs@.len() as int) =~= segs@.map_values(
            |t: String| t@,
        ));
    }
    r
}

/// Normalizes a path by resolving `.` and `..` segments and collapsing
/// repeated separators; the result is joined with `\`.
pub fn normalize_path(path: &str) -> (r: Result<String, PathError>)
    ensures
        r is Ok,
        r->Ok_0@ == normalized_path(path@),
{
    let segs = split_path_exec(path);
    let norm = norm_stack_exec(&segs);
    Ok(join_backslash(&norm))
}

/// Joins a relative path onto a base, rejecting absolute inputs and any
/// result whose normalized form escapes the normalized base.  A long
/// result is given the long-path prefix.
pub fn safe_join(base: &str, path: &str) -> (r: Result<String, PathError>)
    ensures
        is_absolute_path(path@) ==> r == Err::<String, PathError>(PathError::AbsoluteJoin),
        !is_absolute_path(path@) ==> ({
            let joined = base@ + seq!['\\'] + path@;
            let nb = norm_segs(split_path(base@));
            let nj = norm_segs(split_path(joined));
            &&& !is_seg_prefix(nb, nj) ==> r == Err::<String, PathError>(PathError::Traversal)
            &&& is_seg_prefix(nb, nj) ==> (match (r, long_form(join_segs(nj), false)) {
                (Ok(a), Ok(b)) => a@ == b,
                (Err(x), Err(y)) => x == y,
                _ => false,
            })
        }),
{
    let pn: usize = path.unicode_len();
    let absolute = (pn >= 1 && {
        let c = path.get_char(0);
        c == '\\' || c == '/'
    }) || (pn >= 2 && path.get_char(1) == ':');
    if absolute {
        return Err(PathError::AbsoluteJoin);
    }
    proof {
        reveal_strlit("\\");
        assert("\\"@ =~= seq!['\\']);
    }
    let joined = String::from_str(base).concat("\\").concat(path);
    proof {
        assert(joined@ =~= base@ + seq!['\\'] + path@);
    }
    let jsegs = split_path_exec(joined.as_str());
    let jnorm = norm_stack_exec(&jsegs);
    let bsegs = split_path_exec(base);
    let bnorm = norm_stack_exec(&bsegs);
    if bnorm.len() > jnorm.len() {
        return Err(PathError::Traversal);
    }
    let mut k: usize = 0;
    while k < bnorm.len()
        invariant
            k <= bnorm@.len() <= jnorm@.len(),
            forall|q: int| 0 <= q < k ==> bnorm@[q]@ == jnorm@[q]@,
            !is_absolute_path(path@),
            joined@ == base@ + seq!['\\'] + path@,
            bnorm@.map_values(|t: String| t@) == norm_segs(split_path(base@)),
            jnorm@.map_values(|t: String| t@) == norm_segs(split_path(joined@)),
        decreases bnorm.len() - k,
    {
        if !(bnorm[k].eq(&jnorm[k])) {
            proof {
                let nb = bnorm@.map_values(|t: String| t@);
                let nj = jnorm@.map_values(|t: String| t@);
                assert(nb[k as int] != nj.subrange(0, nb.len() as int)[k as int]);
            }
            return Err(PathError::Traversal);
        }
        k = k + 1;
    }
    proof {
        let nb = bnorm@.map_values(|t: String| t@);
        let nj = jnorm@.map_values(|t: String| t@);
        assert(nb =~= nj.subrange(0, nb.len() as int));
    }
    let norm = join_backslash(&jnorm);
    to_long_path(norm.as_str(), false)
}

/// The long-path form of a path: unchanged below 260 characters or when
/// already prefixed, otherwise prefixed when absolute, refused when
/// relative.
pub open spec fn long_form(s: Seq<char>, force: bool) -> Result<Seq<char>, PathError> {
    if has_long_prefix(s) {
        Ok(s)
    } else if !(force || s.len() >= 260) {
        Ok(s)
    } else if is_absolute_path(s) {
        Ok(seq!['\\', '\\', '?', '\\'] + s)
    } else {
        Err(PathError::NeedsAbsolute)
    }
}

/// Whether two paths carry the same drive letter; `false` when either has
/// none.
pub fn same_volume(path1: &str, path2: &str) -> (r: Result<bool, PathError>)
    ensures
        r == Ok::<bool, PathError>(
            match (spec_drive_letter(path1@), spec_drive_letter(path2@)) {
                (Some(d1), Some(d2)) => d1 == d2,
                _ => false,
            },
        ),
{
    let d1 = match get_drive_letter(path1) {
        Ok(d) => d,
        Err(e) => { return Err(e) },
    };
    let d2 = match get_drive_letter(path2) {
        Ok(d) => d,
        Err(e) => { return Err(e) },
    };
    match (d1, d2) {
        (Some(a), Some(b)) => Ok(a == b),
        _ => Ok(false),
    }
}

} // verus!
