//! The virtual file system: one profile's merged view of base and
//! workspace as a navigable tree.  Each call yields one directory node
//! with its immediate children, merged from both trees and sorted with
//! directories first, then case-insensitive name order.

use vstd::prelude::*;
use vstd::string::StrSliceExecFns;
use vstd::string::StringExecFns;
use crate::overlay::{
    FileMeta, ListingV, VirtualNodeSource, is_reserved_path, listing_wf, spec_classify,
    spec_overlay_at,
};

verus! {

/// Errors from the virtual view.
#[derive(Debug, Clone, Copy, PartialEq, Eq, Structural)]
pub enum OverlayError {
    /// The requested path is visible in neither tree.
    NotFound,
}

/// A file or directory of the virtual tree.
#[derive(Debug)]
pub struct VirtualNode {
    /// The entry name.
    pub name: String,
    /// The virtual path from the root.
    pub path: String,
    /// Whether this is a directory.
    pub is_directory: bool,
    /// File size in bytes; `None` for directories.
    pub size: Option<u64>,
    /// Where the entry comes from.
    pub source: VirtualNodeSource,
    /// Overlay entries are writable; base entries are not.
    pub writable: bool,
    /// Immediate children, present on the queried directory only.
    pub children: Option<Vec<VirtualNode>>,
    /// Modification time, when known.
    pub modified: Option<String>,
}

/// ASCII lowercase for ordering.
pub open spec fn ascii_lower(c: char) -> char {
    if 'A' <= c && c <= 'Z' {
        ((c as u32 + 32) as u8) as char
    } else {
        c
    }
}

/// Case-insensitive lexicographic order on names.
pub open spec fn lex_le(a: Seq<char>, b: Seq<char>) -> bool
    decreases a.len(),
{
    if a.len() == 0 {
        true
    } else if b.len() == 0 {
        false
    } else if ascii_lower(a[0]) == ascii_lower(b[0]) {
        lex_le(a.drop_first(), b.drop_first())
    } else {
        (ascii_lower(a[0]) as u32) < (ascii_lower(b[0]) as u32)
    }
}

/// The order is total.
pub proof fn lemma_lex_le_total(a: Seq<char>, b: Seq<char>)
    ensures
        lex_le(a, b) || lex_le(b, a),
    decreases a.len(),
{
    if a.len() > 0 && b.len() > 0 && ascii_lower(a[0]) == ascii_lower(b[0]) {
        lemma_lex_le_total(a.drop_first(), b.drop_first());
    }
}

/// Directory-first, then case-insensitive name order.
pub open spec fn child_le(
    a_dir: bool,
    a_name: Seq<char>,
    b_dir: bool,
    b_name: Seq<char>,
) -> bool {
    if a_dir && !b_dir {
        true
    } else if !a_dir && b_dir {
        false
    } else {
        lex_le(a_name, b_name)
    }
}

/// The query prefix of a directory path: empty for the root, otherwise
/// the path followed by `/`.
pub open spec fn dir_prefix(dir: Seq<char>) -> Seq<char> {
    if dir.len() == 0 {
        Seq::<char>::empty()
    } else {
        dir + seq!['/']
    }
}

/// A name has no separator.
pub open spec fn plain_name(s: Seq<char>) -> bool {
    s.len() > 0 && forall|i: int| 0 <= i < s.len() ==> s[i] != '/'
}

/// A name is a file child of a directory: the overlay shows a file at
/// exactly `dir/name`.
pub open spec fn is_file_child(b: ListingV, w: ListingV, dir: Seq<char>, nm: Seq<char>) -> bool {
    plain_name(nm) && spec_overlay_at(b, w, dir_prefix(dir) + nm) is Some
}

/// A listing has a path strictly below a directory.
pub open spec fn any_below(l: ListingV, d: Seq<char>) -> bool {
    exists|i: int| 0 <= i < l.len() && is_strictly_below((#[trigger] l[i]).0, d)
}

/// A workspace listing has a visible path strictly below a directory.
pub open spec fn any_visible_below(w: ListingV, d: Seq<char>) -> bool {
    exists|i: int|
        0 <= i < w.len() && is_strictly_below((#[trigger] w[i]).0, d) && !is_reserved_path(w[i].0)
}

/// A listing has a path strictly below `dir/name`.
pub open spec fn listing_has_below(l: ListingV, dir: Seq<char>, nm: Seq<char>) -> bool {
    any_below(l, dir_prefix(dir) + nm)
}

/// A workspace listing has a visible path strictly below `dir/name`.
pub open spec fn ws_has_below(w: ListingV, dir: Seq<char>, nm: Seq<char>) -> bool {
    any_visible_below(w, dir_prefix(dir) + nm)
}

/// A path lies strictly below a directory: it starts with the
/// directory's name and a separator.
pub open spec fn is_strictly_below(p: Seq<char>, d: Seq<char>) -> bool {
    p.len() > d.len() + 1 && p.subrange(0, d.len() as int) == d && p[d.len() as int] == '/'
}

/// A name is a directory child of `dir`: some visible path of either
/// tree lies strictly below `dir/name`.
pub open spec fn is_dir_child(b: ListingV, w: ListingV, dir: Seq<char>, nm: Seq<char>) -> bool {
    plain_name(nm) && (listing_has_below(b, dir, nm) || ws_has_below(w, dir, nm))
}

/// The source of a directory child, decided by which trees hold
/// something below it.
pub open spec fn dir_child_source(
    b: ListingV,
    w: ListingV,
    dir: Seq<char>,
    nm: Seq<char>,
) -> VirtualNodeSource {
    match spec_classify(listing_has_below(b, dir, nm), ws_has_below(w, dir, nm)) {
        Some(s) => s,
        None => VirtualNodeSource::Base,
    }
}

/// A correct child node of `dir` under the merged view.
pub open spec fn child_ok(b: ListingV, w: ListingV, dir: Seq<char>, c: VirtualNode) -> bool {
    &&& c.path@ == dir_prefix(dir) + c.name@
    &&& c.writable == (c.source != VirtualNodeSource::Base)
    &&& if c.is_directory {
        &&& is_dir_child(b, w, dir, c.name@)
        &&& c.size is None
        &&& c.source == dir_child_source(b, w, dir, c.name@)
    } else {
        &&& is_file_child(b, w, dir, c.name@)
        &&& spec_overlay_at(b, w, dir_prefix(dir) + c.name@) matches Some(f) && c.size == Some(
            f.0,
        ) && c.source == f.1
    }
}

/// Neither tree lists a path strictly below another listed path: no
/// path is both a file and a directory.
pub open spec fn listings_nesting_free(b: ListingV, w: ListingV) -> bool {
    &&& forall|i: int, j: int|
        0 <= i < b.len() && 0 <= j < b.len() ==> !is_strictly_below(
            (#[trigger] b[i]).0,
            (#[trigger] b[j]).0,
        )
    &&& forall|i: int, j: int|
        0 <= i < b.len() && 0 <= j < w.len() ==> !is_strictly_below(
            (#[trigger] b[i]).0,
            (#[trigger] w[j]).0,
        )
    &&& forall|i: int, j: int|
        0 <= i < w.len() && 0 <= j < b.len() ==> !is_strictly_below(
            (#[trigger] w[i]).0,
            (#[trigger] b[j]).0,
        )
    &&& forall|i: int, j: int|
        0 <= i < w.len() && 0 <= j < w.len() ==> !is_strictly_below(
            (#[trigger] w[i]).0,
            (#[trigger] w[j]).0,
        )
}

/// Exec test for `is_strictly_below`.
pub fn strictly_below(p: &str, d: &str) -> (r: bool)
    ensures
        r == is_strictly_below(p@, d@),
{
    let n: usize = p.unicode_len();
    let m: usize = d.unicode_len();
    if n <= m || n - m <= 1 {
        return false;
    }
    if !crate::pathnorm::starts_with_str(p, d) {
        return false;
    }
    p.get_char(m) == '/'
}

/// Whether a listing holds any path strictly below a directory.
fn listing_below(l: &Vec<FileMeta>, d: &str) -> (r: bool)
    ensures
        r == any_below(l@.map_values(|m: FileMeta| m@), d@),
{
    let ghost lv = l@.map_values(|m: FileMeta| m@);
    let mut i: usize = 0;
    while i < l.len()
        invariant
            i <= l@.len(),
            lv == l@.map_values(|m: FileMeta| m@),
            forall|q: int| 0 <= q < i ==> !is_strictly_below((#[trigger] lv[q]).0, d@),
        decreases l.len() - i,
    {
        proof {
            assert(lv[i as int] == l@[i as int]@);
        }
        if strictly_below(l[i].rel_path.as_str(), d) {
            return true;
        }
        i = i + 1;
    }
    false
}

/// Whether the workspace holds any visible path strictly below a
/// directory.
fn ws_below_exec(w: &Vec<FileMeta>, d: &str) -> (r: bool)
    ensures
        r == any_visible_below(w@.map_values(|m: FileMeta| m@), d@),
{
    let ghost wv = w@.map_values(|m: FileMeta| m@);
    let mut i: usize = 0;
    while i < w.len()
        invariant
            i <= w@.len(),
            wv == w@.map_values(|m: FileMeta| m@),
            forall|q: int|
                0 <= q < i ==> !(is_strictly_below((#[trigger] wv[q]).0, d@) && !is_reserved_path(
                    wv[q].0,
                )),
        decreases w.len() - i,
    {
        proof {
            assert(wv[i as int] == w@[i as int]@);
        }
        if strictly_below(w[i].rel_path.as_str(), d) && !crate::overlay::is_reserved(
            w[i].rel_path.as_str(),
        ) {
            return true;
        }
        i = i + 1;
    }
    false
}

/// Looks up what the overlay shows at a path.
fn overlay_at_exec(base: &Vec<FileMeta>, ws: &Vec<FileMeta>, rel: &str) -> (r: Option<
    (u64, VirtualNodeSource),
>)
    requires
        listing_wf(base@.map_values(|m: FileMeta| m@)),
        listing_wf(ws@.map_values(|m: FileMeta| m@)),
    ensures
        r == spec_overlay_at(
            base@.map_values(|m: FileMeta| m@),
            ws@.map_values(|m: FileMeta| m@),
            rel@,
        ),
{
    let ghost bv = base@.map_values(|m: FileMeta| m@);
    let ghost wv = ws@.map_values(|m: FileMeta| m@);
    let ws_idx = crate::overlay::listing_find(ws, rel);
    let b_idx = crate::overlay::listing_find(base, rel);
    proof {
        match ws_idx {
            Some(i) => {
                assert(wv[i as int] == ws@[i as int]@);
                let q0 = choose|q0: int| 0 <= q0 < wv.len() && wv[q0].0 == rel@;
                if q0 != i as int {
                    assert(wv[q0].0 != wv[i as int].0);
                }
                assert(crate::overlay::listing_size(wv, rel@) == ws@[i as int].size);
            },
            None => {},
        }
        match b_idx {
            Some(j) => {
                assert(bv[j as int] == base@[j as int]@);
                let q0 = choose|q0: int| 0 <= q0 < bv.len() && bv[q0].0 == rel@;
                if q0 != j as int {
                    assert(bv[q0].0 != bv[j as int].0);
                }
                assert(crate::overlay::listing_size(bv, rel@) == base@[j as int].size);
            },
            None => {},
        }
    }
    let ws_visible = match ws_idx {
        Some(_) => !crate::overlay::is_reserved(rel),
        None => false,
    };
    match (ws_visible, ws_idx, b_idx) {
        (true, Some(i), Some(_)) => Some((ws[i].size, VirtualNodeSource::Override)),
        (true, Some(i), None) => Some((ws[i].size, VirtualNodeSource::Workspace)),
        (_, _, Some(j)) => Some((base[j].size, VirtualNodeSource::Base)),
        _ => None,
    }
}

/// Exec comparator for the child order.
fn child_le_exec(a_dir: bool, a_name: &str, b_dir: bool, b_name: &str) -> (r: bool)
    ensures
        r == child_le(a_dir, a_name@, b_dir, b_name@),
{
    if a_dir && !b_dir {
        return true;
    }
    if !a_dir && b_dir {
        return false;
    }
    lex_le_exec(a_name, b_name)
}

/// Stepping past an equal prefix leaves the order unchanged.
proof fn lemma_lex_le_skip(a: Seq<char>, b: Seq<char>, i: int)
    requires
        0 <= i <= a.len(),
        i <= b.len(),
        forall|j: int| 0 <= j < i ==> ascii_lower(a[j]) == ascii_lower(b[j]),
    ensures
        lex_le(a, b) == lex_le(a.skip(i), b.skip(i)),
    decreases i,
{
    if i > 0 {
        assert(a.len() > 0 && b.len() > 0);
        assert(ascii_lower(a[0]) == ascii_lower(b[0]));
        lemma_lex_le_skip(a.drop_first(), b.drop_first(), i - 1);
        assert(a.drop_first().skip(i - 1) =~= a.skip(i));
        assert(b.drop_first().skip(i - 1) =~= b.skip(i));
    } else {
        assert(a.skip(0) =~= a);
        assert(b.skip(0) =~= b);
    }
}

/// Exec case-insensitive lexicographic comparison.
fn lex_le_exec(a: &str, b: &str) -> (r: bool)
    ensures
        r == lex_le(a@, b@),
{
    let n: usize = a.unicode_len();
    let m: usize = b.unicode_len();
    let min: usize = if n < m {
        n
    } else {
        m
    };
    let mut i: usize = 0;
    while i < min
        invariant
            n == a@.len(),
            m == b@.len(),
            min == if n < m {
                n
            } else {
                m
            },
            i <= min,
            forall|j: int| 0 <= j < i ==> ascii_lower(a@[j]) == ascii_lower(b@[j]),
        decreases min - i,
    {
        let ca = a.get_char(i);
        let cb = b.get_char(i);
        let la = if 'A' <= ca && ca <= 'Z' {
            (((ca as u32) + 32) as u8) as char
        } else {
            ca
        };
        let lb = if 'A' <= cb && cb <= 'Z' {
            (((cb as u32) + 32) as u8) as char
        } else {
            cb
        };
        if la != lb {
            proof {
                lemma_lex_le_skip(a@, b@, i as int);
                assert(a@.skip(i as int)[0] == a@[i as int]);
                assert(b@.skip(i as int)[0] == b@[i as int]);
                assert(a@.skip(i as int).len() > 0 && b@.skip(i as int).len() > 0);
            }
            return (la as u32) < (lb as u32);
        }
        i = i + 1;
    }
    proof {
        lemma_lex_le_skip(a@, b@, min as int);
        if n <= m {
            assert(a@.skip(min as int).len() == 0);
        } else {
            assert(a@.skip(min as int).len() > 0);
            assert(b@.skip(min as int).len() == 0);
        }
    }
    n <= m
}

/// The virtual file system over one profile's listings.
#[derive(Debug)]
pub struct VirtualFileSystem {
    /// Files of the base installation.
    pub base_files: Vec<FileMeta>,
    /// Files of the profile's workspace.
    pub workspace_files: Vec<FileMeta>,
}

impl VirtualFileSystem {
    /// A virtual view over the given listings.
    pub fn new(base_files: Vec<FileMeta>, workspace_files: Vec<FileMeta>) -> (r: VirtualFileSystem)
        ensures
            r.base_files@ == base_files@,
            r.workspace_files@ == workspace_files@,
    {
        VirtualFileSystem { base_files, workspace_files }
    }

    /// Prepares the view.  The merged view carries no state beyond its
    /// listings, so there is nothing to set up.
    pub fn initialize(&mut self) -> (r: Result<(), OverlayError>)
        ensures
            r is Ok,
            final(self).base_files@ == old(self).base_files@,
            final(self).workspace_files@ == old(self).workspace_files@,
    {
        Ok(())
    }

    /// The node at a virtual path (the root when absent).  A file path
    /// yields a file node.  A directory path yields a directory node
    /// whose children are the union of both trees' immediate entries,
    /// each classified and sized by the overlay, sorted directories
    /// first and then by case-insensitive name.  A path visible in
    /// neither tree is an error.
    #[verifier::rlimit(100)]
    pub fn get_virtual_tree(&self, virtual_path: Option<&str>) -> (r: Result<
        VirtualNode,
        OverlayError,
    >)
        requires
            listing_wf(self.base_files@.map_values(|m: FileMeta| m@)),
            listing_wf(self.workspace_files@.map_values(|m: FileMeta| m@)),
            listings_nesting_free(
                self.base_files@.map_values(|m: FileMeta| m@),
                self.workspace_files@.map_values(|m: FileMeta| m@),
            ),
        ensures
            ({
                let bv = self.base_files@.map_values(|m: FileMeta| m@);
                let wv = self.workspace_files@.map_values(|m: FileMeta| m@);
                let d = match virtual_path {
                    Some(p) => p@,
                    None => Seq::<char>::empty(),
                };
                match r {
                    Ok(node) => {
                        &&& node.path@ == d
                        &&& (node.is_directory ==> ({
                            &&& node.children matches Some(c)
                            &&& (forall|k: int|
                                0 <= k < c@.len() ==> child_ok(bv, wv, d, #[trigger] c@[k]))
                            &&& (forall|nm: Seq<char>|
                                #[trigger] is_file_child(bv, wv, d, nm) ==> exists|k: int|
                                    0 <= k < c@.len() && (#[trigger] c@[k]).name@ == nm
                                        && !c@[k].is_directory)
                            &&& (forall|nm: Seq<char>|
                                #[trigger] is_dir_child(bv, wv, d, nm) ==> exists|k: int|
                                    0 <= k < c@.len() && (#[trigger] c@[k]).name@ == nm
                                        && c@[k].is_directory)
                            &&& (forall|k: int, k2: int|
                                0 <= k < c@.len() && 0 <= k2 < c@.len() && k != k2
                                    ==> (#[trigger] c@[k]).name@ != (#[trigger] c@[k2]).name@)
                            &&& (forall|x: int, y: int|
                                0 <= x < y < c@.len() ==> child_le(
                                    (#[trigger] c@[x]).is_directory,
                                    c@[x].name@,
                                    (#[trigger] c@[y]).is_directory,
                                    c@[y].name@,
                                ))
                        }))
                        &&& (!node.is_directory ==> d.len() > 0 && (spec_overlay_at(bv, wv, d)
                            matches Some(f) && node.size == Some(f.0) && node.source == f.1
                            && node.writable == (f.1 != VirtualNodeSource::Base)))
                        &&& (node.is_directory ==> (d.len() > 0 ==> spec_overlay_at(
                            bv,
                            wv,
                            d,
                        ) is None))
                    },
                    Err(OverlayError::NotFound) => {
                        &&& d.len() > 0
                        &&& spec_overlay_at(bv, wv, d) is None
                        &&& (forall|nm: Seq<char>| !#[trigger] is_file_child(bv, wv, d, nm))
                        &&& (forall|nm: Seq<char>| !#[trigger] is_dir_child(bv, wv, d, nm))
                    },
                }
            }),
    {
        let ghost bv = self.base_files@.map_values(|m: FileMeta| m@);
        let ghost wv = self.workspace_files@.map_values(|m: FileMeta| m@);
        let dir: String = match virtual_path {
            Some(p) => String::from_str(p),
            None => String::new(),
        };
        let ghost d = dir@;
        let dn: usize = dir.as_str().unicode_len();
        let node_name: String = if dn == 0 {
            String::from_str("Game Root")
        } else {
            let segs = crate::pathnorm::split_path_exec(dir.as_str());
            proof {
                crate::pathnorm::lemma_split_path_nonempty(d);
            }
            segs[segs.len() - 1].clone()
        };
        if dn > 0 {
            match overlay_at_exec(&self.base_files, &self.workspace_files, dir.as_str()) {
                Some((size, source)) => {
                    let writable = match source {
                        VirtualNodeSource::Base => false,
                        _ => true,
                    };
                    return Ok(
                        VirtualNode {
                            name: node_name,
                            path: dir,
                            is_directory: false,
                            size: Some(size),
                            source,
                            writable,
                            children: None,
                            modified: None,
                        },
                    );
                },
                None => {},
            }
        }
        let pfx: String = if dn == 0 {
            String::new()
        } else {
            proof {
                reveal_strlit("/");
            }
            let p = dir.clone().concat("/");
            proof {
                assert("/"@ =~= seq!['/']);
                assert(p@ =~= dir_prefix(d));
            }
            p
        };
        proof {
            assert(pfx@ == dir_prefix(d));
        }
        let merged = crate::overlay::overlay_files(&self.base_files, &self.workspace_files);
        let ghost mv = merged@.map_values(|f: crate::overlay::OverlayFile| f@);
        let mut out: Vec<VirtualNode> = Vec::new();
        let mut i: usize = 0;
        while i < merged.len()
            invariant
                i <= merged@.len(),
                bv == self.base_files@.map_values(|m: FileMeta| m@),
                wv == self.workspace_files@.map_values(|m: FileMeta| m@),
                mv == merged@.map_values(|f: crate::overlay::OverlayFile| f@),
                listing_wf(bv),
                listing_wf(wv),
                listings_nesting_free(bv, wv),
                crate::overlay::overlay_complete(bv, wv, mv),
                pfx@ == dir_prefix(d),
                d.len() > 0 ==> spec_overlay_at(bv, wv, d) is None,
                forall|k: int| 0 <= k < out@.len() ==> child_ok(bv, wv, d, #[trigger] out@[k]),
                forall|k: int, k2: int|
                    0 <= k < out@.len() && 0 <= k2 < out@.len() && k != k2
                        ==> (#[trigger] out@[k]).name@ != (#[trigger] out@[k2]).name@,
                forall|x: int, y: int|
                    0 <= x < y < out@.len() ==> child_le(
                        (#[trigger] out@[x]).is_directory,
                        out@[x].name@,
                        (#[trigger] out@[y]).is_directory,
                        out@[y].name@,
                    ),
                forall|k: int|
                    0 <= k < out@.len() && !(#[trigger] out@[k]).is_directory ==> exists|q: int|
                        0 <= q < i && (#[trigger] mv[q]).0 == dir_prefix(d) + out@[k].name@,
                forall|q: int, nm: Seq<char>|
                    0 <= q < i && plain_name(nm) && (#[trigger] mv[q]).0 == #[trigger] (dir_prefix(d) + nm)
                        ==> exists|k: int|
                        0 <= k < out@.len() && (#[trigger] out@[k]).name@ == nm
                            && !out@[k].is_directory,
                forall|q: int, nm: Seq<char>|
                    0 <= q < i && plain_name(nm) && #[trigger] is_strictly_below(mv[q].0, dir_prefix(d) + nm) ==> exists|k: int|
                        0 <= k < out@.len() && (#[trigger] out@[k]).name@ == nm
                            && out@[k].is_directory,
            decreases merged.len() - i,
        {
            let ghost out0 = out@;
            let rel = &merged[i].rel_path;
            proof {
                assert(mv[i as int] == merged@[i as int]@);
                assert(spec_overlay_at(bv, wv, mv[i as int].0) == Some(
                    (mv[i as int].1, mv[i as int].2),
                ));
            }
            let rn: usize = rel.as_str().unicode_len();
            let pn: usize = pfx.as_str().unicode_len();
            let mut handled = false;
            if rn > pn && crate::pathnorm::starts_with_str(rel.as_str(), pfx.as_str()) {
                handled = true;
                let rest = String::from_str(rel.as_str().substring_char(pn, rn));
                proof {
                    assert(rest@ == mv[i as int].0.subrange(pn as int, rn as int));
                    assert(dir_prefix(d) + rest@ =~= mv[i as int].0);
                }
                let restn: usize = rest.as_str().unicode_len();
                let mut pos: usize = 0;
                while pos < restn && rest.as_str().get_char(pos) != '/'
                    invariant
                        pos <= restn,
                        restn == rest@.len(),
                        forall|j: int| 0 <= j < pos ==> rest@[j] != '/',
                    decreases restn - pos,
                {
                    pos = pos + 1;
                }
                if pos == restn {
                    // A direct file of this directory.
                    proof {
                        assert(plain_name(rest@));
                        assert(is_file_child(bv, wv, d, rest@));
                    }
                    let ghost nmv = rest@;
                    let item = VirtualNode {
                        name: rest,
                        path: rel.clone(),
                        is_directory: false,
                        size: Some(merged[i].size),
                        source: merged[i].source,
                        writable: match merged[i].source {
                            VirtualNodeSource::Base => false,
                            _ => true,
                        },
                        children: None,
                        modified: None,
                    };
                    let ghost itemv = item;
                    proof {
                        assert(child_ok(bv, wv, d, itemv));
                        assert forall|k: int| 0 <= k < out0.len() implies (#[trigger] out0[k]).name@
                            != nmv by {
                            if out0[k].name@ == nmv {
                                if out0[k].is_directory {
                                    assert(is_dir_child(bv, wv, d, nmv));
                                    lemma_no_file_and_dir_child(bv, wv, d, nmv);
                                } else {
                                    let q = choose|q: int|
                                        0 <= q < i && (#[trigger] mv[q]).0 == dir_prefix(d)
                                            + out0[k].name@;
                                    assert(mv[q].0 == mv[i as int].0);
                                    assert(q != i as int);
                                }
                            }
                        }
                    }
                    insert_sorted(&mut out, item);
                    proof {
                        let p = choose|p: int|
                            0 <= p <= out0.len() && out@ == out0.insert(p, itemv);
                        out0.insert_ensures(p, itemv);
                        lemma_after_insert_file(out0, out@, p, itemv, bv, wv, d, mv, i as int);
                    }
                } else if pos > 0 && pos + 1 < restn {
                    // A descendant: contributes a directory child.
                    let name = String::from_str(rest.as_str().substring_char(0, pos));
                    let ghost nmv = name@;
                    proof {
                        assert(nmv == rest@.subrange(0, pos as int));
                        assert(plain_name(nmv));
                        assert(is_strictly_below(mv[i as int].0, dir_prefix(d) + nmv)) by {
                            assert((dir_prefix(d) + nmv).len() == pn + pos);
                            assert(mv[i as int].0.subrange(0, pn as int + pos as int)
                                =~= dir_prefix(d) + nmv);
                            assert(mv[i as int].0[pn as int + pos as int] == rest@[pos as int]);
                        }
                        lemma_below_witness(bv, wv, d, nmv, mv[i as int].0);
                    }
                    match find_child(&out, name.as_str()) {
                        Some(k) => {
                            proof {
                                assert(out@[k as int].name@ == nmv);
                                if !out@[k as int].is_directory {
                                    assert(is_file_child(bv, wv, d, nmv));
                                    lemma_no_file_and_dir_child(bv, wv, d, nmv);
                                }
                                lemma_step_no_insert(out@, bv, wv, d, mv, i as int, nmv, k as int);
                            }
                        },
                        None => {
                            let below_key = rel_join(&pfx, name.as_str());
                            let in_b = listing_below(&self.base_files, below_key.as_str());
                            let in_w = ws_below_exec(&self.workspace_files, below_key.as_str());
                            proof {
                                assert(below_key@ == dir_prefix(d) + nmv);
                            }
                            let source = if in_b && in_w {
                                VirtualNodeSource::Override
                            } else if in_w {
                                VirtualNodeSource::Workspace
                            } else {
                                VirtualNodeSource::Base
                            };
                            proof {
                                assert(in_b || in_w) by {
                                    if crate::overlay::listing_has(wv, mv[i as int].0)
                                        && !is_reserved_path(mv[i as int].0) {
                                        let x = choose|x: int|
                                            0 <= x < wv.len() && (#[trigger] wv[x]).0
                                                == mv[i as int].0;
                                        assert(is_strictly_below(wv[x].0, dir_prefix(d) + nmv));
                                    } else {
                                        assert(crate::overlay::listing_has(bv, mv[i as int].0));
                                        let x = choose|x: int|
                                            0 <= x < bv.len() && (#[trigger] bv[x]).0
                                                == mv[i as int].0;
                                        assert(is_strictly_below(bv[x].0, dir_prefix(d) + nmv));
                                    }
                                }
                                assert(source == dir_child_source(bv, wv, d, nmv));
                            }
                            let item = VirtualNode {
                                name,
                                path: below_key,
                                is_directory: true,
                                size: None,
                                source,
                                writable: match source {
                                    VirtualNodeSource::Base => false,
                                    _ => true,
                                },
                                children: None,
                                modified: None,
                            };
                            let ghost itemv = item;
                            proof {
                                assert(child_ok(bv, wv, d, itemv));
                            }
                            insert_sorted(&mut out, item);
                            proof {
                                let p = choose|p: int|
                                    0 <= p <= out0.len() && out@ == out0.insert(p, itemv);
                                out0.insert_ensures(p, itemv);
                                lemma_after_insert_dir(out0, out@, p, itemv, bv, wv, d, mv, i as int);
                            }
                        },
                    }
                } else {
                    // A degenerate remainder: a leading or trailing
                    // separator names no child.
                    proof {
                        assert forall|nm: Seq<char>|
                            plain_name(nm) && (mv[i as int].0 == dir_prefix(d) + nm
                                || is_strictly_below(mv[i as int].0, dir_prefix(d) + nm))
                            implies false by {
                            if mv[i as int].0 == dir_prefix(d) + nm {
                                assert(nm =~= rest@);
                                assert(rest@[pos as int] == '/');
                            } else {
                                let full = dir_prefix(d) + nm;
                                assert(mv[i as int].0.subrange(0, full.len() as int) == full);
                                assert forall|j: int| 0 <= j < nm.len() implies nm[j]
                                    == rest@[j] by {
                                    assert(mv[i as int].0.subrange(0, full.len() as int)[
                                        dir_prefix(d).len() as int + j] == mv[i as int].0[
                                        dir_prefix(d).len() as int + j]);
                                    assert(full[dir_prefix(d).len() as int + j] == nm[j]);
                                }
                                if pos == 0 {
                                    assert(nm[0] == rest@[0]);
                                    assert(rest@[0] == '/');
                                } else {
                                    assert(mv[i as int].0.len() > full.len() + 1);
                                    assert(nm.len() < pos);
                                    assert(mv[i as int].0[full.len() as int] == '/');
                                    assert(mv[i as int].0[full.len() as int] == rest@[nm.len() as int]);
                                    assert(rest@[nm.len() as int] != '/');
                                }
                            }
                        }
                    }
                }
            }
            if !handled {
                proof {
                    assert forall|nm: Seq<char>|
                        plain_name(nm) && (mv[i as int].0 == dir_prefix(d) + nm || is_strictly_below(
                            mv[i as int].0,
                            dir_prefix(d) + nm,
                        )) implies false by {
                        assert(mv[i as int].0.len() > dir_prefix(d).len());
                        assert(mv[i as int].0.subrange(0, dir_prefix(d).len() as int)
                            =~= dir_prefix(d));
                    }
                }
            }
            i = i + 1;
        }
        if dn > 0 && out.len() == 0 {
            proof {
                assert forall|nm: Seq<char>| !#[trigger] is_file_child(bv, wv, d, nm) by {
                    if is_file_child(bv, wv, d, nm) {
                        let q = choose|q: int|
                            0 <= q < mv.len() && (#[trigger] mv[q]).0 == dir_prefix(d) + nm;
                    }
                }
                assert forall|nm: Seq<char>| !#[trigger] is_dir_child(bv, wv, d, nm) by {
                    if is_dir_child(bv, wv, d, nm) {
                        lemma_dir_child_witness_in_merged(bv, wv, d, nm, mv);
                    }
                }
            }
            return Err(OverlayError::NotFound);
        }
        proof {
            assert forall|nm: Seq<char>| #[trigger] is_file_child(bv, wv, d, nm) implies exists|
                k: int,
            | 0 <= k < out@.len() && (#[trigger] out@[k]).name@ == nm && !out@[k].is_directory by {
                let q = choose|q: int|
                    0 <= q < mv.len() && (#[trigger] mv[q]).0 == dir_prefix(d) + nm;
            }
            assert forall|nm: Seq<char>| #[trigger] is_dir_child(bv, wv, d, nm) implies exists|
                k: int,
            | 0 <= k < out@.len() && (#[trigger] out@[k]).name@ == nm && out@[k].is_directory by {
                lemma_dir_child_witness_in_merged(bv, wv, d, nm, mv);
            }
        }
        Ok(
            VirtualNode {
                name: node_name,
                path: dir,
                is_directory: true,
                size: None,
                source: VirtualNodeSource::Base,
                writable: false,
                children: Some(out),
                modified: None,
            },
        )
    }
}

/// Copies a base file into the workspace, promoting it to an override
/// so the user can edit it.  The copy is a fresh file, not a hardlink:
/// the base must never be written through.
pub fn copy_to_workspace(
    vol: &mut crate::volume::Volume,
    base_area: &str,
    workspace_area: &str,
    rel_path: &str,
) -> (r: Result<(), OverlayError>)
    requires
        old(vol).wf(),
        old(vol).next_node < u64::MAX,
    ensures
        final(vol).wf(),
        crate::volume::vol_lookup(old(vol)@, base_area@, rel_path@) is None ==> r == Err::<
            (),
            OverlayError,
        >(OverlayError::NotFound) && final(vol)@ == old(vol)@,
        match crate::volume::vol_lookup(old(vol)@, base_area@, rel_path@) {
            Some(basef) => {
                &&& r is Ok
                &&& (crate::volume::vol_lookup(final(vol)@, workspace_area@, rel_path@)
                    matches Some(wsf) && wsf.1 == basef.1 && wsf.0 != basef.0)
                &&& (forall|a: Seq<char>, r2: Seq<char>|
                    !(a == workspace_area@ && r2 == rel_path@) ==> #[trigger] crate::volume::vol_lookup(
                        final(vol)@,
                        a,
                        r2,
                    ) == crate::volume::vol_lookup(old(vol)@, a, r2))
            },
            None => true,
        },
{
    let bytes = match vol.read(base_area, rel_path) {
        Some(b) => b,
        None => { return Err(OverlayError::NotFound) },
    };
    vol.write(workspace_area, rel_path, bytes);
    Ok(())
}

/// Removes a workspace override so the base file shows through again.
/// A workspace-only file cannot be reverted — there is nothing beneath
/// it — and must be deleted instead.
pub fn revert_to_original(
    vol: &mut crate::volume::Volume,
    base_area: &str,
    workspace_area: &str,
    rel_path: &str,
) -> (r: Result<(), OverlayError>)
    requires
        old(vol).wf(),
    ensures
        final(vol).wf(),
        (crate::volume::vol_lookup(old(vol)@, workspace_area@, rel_path@) is None
            || crate::volume::vol_lookup(old(vol)@, base_area@, rel_path@) is None) ==> r == Err::<
            (),
            OverlayError,
        >(OverlayError::NotFound) && final(vol)@ == old(vol)@,
        crate::volume::vol_lookup(old(vol)@, workspace_area@, rel_path@) is Some
            && crate::volume::vol_lookup(old(vol)@, base_area@, rel_path@) is Some ==> ({
            &&& r is Ok
            &&& crate::volume::vol_lookup(final(vol)@, workspace_area@, rel_path@) is None
            &&& (forall|a: Seq<char>, r2: Seq<char>|
                !(a == workspace_area@ && r2 == rel_path@) ==> #[trigger] crate::volume::vol_lookup(
                    final(vol)@,
                    a,
                    r2,
                ) == crate::volume::vol_lookup(old(vol)@, a, r2))
        }),
{
    if !vol.exists_file(workspace_area, rel_path) {
        return Err(OverlayError::NotFound);
    }
    if !vol.exists_file(base_area, rel_path) {
        return Err(OverlayError::NotFound);
    }
    vol.remove_file(workspace_area, rel_path);
    Ok(())
}

/// A directory child's witness path appears in the merged overlay.
proof fn lemma_dir_child_witness_in_merged(
    bv: ListingV,
    wv: ListingV,
    d: Seq<char>,
    nm: Seq<char>,
    mv: crate::overlay::OverlayV,
)
    requires
        listing_wf(bv),
        listing_wf(wv),
        crate::overlay::overlay_complete(bv, wv, mv),
        is_dir_child(bv, wv, d, nm),
    ensures
        exists|q: int|
            0 <= q < mv.len() && plain_name(nm) && #[trigger] is_strictly_below(mv[q].0, dir_prefix(d) + nm),
{
    if any_below(bv, dir_prefix(d) + nm) {
        let x = choose|x: int|
            0 <= x < bv.len() && is_strictly_below((#[trigger] bv[x]).0, dir_prefix(d) + nm);
        assert(crate::overlay::listing_has(bv, bv[x].0));
        assert(spec_overlay_at(bv, wv, bv[x].0) is Some);
        let q = choose|q: int| 0 <= q < mv.len() && (#[trigger] mv[q]).0 == bv[x].0;
        assert(is_strictly_below(mv[q].0, dir_prefix(d) + nm));
    } else {
        let x = choose|x: int|
            0 <= x < wv.len() && is_strictly_below((#[trigger] wv[x]).0, dir_prefix(d) + nm)
                && !is_reserved_path(wv[x].0);
        assert(crate::overlay::listing_has(wv, wv[x].0));
        assert(spec_overlay_at(bv, wv, wv[x].0) is Some);
        let q = choose|q: int| 0 <= q < mv.len() && (#[trigger] mv[q]).0 == wv[x].0;
        assert(is_strictly_below(mv[q].0, dir_prefix(d) + nm));
    }
}

/// A name cannot be both a file child and a directory child when the
/// listings are nesting-free.
proof fn lemma_no_file_and_dir_child(bv: ListingV, wv: ListingV, d: Seq<char>, nm: Seq<char>)
    requires
        listings_nesting_free(bv, wv),
        is_file_child(bv, wv, d, nm),
    ensures
        !is_dir_child(bv, wv, d, nm),
{
    if !is_dir_child(bv, wv, d, nm) {
        return ;
    }
    let full = dir_prefix(d) + nm;
    assert(crate::overlay::listing_has(bv, full) || (crate::overlay::listing_has(wv, full)
        && !is_reserved_path(full)));
    if any_below(bv, full) {
        let x = choose|x: int|
            0 <= x < bv.len() && is_strictly_below((#[trigger] bv[x]).0, full);
        if crate::overlay::listing_has(bv, full) {
            let y = choose|y: int| 0 <= y < bv.len() && (#[trigger] bv[y]).0 == full;
            assert(is_strictly_below(bv[x].0, bv[y].0));
        } else {
            let y = choose|y: int| 0 <= y < wv.len() && (#[trigger] wv[y]).0 == full;
            assert(is_strictly_below(bv[x].0, wv[y].0));
        }
    } else {
        let x = choose|x: int|
            0 <= x < wv.len() && is_strictly_below((#[trigger] wv[x]).0, full)
                && !is_reserved_path(wv[x].0);
        if crate::overlay::listing_has(bv, full) {
            let y = choose|y: int| 0 <= y < bv.len() && (#[trigger] bv[y]).0 == full;
            assert(is_strictly_below(wv[x].0, bv[y].0));
        } else {
            let y = choose|y: int| 0 <= y < wv.len() && (#[trigger] wv[y]).0 == full;
            assert(is_strictly_below(wv[x].0, wv[y].0));
        }
    }
}

/// A merged path strictly below `dir/name` makes the name a directory
/// child.
proof fn lemma_below_witness(bv: ListingV, wv: ListingV, d: Seq<char>, nm: Seq<char>, p: Seq<char>)
    requires
        plain_name(nm),
        spec_overlay_at(bv, wv, p) is Some,
        is_strictly_below(p, dir_prefix(d) + nm),
    ensures
        is_dir_child(bv, wv, d, nm),
{
    if crate::overlay::listing_has(wv, p) && !is_reserved_path(p) {
        let x = choose|x: int| 0 <= x < wv.len() && (#[trigger] wv[x]).0 == p;
        assert(is_strictly_below(wv[x].0, dir_prefix(d) + nm) && !is_reserved_path(wv[x].0));
        assert(any_visible_below(wv, dir_prefix(d) + nm));
    } else {
        assert(crate::overlay::listing_has(bv, p));
        let x = choose|x: int| 0 <= x < bv.len() && (#[trigger] bv[x]).0 == p;
        assert(is_strictly_below(bv[x].0, dir_prefix(d) + nm));
        assert(any_below(bv, dir_prefix(d) + nm));
    }
}

/// Re-establishes the collection invariants after inserting a file
/// child for the entry at `i`.
proof fn lemma_after_insert_file(
    out0: Seq<VirtualNode>,
    out1: Seq<VirtualNode>,
    p: int,
    itemv: VirtualNode,
    bv: ListingV,
    wv: ListingV,
    d: Seq<char>,
    mv: crate::overlay::OverlayV,
    i: int,
)
    requires
        0 <= p <= out0.len(),
        out1 == out0.insert(p, itemv),
        0 <= i < mv.len(),
        !itemv.is_directory,
        mv[i].0 == dir_prefix(d) + itemv.name@,
        child_ok(bv, wv, d, itemv),
        forall|k: int| 0 <= k < out0.len() ==> child_ok(bv, wv, d, #[trigger] out0[k]),
        forall|k: int, k2: int|
            0 <= k < out0.len() && 0 <= k2 < out0.len() && k != k2 ==> (#[trigger] out0[k]).name@
                != (#[trigger] out0[k2]).name@,
        forall|k: int| 0 <= k < out0.len() ==> (#[trigger] out0[k]).name@ != itemv.name@,
        forall|k: int|
            0 <= k < out0.len() && !(#[trigger] out0[k]).is_directory ==> exists|q: int|
                0 <= q < i && (#[trigger] mv[q]).0 == dir_prefix(d) + out0[k].name@,
        forall|q: int, nm: Seq<char>|
            0 <= q < i && plain_name(nm) && (#[trigger] mv[q]).0 == #[trigger] (dir_prefix(d) + nm) ==> exists|
                k: int,
            | 0 <= k < out0.len() && (#[trigger] out0[k]).name@ == nm && !out0[k].is_directory,
        forall|q: int, nm: Seq<char>|
            0 <= q < i && plain_name(nm) && #[trigger] is_strictly_below(mv[q].0, dir_prefix(d) + nm) ==> exists|k: int|
                0 <= k < out0.len() && (#[trigger] out0[k]).name@ == nm && out0[k].is_directory,
        forall|q: int, q2: int|
            0 <= q < mv.len() && 0 <= q2 < mv.len() && q != q2 ==> (#[trigger] mv[q]).0
                != (#[trigger] mv[q2]).0,
    ensures
        forall|k: int| 0 <= k < out1.len() ==> child_ok(bv, wv, d, #[trigger] out1[k]),
        forall|k: int, k2: int|
            0 <= k < out1.len() && 0 <= k2 < out1.len() && k != k2 ==> (#[trigger] out1[k]).name@
                != (#[trigger] out1[k2]).name@,
        forall|k: int|
            0 <= k < out1.len() && !(#[trigger] out1[k]).is_directory ==> exists|q: int|
                0 <= q < i + 1 && (#[trigger] mv[q]).0 == dir_prefix(d) + out1[k].name@,
        forall|q: int, nm: Seq<char>|
            0 <= q < i + 1 && plain_name(nm) && (#[trigger] mv[q]).0 == #[trigger] (dir_prefix(d) + nm)
                ==> exists|k: int|
                0 <= k < out1.len() && (#[trigger] out1[k]).name@ == nm && !out1[k].is_directory,
        forall|q: int, nm: Seq<char>|
            0 <= q < i + 1 && plain_name(nm) && #[trigger] is_strictly_below(mv[q].0, dir_prefix(d) + nm) ==> exists|k: int|
                0 <= k < out1.len() && (#[trigger] out1[k]).name@ == nm && out1[k].is_directory,
{
    out0.insert_ensures(p, itemv);
    assert forall|k: int| 0 <= k < out1.len() implies child_ok(bv, wv, d, #[trigger] out1[k]) by {
        if k < p {
            assert(out1[k] == out0[k]);
        } else if k == p {
            assert(out1[k] == itemv);
        } else {
            assert(out1[k] == out0[k - 1]);
        }
    }
    assert forall|k: int, k2: int|
        0 <= k < out1.len() && 0 <= k2 < out1.len() && k != k2 implies (#[trigger] out1[k]).name@
        != (#[trigger] out1[k2]).name@ by {
        let a = if k < p {
            k
        } else {
            k - 1
        };
        let a2 = if k2 < p {
            k2
        } else {
            k2 - 1
        };
        if k == p {
            assert(out1[k2] == out0[a2]);
        } else if k2 == p {
            assert(out1[k] == out0[a]);
        } else {
            assert(out1[k] == out0[a] && out1[k2] == out0[a2]);
        }
    }
    assert forall|k: int|
        0 <= k < out1.len() && !(#[trigger] out1[k]).is_directory implies exists|q: int|
        0 <= q < i + 1 && (#[trigger] mv[q]).0 == dir_prefix(d) + out1[k].name@ by {
        if k == p {
            assert(mv[i].0 == dir_prefix(d) + out1[k].name@);
        } else {
            let a = if k < p {
                k
            } else {
                k - 1
            };
            assert(out1[k] == out0[a]);
            let q = choose|q: int|
                0 <= q < i && (#[trigger] mv[q]).0 == dir_prefix(d) + out0[a].name@;
        }
    }
    assert forall|q: int, nm: Seq<char>|
        0 <= q < i + 1 && plain_name(nm) && (#[trigger] mv[q]).0 == #[trigger] (dir_prefix(d) + nm) implies exists|
        k: int,
    | 0 <= k < out1.len() && (#[trigger] out1[k]).name@ == nm && !out1[k].is_directory by {
        if q == i {
            assert(dir_prefix(d) + nm == dir_prefix(d) + itemv.name@);
            assert(nm =~= (dir_prefix(d) + nm).subrange(
                dir_prefix(d).len() as int,
                (dir_prefix(d) + nm).len() as int,
            ));
            assert(itemv.name@ =~= (dir_prefix(d) + itemv.name@).subrange(
                dir_prefix(d).len() as int,
                (dir_prefix(d) + itemv.name@).len() as int,
            ));
            assert(out1[p].name@ == nm && !out1[p].is_directory);
        } else {
            let k = choose|k: int|
                0 <= k < out0.len() && (#[trigger] out0[k]).name@ == nm && !out0[k].is_directory;
            let k2 = if k < p {
                k
            } else {
                k + 1
            };
            assert(out1[k2] == out0[k]);
        }
    }
    assert forall|q: int, nm: Seq<char>|
        0 <= q < i + 1 && plain_name(nm) && #[trigger] is_strictly_below(mv[q].0, dir_prefix(d) + nm) implies exists|k: int|
        0 <= k < out1.len() && (#[trigger] out1[k]).name@ == nm && out1[k].is_directory by {
        if q == i {
            lemma_file_path_not_below(mv[i].0, d, itemv.name@, nm);
        } else {
            let k = choose|k: int|
                0 <= k < out0.len() && (#[trigger] out0[k]).name@ == nm && out0[k].is_directory;
            let k2 = if k < p {
                k
            } else {
                k + 1
            };
            assert(out1[k2] == out0[k]);
        }
    }
}

/// A path that is exactly `dir/name` with a plain name lies strictly
/// below no `dir/other` with a plain name.
proof fn lemma_file_path_not_below(p: Seq<char>, d: Seq<char>, nm: Seq<char>, other: Seq<char>)
    requires
        plain_name(nm),
        plain_name(other),
        p == dir_prefix(d) + nm,
    ensures
        !is_strictly_below(p, dir_prefix(d) + other),
{
    if is_strictly_below(p, dir_prefix(d) + other) {
        let pfx = dir_prefix(d);
        assert(p.len() == pfx.len() + nm.len());
        assert(p.len() > pfx.len() + other.len() + 1);
        assert(p[pfx.len() as int + other.len() as int] == '/');
        assert(p[pfx.len() as int + other.len() as int] == nm[other.len() as int]);
    }
}

/// Re-establishes the collection invariants after inserting a
/// directory child for the entry at `i`.
proof fn lemma_after_insert_dir(
    out0: Seq<VirtualNode>,
    out1: Seq<VirtualNode>,
    p: int,
    itemv: VirtualNode,
    bv: ListingV,
    wv: ListingV,
    d: Seq<char>,
    mv: crate::overlay::OverlayV,
    i: int,
)
    requires
        0 <= p <= out0.len(),
        out1 == out0.insert(p, itemv),
        0 <= i < mv.len(),
        itemv.is_directory,
        plain_name(itemv.name@),
        is_strictly_below(mv[i].0, dir_prefix(d) + itemv.name@),
        child_ok(bv, wv, d, itemv),
        forall|k: int| 0 <= k < out0.len() ==> child_ok(bv, wv, d, #[trigger] out0[k]),
        forall|k: int, k2: int|
            0 <= k < out0.len() && 0 <= k2 < out0.len() && k != k2 ==> (#[trigger] out0[k]).name@
                != (#[trigger] out0[k2]).name@,
        forall|k: int| 0 <= k < out0.len() ==> (#[trigger] out0[k]).name@ != itemv.name@,
        forall|k: int|
            0 <= k < out0.len() && !(#[trigger] out0[k]).is_directory ==> exists|q: int|
                0 <= q < i && (#[trigger] mv[q]).0 == dir_prefix(d) + out0[k].name@,
        forall|q: int, nm: Seq<char>|
            0 <= q < i && plain_name(nm) && (#[trigger] mv[q]).0 == #[trigger] (dir_prefix(d) + nm) ==> exists|
                k: int,
            | 0 <= k < out0.len() && (#[trigger] out0[k]).name@ == nm && !out0[k].is_directory,
        forall|q: int, nm: Seq<char>|
            0 <= q < i && plain_name(nm) && #[trigger] is_strictly_below(mv[q].0, dir_prefix(d) + nm) ==> exists|k: int|
                0 <= k < out0.len() && (#[trigger] out0[k]).name@ == nm && out0[k].is_directory,
    ensures
        forall|k: int| 0 <= k < out1.len() ==> child_ok(bv, wv, d, #[trigger] out1[k]),
        forall|k: int, k2: int|
            0 <= k < out1.len() && 0 <= k2 < out1.len() && k != k2 ==> (#[trigger] out1[k]).name@
                != (#[trigger] out1[k2]).name@,
        forall|k: int|
            0 <= k < out1.len() && !(#[trigger] out1[k]).is_directory ==> exists|q: int|
                0 <= q < i + 1 && (#[trigger] mv[q]).0 == dir_prefix(d) + out1[k].name@,
        forall|q: int, nm: Seq<char>|
            0 <= q < i + 1 && plain_name(nm) && (#[trigger] mv[q]).0 == #[trigger] (dir_prefix(d) + nm)
                ==> exists|k: int|
                0 <= k < out1.len() && (#[trigger] out1[k]).name@ == nm && !out1[k].is_directory,
        forall|q: int, nm: Seq<char>|
            0 <= q < i + 1 && plain_name(nm) && #[trigger] is_strictly_below(mv[q].0, dir_prefix(d) + nm) ==> exists|k: int|
                0 <= k < out1.len() && (#[trigger] out1[k]).name@ == nm && out1[k].is_directory,
{
    out0.insert_ensures(p, itemv);
    assert forall|k: int| 0 <= k < out1.len() implies child_ok(bv, wv, d, #[trigger] out1[k]) by {
        if k < p {
            assert(out1[k] == out0[k]);
        } else if k == p {
            assert(out1[k] == itemv);
        } else {
            assert(out1[k] == out0[k - 1]);
        }
    }
    assert forall|k: int, k2: int|
        0 <= k < out1.len() && 0 <= k2 < out1.len() && k != k2 implies (#[trigger] out1[k]).name@
        != (#[trigger] out1[k2]).name@ by {
        let a = if k < p {
            k
        } else {
            k - 1
        };
        let a2 = if k2 < p {
            k2
        } else {
            k2 - 1
        };
        if k == p {
            assert(out1[k2] == out0[a2]);
        } else if k2 == p {
            assert(out1[k] == out0[a]);
        } else {
            assert(out1[k] == out0[a] && out1[k2] == out0[a2]);
        }
    }
    assert forall|k: int|
        0 <= k < out1.len() && !(#[trigger] out1[k]).is_directory implies exists|q: int|
        0 <= q < i + 1 && (#[trigger] mv[q]).0 == dir_prefix(d) + out1[k].name@ by {
        if k != p {
            let a = if k < p {
                k
            } else {
                k - 1
            };
            assert(out1[k] == out0[a]);
            let q = choose|q: int|
                0 <= q < i && (#[trigger] mv[q]).0 == dir_prefix(d) + out0[a].name@;
        }
    }
    assert forall|q: int, nm: Seq<char>|
        0 <= q < i + 1 && plain_name(nm) && (#[trigger] mv[q]).0 == #[trigger] (dir_prefix(d) + nm) implies exists|
        k: int,
    | 0 <= k < out1.len() && (#[trigger] out1[k]).name@ == nm && !out1[k].is_directory by {
        if q == i {
            lemma_file_path_not_below(mv[i].0, d, nm, itemv.name@);
        } else {
            let k = choose|k: int|
                0 <= k < out0.len() && (#[trigger] out0[k]).name@ == nm && !out0[k].is_directory;
            let k2 = if k < p {
                k
            } else {
                k + 1
            };
            assert(out1[k2] == out0[k]);
        }
    }
    assert forall|q: int, nm: Seq<char>|
        0 <= q < i + 1 && plain_name(nm) && #[trigger] is_strictly_below(mv[q].0, dir_prefix(d) + nm) implies exists|k: int|
        0 <= k < out1.len() && (#[trigger] out1[k]).name@ == nm && out1[k].is_directory by {
        if q == i {
            lemma_same_first_segment(mv[i].0, d, itemv.name@, nm);
            assert(out1[p].name@ == nm && out1[p].is_directory);
        } else {
            let k = choose|k: int|
                0 <= k < out0.len() && (#[trigger] out0[k]).name@ == nm && out0[k].is_directory;
            let k2 = if k < p {
                k
            } else {
                k + 1
            };
            assert(out1[k2] == out0[k]);
        }
    }
}

/// A path strictly below `dir/a` and strictly below `dir/b`, with both
/// names plain, forces the names equal.
proof fn lemma_same_first_segment(p: Seq<char>, d: Seq<char>, a: Seq<char>, b: Seq<char>)
    requires
        plain_name(a),
        plain_name(b),
        is_strictly_below(p, dir_prefix(d) + a),
        is_strictly_below(p, dir_prefix(d) + b),
    ensures
        a == b,
{
    let pfx = dir_prefix(d);
    let la = (pfx + a).len() as int;
    let lb = (pfx + b).len() as int;
    assert(p.subrange(0, la) == pfx + a);
    assert(p.subrange(0, lb) == pfx + b);
    assert forall|j: int| 0 <= j < a.len() implies a[j] == p[pfx.len() as int + j] by {
        assert(p.subrange(0, la)[pfx.len() as int + j] == p[pfx.len() as int + j]);
        assert((pfx + a)[pfx.len() as int + j] == a[j]);
    }
    assert forall|j: int| 0 <= j < b.len() implies b[j] == p[pfx.len() as int + j] by {
        assert(p.subrange(0, lb)[pfx.len() as int + j] == p[pfx.len() as int + j]);
        assert((pfx + b)[pfx.len() as int + j] == b[j]);
    }
    if a.len() < b.len() {
        assert(p[pfx.len() as int + a.len() as int] == '/');
        assert(b[a.len() as int] == p[pfx.len() as int + a.len() as int]);
    } else if b.len() < a.len() {
        assert(p[pfx.len() as int + b.len() as int] == '/');
        assert(a[b.len() as int] == p[pfx.len() as int + b.len() as int]);
    } else {
        assert forall|j: int| 0 <= j < a.len() implies a[j] == b[j] by {
            assert(a[j] == p[pfx.len() as int + j]);
            assert(b[j] == p[pfx.len() as int + j]);
        }
        assert(a =~= b);
    }
}

/// Re-establishes the collection invariants when the entry at `i`
/// matched an existing directory child.
proof fn lemma_step_no_insert(
    out1: Seq<VirtualNode>,
    bv: ListingV,
    wv: ListingV,
    d: Seq<char>,
    mv: crate::overlay::OverlayV,
    i: int,
    nmv: Seq<char>,
    kd: int,
)
    requires
        0 <= i < mv.len(),
        0 <= kd < out1.len(),
        plain_name(nmv),
        is_strictly_below(mv[i].0, dir_prefix(d) + nmv),
        out1[kd].name@ == nmv,
        out1[kd].is_directory,
        forall|q: int, nm: Seq<char>|
            0 <= q < i && plain_name(nm) && (#[trigger] mv[q]).0 == #[trigger] (dir_prefix(d) + nm) ==> exists|
                k: int,
            | 0 <= k < out1.len() && (#[trigger] out1[k]).name@ == nm && !out1[k].is_directory,
        forall|q: int, nm: Seq<char>|
            0 <= q < i && plain_name(nm) && #[trigger] is_strictly_below(mv[q].0, dir_prefix(d) + nm) ==> exists|k: int|
                0 <= k < out1.len() && (#[trigger] out1[k]).name@ == nm && out1[k].is_directory,
    ensures
        forall|q: int, nm: Seq<char>|
            0 <= q < i + 1 && plain_name(nm) && (#[trigger] mv[q]).0 == #[trigger] (dir_prefix(d) + nm)
                ==> exists|k: int|
                0 <= k < out1.len() && (#[trigger] out1[k]).name@ == nm && !out1[k].is_directory,
        forall|q: int, nm: Seq<char>|
            0 <= q < i + 1 && plain_name(nm) && #[trigger] is_strictly_below(mv[q].0, dir_prefix(d) + nm) ==> exists|k: int|
                0 <= k < out1.len() && (#[trigger] out1[k]).name@ == nm && out1[k].is_directory,
{
    assert forall|q: int, nm: Seq<char>|
        0 <= q < i + 1 && plain_name(nm) && (#[trigger] mv[q]).0 == #[trigger] (dir_prefix(d) + nm) implies exists|
        k: int,
    | 0 <= k < out1.len() && (#[trigger] out1[k]).name@ == nm && !out1[k].is_directory by {
        if q == i {
            lemma_file_path_not_below(mv[i].0, d, nm, nmv);
        }
    }
    assert forall|q: int, nm: Seq<char>|
        0 <= q < i + 1 && plain_name(nm) && #[trigger] is_strictly_below(mv[q].0, dir_prefix(d) + nm) implies exists|k: int|
        0 <= k < out1.len() && (#[trigger] out1[k]).name@ == nm && out1[k].is_directory by {
        if q == i {
            lemma_same_first_segment(mv[i].0, d, nmv, nm);
            assert(out1[kd].name@ == nm && out1[kd].is_directory);
        }
    }
}

/// Joins a directory prefix and a name.
pub open spec fn rel_join_spec(pfx: Seq<char>, name: Seq<char>) -> Seq<char> {
    pfx + name
}

/// Joins a directory prefix and a name.
fn rel_join(pfx: &String, name: &str) -> (r: String)
    ensures
        r@ == rel_join_spec(pfx@, name@),
{
    pfx.clone().concat(name)
}

/// Finds a child by name.
fn find_child(out: &Vec<VirtualNode>, name: &str) -> (r: Option<usize>)
    ensures
        match r {
            Some(k) => k < out@.len() && out@[k as int].name@ == name@,
            None => forall|k: int| 0 <= k < out@.len() ==> (#[trigger] out@[k]).name@ != name@,
        },
{
    let mut k: usize = 0;
    while k < out.len()
        invariant
            k <= out@.len(),
            forall|q: int| 0 <= q < k ==> (#[trigger] out@[q]).name@ != name@,
        decreases out.len() - k,
    {
        if crate::pathnorm::eq_str(out[k].name.as_str(), name) {
            return Some(k);
        }
        k = k + 1;
    }
    None
}

/// The case-insensitive order is transitive.
proof fn lemma_lex_le_trans(a: Seq<char>, b: Seq<char>, c: Seq<char>)
    requires
        lex_le(a, b),
        lex_le(b, c),
    ensures
        lex_le(a, c),
    decreases a.len(),
{
    if a.len() > 0 && c.len() > 0 {
        assert(b.len() > 0);
        if ascii_lower(a[0]) == ascii_lower(b[0]) && ascii_lower(b[0]) == ascii_lower(c[0]) {
            lemma_lex_le_trans(a.drop_first(), b.drop_first(), c.drop_first());
        }
    }
}

/// The child order is transitive.
proof fn lemma_child_le_trans(
    a_dir: bool,
    a_name: Seq<char>,
    b_dir: bool,
    b_name: Seq<char>,
    c_dir: bool,
    c_name: Seq<char>,
)
    requires
        child_le(a_dir, a_name, b_dir, b_name),
        child_le(b_dir, b_name, c_dir, c_name),
    ensures
        child_le(a_dir, a_name, c_dir, c_name),
{
    if a_dir == b_dir && b_dir == c_dir {
        lemma_lex_le_trans(a_name, b_name, c_name);
    }
}

/// The child order is total.
proof fn lemma_child_le_total(a_dir: bool, a_name: Seq<char>, b_dir: bool, b_name: Seq<char>)
    ensures
        child_le(a_dir, a_name, b_dir, b_name) || child_le(b_dir, b_name, a_dir, a_name),
{
    lemma_lex_le_total(a_name, b_name);
}

/// Inserts a node into a sorted children vector, keeping it sorted.
fn insert_sorted(out: &mut Vec<VirtualNode>, item: VirtualNode)
    requires
        forall|x: int, y: int|
            0 <= x < y < old(out)@.len() ==> child_le(
                (#[trigger] old(out)@[x]).is_directory,
                old(out)@[x].name@,
                (#[trigger] old(out)@[y]).is_directory,
                old(out)@[y].name@,
            ),
    ensures
        exists|p: int| 0 <= p <= old(out)@.len() && final(out)@ == old(out)@.insert(p, item),
        forall|x: int, y: int|
            0 <= x < y < final(out)@.len() ==> child_le(
                (#[trigger] final(out)@[x]).is_directory,
                final(out)@[x].name@,
                (#[trigger] final(out)@[y]).is_directory,
                final(out)@[y].name@,
            ),
{
    let ghost out0 = out@;
    let ghost itemv = item;
    let mut pos: usize = 0;
    while pos < out.len() && child_le_exec(
        out[pos].is_directory,
        out[pos].name.as_str(),
        item.is_directory,
        item.name.as_str(),
    )
        invariant
            pos <= out@.len(),
            out@ == out0,
            itemv == item,
            forall|x: int, y: int|
                0 <= x < y < out0.len() ==> child_le(
                    (#[trigger] out0[x]).is_directory,
                    out0[x].name@,
                    (#[trigger] out0[y]).is_directory,
                    out0[y].name@,
                ),
            forall|q: int|
                0 <= q < pos ==> child_le(
                    (#[trigger] out0[q]).is_directory,
                    out0[q].name@,
                    itemv.is_directory,
                    itemv.name@,
                ),
        decreases out@.len() - pos,
    {
        pos = pos + 1;
    }
    proof {
        if (pos as int) < out0.len() {
            lemma_child_le_total(
                out0[pos as int].is_directory,
                out0[pos as int].name@,
                itemv.is_directory,
                itemv.name@,
            );
        }
    }
    out.insert(pos, item);
    proof {
        assert(out@ =~= out0.insert(pos as int, itemv));
        out0.insert_ensures(pos as int, itemv);
        assert forall|x: int, y: int| 0 <= x < y < out@.len() implies child_le(
            (#[trigger] out@[x]).is_directory,
            out@[x].name@,
            (#[trigger] out@[y]).is_directory,
            out@[y].name@,
        ) by {
            let x0 = if x < pos as int {
                x
            } else {
                x - 1
            };
            let y0 = if y < pos as int {
                y
            } else {
                y - 1
            };
            if x == pos as int {
                assert(out@[y] == out0[y0]);
                assert(y0 >= pos as int);
                assert(child_le(itemv.is_directory, itemv.name@, out0[pos as int].is_directory,
                    out0[pos as int].name@));
                if y0 > pos as int {
                    lemma_child_le_trans(
                        itemv.is_directory,
                        itemv.name@,
                        out0[pos as int].is_directory,
                        out0[pos as int].name@,
                        out0[y0].is_directory,
                        out0[y0].name@,
                    );
                }
            } else if y == pos as int {
                assert(out@[x] == out0[x0]);
                assert(x0 < pos as int);
            } else {
                assert(out@[x] == out0[x0] && out@[y] == out0[y0]);
            }
        }
    }
}

} // verus!
