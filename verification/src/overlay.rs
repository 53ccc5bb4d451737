//! The virtual overlay view: base installation and one profile's
//! workspace merged into a single logical tree.  A path present only in
//! the base is `Base` (read-only), only in the workspace `Workspace`,
//! in both `Override` (the workspace content wins).  Workspace entries
//! whose name begins with the reserved prefix are hidden.

use vstd::prelude::*;
use vstd::string::StrSliceExecFns;
use vstd::string::StringExecFns;
use crate::pathnorm::split_path;

verus! {

/// Where a file or directory of the virtual tree comes from.
#[derive(Debug, Clone, Copy, PartialEq, Eq, Structural)]
pub enum VirtualNodeSource {
    /// Present only in the base installation; read-only.
    Base,
    /// Present only in the workspace; additive.
    Workspace,
    /// Present in both; the workspace content wins.
    Override,
}

/// A file in a directory listing: its relative path (`/`-separated) and
/// its size in bytes.
#[derive(Debug, Clone)]
pub struct FileMeta {
    pub rel_path: String,
    pub size: u64,
}

impl View for FileMeta {
    type V = (Seq<char>, u64);

    open spec fn view(&self) -> (Seq<char>, u64) {
        (self.rel_path@, self.size)
    }
}

/// The view of a listing.
pub type ListingV = Seq<(Seq<char>, u64)>;

/// A listing holds a path.
pub open spec fn listing_has(l: ListingV, p: Seq<char>) -> bool {
    exists|i: int| 0 <= i < l.len() && l[i].0 == p
}

/// The size recorded for a path in a listing.
pub open spec fn listing_size(l: ListingV, p: Seq<char>) -> u64 {
    l[choose|i: int| 0 <= i < l.len() && l[i].0 == p].1
}

/// Paths in a listing are unique.
pub open spec fn listing_wf(l: ListingV) -> bool {
    forall|i: int, j: int| 0 <= i < l.len() && 0 <= j < l.len() && i != j ==> l[i].0 != l[j].0
}

/// The reserved workspace name prefix: `.deltaruntime_`.
pub open spec fn reserved_prefix() -> Seq<char> {
    seq!['.', 'd', 'e', 'l', 't', 'a', 'r', 'u', 'n', 't', 'i', 'm', 'e', '_']
}

/// One sequence starts with another.
pub open spec fn seq_starts_with(s: Seq<char>, prefix: Seq<char>) -> bool {
    s.len() >= prefix.len() && s.subrange(0, prefix.len() as int) == prefix
}

/// A path contains a segment that begins with the reserved prefix, and
/// is therefore hidden from the overlay.
pub open spec fn is_reserved_path(p: Seq<char>) -> bool {
    exists|k: int|
        0 <= k < split_path(p).len() && seq_starts_with(#[trigger] split_path(p)[k], reserved_prefix())
}

/// The source of a path present in the given combination of trees.
pub open spec fn spec_classify(in_base: bool, in_workspace: bool) -> Option<VirtualNodeSource> {
    if in_workspace && in_base {
        Some(VirtualNodeSource::Override)
    } else if in_workspace {
        Some(VirtualNodeSource::Workspace)
    } else if in_base {
        Some(VirtualNodeSource::Base)
    } else {
        None
    }
}

/// What the overlay shows at a path: its size and source, or nothing.
/// A reserved workspace entry is treated as absent from the workspace.
pub open spec fn spec_overlay_at(b: ListingV, w: ListingV, p: Seq<char>) -> Option<(
    u64,
    VirtualNodeSource,
)> {
    let ws_visible = listing_has(w, p) && !is_reserved_path(p);
    if ws_visible && listing_has(b, p) {
        Some((listing_size(w, p), VirtualNodeSource::Override))
    } else if ws_visible {
        Some((listing_size(w, p), VirtualNodeSource::Workspace))
    } else if listing_has(b, p) {
        Some((listing_size(b, p), VirtualNodeSource::Base))
    } else {
        None
    }
}

/// A path visible in the workspace is never reported as `Base`, and a
/// path visible in both trees is always reported as `Override`.
pub proof fn lemma_workspace_never_base(b: ListingV, w: ListingV, p: Seq<char>)
    requires
        listing_has(w, p),
        !is_reserved_path(p),
    ensures
        spec_overlay_at(b, w, p) matches Some(f) && f.1 != VirtualNodeSource::Base,
        listing_has(b, p) ==> spec_overlay_at(b, w, p) == Some(
            (listing_size(w, p), VirtualNodeSource::Override),
        ),
{
}

/// One merged file of the overlay.
#[derive(Debug, Clone)]
pub struct OverlayFile {
    pub rel_path: String,
    pub size: u64,
    pub source: VirtualNodeSource,
}

impl View for OverlayFile {
    type V = (Seq<char>, u64, VirtualNodeSource);

    open spec fn view(&self) -> (Seq<char>, u64, VirtualNodeSource) {
        (self.rel_path@, self.size, self.source)
    }
}

/// The view of a merged overlay.
pub type OverlayV = Seq<(Seq<char>, u64, VirtualNodeSource)>;

/// Every entry of a merged overlay agrees with `spec_overlay_at`, every
/// visible path appears, and paths are unique.
pub open spec fn overlay_complete(b: ListingV, w: ListingV, o: OverlayV) -> bool {
    &&& forall|k: int|
        0 <= k < o.len() ==> spec_overlay_at(b, w, (#[trigger] o[k]).0) == Some((o[k].1, o[k].2))
    &&& forall|p: Seq<char>|
        #[trigger] spec_overlay_at(b, w, p) is Some ==> exists|k: int|
            0 <= k < o.len() && (#[trigger] o[k]).0 == p
    &&& forall|k: int, k2: int|
        0 <= k < o.len() && 0 <= k2 < o.len() && k != k2 ==> o[k].0 != o[k2].0
}

/// Finds a path in a listing.
pub fn listing_find(l: &Vec<FileMeta>, rel_path: &str) -> (r: Option<usize>)
    ensures
        match r {
            Some(i) => i < l@.len() && l@[i as int]@.0 == rel_path@ && listing_has(
                l@.map_values(|m: FileMeta| m@),
                rel_path@,
            ),
            None => !listing_has(l@.map_values(|m: FileMeta| m@), rel_path@),
        },
{
    let mut i: usize = 0;
    while i < l.len()
        invariant
            i <= l@.len(),
            forall|q: int| 0 <= q < i ==> (#[trigger] l@[q])@.0 != rel_path@,
        decreases l.len() - i,
    {
        if crate::pathnorm::eq_str(l[i].rel_path.as_str(), rel_path) {
            proof {
                let lv = l@.map_values(|m: FileMeta| m@);
                assert(lv[i as int] == l@[i as int]@);
                assert(listing_has(lv, rel_path@));
            }
            return Some(i);
        }
        i = i + 1;
    }
    proof {
        let lv = l@.map_values(|m: FileMeta| m@);
        if listing_has(lv, rel_path@) {
            let q = choose|q: int| 0 <= q < lv.len() && lv[q].0 == rel_path@;
            assert(l@[q]@.0 == rel_path@);
        }
    }
    None
}

/// Whether any segment of a path begins with the reserved prefix.
pub fn is_reserved(rel_path: &str) -> (r: bool)
    ensures
        r == is_reserved_path(rel_path@),
{
    proof {
        reveal_strlit(".deltaruntime_");
        assert(".deltaruntime_"@ =~= reserved_prefix());
    }
    let segs = crate::pathnorm::split_path_exec(rel_path);
    let ghost sv = split_path(rel_path@);
    let mut k: usize = 0;
    while k < segs.len()
        invariant
            k <= segs@.len(),
            segs@.map_values(|t: String| t@) == sv,
            sv == split_path(rel_path@),
            forall|q: int| 0 <= q < k ==> !seq_starts_with(#[trigger] sv[q], reserved_prefix()),
        decreases segs.len() - k,
    {
        let hit = crate::pathnorm::starts_with_str(segs[k].as_str(), ".deltaruntime_");
        proof {
            reveal_strlit(".deltaruntime_");
            assert(".deltaruntime_"@ =~= reserved_prefix());
            assert(sv[k as int] == segs@[k as int]@);
        }
        if hit {
            proof {
                assert(seq_starts_with(sv[k as int], reserved_prefix()));
            }
            return true;
        }
        k = k + 1;
    }
    proof {
        if is_reserved_path(rel_path@) {
            let q = choose|q: int|
                0 <= q < sv.len() && seq_starts_with(#[trigger] sv[q], reserved_prefix());
            assert(!seq_starts_with(sv[q], reserved_prefix()));
        }
    }
    false
}

/// Merges a base listing and a workspace listing into the overlay's
/// files: workspace entries first (reserved names hidden), then the
/// base entries not shadowed by a workspace entry.
/// The path comes from one of the first `upto` workspace entries and
/// is not reserved.
pub open spec fn ws_origin(wv: ListingV, upto: int, path: Seq<char>) -> bool {
    exists|q: int|
        0 <= q < upto && (#[trigger] wv[q]).0 == path && !is_reserved_path(wv[q].0)
}

#[verifier::rlimit(80)]
pub fn overlay_files(base: &Vec<FileMeta>, workspace: &Vec<FileMeta>) -> (out: Vec<OverlayFile>)
    requires
        listing_wf(base@.map_values(|m: FileMeta| m@)),
        listing_wf(workspace@.map_values(|m: FileMeta| m@)),
    ensures
        overlay_complete(
            base@.map_values(|m: FileMeta| m@),
            workspace@.map_values(|m: FileMeta| m@),
            out@.map_values(|f: OverlayFile| f@),
        ),
{
    let ghost bv = base@.map_values(|m: FileMeta| m@);
    let ghost wv = workspace@.map_values(|m: FileMeta| m@);
    let mut out: Vec<OverlayFile> = Vec::new();
    let mut i: usize = 0;
    while i < workspace.len()
        invariant
            i <= workspace@.len(),
            bv == base@.map_values(|m: FileMeta| m@),
            wv == workspace@.map_values(|m: FileMeta| m@),
            listing_wf(bv),
            listing_wf(wv),
            forall|k: int|
                0 <= k < out@.len() ==> spec_overlay_at(bv, wv, (#[trigger] out@[k])@.0) == Some(
                    (out@[k]@.1, out@[k]@.2),
                ),
            forall|q: int|
                0 <= q < i && !is_reserved_path((#[trigger] wv[q]).0) ==> exists|k: int|
                    0 <= k < out@.len() && (#[trigger] out@[k])@.0 == wv[q].0,
            forall|k: int| 0 <= k < out@.len() ==> ws_origin(wv, i as int, (#[trigger] out@[k])@.0),
            forall|k: int, k2: int|
                0 <= k < out@.len() && 0 <= k2 < out@.len() && k != k2 ==> out@[k]@.0
                    != out@[k2]@.0,
        decreases workspace.len() - i,
    {
        let ghost out0 = out@;
        let rel = &workspace[i].rel_path;
        proof {
            assert(wv[i as int] == workspace@[i as int]@);
            assert(listing_has(wv, rel@));
            let q0 = choose|q0: int| 0 <= q0 < wv.len() && wv[q0].0 == rel@;
            if q0 != i as int {
                assert(wv[q0].0 != wv[i as int].0);
            }
            assert(listing_size(wv, rel@) == workspace@[i as int].size);
        }
        let reserved = is_reserved(rel.as_str());
        if !reserved {
            let in_base = match listing_find(base, rel.as_str()) {
                Some(_) => true,
                None => false,
            };
            let source = if in_base {
                VirtualNodeSource::Override
            } else {
                VirtualNodeSource::Workspace
            };
            let item = OverlayFile { rel_path: rel.clone(), size: workspace[i].size, source };
            proof {
                assert(spec_overlay_at(bv, wv, rel@) == Some((workspace@[i as int].size, source)));
                assert forall|k: int| 0 <= k < out0.len() implies (#[trigger] out0[k])@.0
                    != rel@ by {
                    if out0[k]@.0 == rel@ {
                        assert(ws_origin(wv, i as int, out0[k]@.0));
                        let q = choose|q: int|
                            0 <= q < i && (#[trigger] wv[q]).0 == out0[k]@.0 && !is_reserved_path(
                                wv[q].0,
                            );
                        assert(wv[q].0 == wv[i as int].0);
                        assert(q != i as int);
                    }
                }
            }
            out.push(item);
            proof {
                assert(out@[out@.len() - 1]@.0 == wv[i as int].0);
                assert(forall|k: int| 0 <= k < out0.len() ==> out@[k] == out0[k]);
            }
        }
        proof {
            assert forall|q: int|
                0 <= q < i + 1 && !is_reserved_path((#[trigger] wv[q]).0) implies exists|k: int|
                0 <= k < out@.len() && (#[trigger] out@[k])@.0 == wv[q].0 by {
                if q == i as int {
                    assert(!reserved);
                    assert(out@[out@.len() - 1]@.0 == wv[q].0);
                } else {
                    let k = choose|k: int|
                        0 <= k < out0.len() && (#[trigger] out0[k])@.0 == wv[q].0;
                    assert(out@[k]@.0 == wv[q].0);
                }
            }
            assert forall|k: int| 0 <= k < out@.len() implies ws_origin(
                wv,
                i + 1,
                (#[trigger] out@[k])@.0,
            ) by {
                if k < out0.len() {
                    assert(out@[k] == out0[k]);
                    assert(ws_origin(wv, i as int, out0[k]@.0));
                    let q = choose|q: int|
                        0 <= q < i && (#[trigger] wv[q]).0 == out0[k]@.0 && !is_reserved_path(
                            wv[q].0,
                        );
                    assert(0 <= q < i + 1 && wv[q].0 == out@[k]@.0 && !is_reserved_path(wv[q].0));
                } else {
                    assert(out@[k]@.0 == wv[i as int].0 && !is_reserved_path(wv[i as int].0));
                    assert(wv[i as int].0 == out@[k]@.0 && !is_reserved_path(wv[i as int].0));
                    assert(ws_origin(wv, i + 1, out@[k]@.0));
                }
            }
        }
        i = i + 1;
    }
    let mut j: usize = 0;
    while j < base.len()
        invariant
            j <= base@.len(),
            bv == base@.map_values(|m: FileMeta| m@),
            wv == workspace@.map_values(|m: FileMeta| m@),
            listing_wf(bv),
            listing_wf(wv),
            forall|k: int|
                0 <= k < out@.len() ==> spec_overlay_at(bv, wv, (#[trigger] out@[k])@.0) == Some(
                    (out@[k]@.1, out@[k]@.2),
                ),
            forall|q: int|
                0 <= q < wv.len() && !is_reserved_path((#[trigger] wv[q]).0) ==> exists|k: int|
                    0 <= k < out@.len() && (#[trigger] out@[k])@.0 == wv[q].0,
            forall|q: int|
                0 <= q < j && !(listing_has(wv, (#[trigger] bv[q]).0) && !is_reserved_path(
                    bv[q].0,
                )) ==> exists|k: int| 0 <= k < out@.len() && (#[trigger] out@[k])@.0 == bv[q].0,
            forall|k: int|
                0 <= k < out@.len() ==> (listing_has(wv, (#[trigger] out@[k])@.0)
                    && !is_reserved_path(out@[k]@.0)) || exists|q: int|
                    0 <= q < j && (#[trigger] out@[k])@.0 == bv[q].0,
            forall|k: int, k2: int|
                0 <= k < out@.len() && 0 <= k2 < out@.len() && k != k2 ==> out@[k]@.0
                    != out@[k2]@.0,
        decreases base.len() - j,
    {
        let ghost out0 = out@;
        let rel = &base[j].rel_path;
        proof {
            assert(bv[j as int] == base@[j as int]@);
            assert(listing_has(bv, rel@));
            let q0 = choose|q0: int| 0 <= q0 < bv.len() && bv[q0].0 == rel@;
            if q0 != j as int {
                assert(bv[q0].0 != bv[j as int].0);
            }
            assert(listing_size(bv, rel@) == base@[j as int].size);
        }
        let ws_hit = match listing_find(workspace, rel.as_str()) {
            Some(_) => true,
            None => false,
        };
        let visible_in_ws = ws_hit && !is_reserved(rel.as_str());
        if !visible_in_ws {
            let item = OverlayFile {
                rel_path: rel.clone(),
                size: base[j].size,
                source: VirtualNodeSource::Base,
            };
            proof {
                assert(spec_overlay_at(bv, wv, rel@) == Some(
                    (base@[j as int].size, VirtualNodeSource::Base),
                ));
                assert forall|k: int| 0 <= k < out0.len() implies (#[trigger] out0[k])@.0
                    != rel@ by {
                    if out0[k]@.0 == rel@ {
                        if listing_has(wv, out0[k]@.0) && !is_reserved_path(out0[k]@.0) {
                            assert(visible_in_ws);
                        } else {
                            let q = choose|q: int|
                                0 <= q < j && (#[trigger] out0[k])@.0 == bv[q].0;
                            assert(bv[q].0 == bv[j as int].0);
                            assert(q != j as int);
                        }
                    }
                }
            }
            out.push(item);
            proof {
                assert(out@[out@.len() - 1]@.0 == bv[j as int].0);
                assert(forall|k: int| 0 <= k < out0.len() ==> out@[k] == out0[k]);
            }
        }
        proof {
            assert forall|q: int|
                0 <= q < wv.len() && !is_reserved_path((#[trigger] wv[q]).0) implies exists|
                k: int,
            | 0 <= k < out@.len() && (#[trigger] out@[k])@.0 == wv[q].0 by {
                let k = choose|k: int| 0 <= k < out0.len() && (#[trigger] out0[k])@.0 == wv[q].0;
                assert(out@[k]@.0 == wv[q].0);
            }
            assert forall|q: int|
                0 <= q < j + 1 && !(listing_has(wv, (#[trigger] bv[q]).0) && !is_reserved_path(
                    bv[q].0,
                )) implies exists|k: int|
                0 <= k < out@.len() && (#[trigger] out@[k])@.0 == bv[q].0 by {
                if q == j as int {
                    assert(!visible_in_ws);
                    assert(out@[out@.len() - 1]@.0 == bv[q].0);
                } else {
                    let k = choose|k: int|
                        0 <= k < out0.len() && (#[trigger] out0[k])@.0 == bv[q].0;
                    assert(out@[k]@.0 == bv[q].0);
                }
            }
            assert forall|k: int| 0 <= k < out@.len() implies (listing_has(
                wv,
                (#[trigger] out@[k])@.0,
            ) && !is_reserved_path(out@[k]@.0)) || exists|q: int|
                0 <= q < j + 1 && (#[trigger] out@[k])@.0 == bv[q].0 by {
                if k < out0.len() {
                    assert(out@[k] == out0[k]);
                    if !(listing_has(wv, out0[k]@.0) && !is_reserved_path(out0[k]@.0)) {
                        let q = choose|q: int| 0 <= q < j && (#[trigger] out0[k])@.0 == bv[q].0;
                        assert(out@[k]@.0 == bv[q].0);
                    }
                } else {
                    assert(out@[k]@.0 == bv[j as int].0);
                }
            }
        }
        j = j + 1;
    }
    proof {
        let ov = out@.map_values(|f: OverlayFile| f@);
        assert forall|k: int| 0 <= k < ov.len() implies spec_overlay_at(
            bv,
            wv,
            (#[trigger] ov[k]).0,
        ) == Some((ov[k].1, ov[k].2)) by {
            assert(ov[k] == out@[k]@);
        }
        assert forall|p: Seq<char>| #[trigger] spec_overlay_at(bv, wv, p) is Some implies exists|
            k: int,
        | 0 <= k < ov.len() && (#[trigger] ov[k]).0 == p by {
            if listing_has(wv, p) && !is_reserved_path(p) {
                let q = choose|q: int| 0 <= q < wv.len() && wv[q].0 == p;
                let k = choose|k: int| 0 <= k < out@.len() && (#[trigger] out@[k])@.0 == wv[q].0;
                assert(ov[k] == out@[k]@);
                assert(ov[k].0 == p);
            } else {
                assert(listing_has(bv, p));
                let q = choose|q: int| 0 <= q < bv.len() && bv[q].0 == p;
                let k = choose|k: int| 0 <= k < out@.len() && (#[trigger] out@[k])@.0 == bv[q].0;
                assert(ov[k] == out@[k]@);
                assert(ov[k].0 == p);
            }
        }
        assert forall|k: int, k2: int|
            0 <= k < ov.len() && 0 <= k2 < ov.len() && k != k2 implies ov[k].0 != ov[k2].0 by {
            assert(ov[k] == out@[k]@ && ov[k2] == out@[k2]@);
        }
    }
    out
}


} // verus!
