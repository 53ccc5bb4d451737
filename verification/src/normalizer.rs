//! The workspace normalizer: filesystem events from a profile's
//! workspace are coalesced by path over a quiet window, and each settled
//! file is ingested into the blob store and rewritten as a hardlink to
//! its blob, so identical content across profiles costs one physical
//! copy.  Re-processing an already-normalized file changes nothing.

use vstd::prelude::*;
use vstd::string::StrSliceExecFns;
use vstd::string::StringExecFns;
use crate::digest::{blake3_hex, hash_bytes, is_hex_digest};
use crate::index::{BlobIndex, index_wf, owner_of, has_pair, spec_remove_ref, has_ref};
use crate::pathnorm::split_path;
use crate::store::{BlobCache, StoreError, blob_rel, store_wf, index_digests_hex};
use crate::volume::{Volume, vol_lookup};

verus! {

/// The kind of a settled file change.
#[derive(Debug, Clone, Copy, PartialEq, Eq, Structural)]
pub enum FileChangeKind {
    Created,
    Modified,
    Deleted,
    Renamed,
}

/// A raw filesystem event kind, as the watcher reports it.
#[derive(Debug, Clone, Copy, PartialEq, Eq, Structural)]
pub enum RawEventKind {
    Create,
    Modify,
    Remove,
    Other,
    Unsupported,
}

/// A debounced file change: the absolute path, the settled kind, and
/// when it was last seen (milliseconds).
#[derive(Debug, Clone)]
pub struct FileChangeEvent {
    pub path: String,
    pub kind: FileChangeKind,
    pub timestamp: u64,
}

impl View for FileChangeEvent {
    type V = (Seq<char>, FileChangeKind, u64);

    open spec fn view(&self) -> (Seq<char>, FileChangeKind, u64) {
        (self.path@, self.kind, self.timestamp)
    }
}

/// The last path segment.
pub open spec fn last_segment(p: Seq<char>) -> Seq<char> {
    split_path(p).last()
}

/// Whether an event is accepted into the debounce buffer, and as what:
/// only file events under the workspace whose name is not hidden, with
/// unknown kinds treated as modifications.
pub open spec fn spec_classify_event(
    path: Seq<char>,
    is_dir: bool,
    workspace_path: Seq<char>,
    kind: RawEventKind,
) -> Option<FileChangeKind> {
    if !(path.len() >= workspace_path.len() && path.subrange(0, workspace_path.len() as int)
        == workspace_path) {
        None
    } else if is_dir {
        None
    } else if last_segment(path).len() > 0 && last_segment(path)[0] == '.' {
        None
    } else {
        match kind {
            RawEventKind::Create => Some(FileChangeKind::Created),
            RawEventKind::Modify => Some(FileChangeKind::Modified),
            RawEventKind::Remove => Some(FileChangeKind::Deleted),
            RawEventKind::Other => Some(FileChangeKind::Modified),
            RawEventKind::Unsupported => None,
        }
    }
}

/// Classifies one raw watcher event.
pub fn classify_event(path: &str, is_dir: bool, workspace_path: &str, kind: RawEventKind) -> (r:
    Option<FileChangeKind>)
    ensures
        r == spec_classify_event(path@, is_dir, workspace_path@, kind),
{
    if !crate::pathnorm::starts_with_str(path, workspace_path) {
        return None;
    }
    if is_dir {
        return None;
    }
    let segs = crate::pathnorm::split_path_exec(path);
    proof {
        crate::pathnorm::lemma_split_path_nonempty(path@);
        assert(segs@.map_values(|t: String| t@).last() == last_segment(path@));
        assert(segs@[segs@.len() - 1]@ == last_segment(path@));
    }
    let name = &segs[segs.len() - 1];
    let hidden = name.as_str().unicode_len() > 0 && name.as_str().get_char(0) == '.';
    if hidden {
        return None;
    }
    match kind {
        RawEventKind::Create => Some(FileChangeKind::Created),
        RawEventKind::Modify => Some(FileChangeKind::Modified),
        RawEventKind::Remove => Some(FileChangeKind::Deleted),
        RawEventKind::Other => Some(FileChangeKind::Modified),
        RawEventKind::Unsupported => None,
    }
}

/// The debounce buffer: at most one pending event per path.
#[derive(Debug)]
pub struct DebounceBuffer {
    pub pending: Vec<FileChangeEvent>,
}

/// The view of a debounce buffer.
pub type PendingV = Seq<(Seq<char>, FileChangeKind, u64)>;

/// The buffer holds an event for a path.
pub open spec fn pending_has(v: PendingV, p: Seq<char>) -> bool {
    exists|i: int| 0 <= i < v.len() && (#[trigger] v[i]).0 == p
}

/// The position of a path's pending event.
pub open spec fn pending_idx(v: PendingV, p: Seq<char>) -> int {
    choose|i: int| 0 <= i < v.len() && (#[trigger] v[i]).0 == p
}

/// Paths in the buffer are unique.
pub open spec fn pending_wf(v: PendingV) -> bool {
    forall|i: int, j: int| 0 <= i < v.len() && 0 <= j < v.len() && i != j ==> v[i].0 != v[j].0
}

/// Recording an event: the latest event for a path overwrites the
/// pending one in place; a new path is appended.
pub open spec fn spec_record(v: PendingV, e: (Seq<char>, FileChangeKind, u64)) -> PendingV {
    if pending_has(v, e.0) {
        v.update(pending_idx(v, e.0), e)
    } else {
        v.push(e)
    }
}

impl DebounceBuffer {
    /// An empty buffer.
    pub fn new() -> (r: DebounceBuffer)
        ensures
            r.pending@.len() == 0,
            pending_wf(r.pending@.map_values(|e: FileChangeEvent| e@)),
    {
        DebounceBuffer { pending: Vec::new() }
    }

    /// Records an event.  During a burst, the same path's latest event
    /// overwrites the earlier one; nothing else moves.
    pub fn record(&mut self, event: FileChangeEvent)
        requires
            pending_wf(old(self).pending@.map_values(|e: FileChangeEvent| e@)),
        ensures
            pending_wf(final(self).pending@.map_values(|e: FileChangeEvent| e@)),
            final(self).pending@.map_values(|e: FileChangeEvent| e@) == spec_record(
                old(self).pending@.map_values(|e: FileChangeEvent| e@),
                event@,
            ),
    {
        let ghost v = self.pending@.map_values(|e: FileChangeEvent| e@);
        let mut i: usize = 0;
        while i < self.pending.len()
            invariant
                i <= self.pending@.len(),
                v == self.pending@.map_values(|e: FileChangeEvent| e@),
                v == old(self).pending@.map_values(|e: FileChangeEvent| e@),
                pending_wf(v),
                forall|q: int| 0 <= q < i ==> (#[trigger] v[q]).0 != event.path@,
            decreases self.pending.len() - i,
        {
            proof {
                assert(v[i as int] == self.pending@[i as int]@);
            }
            if crate::pathnorm::eq_str(self.pending[i].path.as_str(), event.path.as_str()) {
                proof {
                    assert(pending_has(v, event.path@));
                    let j = pending_idx(v, event.path@);
                    assert(0 <= j < v.len() && v[j].0 == event.path@);
                    if j != i as int {
                        assert(v[j].0 != v[i as int].0);
                    }
                }
                let ghost ev = event@;
                self.pending.remove(i);
                self.pending.insert(i, event);
                proof {
                    assert(self.pending@.map_values(|e: FileChangeEvent| e@) =~= v.update(
                        i as int,
                        ev,
                    ));
                    assert forall|x: int, y: int|
                        0 <= x < v.update(i as int, ev).len() && 0 <= y < v.update(
                            i as int,
                            ev,
                        ).len() && x != y implies v.update(i as int, ev)[x].0 != v.update(
                        i as int,
                        ev,
                    )[y].0 by {
                        if x == i as int {
                            assert(v.update(i as int, ev)[y] == v[y]);
                            assert(v[y].0 != v[i as int].0);
                        } else if y == i as int {
                            assert(v.update(i as int, ev)[x] == v[x]);
                            assert(v[x].0 != v[i as int].0);
                        } else {
                            assert(v.update(i as int, ev)[x] == v[x] && v.update(
                                i as int,
                                ev,
                            )[y] == v[y]);
                        }
                    }
                }
                return ;
            }
            i = i + 1;
        }
        proof {
            assert(!pending_has(v, event.path@)) by {
                if pending_has(v, event.path@) {
                    let j = pending_idx(v, event.path@);
                    assert(v[j].0 != event.path@);
                }
            }
        }
        let ghost ev = event@;
        self.pending.push(event);
        proof {
            assert(self.pending@.map_values(|e: FileChangeEvent| e@) =~= v.push(ev));
            let w = v.push(ev);
            assert forall|x: int, y: int|
                0 <= x < w.len() && 0 <= y < w.len() && x != y implies w[x].0 != w[y].0 by {
                if x == v.len() as int {
                    assert(w[y] == v[y]);
                    assert(!pending_has(v, ev.0));
                } else if y == v.len() as int {
                    assert(w[x] == v[x]);
                    assert(!pending_has(v, ev.0));
                } else {
                    assert(w[x] == v[x] && w[y] == v[y]);
                }
            }
        }
    }

    /// Whether the quiet window has elapsed: there is pending work and
    /// no event arrived in the last two hundred milliseconds.
    pub fn ready(&self, now_ms: u64, last_activity_ms: u64) -> (r: bool)
        ensures
            r == (self.pending@.len() > 0 && now_ms >= last_activity_ms && now_ms
                - last_activity_ms >= 200),
    {
        self.pending.len() > 0 && now_ms >= last_activity_ms && now_ms - last_activity_ms >= 200
    }

    /// Drains the buffer, yielding the settled events.
    pub fn take_all(&mut self) -> (out: Vec<FileChangeEvent>)
        ensures
            out@ == old(self).pending@,
            final(self).pending@.len() == 0,
    {
        let mut out: Vec<FileChangeEvent> = Vec::new();
        core::mem::swap(&mut out, &mut self.pending);
        out
    }
}

/// The workspace-relative path of an absolute path: the remainder after
/// the workspace prefix and one separator.
pub open spec fn spec_rel_of(path: Seq<char>, workspace_path: Seq<char>) -> Option<Seq<char>> {
    if path.len() > workspace_path.len() + 1 && path.subrange(0, workspace_path.len() as int)
        == workspace_path && crate::pathnorm::is_sep(path[workspace_path.len() as int]) {
        Some(path.subrange(workspace_path.len() as int + 1, path.len() as int))
    } else {
        None
    }
}

/// Strips the workspace prefix from an absolute path.
pub fn rel_of_workspace_path(path: &str, workspace_path: &str) -> (r: Option<String>)
    ensures
        match r {
            Some(s) => spec_rel_of(path@, workspace_path@) == Some(s@),
            None => spec_rel_of(path@, workspace_path@) is None,
        },
{
    let n: usize = path.unicode_len();
    let m: usize = workspace_path.unicode_len();
    if n <= m || n - m <= 1 {
        return None;
    }
    if !crate::pathnorm::starts_with_str(path, workspace_path) {
        return None;
    }
    let c = path.get_char(m);
    if !(c == '\\' || c == '/') {
        return None;
    }
    Some(String::from_str(path.substring_char(m + 1, n)))
}

/// Normalizes one workspace file: its content is ingested into the blob
/// store, any previously recorded reference for the path is detached
/// (collecting the old blob when it was the last reference), the new
/// reference is recorded, and the file itself is rewritten as a
/// hardlink to its blob.  A missing file is skipped; a file already
/// hardlinked to its blob and correctly recorded is left entirely
/// unchanged.  Nothing else on the volume and no other pair's
/// references are touched.
#[verifier::rlimit(60)]
pub fn normalize_file(
    vol: &mut Volume,
    index: &mut BlobIndex,
    cache: &BlobCache,
    profile_name: &str,
    workspace_area: &str,
    rel_path: &str,
) -> (r: Result<(), StoreError>)
    requires
        old(vol).wf(),
        old(vol).next_node < u64::MAX,
        store_wf(cache.cache_dir@, old(vol)@),
        index_wf(old(index)@),
        index_digests_hex(old(index)@),
        workspace_area@ != cache.cache_dir@,
    ensures
        r is Ok,
        final(vol).wf(),
        store_wf(cache.cache_dir@, final(vol)@),
        index_wf(final(index)@),
        index_digests_hex(final(index)@),
        final(vol).next_node <= old(vol).next_node + 1,
        vol_lookup(old(vol)@, workspace_area@, rel_path@) is None ==> final(vol)@ == old(vol)@
            && final(index)@ == old(index)@,
        match vol_lookup(old(vol)@, workspace_area@, rel_path@) {
            Some(f) => {
                let d = blake3_hex(f.1);
                let owner0 = owner_of(old(index)@, profile_name@, rel_path@);
                let noop = vol_lookup(old(vol)@, cache.cache_dir@, blob_rel(d)) matches Some(b0)
                    && b0.0 == f.0 && owner0 == Some(d);
                &&& owner_of(final(index)@, profile_name@, rel_path@) == Some(d)
                &&& (match (
                    vol_lookup(final(vol)@, workspace_area@, rel_path@),
                    vol_lookup(final(vol)@, cache.cache_dir@, blob_rel(d)),
                ) {
                    (Some(wsf), Some(blob)) => wsf.0 == blob.0 && wsf.1 == blob.1 && blake3_hex(
                        blob.1,
                    ) == d,
                    _ => false,
                })
                &&& (noop ==> final(vol)@ == old(vol)@ && final(index)@ == old(index)@)
                &&& (!noop ==> final(index)@ == (match owner0 {
                    None => crate::index::spec_add_ref(old(index)@, d, profile_name@, rel_path@),
                    Some(d0) => crate::index::spec_add_ref(
                        spec_remove_ref(old(index)@, d0, profile_name@, rel_path@).0,
                        d,
                        profile_name@,
                        rel_path@,
                    ),
                }))
                &&& (forall|p2: Seq<char>, r2: Seq<char>, d2: Seq<char>|
                    (p2, r2) != (profile_name@, rel_path@) ==> #[trigger] has_ref(
                        final(index)@,
                        d2,
                        p2,
                        r2,
                    ) == has_ref(old(index)@, d2, p2, r2))
                &&& (forall|a: Seq<char>, r2: Seq<char>|
                    !(a == workspace_area@ && r2 == rel_path@) && !(a == cache.cache_dir@ && r2
                        == blob_rel(d)) && (match owner0 {
                        Some(d0) => !(a == cache.cache_dir@ && r2 == blob_rel(d0)),
                        None => true,
                    }) ==> #[trigger] vol_lookup(final(vol)@, a, r2) == vol_lookup(
                        old(vol)@,
                        a,
                        r2,
                    ))
                &&& (!noop ==> ({
                    let blob_survives = vol_lookup(
                        old(vol)@,
                        cache.cache_dir@,
                        blob_rel(d),
                    ) is Some && !(owner0 == Some(d) && spec_remove_ref(
                        old(index)@,
                        d,
                        profile_name@,
                        rel_path@,
                    ).1);
                    vol_lookup(final(vol)@, workspace_area@, rel_path@) matches Some(wsf)
                        && wsf.1 == (if blob_survives {
                        vol_lookup(old(vol)@, cache.cache_dir@, blob_rel(d))->Some_0.1
                    } else {
                        f.1
                    })
                }))
                &&& (match owner0 {
                    Some(d0) => d0 != d ==> ({
                        &&& (spec_remove_ref(old(index)@, d0, profile_name@, rel_path@).1
                            ==> vol_lookup(final(vol)@, cache.cache_dir@, blob_rel(d0)) is None)
                        &&& (!spec_remove_ref(old(index)@, d0, profile_name@, rel_path@).1
                            ==> vol_lookup(final(vol)@, cache.cache_dir@, blob_rel(d0))
                            == vol_lookup(old(vol)@, cache.cache_dir@, blob_rel(d0)))
                    }),
                    None => true,
                })
            },
            None => true,
        },
{
    let ghost v0 = vol@;
    let ghost i0 = index@;
    let bytes = match vol.read(workspace_area, rel_path) {
        Some(b) => b,
        None => { return Ok(()) },
    };
    let ghost fbytes = bytes@;
    let digest = hash_bytes(&bytes);
    let brel = cache.blob_rel_path(digest.as_str());
    let already_linked = vol.same_file(
        workspace_area,
        rel_path,
        cache.cache_dir.as_str(),
        brel.as_str(),
    );
    let owner = index.owner_digest(profile_name, rel_path);
    let owner_is_digest = match &owner {
        Some(d) => crate::pathnorm::eq_str(d.as_str(), digest.as_str()),
        None => false,
    };
    let ghost d = digest@;
    proof {
        // The recorded owner, if any, is a digest of the index and so
        // hex-shaped; a different owner names a different blob path.
        if owner_of(i0, profile_name@, rel_path@) is Some {
            let i = choose|i: int|
                0 <= i < i0.len() && crate::index::refs_have_pair(i0[i].1, profile_name@, rel_path@);
            assert(is_hex_digest(i0[i].0));
        }
    }
    if already_linked && owner_is_digest {
        return Ok(());
    }
    if already_linked {
        // The file is physically normalized; only the index is stale.
        cache.remove_existing_ref(vol, index, profile_name, rel_path);
        let ghost v1 = vol@;
        index.add_ref(digest.as_str(), profile_name, rel_path);
        proof {
            lemma_owner_after_add(index@, d, profile_name@, rel_path@);
            let owner0 = owner_of(i0, profile_name@, rel_path@);
            match owner0 {
                Some(d0) => {
                    assert(d0 != d);
                    assert(blob_rel(d0) != blob_rel(d)) by {
                        if blob_rel(d0) == blob_rel(d) {
                            crate::store::lemma_blob_rel_injective(d0, d);
                        }
                    }
                },
                None => {},
            }
            assert(vol_lookup(vol@, workspace_area@, rel_path@) == vol_lookup(
                v0,
                workspace_area@,
                rel_path@,
            ));
            assert(vol_lookup(vol@, cache.cache_dir@, blob_rel(d)) == vol_lookup(
                v0,
                cache.cache_dir@,
                blob_rel(d),
            ));
            // The linked file and its blob share a node, hence bytes.
            crate::volume::lemma_same_node_same_bytes(
                v0,
                old(vol).next_node as int,
                workspace_area@,
                rel_path@,
                cache.cache_dir@,
                blob_rel(d),
            );
            assert forall|p2: Seq<char>, r2: Seq<char>, d2: Seq<char>|
                (p2, r2) != (profile_name@, rel_path@) implies #[trigger] has_ref(
                index@,
                d2,
                p2,
                r2,
            ) == has_ref(i0, d2, p2, r2) by {
                match owner0 {
                    Some(d0) => {
                        crate::index::lemma_remove_ref_other_pairs(
                            i0, d0, profile_name@, rel_path@, d2, p2, r2,
                        );
                        crate::index::lemma_add_ref_other_pairs(
                            spec_remove_ref(i0, d0, profile_name@, rel_path@).0,
                            d, profile_name@, rel_path@, d2, p2, r2,
                        );
                    },
                    None => {
                        crate::index::lemma_add_ref_other_pairs(
                            i0, d, profile_name@, rel_path@, d2, p2, r2,
                        );
                    },
                }
            }
        }
        return Ok(());
    }
    // Detach any stale reference first, then ingest and relink.
    cache.remove_existing_ref(vol, index, profile_name, rel_path);
    let ghost v1 = vol@;
    let ghost i1 = index@;
    let ensured = cache.ensure_blob(vol, workspace_area, rel_path);
    let ghost v2 = vol@;
    match ensured {
        Ok(_) => {},
        Err(_) => {
            proof {
                assert(false);
            }
            return Ok(());
        },
    }
    index.add_ref(digest.as_str(), profile_name, rel_path);
    proof {
        lemma_owner_after_add(index@, d, profile_name@, rel_path@);
    }
    vol.remove_file(workspace_area, rel_path);
    let ghost v3 = vol@;
    let linked = cache.link_blob_to(vol, workspace_area, rel_path, digest.as_str());
    proof {
        assert(linked is Ok);
        let owner0 = owner_of(i0, profile_name@, rel_path@);
        // A different recorded owner names a different blob path.
        match owner0 {
            Some(d0) => {
                if d0 != d {
                    assert(blob_rel(d0) != blob_rel(d)) by {
                        if blob_rel(d0) == blob_rel(d) {
                            crate::store::lemma_blob_rel_injective(d0, d);
                        }
                    }
                }
            },
            None => {},
        }
        // The volume frame: chain the four steps at any untouched key.
        assert forall|a: Seq<char>, r2: Seq<char>|
            !(a == workspace_area@ && r2 == rel_path@) && !(a == cache.cache_dir@ && r2
                == blob_rel(d)) && (match owner0 {
                Some(d0) => !(a == cache.cache_dir@ && r2 == blob_rel(d0)),
                None => true,
            }) implies #[trigger] vol_lookup(vol@, a, r2) == vol_lookup(v0, a, r2) by {
            assert(vol_lookup(v1, a, r2) == vol_lookup(v0, a, r2));
            assert(vol_lookup(v2, a, r2) == vol_lookup(v1, a, r2));
            assert(vol_lookup(v3, a, r2) == vol_lookup(v2, a, r2));
            assert(vol_lookup(vol@, a, r2) == vol_lookup(v3, a, r2));
        }
        // The replaced blob's fate is decided by the detach step alone.
        match owner0 {
            Some(d0) => {
                if d0 != d {
                    assert(vol_lookup(v2, cache.cache_dir@, blob_rel(d0)) == vol_lookup(
                        v1,
                        cache.cache_dir@,
                        blob_rel(d0),
                    ));
                    assert(vol_lookup(v3, cache.cache_dir@, blob_rel(d0)) == vol_lookup(
                        v2,
                        cache.cache_dir@,
                        blob_rel(d0),
                    ));
                    assert(vol_lookup(vol@, cache.cache_dir@, blob_rel(d0)) == vol_lookup(
                        v3,
                        cache.cache_dir@,
                        blob_rel(d0),
                    ));
                }
            },
            None => {},
        }
        // The workspace file was unchanged until the relink, so the blob
        // written or found by the ingest decides the final content.
        assert(vol_lookup(v1, workspace_area@, rel_path@) == vol_lookup(
            v0,
            workspace_area@,
            rel_path@,
        ));
        assert(vol_lookup(vol@, workspace_area@, rel_path@) == vol_lookup(
            v2,
            cache.cache_dir@,
            blob_rel(d),
        ));
        // Whether the old blob survived the detach step, and what the
        // ingest therefore left at the blob path.
        let survived = vol_lookup(v1, cache.cache_dir@, blob_rel(d)) is Some;
        match owner0 {
            Some(d0) => {
                if d0 == d {
                    if spec_remove_ref(i0, d, profile_name@, rel_path@).1 {
                        assert(vol_lookup(v1, cache.cache_dir@, blob_rel(d)) is None);
                    } else {
                        assert(v1 == v0);
                    }
                } else {
                    assert(vol_lookup(v1, cache.cache_dir@, blob_rel(d)) == vol_lookup(
                        v0,
                        cache.cache_dir@,
                        blob_rel(d),
                    ));
                }
            },
            None => {
                assert(v1 == v0);
            },
        }
        if survived {
            assert(vol_lookup(v2, cache.cache_dir@, blob_rel(d)) == vol_lookup(
                v1,
                cache.cache_dir@,
                blob_rel(d),
            ));
            assert(vol_lookup(v1, cache.cache_dir@, blob_rel(d)) == vol_lookup(
                v0,
                cache.cache_dir@,
                blob_rel(d),
            ));
        } else {
            // The ingest stored the file's own bytes under a fresh blob.
            assert(vol_lookup(v1, workspace_area@, rel_path@) == vol_lookup(
                v0,
                workspace_area@,
                rel_path@,
            ));
            assert(match vol_lookup(v2, cache.cache_dir@, blob_rel(d)) {
                Some(blob) => blob.1 == fbytes,
                None => false,
            });
        }
        assert forall|p2: Seq<char>, r2: Seq<char>, d2: Seq<char>|
            (p2, r2) != (profile_name@, rel_path@) implies #[trigger] has_ref(
            index@,
            d2,
            p2,
            r2,
        ) == has_ref(i0, d2, p2, r2) by {
            match owner0 {
                Some(d0) => {
                    crate::index::lemma_remove_ref_other_pairs(
                        i0, d0, profile_name@, rel_path@, d2, p2, r2,
                    );
                    crate::index::lemma_add_ref_other_pairs(
                        spec_remove_ref(i0, d0, profile_name@, rel_path@).0,
                        d, profile_name@, rel_path@, d2, p2, r2,
                    );
                },
                None => {
                    crate::index::lemma_add_ref_other_pairs(
                        i0, d, profile_name@, rel_path@, d2, p2, r2,
                    );
                },
            }
        }
    }
    Ok(())
}

/// After adding a reference, the pair's owner is that digest.
pub proof fn lemma_owner_after_add(v: crate::index::IndexV, d: Seq<char>, p: Seq<char>, r: Seq<char>)
    requires
        has_ref(v, d, p, r),
        index_wf(v),
    ensures
        owner_of(v, p, r) == Some(d),
{
    let i = choose|i: int|
        0 <= i < v.len() && v[i].0 == d && crate::index::refs_have_pair(v[i].1, p, r);
    assert(has_pair(v, p, r));
    let j = choose|j: int|
        0 <= j < v.len() && crate::index::refs_have_pair(v[j].1, p, r);
    let a = choose|a: int| 0 <= a < v[i].1.len() && v[i].1[a] == (p, r);
    let b = choose|b: int| 0 <= b < v[j].1.len() && v[j].1[b] == (p, r);
    assert(v[i].1[a] == v[j].1[b]);
    assert(i == j);
}

/// Handles a deletion: the path's reference is removed, and the blob is
/// collected when that was its last reference.
pub fn handle_file_deletion(
    vol: &mut Volume,
    index: &mut BlobIndex,
    cache: &BlobCache,
    profile_name: &str,
    rel_path: &str,
) -> (r: Option<String>)
    requires
        old(vol).wf(),
        store_wf(cache.cache_dir@, old(vol)@),
        index_wf(old(index)@),
        index_digests_hex(old(index)@),
    ensures
        final(vol).wf(),
        final(vol).next_node == old(vol).next_node,
        store_wf(cache.cache_dir@, final(vol)@),
        index_wf(final(index)@),
        index_digests_hex(final(index)@),
        !has_pair(final(index)@, profile_name@, rel_path@),
        match owner_of(old(index)@, profile_name@, rel_path@) {
            None => r is None && final(index)@ == old(index)@ && final(vol)@ == old(vol)@,
            Some(d) => {
                &&& r matches Some(rd) && rd@ == d
                &&& final(index)@ == spec_remove_ref(old(index)@, d, profile_name@, rel_path@).0
                &&& (spec_remove_ref(old(index)@, d, profile_name@, rel_path@).1 ==> vol_lookup(
                    final(vol)@,
                    cache.cache_dir@,
                    blob_rel(d),
                ) is None)
                &&& (!spec_remove_ref(old(index)@, d, profile_name@, rel_path@).1 ==> final(vol)@
                    == old(vol)@)
            },
        },
{
    cache.remove_existing_ref(vol, index, profile_name, rel_path)
}

/// The number of events in a batch that ask for a normalization: the
/// non-deletion events whose path lies inside the workspace.
pub open spec fn count_normalizations(events: PendingV, workspace_path: Seq<char>) -> int
    decreases events.len(),
{
    if events.len() == 0 {
        0
    } else {
        count_normalizations(events.drop_last(), workspace_path) + (
        if events.last().1 != FileChangeKind::Deleted && spec_rel_of(
            events.last().0,
            workspace_path,
        ) is Some {
            1int
        } else {
            0int
        })
    }
}

/// Processes a settled batch: each non-deletion event normalizes its
/// file, each deletion detaches its reference, and the number of
/// normalizations is reported so the caller can announce the batch.
/// Deletions alone report zero.
pub fn process_file_changes(
    vol: &mut Volume,
    index: &mut BlobIndex,
    cache: &BlobCache,
    changes: &Vec<FileChangeEvent>,
    profile_name: &str,
    workspace_path: &str,
    workspace_area: &str,
) -> (count: usize)
    requires
        old(vol).wf(),
        old(vol).next_node + changes@.len() <= u64::MAX,
        store_wf(cache.cache_dir@, old(vol)@),
        index_wf(old(index)@),
        index_digests_hex(old(index)@),
        workspace_area@ != cache.cache_dir@,
    ensures
        final(vol).wf(),
        store_wf(cache.cache_dir@, final(vol)@),
        index_wf(final(index)@),
        index_digests_hex(final(index)@),
        count == count_normalizations(
            changes@.map_values(|e: FileChangeEvent| e@),
            workspace_path@,
        ),
{
    let ghost cv = changes@.map_values(|e: FileChangeEvent| e@);
    let mut count: usize = 0;
    let mut i: usize = 0;
    while i < changes.len()
        invariant
            i <= changes@.len(),
            cv == changes@.map_values(|e: FileChangeEvent| e@),
            vol.wf(),
            vol.next_node + (changes@.len() - i) <= u64::MAX,
            store_wf(cache.cache_dir@, vol@),
            index_wf(index@),
            index_digests_hex(index@),
            workspace_area@ != cache.cache_dir@,
            count == count_normalizations(cv.subrange(0, i as int), workspace_path@),
            count <= i,
        decreases changes.len() - i,
    {
        let ghost pre = cv.subrange(0, i as int);
        let ghost post = cv.subrange(0, i as int + 1);
        proof {
            assert(post.drop_last() =~= pre);
            assert(post.last() == cv[i as int]);
            assert(cv[i as int] == changes@[i as int]@);
        }
        let e = &changes[i];
        let is_deletion = match e.kind {
            FileChangeKind::Deleted => true,
            _ => false,
        };
        match rel_of_workspace_path(e.path.as_str(), workspace_path) {
            Some(rel) => {
                if is_deletion {
                    handle_file_deletion(vol, index, cache, profile_name, rel.as_str());
                } else {
                    let nr = normalize_file(
                        vol,
                        index,
                        cache,
                        profile_name,
                        workspace_area,
                        rel.as_str(),
                    );
                    count = count + 1;
                }
            },
            None => {},
        }
        proof {
            assert(count_normalizations(post, workspace_path@) == count_normalizations(
                pre,
                workspace_path@,
            ) + (if post.last().1 != FileChangeKind::Deleted && spec_rel_of(
                post.last().0,
                workspace_path@,
            ) is Some {
                1int
            } else {
                0int
            }));
            assert(cv.subrange(0, i as int + 1) == post);
        }
        i = i + 1;
    }
    proof {
        assert(cv.subrange(0, cv.len() as int) =~= cv);
    }
    count
}

} // verus!
