//! The runtime planner: computes the manifest that describes a
//! profile's materialized runtime — one entry per file of the overlay,
//! sourced from the base installation or from a blob — with aggregate
//! totals, and diffs between two plans.

use vstd::prelude::*;
use vstd::string::StringExecFns;
use crate::index::{BlobIndex, IndexV, index_wf, owner_of};
use crate::overlay::{
    FileMeta, ListingV, OverlayFile, VirtualNodeSource, listing_wf, overlay_files, spec_overlay_at,
    overlay_complete,
};
use crate::digest::blake3_hex;
use crate::settings::Settings;
use crate::store::BlobCache;
use crate::volume::{Volume, VolV, vol_lookup};

verus! {

/// Errors from planning.
#[derive(Debug, Clone)]
pub enum PlanError {
    /// A workspace file has no recorded blob; it was never normalized.
    BlobMissing(String),
    /// The total size does not fit the counter.
    TooLarge,
}

/// Where a planned file's content comes from.
#[derive(Debug, Clone)]
pub enum RuntimeSource {
    /// Hardlinked from the base installation.
    Base,
    /// Hardlinked from the blob with this digest.
    Blob(String),
}

impl View for RuntimeSource {
    type V = Option<Seq<char>>;

    open spec fn view(&self) -> Option<Seq<char>> {
        match self {
            RuntimeSource::Base => None,
            RuntimeSource::Blob(d) => Some(d@),
        }
    }
}

/// A single entry of a runtime plan.
#[derive(Debug, Clone)]
pub struct RuntimePlanEntry {
    /// Path relative to the runtime root.
    pub rel_path: String,
    /// Source of the content.
    pub source: RuntimeSource,
    /// File size in bytes.
    pub size: u64,
    /// Whether the base installation also holds this path.
    pub has_base: bool,
    /// Whether a workspace file overrides a base file here.
    pub is_override: bool,
}

impl View for RuntimePlanEntry {
    type V = (Seq<char>, Option<Seq<char>>, u64, bool, bool);

    open spec fn view(&self) -> (Seq<char>, Option<Seq<char>>, u64, bool, bool) {
        (self.rel_path@, self.source@, self.size, self.has_base, self.is_override)
    }
}

/// The view of a plan's entries.
pub type PlanEntriesV = Seq<(Seq<char>, Option<Seq<char>>, u64, bool, bool)>;

/// The sum of the entry sizes.
pub open spec fn sum_sizes(s: PlanEntriesV) -> int
    decreases s.len(),
{
    if s.len() == 0 {
        0
    } else {
        sum_sizes(s.drop_last()) + s.last().2
    }
}

/// The number of entries sourced from the base installation.
pub open spec fn count_base(s: PlanEntriesV) -> int
    decreases s.len(),
{
    if s.len() == 0 {
        0
    } else {
        count_base(s.drop_last()) + if s.last().1 is None {
            1int
        } else {
            0int
        }
    }
}

/// The number of entries sourced from blobs.
pub open spec fn count_blob(s: PlanEntriesV) -> int
    decreases s.len(),
{
    if s.len() == 0 {
        0
    } else {
        count_blob(s.drop_last()) + if s.last().1 is Some {
            1int
        } else {
            0int
        }
    }
}

/// A complete runtime plan for one profile.
#[derive(Debug, Clone)]
pub struct RuntimePlan {
    /// The profile this plan was computed for.
    pub profile_name: String,
    /// When the plan was generated.
    pub generated_at: String,
    /// Total number of files.
    pub total_files: usize,
    /// Total size of all files in bytes.
    pub total_size: u64,
    /// Number of files from the base installation.
    pub base_files: usize,
    /// Number of files from the blob store.
    pub blob_files: usize,
    /// The plan entries.
    pub entries: Vec<RuntimePlanEntry>,
}

impl RuntimePlan {
    /// The entry views.
    pub open spec fn entries_view(self) -> PlanEntriesV {
        self.entries@.map_values(|e: RuntimePlanEntry| e@)
    }

    /// The plan's totals agree with its entries: the file count is the
    /// number of entries and the sum of the base and blob counts, and
    /// the total size is the sum of the entry sizes.
    pub open spec fn totals_ok(self) -> bool {
        &&& self.total_files == self.entries_view().len()
        &&& self.base_files == count_base(self.entries_view())
        &&& self.blob_files == count_blob(self.entries_view())
        &&& self.total_files == self.base_files + self.blob_files
        &&& self.total_size == sum_sizes(self.entries_view())
    }
}

/// The digest planned for a workspace file: the recorded reference
/// when one exists, otherwise the digest of the file's bytes — the
/// fallback for a manually placed file the normalizer has not seen.
pub open spec fn ws_digest_of(
    iv: IndexV,
    volv: VolV,
    ws_area: Seq<char>,
    profile: Seq<char>,
    rel: Seq<char>,
) -> Option<Seq<char>> {
    match owner_of(iv, profile, rel) {
        Some(d) => Some(d),
        None => match vol_lookup(volv, ws_area, rel) {
            Some(f) => Some(blake3_hex(f.1)),
            None => None,
        },
    }
}

/// The sum of the sizes of a merged overlay's files.
pub open spec fn sum_overlay_sizes(o: crate::overlay::OverlayV) -> int
    decreases o.len(),
{
    if o.len() == 0 {
        0
    } else {
        sum_overlay_sizes(o.drop_last()) + o.last().1
    }
}

/// A prefix of an overlay never sums to more than the whole.
pub proof fn lemma_overlay_prefix_sum(o: crate::overlay::OverlayV, k: int)
    requires
        0 <= k <= o.len(),
    ensures
        sum_overlay_sizes(o.subrange(0, k)) <= sum_overlay_sizes(o),
    decreases o.len(),
{
    if k == o.len() {
        assert(o.subrange(0, k) =~= o);
    } else {
        assert(o.len() > 0);
        lemma_overlay_prefix_sum(o.drop_last(), k);
        assert(o.drop_last().subrange(0, k) =~= o.subrange(0, k));
    }
}

/// A plan entry describes what the overlay shows at its path, with the
/// digest that the index records for workspace-sourced content.
pub open spec fn entry_matches(
    b: ListingV,
    w: ListingV,
    iv: IndexV,
    volv: VolV,
    ws_area: Seq<char>,
    profile: Seq<char>,
    e: (Seq<char>, Option<Seq<char>>, u64, bool, bool),
) -> bool {
    match spec_overlay_at(b, w, e.0) {
        None => false,
        Some(f) => {
            &&& e.2 == f.0
            &&& (f.1 == VirtualNodeSource::Base ==> e.1 is None && e.3 == true && e.4 == false)
            &&& (f.1 == VirtualNodeSource::Workspace ==> e.1 == ws_digest_of(
                iv,
                volv,
                ws_area,
                profile,
                e.0,
            ) && e.1 is Some && e.3 == false && e.4 == false)
            &&& (f.1 == VirtualNodeSource::Override ==> e.1 == ws_digest_of(
                iv,
                volv,
                ws_area,
                profile,
                e.0,
            ) && e.1 is Some && e.3 == true && e.4 == true)
        },
    }
}

/// The base and blob counts always add up to the number of entries.
pub proof fn lemma_counts_add_up(s: PlanEntriesV)
    ensures
        count_base(s) + count_blob(s) == s.len(),
    decreases s.len(),
{
    if s.len() > 0 {
        lemma_counts_add_up(s.drop_last());
    }
}

/// The runtime planner for one configuration.
pub struct RuntimePlanner {
    pub settings: Settings,
    pub blob_cache: BlobCache,
}

impl RuntimePlanner {
    /// A planner for the given settings; its blob store lives in the
    /// cache directory under the data root.
    pub fn new(settings: Settings) -> (r: RuntimePlanner)
        ensures
            r.settings.data_root@ == settings.data_root@,
            r.settings.base_path@ == settings.base_path@,
            r.blob_cache.cache_dir@ == settings.data_root@ + "/cache"@,
    {
        let cache_dir = settings.get_cache_directory();
        RuntimePlanner { settings, blob_cache: BlobCache::new(cache_dir) }
    }

    /// The blob digest planned for a workspace file: the reference the
    /// index records, or — when the file was placed by hand and never
    /// normalized — the digest of its bytes.  A file that is in neither
    /// fails, naming the path.
    pub fn get_blob_hash_for_file(
        &self,
        index: &BlobIndex,
        vol: &Volume,
        workspace_area: &str,
        profile_name: &str,
        rel_path: &str,
    ) -> (r: Result<String, PlanError>)
        requires
            index_wf(index@),
            vol.wf(),
        ensures
            match ws_digest_of(index@, vol@, workspace_area@, profile_name@, rel_path@) {
                Some(d) => r is Ok && r->Ok_0@ == d,
                None => r matches Err(PlanError::BlobMissing(rel)) && rel@ == rel_path@,
            },
    {
        match index.owner_digest(profile_name, rel_path) {
            Some(d) => Ok(d),
            None => match vol.read(workspace_area, rel_path) {
                Some(bytes) => Ok(crate::digest::hash_bytes(&bytes)),
                None => Err(PlanError::BlobMissing(String::from_str(rel_path))),
            },
        }
    }

    /// Computes the runtime plan for a profile from the base and
    /// workspace listings, the blob index, and the workspace contents.
    /// Every file the overlay shows becomes exactly one entry:
    /// base-only files are linked from the base, workspace files from
    /// their recorded blob, falling back to the file's own digest when
    /// no blob was recorded.
    pub fn compute_plan(
        &self,
        profile_name: &str,
        base_files: &Vec<FileMeta>,
        workspace_files: &Vec<FileMeta>,
        index: &BlobIndex,
        vol: &Volume,
        workspace_area: &str,
        generated_at: String,
    ) -> (r: Result<RuntimePlan, PlanError>)
        requires
            listing_wf(base_files@.map_values(|m: FileMeta| m@)),
            listing_wf(workspace_files@.map_values(|m: FileMeta| m@)),
            index_wf(index@),
            vol.wf(),
        ensures
            ({
                let bv = base_files@.map_values(|m: FileMeta| m@);
                let wv = workspace_files@.map_values(|m: FileMeta| m@);
                match r {
                    Ok(plan) => {
                        let es = plan.entries_view();
                        &&& plan.profile_name@ == profile_name@
                        &&& plan.generated_at@ == generated_at@
                        &&& plan.totals_ok()
                        &&& (forall|k: int|
                            0 <= k < es.len() ==> entry_matches(
                                bv,
                                wv,
                                index@,
                                vol@,
                                workspace_area@,
                                profile_name@,
                                #[trigger] es[k],
                            ))
                        &&& (forall|p: Seq<char>|
                            #[trigger] spec_overlay_at(bv, wv, p) is Some ==> exists|k: int|
                                0 <= k < es.len() && (#[trigger] es[k]).0 == p)
                        &&& (forall|k: int, k2: int|
                            0 <= k < es.len() && 0 <= k2 < es.len() && k != k2 ==> es[k].0
                                != es[k2].0)
                    },
                    Err(PlanError::BlobMissing(rel)) => {
                        &&& (spec_overlay_at(bv, wv, rel@) matches Some(f) && f.1
                            != VirtualNodeSource::Base)
                        &&& ws_digest_of(index@, vol@, workspace_area@, profile_name@, rel@)
                            is None
                    },
                    Err(PlanError::TooLarge) => exists|o: crate::overlay::OverlayV|
                        crate::overlay::overlay_complete(bv, wv, o) && sum_overlay_sizes(o)
                            > u64::MAX,
                }
            }),
    {
        let ghost bv = base_files@.map_values(|m: FileMeta| m@);
        let ghost wv = workspace_files@.map_values(|m: FileMeta| m@);
        let merged = overlay_files(base_files, workspace_files);
        let ghost mv = merged@.map_values(|f: OverlayFile| f@);
        let mut entries: Vec<RuntimePlanEntry> = Vec::new();
        let mut total_size: u64 = 0;
        let mut base_count: usize = 0;
        let mut blob_count: usize = 0;
        let mut k: usize = 0;
        while k < merged.len()
            invariant
                k <= merged@.len(),
                bv == base_files@.map_values(|m: FileMeta| m@),
                wv == workspace_files@.map_values(|m: FileMeta| m@),
                mv == merged@.map_values(|f: OverlayFile| f@),
                index_wf(index@),
                vol.wf(),
                overlay_complete(bv, wv, mv),
                entries@.len() == k,
                base_count + blob_count == k,
                forall|q: int|
                    0 <= q < k ==> (#[trigger] entries@[q])@.0 == (#[trigger] mv[q]).0,
                forall|q: int|
                    0 <= q < k ==> entry_matches(
                        bv,
                        wv,
                        index@,
                        vol@,
                        workspace_area@,
                        profile_name@,
                        (#[trigger] entries@[q])@,
                    ),
                total_size as int == sum_sizes(entries@.map_values(|e: RuntimePlanEntry| e@)),
                total_size as int == sum_overlay_sizes(mv.subrange(0, k as int)),
                base_count as int == count_base(entries@.map_values(|e: RuntimePlanEntry| e@)),
                blob_count as int == count_blob(entries@.map_values(|e: RuntimePlanEntry| e@)),
            decreases merged.len() - k,
        {
            let ghost es0 = entries@.map_values(|e: RuntimePlanEntry| e@);
            let item = &merged[k];
            proof {
                assert(mv[k as int] == merged@[k as int]@);
                assert(spec_overlay_at(bv, wv, mv[k as int].0) == Some(
                    (mv[k as int].1, mv[k as int].2),
                ));
            }
            let size = item.size;
            if size > u64::MAX - total_size {
                proof {
                    assert(mv.subrange(0, k as int + 1).drop_last() =~= mv.subrange(0, k as int));
                    assert(mv.subrange(0, k as int + 1).last() == mv[k as int]);
                    assert(sum_overlay_sizes(mv.subrange(0, k as int + 1)) > u64::MAX);
                    lemma_overlay_prefix_sum(mv, k as int + 1);
                    assert(sum_overlay_sizes(mv) > u64::MAX);
                }
                return Err(PlanError::TooLarge);
            }
            proof {
                assert(mv.subrange(0, k as int + 1).drop_last() =~= mv.subrange(0, k as int));
                assert(mv.subrange(0, k as int + 1).last() == mv[k as int]);
            }
            let entry = match &item.source {
                VirtualNodeSource::Base => {
                    base_count = base_count + 1;
                    RuntimePlanEntry {
                        rel_path: item.rel_path.clone(),
                        source: RuntimeSource::Base,
                        size,
                        has_base: true,
                        is_override: false,
                    }
                },
                VirtualNodeSource::Workspace => {
                    let digest = match self.get_blob_hash_for_file(
                        index,
                        vol,
                        workspace_area,
                        profile_name,
                        item.rel_path.as_str(),
                    ) {
                        Ok(d) => d,
                        Err(e) => {
                            return Err(e);
                        },
                    };
                    blob_count = blob_count + 1;
                    RuntimePlanEntry {
                        rel_path: item.rel_path.clone(),
                        source: RuntimeSource::Blob(digest),
                        size,
                        has_base: false,
                        is_override: false,
                    }
                },
                VirtualNodeSource::Override => {
                    let digest = match self.get_blob_hash_for_file(
                        index,
                        vol,
                        workspace_area,
                        profile_name,
                        item.rel_path.as_str(),
                    ) {
                        Ok(d) => d,
                        Err(e) => {
                            return Err(e);
                        },
                    };
                    blob_count = blob_count + 1;
                    RuntimePlanEntry {
                        rel_path: item.rel_path.clone(),
                        source: RuntimeSource::Blob(digest),
                        size,
                        has_base: true,
                        is_override: true,
                    }
                },
            };
            total_size = total_size + size;
            entries.push(entry);
            proof {
                let es1 = entries@.map_values(|e: RuntimePlanEntry| e@);
                assert(es1.drop_last() =~= es0);
                assert(es1.last() == entries@[entries@.len() - 1]@);
            }
            k = k + 1;
        }
        proof {
            lemma_counts_add_up(entries@.map_values(|e: RuntimePlanEntry| e@));
        }
        let total_files = entries.len();
        let plan = RuntimePlan {
            profile_name: String::from_str(profile_name),
            generated_at,
            total_files,
            total_size,
            base_files: base_count,
            blob_files: blob_count,
            entries,
        };
        proof {
            let es = plan.entries_view();
            assert forall|p: Seq<char>| #[trigger] spec_overlay_at(bv, wv, p) is Some implies exists|
                q: int,
            | 0 <= q < es.len() && (#[trigger] es[q]).0 == p by {
                let q = choose|q: int| 0 <= q < mv.len() && (#[trigger] mv[q]).0 == p;
                assert(es[q].0 == mv[q].0);
            }
            assert forall|x: int, y: int|
                0 <= x < es.len() && 0 <= y < es.len() && x != y implies es[x].0 != es[y].0 by {
                assert(es[x].0 == mv[x].0 && es[y].0 == mv[y].0);
            }
        }
        Ok(plan)
    }
}

/// The differences between two plans, keyed by relative path.
#[derive(Debug, Clone)]
pub struct RuntimePlanDiff {
    pub added: Vec<RuntimePlanEntry>,
    pub removed: Vec<RuntimePlanEntry>,
    pub changed: Vec<RuntimePlanEntry>,
}

impl RuntimePlanDiff {
    /// Whether the two plans were identical.
    pub fn is_empty(&self) -> (r: bool)
        ensures
            r == (self.added@.len() == 0 && self.removed@.len() == 0 && self.changed@.len() == 0),
    {
        self.added.len() == 0 && self.removed.len() == 0 && self.changed.len() == 0
    }

    /// The number of files touched by the change.
    pub fn touched_count(&self) -> (r: usize)
        requires
            self.added@.len() + self.removed@.len() + self.changed@.len() <= usize::MAX,
        ensures
            r == self.added@.len() + self.removed@.len() + self.changed@.len(),
    {
        self.added.len() + self.removed.len() + self.changed.len()
    }
}

/// A sequence of plan entries records a path.
pub open spec fn entries_has(s: PlanEntriesV, p: Seq<char>) -> bool {
    exists|i: int| 0 <= i < s.len() && (#[trigger] s[i]).0 == p
}

/// The entry recorded for a path.
pub open spec fn entries_at(s: PlanEntriesV, p: Seq<char>) -> (
    Seq<char>,
    Option<Seq<char>>,
    u64,
    bool,
    bool,
) {
    s[choose|i: int| 0 <= i < s.len() && (#[trigger] s[i]).0 == p]
}

/// An entry differs from its counterpart when the source or the size
/// changed.
pub open spec fn entry_differs(
    a: (Seq<char>, Option<Seq<char>>, u64, bool, bool),
    b: (Seq<char>, Option<Seq<char>>, u64, bool, bool),
) -> bool {
    a.1 != b.1 || a.2 != b.2
}

/// Finds an entry by path.
fn entries_find(entries: &Vec<RuntimePlanEntry>, rel_path: &str) -> (r: Option<usize>)
    ensures
        match r {
            Some(i) => i < entries@.len() && entries@[i as int]@.0 == rel_path@ && entries_has(
                entries@.map_values(|e: RuntimePlanEntry| e@),
                rel_path@,
            ),
            None => !entries_has(entries@.map_values(|e: RuntimePlanEntry| e@), rel_path@),
        },
{
    let mut i: usize = 0;
    while i < entries.len()
        invariant
            i <= entries@.len(),
            forall|q: int| 0 <= q < i ==> (#[trigger] entries@[q])@.0 != rel_path@,
        decreases entries.len() - i,
    {
        if crate::pathnorm::eq_str(entries[i].rel_path.as_str(), rel_path) {
            proof {
                let ev = entries@.map_values(|e: RuntimePlanEntry| e@);
                assert(ev[i as int] == entries@[i as int]@);
                assert(entries_has(ev, rel_path@));
            }
            return Some(i);
        }
        i = i + 1;
    }
    proof {
        let ev = entries@.map_values(|e: RuntimePlanEntry| e@);
        if entries_has(ev, rel_path@) {
            let q = choose|q: int| 0 <= q < ev.len() && (#[trigger] ev[q]).0 == rel_path@;
            assert(entries@[q]@.0 == rel_path@);
        }
    }
    None
}

/// Copies a plan entry.
fn entry_duplicate(e: &RuntimePlanEntry) -> (r: RuntimePlanEntry)
    ensures
        r@ == e@,
{
    RuntimePlanEntry {
        rel_path: e.rel_path.clone(),
        source: match &e.source {
            RuntimeSource::Base => RuntimeSource::Base,
            RuntimeSource::Blob(d) => RuntimeSource::Blob(d.clone()),
        },
        size: e.size,
        has_base: e.has_base,
        is_override: e.is_override,
    }
}

/// Compares two plans keyed by relative path: entries only in the new
/// plan are added, entries only in the old are removed, and entries in
/// both whose source or size changed are changed (the new entry is
/// reported).
pub fn diff_plans(old_plan: &RuntimePlan, new_plan: &RuntimePlan) -> (r: RuntimePlanDiff)
    requires
        forall|k: int, k2: int|
            0 <= k < old_plan.entries_view().len() && 0 <= k2 < old_plan.entries_view().len() && k
                != k2 ==> old_plan.entries_view()[k].0 != old_plan.entries_view()[k2].0,
        forall|k: int, k2: int|
            0 <= k < new_plan.entries_view().len() && 0 <= k2 < new_plan.entries_view().len() && k
                != k2 ==> new_plan.entries_view()[k].0 != new_plan.entries_view()[k2].0,
    ensures
        ({
            let ov = old_plan.entries_view();
            let nv = new_plan.entries_view();
            let av = r.added@.map_values(|e: RuntimePlanEntry| e@);
            let rv = r.removed@.map_values(|e: RuntimePlanEntry| e@);
            let cv = r.changed@.map_values(|e: RuntimePlanEntry| e@);
            &&& (forall|k: int|
                0 <= k < av.len() ==> entries_has(nv, (#[trigger] av[k]).0) && !entries_has(
                    ov,
                    av[k].0,
                ) && av[k] == entries_at(nv, av[k].0))
            &&& (forall|q: int|
                0 <= q < nv.len() && !entries_has(ov, (#[trigger] nv[q]).0) ==> exists|k: int|
                    0 <= k < av.len() && (#[trigger] av[k]).0 == nv[q].0)
            &&& (forall|k: int|
                0 <= k < cv.len() ==> entries_has(nv, (#[trigger] cv[k]).0) && entries_has(
                    ov,
                    cv[k].0,
                ) && cv[k] == entries_at(nv, cv[k].0) && entry_differs(
                    entries_at(ov, cv[k].0),
                    cv[k],
                ))
            &&& (forall|q: int|
                0 <= q < nv.len() && entries_has(ov, (#[trigger] nv[q]).0) && entry_differs(
                    entries_at(ov, nv[q].0),
                    nv[q],
                ) ==> exists|k: int| 0 <= k < cv.len() && (#[trigger] cv[k]).0 == nv[q].0)
            &&& (forall|k: int|
                0 <= k < rv.len() ==> entries_has(ov, (#[trigger] rv[k]).0) && !entries_has(
                    nv,
                    rv[k].0,
                ) && rv[k] == entries_at(ov, rv[k].0))
            &&& (forall|q: int|
                0 <= q < ov.len() && !entries_has(nv, (#[trigger] ov[q]).0) ==> exists|k: int|
                    0 <= k < rv.len() && (#[trigger] rv[k]).0 == ov[q].0)
        }),
{
    let ghost ov = old_plan.entries_view();
    let ghost nv = new_plan.entries_view();
    let mut added: Vec<RuntimePlanEntry> = Vec::new();
    let mut changed: Vec<RuntimePlanEntry> = Vec::new();
    let mut removed: Vec<RuntimePlanEntry> = Vec::new();
    let mut q: usize = 0;
    while q < new_plan.entries.len()
        invariant
            q <= new_plan.entries@.len(),
            ov == old_plan.entries_view(),
            nv == new_plan.entries_view(),
            forall|k: int, k2: int|
                0 <= k < nv.len() && 0 <= k2 < nv.len() && k != k2 ==> nv[k].0 != nv[k2].0,
            forall|k: int, k2: int|
                0 <= k < ov.len() && 0 <= k2 < ov.len() && k != k2 ==> ov[k].0 != ov[k2].0,
            forall|k: int|
                0 <= k < added@.len() ==> entries_has(nv, (#[trigger] added@[k])@.0)
                    && !entries_has(ov, added@[k]@.0) && added@[k]@ == entries_at(
                    nv,
                    added@[k]@.0,
                ),
            forall|x: int|
                0 <= x < q && !entries_has(ov, (#[trigger] nv[x]).0) ==> exists|k: int|
                    0 <= k < added@.len() && (#[trigger] added@[k])@.0 == nv[x].0,
            forall|k: int|
                0 <= k < changed@.len() ==> entries_has(nv, (#[trigger] changed@[k])@.0)
                    && entries_has(ov, changed@[k]@.0) && changed@[k]@ == entries_at(
                    nv,
                    changed@[k]@.0,
                ) && entry_differs(entries_at(ov, changed@[k]@.0), changed@[k]@),
            forall|x: int|
                0 <= x < q && entries_has(ov, (#[trigger] nv[x]).0) && entry_differs(
                    entries_at(ov, nv[x].0),
                    nv[x],
                ) ==> exists|k: int| 0 <= k < changed@.len() && (#[trigger] changed@[k])@.0
                    == nv[x].0,
        decreases new_plan.entries.len() - q,
    {
        let ghost added0 = added@;
        let ghost changed0 = changed@;
        let e = &new_plan.entries[q];
        proof {
            assert(nv[q as int] == new_plan.entries@[q as int]@);
            let x0 = choose|x0: int| 0 <= x0 < nv.len() && (#[trigger] nv[x0]).0 == e.rel_path@;
            if x0 != q as int && nv[x0].0 == nv[q as int].0 {
                assert(false);
            }
            assert(entries_has(nv, e.rel_path@) ==> entries_at(nv, e.rel_path@) == nv[q as int]);
        }
        match entries_find(&old_plan.entries, e.rel_path.as_str()) {
            None => {
                added.push(entry_duplicate(e));
                proof {
                    assert(added@[added@.len() - 1]@ == nv[q as int]);
                    assert(forall|k: int| 0 <= k < added0.len() ==> added@[k] == added0[k]);
                }
            },
            Some(oi) => {
                proof {
                    let x1 = choose|x1: int|
                        0 <= x1 < ov.len() && (#[trigger] ov[x1]).0 == e.rel_path@;
                    assert(ov[oi as int] == old_plan.entries@[oi as int]@);
                    if x1 != oi as int {
                        assert(ov[x1].0 != ov[oi as int].0);
                    }
                    assert(entries_at(ov, e.rel_path@) == ov[oi as int]);
                }
                let old_e = &old_plan.entries[oi];
                let source_same: bool = match (&old_e.source, &e.source) {
                    (RuntimeSource::Base, RuntimeSource::Base) => true,
                    (RuntimeSource::Blob(d1), RuntimeSource::Blob(d2)) => crate::pathnorm::eq_str(
                        d1.as_str(),
                        d2.as_str(),
                    ),
                    _ => false,
                };
                if !source_same || old_e.size != e.size {
                    changed.push(entry_duplicate(e));
                    proof {
                        assert(changed@[changed@.len() - 1]@ == nv[q as int]);
                        assert(forall|k: int|
                            0 <= k < changed0.len() ==> changed@[k] == changed0[k]);
                        assert(entry_differs(entries_at(ov, nv[q as int].0), nv[q as int]));
                    }
                } else {
                    proof {
                        assert(!entry_differs(entries_at(ov, nv[q as int].0), nv[q as int]));
                    }
                }
            },
        }
        proof {
            assert forall|x: int|
                0 <= x < q + 1 && !entries_has(ov, (#[trigger] nv[x]).0) implies exists|k: int|
                0 <= k < added@.len() && (#[trigger] added@[k])@.0 == nv[x].0 by {
                if x < q {
                    let k = choose|k: int|
                        0 <= k < added0.len() && (#[trigger] added0[k])@.0 == nv[x].0;
                    assert(added@[k]@.0 == nv[x].0);
                }
            }
            assert forall|x: int|
                0 <= x < q + 1 && entries_has(ov, (#[trigger] nv[x]).0) && entry_differs(
                    entries_at(ov, nv[x].0),
                    nv[x],
                ) implies exists|k: int|
                0 <= k < changed@.len() && (#[trigger] changed@[k])@.0 == nv[x].0 by {
                if x < q {
                    let k = choose|k: int|
                        0 <= k < changed0.len() && (#[trigger] changed0[k])@.0 == nv[x].0;
                    assert(changed@[k]@.0 == nv[x].0);
                }
            }
        }
        q = q + 1;
    }
    let mut q2: usize = 0;
    while q2 < old_plan.entries.len()
        invariant
            q2 <= old_plan.entries@.len(),
            ov == old_plan.entries_view(),
            nv == new_plan.entries_view(),
            forall|k: int, k2: int|
                0 <= k < ov.len() && 0 <= k2 < ov.len() && k != k2 ==> ov[k].0 != ov[k2].0,
            forall|k: int|
                0 <= k < removed@.len() ==> entries_has(ov, (#[trigger] removed@[k])@.0)
                    && !entries_has(nv, removed@[k]@.0) && removed@[k]@ == entries_at(
                    ov,
                    removed@[k]@.0,
                ),
            forall|x: int|
                0 <= x < q2 && !entries_has(nv, (#[trigger] ov[x]).0) ==> exists|k: int|
                    0 <= k < removed@.len() && (#[trigger] removed@[k])@.0 == ov[x].0,
        decreases old_plan.entries.len() - q2,
    {
        let ghost removed0 = removed@;
        let e = &old_plan.entries[q2];
        proof {
            assert(ov[q2 as int] == old_plan.entries@[q2 as int]@);
            let x0 = choose|x0: int| 0 <= x0 < ov.len() && (#[trigger] ov[x0]).0 == e.rel_path@;
            if x0 != q2 as int && ov[x0].0 == ov[q2 as int].0 {
                assert(false);
            }
            assert(entries_has(ov, e.rel_path@) ==> entries_at(ov, e.rel_path@) == ov[q2 as int]);
        }
        match entries_find(&new_plan.entries, e.rel_path.as_str()) {
            None => {
                removed.push(entry_duplicate(e));
                proof {
                    assert(removed@[removed@.len() - 1]@ == ov[q2 as int]);
                    assert(forall|k: int| 0 <= k < removed0.len() ==> removed@[k] == removed0[k]);
                }
            },
            Some(_) => {},
        }
        proof {
            assert forall|x: int|
                0 <= x < q2 + 1 && !entries_has(nv, (#[trigger] ov[x]).0) implies exists|k: int|
                0 <= k < removed@.len() && (#[trigger] removed@[k])@.0 == ov[x].0 by {
                if x < q2 {
                    let k = choose|k: int|
                        0 <= k < removed0.len() && (#[trigger] removed0[k])@.0 == ov[x].0;
                    assert(removed@[k]@.0 == ov[x].0);
                }
            }
        }
        q2 = q2 + 1;
    }
    let r = RuntimePlanDiff { added, removed, changed };
    proof {
        let av = r.added@.map_values(|e: RuntimePlanEntry| e@);
        let rv = r.removed@.map_values(|e: RuntimePlanEntry| e@);
        let cv = r.changed@.map_values(|e: RuntimePlanEntry| e@);
        assert(forall|k: int| 0 <= k < av.len() ==> (#[trigger] av[k]) == r.added@[k]@);
        assert(forall|k: int| 0 <= k < rv.len() ==> (#[trigger] rv[k]) == r.removed@[k]@);
        assert(forall|k: int| 0 <= k < cv.len() ==> (#[trigger] cv[k]) == r.changed@[k]@);
        assert forall|q: int|
            0 <= q < nv.len() && !entries_has(ov, (#[trigger] nv[q]).0) implies exists|k: int|
            0 <= k < av.len() && (#[trigger] av[k]).0 == nv[q].0 by {
            let k = choose|k: int|
                0 <= k < r.added@.len() && (#[trigger] r.added@[k])@.0 == nv[q].0;
            assert(av[k] == r.added@[k]@);
            assert(av[k].0 == nv[q].0);
        }
        assert forall|q: int|
            0 <= q < nv.len() && entries_has(ov, (#[trigger] nv[q]).0) && entry_differs(
                entries_at(ov, nv[q].0),
                nv[q],
            ) implies exists|k: int| 0 <= k < cv.len() && (#[trigger] cv[k]).0 == nv[q].0 by {
            let k = choose|k: int|
                0 <= k < r.changed@.len() && (#[trigger] r.changed@[k])@.0 == nv[q].0;
            assert(cv[k] == r.changed@[k]@);
            assert(cv[k].0 == nv[q].0);
        }
        assert forall|q: int|
            0 <= q < ov.len() && !entries_has(nv, (#[trigger] ov[q]).0) implies exists|k: int|
            0 <= k < rv.len() && (#[trigger] rv[k]).0 == ov[q].0 by {
            let k = choose|k: int|
                0 <= k < r.removed@.len() && (#[trigger] r.removed@[k])@.0 == ov[q].0;
            assert(rv[k] == r.removed@[k]@);
            assert(rv[k].0 == ov[q].0);
        }
    }
    r
}

} // verus!
