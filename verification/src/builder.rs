//! The runtime builder: realizes a plan as a populated runtime tree of
//! hardlinks.  All links are made into a fresh staging area; only after
//! every link has succeeded is the previous runtime removed and the
//! staging area renamed into place, so a published runtime is never
//! partial.  A failed build leaves the previous runtime untouched and
//! the staging area behind for inspection.

use vstd::prelude::*;
use vstd::string::StrSliceExecFns;
use vstd::string::StringExecFns;
use crate::digest::is_hex_digest;
use crate::planner::{RuntimePlan, RuntimePlanner, RuntimeSource};
use crate::settings::Settings;
use crate::sizefmt::{dec_str, u64_to_string};
use crate::store::{BlobCache, blob_rel};
use crate::volume::{Volume, VolV, seq_has_suffix, vol_lookup};

verus! {

/// The phase a build is in.
#[derive(Debug, Clone, Copy, PartialEq, Eq, Structural)]
pub enum BuildPhase {
    /// Validating prerequisites.
    Preflight,
    /// Creating the staging directory.
    CreateTemp,
    /// Linking base installation files.
    LinkBase,
    /// Overlaying workspace files from blobs.
    OverlayWorkspace,
    /// Publishing the runtime.
    Finalize,
    /// The build succeeded.
    Complete,
    /// The build failed.
    Failed,
}

/// A progress report handed to the caller.
#[derive(Debug, Clone)]
pub struct BuildProgress {
    pub phase: BuildPhase,
    pub current_step: usize,
    pub total_steps: usize,
    pub current_file: Option<String>,
    pub files_processed: usize,
    pub total_files: usize,
    pub bytes_processed: u64,
    pub total_bytes: u64,
    pub error: Option<String>,
    pub completed: bool,
}

/// Progress is reported every hundred base links and every fifty blob
/// links.
pub fn should_emit_progress(phase: &BuildPhase, files_processed: usize) -> (r: bool)
    ensures
        *phase == BuildPhase::LinkBase ==> r == (files_processed % 100 == 0),
        *phase != BuildPhase::LinkBase ==> r == (files_processed % 50 == 0),
{
    match phase {
        BuildPhase::LinkBase => files_processed % 100 == 0,
        _ => files_processed % 50 == 0,
    }
}

/// Statistics of a completed build.  The caller measures and records
/// the elapsed time.
#[derive(Debug, Clone)]
pub struct BuildStats {
    pub total_files: usize,
    pub base_files: usize,
    pub blob_files: usize,
    pub total_bytes: u64,
    pub build_time_ms: u64,
}

/// The outcome of a build.
#[derive(Debug, Clone)]
pub struct BuildResult {
    pub success: bool,
    pub runtime_path: Option<String>,
    pub stats: Option<BuildStats>,
    pub error: Option<String>,
}

/// The published runtime area of a profile: `<profile>-latest`.
pub open spec fn latest_area_of(profile: Seq<char>) -> Seq<char> {
    profile + seq!['-', 'l', 'a', 't', 'e', 's', 't']
}

/// The staging area of a build: `<profile>-<timestamp>-tmp`.
pub open spec fn staging_area_of(profile: Seq<char>, ts: nat) -> Seq<char> {
    profile + seq!['-'] + dec_str(ts) + seq!['-', 't', 'm', 'p']
}

/// A staging area is never a published area, whatever the profiles.
pub proof fn lemma_staging_not_latest(p1: Seq<char>, ts: nat, p2: Seq<char>)
    ensures
        staging_area_of(p1, ts) != latest_area_of(p2),
{
    let s = staging_area_of(p1, ts);
    let l = latest_area_of(p2);
    assert(s[s.len() - 1] == 'p');
    assert(l[l.len() - 1] == 't');
    if s == l {
        assert(s[s.len() - 1] == l[l.len() - 1]);
    }
}

/// A staging area carries the `-tmp` suffix; a published area does not.
pub proof fn lemma_staging_tmp_suffix(p: Seq<char>, ts: nat)
    ensures
        seq_has_suffix(staging_area_of(p, ts), seq!['-', 't', 'm', 'p']),
        !seq_has_suffix(latest_area_of(p), seq!['-', 't', 'm', 'p']),
{
    let s = staging_area_of(p, ts);
    assert(s.subrange(s.len() - 4, s.len() as int) =~= seq!['-', 't', 'm', 'p']);
    let l = latest_area_of(p);
    if seq_has_suffix(l, seq!['-', 't', 'm', 'p']) {
        assert(l.subrange(l.len() - 4, l.len() as int)[3] == 'p');
        assert(l[l.len() - 1] == 't');
    }
}

/// A planned entry's source is present on the volume: the base file for
/// a base entry, the blob file for a blob entry.
pub open spec fn entry_source_ok(
    v: VolV,
    base_area: Seq<char>,
    cache: Seq<char>,
    e: (Seq<char>, Option<Seq<char>>, u64, bool, bool),
) -> bool {
    match e.1 {
        None => vol_lookup(v, base_area, e.0) is Some,
        Some(d) => vol_lookup(v, cache, blob_rel(d)) is Some,
    }
}

/// What the runtime holds at a planned entry's path once built: the
/// base file's identity, or the blob's.
pub open spec fn entry_expected(
    v: VolV,
    base_area: Seq<char>,
    cache: Seq<char>,
    e: (Seq<char>, Option<Seq<char>>, u64, bool, bool),
) -> Option<(u64, Seq<u8>)> {
    match e.1 {
        None => vol_lookup(v, base_area, e.0),
        Some(d) => vol_lookup(v, cache, blob_rel(d)),
    }
}

/// After a failed build: the first entry whose source is absent is at
/// position `k`; everything before it was linked into the staging area,
/// which holds nothing else — the debris left for inspection.
pub open spec fn staged_prefix_ok(
    v0: VolV,
    vf: VolV,
    base_area: Seq<char>,
    cache: Seq<char>,
    staging: Seq<char>,
    es: crate::planner::PlanEntriesV,
    k: int,
) -> bool {
    &&& 0 <= k < es.len()
    &&& !entry_source_ok(v0, base_area, cache, es[k])
    &&& forall|q: int| 0 <= q < k ==> entry_source_ok(v0, base_area, cache, #[trigger] es[q])
    &&& forall|q: int|
        0 <= q < k ==> #[trigger] vol_lookup(vf, staging, es[q].0) == entry_expected(
            v0,
            base_area,
            cache,
            es[q],
        ) && vol_lookup(vf, staging, es[q].0) is Some
    &&& forall|r2: Seq<char>|
        #[trigger] vol_lookup(vf, staging, r2) is Some ==> exists|q: int|
            0 <= q < k && (#[trigger] es[q]).0 == r2
}

/// The runtime builder for one configuration.
pub struct RuntimeBuilder {
    pub settings: Settings,
    pub blob_cache: BlobCache,
    pub planner: RuntimePlanner,
}

impl RuntimeBuilder {
    /// A builder for the given settings; its blob store lives in the
    /// cache directory under the data root.
    pub fn new(settings: Settings) -> (r: RuntimeBuilder)
        ensures
            r.settings.base_path@ == settings.base_path@,
            r.settings.data_root@ == settings.data_root@,
            r.blob_cache.cache_dir@ == settings.data_root@ + "/cache"@,
    {
        let cache_dir = settings.get_cache_directory();
        let planner = RuntimePlanner::new(settings.clone());
        RuntimeBuilder { settings, blob_cache: BlobCache::new(cache_dir), planner }
    }

    /// The published runtime area name for a profile.
    pub fn latest_area(profile_name: &str) -> (r: String)
        ensures
            r@ == latest_area_of(profile_name@),
    {
        proof {
            reveal_strlit("-latest");
        }
        let r = String::from_str(profile_name).concat("-latest");
        proof {
            assert(r@ =~= latest_area_of(profile_name@));
        }
        r
    }

    /// The staging area name for a build started at a timestamp.
    pub fn staging_area(profile_name: &str, timestamp: u64) -> (r: String)
        ensures
            r@ == staging_area_of(profile_name@, timestamp as nat),
    {
        proof {
            reveal_strlit("-");
            reveal_strlit("-tmp");
        }
        let r = String::from_str(profile_name).concat("-").concat(
            u64_to_string(timestamp).as_str(),
        ).concat("-tmp");
        proof {
            assert(r@ =~= staging_area_of(profile_name@, timestamp as nat));
        }
        r
    }

    /// Builds the runtime for a plan: links every entry into a fresh
    /// staging area, then atomically publishes it as
    /// `<profile>-latest`.  The build succeeds exactly when the
    /// prerequisites hold and every planned source exists; a failed
    /// build never touches the published runtime and leaves the staging
    /// area behind.
    pub fn build_runtime(
        &self,
        vol: &mut Volume,
        profile_name: &str,
        plan: &RuntimePlan,
        timestamp: u64,
        base_ok: bool,
        cache_ok: bool,
    ) -> (r: BuildResult)
        requires
            old(vol).wf(),
            forall|k: int, k2: int|
                0 <= k < plan.entries_view().len() && 0 <= k2 < plan.entries_view().len() && k
                    != k2 ==> plan.entries_view()[k].0 != plan.entries_view()[k2].0,
            forall|k: int|
                0 <= k < plan.entries_view().len() ==> ((#[trigger] plan.entries_view()[k]).1
                    matches Some(d) ==> is_hex_digest(d)),
            forall|r2: Seq<char>|
                #[trigger] vol_lookup(
                    old(vol)@,
                    staging_area_of(profile_name@, timestamp as nat),
                    r2,
                ) is None,
            self.settings.base_path@ != staging_area_of(profile_name@, timestamp as nat),
            self.settings.base_path@ != latest_area_of(profile_name@),
            self.blob_cache.cache_dir@ != staging_area_of(profile_name@, timestamp as nat),
            self.blob_cache.cache_dir@ != latest_area_of(profile_name@),
        ensures
            final(vol).wf(),
            ({
                let es = plan.entries_view();
                let base_area = self.settings.base_path@;
                let cache = self.blob_cache.cache_dir@;
                let staging = staging_area_of(profile_name@, timestamp as nat);
                let latest = latest_area_of(profile_name@);
                &&& r.success == (base_ok && cache_ok && (forall|k: int|
                    0 <= k < es.len() ==> entry_source_ok(
                        old(vol)@,
                        base_area,
                        cache,
                        #[trigger] es[k],
                    )))
                &&& (r.error is None) == r.success
                &&& r.success ==> (forall|k: int|
                    0 <= k < es.len() ==> #[trigger] vol_lookup(final(vol)@, latest, es[k].0)
                        == entry_expected(old(vol)@, base_area, cache, es[k]) && vol_lookup(
                        final(vol)@,
                        latest,
                        es[k].0,
                    ) is Some)
                &&& r.success ==> (forall|r2: Seq<char>|
                    #[trigger] vol_lookup(final(vol)@, staging, r2) is None)
                &&& r.success ==> (forall|r2: Seq<char>|
                    #[trigger] vol_lookup(final(vol)@, latest, r2) is Some ==> exists|k: int|
                        0 <= k < es.len() && (#[trigger] es[k]).0 == r2)
                &&& r.success ==> (forall|a: Seq<char>, r2: Seq<char>|
                    a != staging && a != latest ==> #[trigger] vol_lookup(final(vol)@, a, r2)
                        == vol_lookup(old(vol)@, a, r2))
                &&& !r.success ==> (forall|a: Seq<char>, r2: Seq<char>|
                    a != staging ==> #[trigger] vol_lookup(final(vol)@, a, r2) == vol_lookup(
                        old(vol)@,
                        a,
                        r2,
                    ))
                &&& !r.success ==> (forall|r2: Seq<char>|
                    #[trigger] vol_lookup(final(vol)@, latest, r2) == vol_lookup(
                        old(vol)@,
                        latest,
                        r2,
                    ))
                &&& !r.success ==> r.runtime_path is None && r.stats is None
                &&& !(base_ok && cache_ok) ==> final(vol)@ == old(vol)@
                &&& (base_ok && cache_ok && !r.success) ==> exists|k: int|
                    #[trigger] staged_prefix_ok(
                        old(vol)@,
                        final(vol)@,
                        base_area,
                        cache,
                        staging,
                        es,
                        k,
                    )
                &&& r.success ==> (r.stats matches Some(st) && st.total_files == plan.total_files
                    && st.base_files == plan.base_files && st.blob_files == plan.blob_files
                    && st.total_bytes == plan.total_size)
                &&& r.success ==> (r.runtime_path matches Some(p) && p@ == latest)
            }),
    {
        let ghost es = plan.entries_view();
        let ghost base_area = self.settings.base_path@;
        let ghost cache = self.blob_cache.cache_dir@;
        let ghost staging_v = staging_area_of(profile_name@, timestamp as nat);
        let ghost latest_v = latest_area_of(profile_name@);
        let staging = Self::staging_area(profile_name, timestamp);
        let latest = Self::latest_area(profile_name);
        proof {
            lemma_staging_not_latest(profile_name@, timestamp as nat, profile_name@);
        }
        if !base_ok {
            return BuildResult {
                success: false,
                runtime_path: None,
                stats: None,
                error: Some(String::from_str("Base game path does not exist")),
            };
        }
        if !cache_ok {
            return BuildResult {
                success: false,
                runtime_path: None,
                stats: None,
                error: Some(String::from_str("Cache directory does not exist")),
            };
        }
        let mut k: usize = 0;
        while k < plan.entries.len()
            invariant
                k <= plan.entries@.len(),
                es == plan.entries_view(),
                base_area == self.settings.base_path@,
                cache == self.blob_cache.cache_dir@,
                staging_v == staging_area_of(profile_name@, timestamp as nat),
                latest_v == latest_area_of(profile_name@),
                base_ok && cache_ok,
                staging@ == staging_v,
                latest@ == latest_v,
                staging_v != latest_v,
                base_area != staging_v,
                cache != staging_v,
                vol.wf(),
                forall|x: int, y: int|
                    0 <= x < es.len() && 0 <= y < es.len() && x != y ==> es[x].0 != es[y].0,
                forall|x: int|
                    0 <= x < es.len() ==> ((#[trigger] es[x]).1 matches Some(d) ==> is_hex_digest(
                        d,
                    )),
                forall|r2: Seq<char>| #[trigger] vol_lookup(old(vol)@, staging_v, r2) is None,
                forall|a: Seq<char>, r2: Seq<char>|
                    a != staging_v ==> #[trigger] vol_lookup(vol@, a, r2) == vol_lookup(
                        old(vol)@,
                        a,
                        r2,
                    ),
                forall|q: int|
                    0 <= q < k ==> #[trigger] vol_lookup(vol@, staging_v, es[q].0)
                        == entry_expected(old(vol)@, base_area, cache, es[q]) && vol_lookup(
                        vol@,
                        staging_v,
                        es[q].0,
                    ) is Some,
                forall|r2: Seq<char>|
                    #[trigger] vol_lookup(vol@, staging_v, r2) is Some ==> exists|q: int|
                        0 <= q < k && (#[trigger] es[q]).0 == r2,
                forall|q: int|
                    0 <= q < k ==> entry_source_ok(old(vol)@, base_area, cache, #[trigger] es[q]),
            decreases plan.entries.len() - k,
        {
            let ghost v_before = vol@;
            let e = &plan.entries[k];
            proof {
                assert(es[k as int] == plan.entries@[k as int]@);
                assert(vol_lookup(vol@, staging_v, es[k as int].0) is None) by {
                    if vol_lookup(vol@, staging_v, es[k as int].0) is Some {
                        let q = choose|q: int|
                            0 <= q < k && (#[trigger] es[q]).0 == es[k as int].0;
                        assert(es[q].0 != es[k as int].0);
                    }
                }
            }
            let link_result: Result<(), ()> = match &e.source {
                RuntimeSource::Base => {
                    proof {
                        assert(vol_lookup(vol@, base_area, es[k as int].0) == vol_lookup(
                            old(vol)@,
                            base_area,
                            es[k as int].0,
                        ));
                    }
                    match vol.hard_link(
                        self.settings.base_path.as_str(),
                        e.rel_path.as_str(),
                        staging.as_str(),
                        e.rel_path.as_str(),
                    ) {
                        Ok(()) => Ok(()),
                        Err(_) => Err(()),
                    }
                },
                RuntimeSource::Blob(d) => {
                    proof {
                        assert(es[k as int].1 == Some(d@));
                        assert(is_hex_digest(d@));
                        assert(vol_lookup(vol@, cache, blob_rel(d@)) == vol_lookup(
                            old(vol)@,
                            cache,
                            blob_rel(d@),
                        ));
                    }
                    match self.blob_cache.link_blob_to(
                        vol,
                        staging.as_str(),
                        e.rel_path.as_str(),
                        d.as_str(),
                    ) {
                        Ok(()) => Ok(()),
                        Err(_) => Err(()),
                    }
                },
            };
            match link_result {
                Ok(()) => {
                    proof {
                        assert(entry_source_ok(old(vol)@, base_area, cache, es[k as int]));
                        assert(vol_lookup(vol@, staging_v, es[k as int].0) == entry_expected(
                            old(vol)@,
                            base_area,
                            cache,
                            es[k as int],
                        ));
                        assert forall|r2: Seq<char>|
                            #[trigger] vol_lookup(vol@, staging_v, r2) is Some implies exists|
                            q: int,
                        | 0 <= q < k + 1 && (#[trigger] es[q]).0 == r2 by {
                            if r2 == es[k as int].0 {
                                assert(es[k as int].0 == r2);
                            } else {
                                assert(vol_lookup(vol@, staging_v, r2) == vol_lookup(
                                    v_before,
                                    staging_v,
                                    r2,
                                ));
                                let q = choose|q: int|
                                    0 <= q < k && (#[trigger] es[q]).0 == r2;
                            }
                        }
                    }
                },
                Err(()) => {
                    proof {
                        assert(!entry_source_ok(old(vol)@, base_area, cache, es[k as int]));
                        assert(staged_prefix_ok(
                            old(vol)@,
                            vol@,
                            base_area,
                            cache,
                            staging_v,
                            es,
                            k as int,
                        ));
                    }
                    return BuildResult {
                        success: false,
                        runtime_path: None,
                        stats: None,
                        error: Some(
                            String::from_str("Failed to link: ").concat(e.rel_path.as_str()),
                        ),
                    };
                },
            }
            k = k + 1;
        }
        vol.remove_area(latest.as_str());
        vol.rename_area(staging.as_str(), latest.as_str());
        let stats = BuildStats {
            total_files: plan.total_files,
            base_files: plan.base_files,
            blob_files: plan.blob_files,
            total_bytes: plan.total_size,
            build_time_ms: 0,
        };
        BuildResult {
            success: true,
            runtime_path: Some(latest),
            stats: Some(stats),
            error: None,
        }
    }

    /// Removes every leftover staging area: the crash debris of prior
    /// builds, recognizable by the `-tmp` suffix.  Published runtimes
    /// are never touched.
    pub fn cleanup_temp_runtimes(&self, vol: &mut Volume)
        requires
            old(vol).wf(),
        ensures
            final(vol).wf(),
            forall|a: Seq<char>, r2: Seq<char>|
                seq_has_suffix(a, seq!['-', 't', 'm', 'p']) ==> #[trigger] vol_lookup(
                    final(vol)@,
                    a,
                    r2,
                ) is None,
            forall|a: Seq<char>, r2: Seq<char>|
                !seq_has_suffix(a, seq!['-', 't', 'm', 'p']) ==> #[trigger] vol_lookup(
                    final(vol)@,
                    a,
                    r2,
                ) == vol_lookup(old(vol)@, a, r2),
    {
        proof {
            reveal_strlit("-tmp");
            assert("-tmp"@ =~= seq!['-', 't', 'm', 'p']);
        }
        vol.remove_area_suffix("-tmp");
    }
}

} // verus!
