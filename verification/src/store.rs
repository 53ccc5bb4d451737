//! The content-addressed blob store: whole files stored once per BLAKE3
//! digest under `blobs/blake3/<aa>/<digest>` inside the cache area, with
//! reference-counted garbage collection through the blob index.

use vstd::prelude::*;
use vstd::string::StrSliceExecFns;
use vstd::string::StringExecFns;
use crate::digest::{blake3_hex, is_hex_digest, hash_bytes, check_hex_digest};
use crate::index::{BlobIndex, IndexV, owner_of, has_pair, spec_remove_ref, index_wf, has_digest};
use crate::volume::{Volume, VolV, vol_lookup, vol_has};

verus! {

/// Errors from the blob store.
#[derive(Debug, Clone, Copy, PartialEq, Eq, Structural)]
pub enum StoreError {
    /// The source file could not be read.
    IoError,
    /// A digest string is not 64 lowercase hex characters.
    InvalidHash,
    /// The blob file for a digest is absent from the store.
    BlobMissing,
    /// The destination of a materialization already exists.
    DestinationExists,
}

/// `blobs/blake3/`, the shard root inside the cache area.
pub open spec fn blob_shard_root() -> Seq<char> {
    seq!['b', 'l', 'o', 'b', 's', '/', 'b', 'l', 'a', 'k', 'e', '3', '/']
}

/// The cache-relative path of a digest's blob file: the shard root, the
/// first two hex characters, a slash, and the full digest.
pub open spec fn blob_rel(d: Seq<char>) -> Seq<char> {
    blob_shard_root() + d.subrange(0, 2) + seq!['/'] + d
}

/// Distinct digests are stored at distinct paths.
pub proof fn lemma_blob_rel_injective(d1: Seq<char>, d2: Seq<char>)
    requires
        is_hex_digest(d1),
        is_hex_digest(d2),
        blob_rel(d1) == blob_rel(d2),
    ensures
        d1 == d2,
{
    assert(blob_rel(d1).len() == 80);
    assert(blob_rel(d2).len() == 80);
    assert(d1 =~= blob_rel(d1).subrange(16, 80));
    assert(d2 =~= blob_rel(d2).subrange(16, 80));
}

/// Every blob file in the cache area holds bytes whose digest is its
/// file name.
pub open spec fn store_wf(cache: Seq<char>, v: VolV) -> bool {
    forall|d: Seq<char>|
        is_hex_digest(d) ==> match #[trigger] vol_lookup(v, cache, blob_rel(d)) {
            Some(f) => blake3_hex(f.1) == d,
            None => true,
        }
}

/// Every digest recorded in the index has the shape of a rendered
/// digest.
pub open spec fn index_digests_hex(v: IndexV) -> bool {
    forall|i: int| 0 <= i < v.len() ==> is_hex_digest((#[trigger] v[i]).0)
}

/// The content-addressed blob store rooted at one cache area.
pub struct BlobCache {
    pub cache_dir: String,
}

impl BlobCache {
    /// A store rooted at the given cache area.
    pub fn new(cache_dir: String) -> (r: BlobCache)
        ensures
            r.cache_dir@ == cache_dir@,
    {
        BlobCache { cache_dir }
    }

    /// The cache-relative path of a digest's blob file.
    pub fn blob_rel_path(&self, digest: &str) -> (r: String)
        requires
            is_hex_digest(digest@),
        ensures
            r@ == blob_rel(digest@),
    {
        proof {
            reveal_strlit("blobs/blake3/");
            reveal_strlit("/");
        }
        let shard = digest.substring_char(0, 2);
        let r = String::from_str("blobs/blake3/").concat(shard).concat("/").concat(digest);
        proof {
            assert("blobs/blake3/"@ =~= blob_shard_root());
            assert("/"@ =~= seq!['/']);
            assert(r@ =~= blob_rel(digest@));
        }
        r
    }

    /// The full path of a digest's blob file, for display: the cache
    /// directory joined with the cache-relative blob path.
    pub fn get_blob_path(&self, digest: &str) -> (r: String)
        requires
            is_hex_digest(digest@),
        ensures
            r@ == self.cache_dir@ + seq!['/'] + blob_rel(digest@),
    {
        proof {
            reveal_strlit("/");
        }
        let r = self.cache_dir.clone().concat("/").concat(self.blob_rel_path(digest).as_str());
        proof {
            assert("/"@ =~= seq!['/']);
            assert(r@ =~= self.cache_dir@ + seq!['/'] + blob_rel(digest@));
        }
        r
    }

    /// The full path of a blob file for a digest given as a string,
    /// which is first validated.
    pub fn get_blob_path_from_hash(&self, hash_str: &str) -> (r: Result<String, StoreError>)
        ensures
            is_hex_digest(hash_str@) ==> r is Ok && r->Ok_0@ == self.cache_dir@ + seq!['/']
                + blob_rel(hash_str@),
            !is_hex_digest(hash_str@) ==> r == Err::<String, StoreError>(StoreError::InvalidHash),
    {
        if check_hex_digest(hash_str) {
            Ok(self.get_blob_path(hash_str))
        } else {
            Err(StoreError::InvalidHash)
        }
    }

    /// The cache-relative path of the persistent reference index.
    pub fn get_index_path(&self) -> (r: String)
        ensures
            r@ == seq![
                'b', 'l', 'o', 'b', 's', '/', 'i', 'n', 'd', 'e', 'x', '.', 'j', 's', 'o', 'n',
            ],
    {
        proof {
            reveal_strlit("blobs/index.json");
        }
        let r = String::from_str("blobs/index.json");
        proof {
            assert(r@ =~= seq![
                'b', 'l', 'o', 'b', 's', '/', 'i', 'n', 'd', 'e', 'x', '.', 'j', 's', 'o', 'n',
            ]);
        }
        r
    }

    /// The digest of the file at a key, read from the volume.
    pub fn hash_file(vol: &Volume, area: &str, rel: &str) -> (r: Result<String, StoreError>)
        requires
            vol.wf(),
        ensures
            match r {
                Ok(d) => vol_lookup(vol@, area@, rel@) matches Some(f) && d@ == blake3_hex(f.1)
                    && is_hex_digest(d@),
                Err(e) => e == StoreError::IoError && vol_lookup(vol@, area@, rel@) is None,
            },
    {
        match vol.read(area, rel) {
            Some(bytes) => Ok(hash_bytes(&bytes)),
            None => Err(StoreError::IoError),
        }
    }

    /// Ensures the content of a source file is stored as a blob; returns
    /// its digest.  When the blob file already exists the volume is left
    /// unchanged, so repeating the call is a no-op.
    pub fn ensure_blob(&self, vol: &mut Volume, src_area: &str, src_rel: &str) -> (r: Result<
        String,
        StoreError,
    >)
        requires
            old(vol).wf(),
            old(vol).next_node < u64::MAX,
            store_wf(self.cache_dir@, old(vol)@),
        ensures
            final(vol).wf(),
            store_wf(self.cache_dir@, final(vol)@),
            final(vol).next_node <= old(vol).next_node + 1,
            vol_lookup(old(vol)@, src_area@, src_rel@) is None ==> r == Err::<String, StoreError>(
                StoreError::IoError,
            ) && final(vol)@ == old(vol)@,
            match vol_lookup(old(vol)@, src_area@, src_rel@) {
                Some(src) => {
                    &&& r is Ok
                    &&& r->Ok_0@ == blake3_hex(src.1)
                    &&& is_hex_digest(r->Ok_0@)
                    &&& (match vol_lookup(final(vol)@, self.cache_dir@, blob_rel(r->Ok_0@)) {
                        Some(blob) => blake3_hex(blob.1) == blake3_hex(src.1),
                        None => false,
                    })
                    &&& (vol_lookup(old(vol)@, self.cache_dir@, blob_rel(r->Ok_0@)) is None
                        ==> (match vol_lookup(final(vol)@, self.cache_dir@, blob_rel(r->Ok_0@)) {
                        Some(blob) => blob.1 == src.1,
                        None => false,
                    }))
                    &&& (forall|a: Seq<char>, r2: Seq<char>|
                        !(a == self.cache_dir@ && r2 == blob_rel(r->Ok_0@))
                            ==> #[trigger] vol_lookup(final(vol)@, a, r2) == vol_lookup(
                            old(vol)@,
                            a,
                            r2,
                        ))
                    &&& vol_lookup(old(vol)@, self.cache_dir@, blob_rel(r->Ok_0@)) is Some
                        ==> final(vol)@ == old(vol)@
                },
                None => true,
            },
    {
        let bytes = match vol.read(src_area, src_rel) {
            Some(b) => b,
            None => { return Err(StoreError::IoError) },
        };
        let digest = hash_bytes(&bytes);
        let brel = self.blob_rel_path(digest.as_str());
        if vol.exists_file(self.cache_dir.as_str(), brel.as_str()) {
            proof {
                assert(vol_lookup(vol@, self.cache_dir@, blob_rel(digest@)) is Some);
            }
            return Ok(digest);
        }
        vol.write(self.cache_dir.as_str(), brel.as_str(), bytes);
        proof {
            let w = vol@;
            assert(vol_lookup(w, self.cache_dir@, blob_rel(digest@)) is Some);
            assert forall|d: Seq<char>| is_hex_digest(d) implies match #[trigger] vol_lookup(
                w,
                self.cache_dir@,
                blob_rel(d),
            ) {
                Some(f) => blake3_hex(f.1) == d,
                None => true,
            } by {
                if vol_lookup(w, self.cache_dir@, blob_rel(d)) is Some {
                    if blob_rel(d) == blob_rel(digest@) {
                        lemma_blob_rel_injective(d, digest@);
                    } else {
                        assert(vol_lookup(w, self.cache_dir@, blob_rel(d)) == vol_lookup(
                            old(vol)@,
                            self.cache_dir@,
                            blob_rel(d),
                        ));
                    }
                }
            }
        }
        Ok(digest)
    }

    /// Materializes a blob at a destination by hardlink.  Hardlink only —
    /// there is no copy fallback.  The destination must not already
    /// exist; afterwards it holds the blob's bytes and shares its node
    /// identity.
    pub fn link_blob_to(&self, vol: &mut Volume, dst_area: &str, dst_rel: &str, digest: &str) -> (r:
        Result<(), StoreError>)
        requires
            old(vol).wf(),
            is_hex_digest(digest@),
        ensures
            final(vol).wf(),
            final(vol).next_node == old(vol).next_node,
            r is Err ==> final(vol)@ == old(vol)@,
            vol_lookup(old(vol)@, self.cache_dir@, blob_rel(digest@)) is None ==> r == Err::<
                (),
                StoreError,
            >(StoreError::BlobMissing),
            vol_lookup(old(vol)@, self.cache_dir@, blob_rel(digest@)) is Some && vol_lookup(
                old(vol)@,
                dst_area@,
                dst_rel@,
            ) is Some ==> r == Err::<(), StoreError>(StoreError::DestinationExists),
            vol_lookup(old(vol)@, self.cache_dir@, blob_rel(digest@)) is Some && vol_lookup(
                old(vol)@,
                dst_area@,
                dst_rel@,
            ) is None ==> r == Ok::<(), StoreError>(()),
            r is Ok ==> vol_lookup(final(vol)@, dst_area@, dst_rel@) == vol_lookup(
                old(vol)@,
                self.cache_dir@,
                blob_rel(digest@),
            ),
            r is Ok ==> forall|a: Seq<char>, r2: Seq<char>|
                !(a == dst_area@ && r2 == dst_rel@) ==> #[trigger] vol_lookup(final(vol)@, a, r2)
                    == vol_lookup(old(vol)@, a, r2),
    {
        let brel = self.blob_rel_path(digest);
        if !vol.exists_file(self.cache_dir.as_str(), brel.as_str()) {
            return Err(StoreError::BlobMissing);
        }
        if vol.exists_file(dst_area, dst_rel) {
            return Err(StoreError::DestinationExists);
        }
        match vol.hard_link(self.cache_dir.as_str(), brel.as_str(), dst_area, dst_rel) {
            Ok(()) => Ok(()),
            Err(_) => {
                proof {
                    assert(false);
                }
                Err(StoreError::IoError)
            },
        }
    }

    /// Records a reference to a blob in the index.  A duplicate add is
    /// a no-op; the pair must not be recorded under another digest.
    pub fn add_ref(&self, index: &mut BlobIndex, digest: &str, profile: &str, rel_path: &str)
        requires
            index_wf(old(index)@),
            forall|i: int, a: int|
                0 <= i < old(index)@.len() && 0 <= a < old(index)@[i].1.len() && old(
                    index,
                )@[i].1[a] == (profile@, rel_path@) ==> old(index)@[i].0 == digest@,
        ensures
            index_wf(final(index)@),
            final(index)@ == crate::index::spec_add_ref(old(index)@, digest@, profile@, rel_path@),
            crate::index::has_ref(final(index)@, digest@, profile@, rel_path@),
    {
        index.add_ref(digest, profile, rel_path)
    }

    /// Removes a reference from a blob; `true` means the blob is now
    /// unreferenced and may be collected.
    pub fn remove_ref(&self, index: &mut BlobIndex, digest: &str, profile: &str, rel_path: &str) -> (
        gc: bool)
        requires
            index_wf(old(index)@),
        ensures
            index_wf(final(index)@),
            (final(index)@, gc) == spec_remove_ref(old(index)@, digest@, profile@, rel_path@),
    {
        index.remove_ref(digest, profile, rel_path)
    }

    /// All references recorded for a blob.
    pub fn get_refs(&self, index: &BlobIndex, digest: &str) -> (out: Vec<crate::index::BlobReference>)
        requires
            index_wf(index@),
        ensures
            out@.map_values(|x: crate::index::BlobReference| x@) == (if has_digest(
                index@,
                digest@,
            ) {
                index@[crate::index::digest_idx(index@, digest@)].1
            } else {
                Seq::<(Seq<char>, Seq<char>)>::empty()
            }),
    {
        index.get_refs(digest)
    }

    /// The digest recorded for a `(profile, relative path)` pair: the
    /// planner uses this to avoid re-hashing content that the
    /// normalizer already ingested.
    pub fn find_blob_hash_for_file(
        &self,
        index: &BlobIndex,
        profile: &str,
        rel_path: &str,
    ) -> (r: Option<String>)
        requires
            index_wf(index@),
        ensures
            match r {
                Some(d) => owner_of(index@, profile@, rel_path@) == Some(d@),
                None => owner_of(index@, profile@, rel_path@) is None,
            },
    {
        index.owner_digest(profile, rel_path)
    }

    /// Deletes the blob file of a digest when the index holds no
    /// references to it.  Returns whether a file was deleted.
    pub fn garbage_collect_blob(&self, vol: &mut Volume, index: &BlobIndex, digest: &str) -> (r:
        bool)
        requires
            old(vol).wf(),
            is_hex_digest(digest@),
        ensures
            final(vol).wf(),
            final(vol).next_node == old(vol).next_node,
            has_digest(index@, digest@) ==> r == false && final(vol)@ == old(vol)@,
            !has_digest(index@, digest@) ==> {
                &&& r == vol_has(old(vol)@, self.cache_dir@, blob_rel(digest@))
                &&& vol_lookup(final(vol)@, self.cache_dir@, blob_rel(digest@)) is None
                &&& (forall|a: Seq<char>, r2: Seq<char>|
                    !(a == self.cache_dir@ && r2 == blob_rel(digest@)) ==> #[trigger] vol_lookup(
                        final(vol)@,
                        a,
                        r2,
                    ) == vol_lookup(old(vol)@, a, r2))
            },
    {
        let brel = self.blob_rel_path(digest);
        if index.contains_digest(digest) {
            false
        } else {
            vol.remove_file(self.cache_dir.as_str(), brel.as_str())
        }
    }

    /// Detaches any reference currently held by `(profile, rel_path)`,
    /// deleting the blob file when the reference set becomes empty, and
    /// returns the digest that was referenced, if any.  After the call
    /// the pair is recorded nowhere, and the old blob file is gone
    /// exactly when no other reference kept it alive.
    pub fn remove_existing_ref(
        &self,
        vol: &mut Volume,
        index: &mut BlobIndex,
        profile: &str,
        rel_path: &str,
    ) -> (r: Option<String>)
        requires
            old(vol).wf(),
            store_wf(self.cache_dir@, old(vol)@),
            index_wf(old(index)@),
            index_digests_hex(old(index)@),
        ensures
            final(vol).wf(),
            final(vol).next_node == old(vol).next_node,
            store_wf(self.cache_dir@, final(vol)@),
            index_wf(final(index)@),
            index_digests_hex(final(index)@),
            !has_pair(final(index)@, profile@, rel_path@),
            match owner_of(old(index)@, profile@, rel_path@) {
                None => r is None && final(index)@ == old(index)@ && final(vol)@ == old(vol)@,
                Some(d) => {
                    &&& r matches Some(rd) && rd@ == d
                    &&& final(index)@ == spec_remove_ref(old(index)@, d, profile@, rel_path@).0
                    &&& (spec_remove_ref(old(index)@, d, profile@, rel_path@).1 ==> vol_lookup(
                        final(vol)@,
                        self.cache_dir@,
                        blob_rel(d),
                    ) is None)
                    &&& (!spec_remove_ref(old(index)@, d, profile@, rel_path@).1 ==> final(vol)@
                        == old(vol)@)
                    &&& (forall|a: Seq<char>, r2: Seq<char>|
                        !(a == self.cache_dir@ && r2 == blob_rel(d)) ==> #[trigger] vol_lookup(
                            final(vol)@,
                            a,
                            r2,
                        ) == vol_lookup(old(vol)@, a, r2))
                },
            },
    {
        let ghost iv = index@;
        let owner = match index.owner_digest(profile, rel_path) {
            Some(d) => d,
            None => { return None },
        };
        proof {
            assert(has_pair(iv, profile@, rel_path@));
            let i = choose|i: int|
                0 <= i < iv.len() && crate::index::refs_have_pair(iv[i].1, profile@, rel_path@);
            assert(is_hex_digest(iv[i].0));
            assert(owner_of(iv, profile@, rel_path@) == Some(iv[i].0));
        }
        let gc_eligible = index.remove_ref(owner.as_str(), profile, rel_path);
        proof {
            lemma_remove_ref_digests_hex(iv, owner@, profile@, rel_path@);
            lemma_remove_ref_clears_pair(iv, owner@, profile@, rel_path@);
        }
        if gc_eligible {
            vol.remove_file(self.cache_dir.as_str(), self.blob_rel_path(owner.as_str()).as_str());
        }
        Some(owner)
    }
}

/// An empty volume is a well-formed store for any cache area: it holds
/// no blob files at all.  Every store operation preserves `store_wf`,
/// so this is where a caller's chain of obligations starts.
pub proof fn lemma_store_wf_empty(cache: Seq<char>)
    ensures
        store_wf(cache, VolV::empty()),
{
    assert forall|d: Seq<char>| is_hex_digest(d) implies match #[trigger] vol_lookup(
        VolV::empty(),
        cache,
        blob_rel(d),
    ) {
        Some(f) => blake3_hex(f.1) == d,
        None => true,
    } by {
        if vol_has(VolV::empty(), cache, blob_rel(d)) {
            let i = choose|i: int|
                0 <= i < VolV::empty().len() && (#[trigger] VolV::empty()[i]).0 == cache
                    && VolV::empty()[i].1 == blob_rel(d);
        }
    }
}

/// Two byte-identical contents render to one digest and are stored at
/// one blob path, however many files or profiles hold them.
pub proof fn lemma_identical_content_same_blob(a: Seq<u8>, b: Seq<u8>)
    requires
        a == b,
    ensures
        blake3_hex(a) == blake3_hex(b),
        blob_rel(blake3_hex(a)) == blob_rel(blake3_hex(b)),
{
}

/// Removing a reference keeps every digest hex-shaped.
pub proof fn lemma_remove_ref_digests_hex(v: IndexV, d: Seq<char>, p: Seq<char>, r: Seq<char>)
    requires
        index_wf(v),
        index_digests_hex(v),
    ensures
        index_digests_hex(spec_remove_ref(v, d, p, r).0),
{
    let w = spec_remove_ref(v, d, p, r).0;
    assert forall|i: int| 0 <= i < w.len() implies is_hex_digest((#[trigger] w[i]).0) by {
        if has_digest(v, d) {
            let j = crate::index::digest_idx(v, d);
            if crate::index::refs_have_pair(v[j].1, p, r) {
                if v[j].1.len() == 1 {
                    let i0 = if i < j { i } else { i + 1 };
                    assert(w[i] == v[i0]);
                } else {
                    if i != j {
                        assert(w[i] == v[i]);
                    } else {
                        assert(w[i].0 == v[j].0);
                    }
                }
            } else {
                assert(w[i] == v[i]);
            }
        } else {
            assert(w[i] == v[i]);
        }
    }
}

/// After removing the pair's reference from its owning digest, the pair
/// is recorded nowhere.
pub proof fn lemma_remove_ref_clears_pair(v: IndexV, d: Seq<char>, p: Seq<char>, r: Seq<char>)
    requires
        index_wf(v),
        owner_of(v, p, r) == Some(d),
        has_pair(v, p, r),
    ensures
        !has_pair(spec_remove_ref(v, d, p, r).0, p, r),
{
    let w = spec_remove_ref(v, d, p, r).0;
    let i0 = choose|i: int|
        0 <= i < v.len() && crate::index::refs_have_pair(v[i].1, p, r);
    assert(v[i0].0 == d);
    assert(has_digest(v, d));
    let j = crate::index::digest_idx(v, d);
    assert(j == i0) by {
        if j != i0 {
            assert(v[j].0 != v[i0].0);
        }
    }
    assert(crate::index::refs_have_pair(v[j].1, p, r));
    let a = choose|a: int| 0 <= a < v[j].1.len() && v[j].1[a] == (p, r);
    if v[j].1.len() == 1 {
        assert(w =~= v.remove(j));
        if has_pair(w, p, r) {
            let x = choose|x: int|
                0 <= x < w.len() && crate::index::refs_have_pair(w[x].1, p, r);
            let x0 = if x < j { x } else { x + 1 };
            assert(w[x] == v[x0]);
            let b = choose|b: int| 0 <= b < w[x].1.len() && w[x].1[b] == (p, r);
            assert(v[x0].1[b] == (p, r));
            assert(v[x0].1[b] == v[j].1[a]);
            assert(x0 == j);
        }
    } else {
        if has_pair(w, p, r) {
            let x = choose|x: int|
                0 <= x < w.len() && crate::index::refs_have_pair(w[x].1, p, r);
            let b = choose|b: int| 0 <= b < w[x].1.len() && w[x].1[b] == (p, r);
            if x != j {
                assert(w[x] == v[x]);
                assert(v[x].1[b] == v[j].1[a]);
                assert(x == j);
            } else {
                let b0 = if b < a { b } else { b + 1 };
                assert(w[j].1[b] == v[j].1[b0]);
                assert(v[j].1[b0] == v[j].1[a]);
                assert(b0 != a);
            }
        }
    }
}

} // verus!
