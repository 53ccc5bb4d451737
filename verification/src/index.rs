//! The blob reference index: a persistent mapping from content digest to
//! the set of `(profile, relative path)` pairs that use that content.
//!
//! Invariants: digests are unique, every digest holds at least one
//! reference, no reference pair is duplicated, and a pair belongs to at
//! most one digest.

use vstd::prelude::*;

verus! {

/// One logical user of a blob.
#[derive(Debug, Clone)]
pub struct BlobReference {
    pub profile: String,
    pub rel_path: String,
}

impl View for BlobReference {
    type V = (Seq<char>, Seq<char>);

    open spec fn view(&self) -> (Seq<char>, Seq<char>) {
        (self.profile@, self.rel_path@)
    }
}

/// All references to one digest.
#[derive(Debug, Clone)]
pub struct IndexEntry {
    pub digest: String,
    pub refs: Vec<BlobReference>,
}

impl View for IndexEntry {
    type V = (Seq<char>, Seq<(Seq<char>, Seq<char>)>);

    open spec fn view(&self) -> (Seq<char>, Seq<(Seq<char>, Seq<char>)>) {
        (self.digest@, self.refs@.map_values(|r: BlobReference| r@))
    }
}

/// The reference index.
#[derive(Debug, Clone)]
pub struct BlobIndex {
    pub refs: Vec<IndexEntry>,
}

impl View for BlobIndex {
    type V = Seq<(Seq<char>, Seq<(Seq<char>, Seq<char>)>)>;

    open spec fn view(&self) -> Seq<(Seq<char>, Seq<(Seq<char>, Seq<char>)>)> {
        self.refs@.map_values(|e: IndexEntry| e@)
    }
}

/// The view type of an index.
pub type IndexV = Seq<(Seq<char>, Seq<(Seq<char>, Seq<char>)>)>;

/// A digest is present in the index.
pub open spec fn has_digest(v: IndexV, d: Seq<char>) -> bool {
    exists|i: int| 0 <= i < v.len() && v[i].0 == d
}

/// The position of a digest in the index.
pub open spec fn digest_idx(v: IndexV, d: Seq<char>) -> int {
    choose|i: int| 0 <= i < v.len() && v[i].0 == d
}

/// A reference list holds a pair.
pub open spec fn refs_have_pair(
    refs: Seq<(Seq<char>, Seq<char>)>,
    p: Seq<char>,
    r: Seq<char>,
) -> bool {
    exists|a: int| 0 <= a < refs.len() && refs[a] == (p, r)
}

/// The index records the pair under the digest.
pub open spec fn has_ref(v: IndexV, d: Seq<char>, p: Seq<char>, r: Seq<char>) -> bool {
    exists|i: int| 0 <= i < v.len() && v[i].0 == d && refs_have_pair(v[i].1, p, r)
}

/// The pair is recorded under some digest.
pub open spec fn has_pair(v: IndexV, p: Seq<char>, r: Seq<char>) -> bool {
    exists|i: int| 0 <= i < v.len() && refs_have_pair(v[i].1, p, r)
}

/// The digest that records the pair, if any.
pub open spec fn owner_of(v: IndexV, p: Seq<char>, r: Seq<char>) -> Option<Seq<char>> {
    if has_pair(v, p, r) {
        Some(v[choose|i: int| 0 <= i < v.len() && refs_have_pair(v[i].1, p, r)].0)
    } else {
        None
    }
}

/// Well-formedness of an index view.
pub open spec fn index_wf(v: IndexV) -> bool {
    &&& forall|i: int, j: int|
        0 <= i < v.len() && 0 <= j < v.len() && i != j ==> v[i].0 != v[j].0
    &&& forall|i: int| 0 <= i < v.len() ==> v[i].1.len() > 0
    &&& forall|i: int, a: int, b: int|
        0 <= i < v.len() && 0 <= a < v[i].1.len() && 0 <= b < v[i].1.len() && a != b ==> v[i].1[a]
            != v[i].1[b]
    &&& forall|i: int, j: int, a: int, b: int|
        0 <= i < v.len() && 0 <= j < v.len() && 0 <= a < v[i].1.len() && 0 <= b < v[j].1.len() && v[i].1[a]
            == v[j].1[b] ==> i == j
}

/// The index after adding a reference: a no-op when the pair is already
/// recorded under the digest, otherwise the pair is appended to the
/// digest's references, and a new digest entry is appended at the end.
pub open spec fn spec_add_ref(v: IndexV, d: Seq<char>, p: Seq<char>, r: Seq<char>) -> IndexV {
    if has_ref(v, d, p, r) {
        v
    } else if has_digest(v, d) {
        let i = digest_idx(v, d);
        v.update(i, (d, v[i].1.push((p, r))))
    } else {
        v.push((d, seq![(p, r)]))
    }
}

/// The index after removing a reference, and whether the digest became
/// unreferenced (a missing digest also counts as collectable).
pub open spec fn spec_remove_ref(v: IndexV, d: Seq<char>, p: Seq<char>, r: Seq<char>) -> (
    IndexV,
    bool,
) {
    if !has_digest(v, d) {
        (v, true)
    } else {
        let i = digest_idx(v, d);
        if !refs_have_pair(v[i].1, p, r) {
            (v, false)
        } else {
            let a = choose|a: int| 0 <= a < v[i].1.len() && v[i].1[a] == (p, r);
            if v[i].1.len() == 1 {
                (v.remove(i), true)
            } else {
                (v.update(i, (d, v[i].1.remove(a))), false)
            }
        }
    }
}

impl BlobIndex {
    /// An empty index.
    pub fn new() -> (r: BlobIndex)
        ensures
            r@ == IndexV::empty(),
            index_wf(r@),
    {
        let r = BlobIndex { refs: Vec::new() };
        proof {
            assert(r@ =~= IndexV::empty());
        }
        r
    }

    /// Finds the position of a digest's entry.
    fn find_entry(&self, digest: &str) -> (r: Option<usize>)
        ensures
            match r {
                Some(i) => i < self@.len() && self@[i as int].0 == digest@,
                None => !has_digest(self@, digest@),
            },
    {
        let mut i: usize = 0;
        while i < self.refs.len()
            invariant
                i <= self.refs@.len(),
                self@.len() == self.refs@.len(),
                forall|q: int| 0 <= q < i ==> self@[q].0 != digest@,
                forall|q: int| 0 <= q < self@.len() ==> self@[q].0 == self.refs@[q].digest@,
            decreases self.refs.len() - i,
        {
            if crate::pathnorm::eq_str(self.refs[i].digest.as_str(), digest) {
                return Some(i);
            }
            i = i + 1;
        }
        None
    }

    /// Finds the position of a pair within a reference list.
    fn find_pair(refs: &Vec<BlobReference>, profile: &str, rel_path: &str) -> (r: Option<usize>)
        ensures
            match r {
                Some(a) => a < refs@.len() && refs@.map_values(|x: BlobReference| x@)[a as int] == (
                    profile@,
                    rel_path@,
                ),
                None => !refs_have_pair(
                    refs@.map_values(|x: BlobReference| x@),
                    profile@,
                    rel_path@,
                ),
            },
    {
        let mut a: usize = 0;
        while a < refs.len()
            invariant
                a <= refs@.len(),
                forall|q: int| 0 <= q < a ==> (#[trigger] refs@[q])@ != (profile@, rel_path@),
            decreases refs.len() - a,
        {
            if crate::pathnorm::eq_str(refs[a].profile.as_str(), profile) && crate::pathnorm::eq_str(refs[a].rel_path.as_str(), rel_path) {
                return Some(a);
            }
            a = a + 1;
        }
        proof {
            let m = refs@.map_values(|x: BlobReference| x@);
            assert(!refs_have_pair(m, profile@, rel_path@)) by {
                if refs_have_pair(m, profile@, rel_path@) {
                    let q = choose|q: int| 0 <= q < m.len() && m[q] == (profile@, rel_path@);
                    assert(refs@[q]@ == (profile@, rel_path@));
                }
            }
        }
        None
    }

    /// Whether the index holds any references for a digest.
    pub fn contains_digest(&self, digest: &str) -> (r: bool)
        ensures
            r == has_digest(self@, digest@),
    {
        match self.find_entry(digest) {
            Some(_) => true,
            None => false,
        }
    }

    /// Checks the whole index against its invariants: digests unique
    /// and hex-shaped, every reference list non-empty and free of
    /// duplicates, and no pair recorded under two digests.  A loaded
    /// index that fails this check is corrupt and must not be used.
    pub fn check_wf(&self) -> (r: bool)
        ensures
            r == (index_wf(self@) && crate::store::index_digests_hex(self@)),
    {
        let ghost v = self@;
        let n = self.refs.len();
        let mut i: usize = 0;
        while i < n
            invariant
                v == self@,
                n == self.refs@.len(),
                v.len() == n,
                i <= n,
                forall|q: int| 0 <= q < v.len() ==> #[trigger] v[q] == self.refs@[q]@,
                forall|q: int|
                    0 <= q < i ==> crate::digest::is_hex_digest((#[trigger] v[q]).0),
                forall|q: int, q2: int|
                    0 <= q < i && 0 <= q2 < v.len() && q != q2 ==> (#[trigger] v[q]).0
                        != (#[trigger] v[q2]).0,
                forall|q: int| 0 <= q < i ==> (#[trigger] v[q]).1.len() > 0,
                forall|q: int, a: int, b: int|
                    0 <= q < i && 0 <= a < v[q].1.len() && 0 <= b < v[q].1.len() && a != b
                        ==> (#[trigger] v[q].1[a]) != (#[trigger] v[q].1[b]),
                forall|q: int, j: int, a: int, b: int|
                    0 <= q < i && 0 <= j < v.len() && q != j && 0 <= a < v[q].1.len() && 0 <= b
                        < v[j].1.len() ==> (#[trigger] v[q].1[a]) != (#[trigger] v[j].1[b]),
            decreases n - i,
        {
            if !crate::digest::check_hex_digest(self.refs[i].digest.as_str()) {
                proof {
                    assert(v[i as int] == self.refs@[i as int]@);
                    assert(!crate::digest::is_hex_digest(v[i as int].0));
                    assert(!crate::store::index_digests_hex(v));
                }
                return false;
            }
            let mut j: usize = i + 1;
            while j < n
                invariant
                    v == self@,
                    n == self.refs@.len(),
                    v.len() == n,
                    i < n,
                    i < j <= n,
                    forall|q: int| 0 <= q < v.len() ==> #[trigger] v[q] == self.refs@[q]@,
                    forall|q: int, q2: int|
                        0 <= q < i && 0 <= q2 < v.len() && q != q2 ==> (#[trigger] v[q]).0
                            != (#[trigger] v[q2]).0,
                    forall|q2: int| i < q2 < j ==> v[i as int].0 != (#[trigger] v[q2]).0,
                decreases n - j,
            {
                if crate::pathnorm::eq_str(
                    self.refs[i].digest.as_str(),
                    self.refs[j].digest.as_str(),
                ) {
                    proof {
                        assert(v[i as int] == self.refs@[i as int]@);
                        assert(v[j as int] == self.refs@[j as int]@);
                        assert(v[i as int].0 == v[j as int].0);
                        assert(!index_wf(v));
                    }
                    return false;
                }
                j = j + 1;
            }
            let m = self.refs[i].refs.len();
            if m == 0 {
                proof {
                    assert(v[i as int] == self.refs@[i as int]@);
                    assert(v[i as int].1.len() == 0);
                    assert(!index_wf(v));
                }
                return false;
            }
            let mut a: usize = 0;
            while a < m
                invariant
                    v == self@,
                    n == self.refs@.len(),
                    v.len() == n,
                    i < n,
                    m == v[i as int].1.len(),
                    m == self.refs@[i as int].refs@.len(),
                    a <= m,
                    forall|q: int| 0 <= q < v.len() ==> #[trigger] v[q] == self.refs@[q]@,
                    forall|x: int, b: int|
                        0 <= x < a && x < b < m ==> (#[trigger] v[i as int].1[x])
                            != (#[trigger] v[i as int].1[b]),
                decreases m - a,
            {
                proof {
                    assert(v[i as int].1[a as int] == self.refs@[i as int].refs@[a as int]@);
                }
                let mut b: usize = a + 1;
                while b < m
                    invariant
                        v == self@,
                        n == self.refs@.len(),
                        v.len() == n,
                        i < n,
                        a < m,
                        m == v[i as int].1.len(),
                        m == self.refs@[i as int].refs@.len(),
                        a < b <= m,
                        forall|q: int| 0 <= q < v.len() ==> #[trigger] v[q] == self.refs@[q]@,
                        forall|b2: int|
                            a < b2 < b ==> v[i as int].1[a as int] != (#[trigger] v[i as int].1[b2]),
                    decreases m - b,
                {
                    proof {
                        assert(v[i as int].1[a as int] == self.refs@[i as int].refs@[a as int]@);
                        assert(v[i as int].1[b as int] == self.refs@[i as int].refs@[b as int]@);
                    }
                    if crate::pathnorm::eq_str(
                        self.refs[i].refs[a].profile.as_str(),
                        self.refs[i].refs[b].profile.as_str(),
                    ) && crate::pathnorm::eq_str(
                        self.refs[i].refs[a].rel_path.as_str(),
                        self.refs[i].refs[b].rel_path.as_str(),
                    ) {
                        return false;
                    }
                    b = b + 1;
                }
                a = a + 1;
            }
            let mut j2: usize = i + 1;
            while j2 < n
                invariant
                    v == self@,
                    n == self.refs@.len(),
                    v.len() == n,
                    i < n,
                    i < j2 <= n,
                    forall|q: int| 0 <= q < v.len() ==> #[trigger] v[q] == self.refs@[q]@,
                    forall|q: int, j: int, a2: int, b: int|
                        0 <= q < i && 0 <= j < v.len() && q != j && 0 <= a2 < v[q].1.len() && 0
                            <= b < v[j].1.len() ==> (#[trigger] v[q].1[a2])
                            != (#[trigger] v[j].1[b]),
                    forall|j: int, a2: int, b2: int|
                        i < j < j2 && 0 <= a2 < v[i as int].1.len() && 0 <= b2 < v[j].1.len()
                            ==> (#[trigger] v[i as int].1[a2]) != (#[trigger] v[j].1[b2]),
                decreases n - j2,
            {
                let m2 = self.refs[i].refs.len();
                let mut a2: usize = 0;
                while a2 < m2
                    invariant
                        v == self@,
                        n == self.refs@.len(),
                        v.len() == n,
                        i < n,
                        i < j2 < n,
                        m2 == v[i as int].1.len(),
                        a2 <= m2,
                        v[i as int].1.len() == self.refs@[i as int].refs@.len(),
                        forall|q: int| 0 <= q < v.len() ==> #[trigger] v[q] == self.refs@[q]@,
                        forall|x: int|
                            0 <= x < a2 ==> !refs_have_pair(
                                v[j2 as int].1,
                                (#[trigger] v[i as int].1[x]).0,
                                v[i as int].1[x].1,
                            ),
                    decreases m2 - a2,
                {
                    proof {
                        assert(v[i as int].1[a2 as int] == self.refs@[i as int].refs@[a2 as int]@);
                    }
                    match Self::find_pair(
                        &self.refs[j2].refs,
                        self.refs[i].refs[a2].profile.as_str(),
                        self.refs[i].refs[a2].rel_path.as_str(),
                    ) {
                        Some(_) => {
                            proof {
                                assert(refs_have_pair(
                                    v[j2 as int].1,
                                    v[i as int].1[a2 as int].0,
                                    v[i as int].1[a2 as int].1,
                                ));
                            }
                            return false;
                        },
                        None => {},
                    }
                    a2 = a2 + 1;
                }
                proof {
                    assert forall|x: int, b2: int|
                        0 <= x < v[i as int].1.len() && 0 <= b2 < v[j2 as int].1.len() implies (
                    #[trigger] v[i as int].1[x]) != (#[trigger] v[j2 as int].1[b2]) by {
                        assert(!refs_have_pair(
                            v[j2 as int].1,
                            v[i as int].1[x].0,
                            v[i as int].1[x].1,
                        ));
                        if v[i as int].1[x] == v[j2 as int].1[b2] {
                            assert(v[j2 as int].1[b2] == (
                                v[i as int].1[x].0,
                                v[i as int].1[x].1,
                            ));
                        }
                    }
                }
                j2 = j2 + 1;
            }
            proof {
                // The pair-disjointness just shown extends to earlier
                // entries, whose pairs were checked when their turn came.
                assert forall|q: int, j: int, a3: int, b: int|
                    0 <= q < i + 1 && 0 <= j < v.len() && q != j && 0 <= a3 < v[q].1.len() && 0
                        <= b < v[j].1.len() implies (#[trigger] v[q].1[a3])
                    != (#[trigger] v[j].1[b]) by {
                    if q == i as int {
                        if j < i as int {
                            assert(v[j].1[b] != v[q].1[a3]);
                        } else {
                            assert(i < j < n);
                        }
                    }
                }
            }
            i = i + 1;
        }
        proof {
            assert(index_wf(v)) by {
                assert forall|x: int, y: int|
                    0 <= x < v.len() && 0 <= y < v.len() && x != y implies v[x].0 != v[y].0 by {}
            }
            assert(crate::store::index_digests_hex(v));
        }
        true
    }

    /// Adds a reference to a digest.  A duplicate add is a no-op.
    ///
    /// The pair must not be recorded under any other digest; callers
    /// detach the old reference first when content changes.
    pub fn add_ref(&mut self, digest: &str, profile: &str, rel_path: &str)
        requires
            index_wf(old(self)@),
            forall|i: int, a: int|
                0 <= i < old(self)@.len() && 0 <= a < old(self)@[i].1.len() && old(self)@[i].1[a]
                    == (profile@, rel_path@) ==> old(self)@[i].0 == digest@,
        ensures
            final(self)@ == spec_add_ref(old(self)@, digest@, profile@, rel_path@),
            index_wf(final(self)@),
            has_ref(final(self)@, digest@, profile@, rel_path@),
    {
        let ghost v = self@;
        match self.find_entry(digest) {
            Some(i) => {
                proof {
                    lemma_digest_idx_agrees(v, digest@, i as int);
                }
                match Self::find_pair(&self.refs[i].refs, profile, rel_path) {
                    Some(_) => {
                        proof {
                            assert(has_ref(v, digest@, profile@, rel_path@));
                        }
                    },
                    None => {
                        proof {
                            assert(!has_ref(v, digest@, profile@, rel_path@)) by {
                                if has_ref(v, digest@, profile@, rel_path@) {
                                    let j = choose|j: int|
                                        0 <= j < v.len() && v[j].0 == digest@ && refs_have_pair(
                                            v[j].1,
                                            profile@,
                                            rel_path@,
                                        );
                                    assert(j == i as int);
                                }
                            }
                        }
                        let new_ref = BlobReference {
                            profile: String::from_str(profile),
                            rel_path: String::from_str(rel_path),
                        };
                        let mut entry = self.refs.remove(i);
                        entry.refs.push(new_ref);
                        proof {
                            assert(entry@.1 =~= v[i as int].1.push((profile@, rel_path@)));
                        }
                        self.refs.insert(i, entry);
                        proof {
                            assert(self@ =~= v.update(
                                i as int,
                                (digest@, v[i as int].1.push((profile@, rel_path@))),
                            ));
                            lemma_add_ref_wf(v, digest@, profile@, rel_path@);
                        }
                    },
                }
            },
            None => {
                proof {
                    assert(!has_ref(v, digest@, profile@, rel_path@));
                }
                let new_ref = BlobReference {
                    profile: String::from_str(profile),
                    rel_path: String::from_str(rel_path),
                };
                let mut refs: Vec<BlobReference> = Vec::new();
                refs.push(new_ref);
                let entry = IndexEntry { digest: String::from_str(digest), refs };
                proof {
                    assert(entry@.1 =~= seq![(profile@, rel_path@)]);
                }
                self.refs.push(entry);
                proof {
                    assert(self@ =~= v.push((digest@, seq![(profile@, rel_path@)])));
                    lemma_add_ref_wf(v, digest@, profile@, rel_path@);
                }
            },
        }
        proof {
            assert(has_ref(final(self)@, digest@, profile@, rel_path@)) by {
                let w = spec_add_ref(v, digest@, profile@, rel_path@);
                if has_ref(v, digest@, profile@, rel_path@) {
                } else if has_digest(v, digest@) {
                    let i = digest_idx(v, digest@);
                    assert(w[i].0 == digest@);
                    assert(w[i].1[w[i].1.len() - 1] == (profile@, rel_path@));
                } else {
                    assert(w[w.len() - 1].0 == digest@);
                    assert(w[w.len() - 1].1[0] == (profile@, rel_path@));
                }
            }
        }
    }
}

impl BlobIndex {
    /// Removes a reference from a digest.  Returns `true` when the digest
    /// is left without references and is pruned — the blob may then be
    /// collected.  A digest that is not in the index is also collectable.
    pub fn remove_ref(&mut self, digest: &str, profile: &str, rel_path: &str) -> (gc: bool)
        requires
            index_wf(old(self)@),
        ensures
            (final(self)@, gc) == spec_remove_ref(old(self)@, digest@, profile@, rel_path@),
            index_wf(final(self)@),
    {
        let ghost v = self@;
        match self.find_entry(digest) {
            None => {
                true
            },
            Some(i) => {
                proof {
                    lemma_digest_idx_agrees(v, digest@, i as int);
                }
                match Self::find_pair(&self.refs[i].refs, profile, rel_path) {
                    None => {
                        false
                    },
                    Some(a) => {
                        proof {
                            assert(v[i as int].1[a as int] == (profile@, rel_path@));
                            let a2 = choose|a2: int|
                                0 <= a2 < v[i as int].1.len() && v[i as int].1[a2] == (
                                    profile@,
                                    rel_path@,
                                );
                            assert(a2 == a as int);
                        }
                        if self.refs[i].refs.len() == 1 {
                            self.refs.remove(i);
                            proof {
                                assert(self@ =~= v.remove(i as int));
                                lemma_remove_entry_wf(v, i as int);
                            }
                            true
                        } else {
                            let mut entry = self.refs.remove(i);
                            entry.refs.remove(a);
                            proof {
                                assert(entry@.1 =~= v[i as int].1.remove(a as int));
                            }
                            self.refs.insert(i, entry);
                            proof {
                                assert(self@ =~= v.update(
                                    i as int,
                                    (digest@, v[i as int].1.remove(a as int)),
                                ));
                                lemma_remove_pair_wf(v, i as int, a as int);
                            }
                            false
                        }
                    },
                }
            },
        }
    }

    /// All references recorded for a digest, in insertion order; empty
    /// when the digest is unknown.
    pub fn get_refs(&self, digest: &str) -> (out: Vec<BlobReference>)
        requires
            index_wf(self@),
        ensures
            out@.map_values(|x: BlobReference| x@) == (if has_digest(self@, digest@) {
                self@[digest_idx(self@, digest@)].1
            } else {
                Seq::<(Seq<char>, Seq<char>)>::empty()
            }),
    {
        match self.find_entry(digest) {
            None => {
                let out: Vec<BlobReference> = Vec::new();
                proof {
                    assert(out@.map_values(|x: BlobReference| x@) =~= Seq::<
                        (Seq<char>, Seq<char>),
                    >::empty());
                }
                out
            },
            Some(i) => {
                proof {
                    lemma_digest_idx_agrees(self@, digest@, i as int);
                }
                let refs = &self.refs[i].refs;
                let mut out: Vec<BlobReference> = Vec::new();
                let mut a: usize = 0;
                while a < refs.len()
                    invariant
                        a <= refs@.len(),
                        out@.map_values(|x: BlobReference| x@) == refs@.map_values(
                            |x: BlobReference| x@,
                        ).subrange(0, a as int),
                    decreases refs.len() - a,
                {
                    let ghost before = out@.map_values(|x: BlobReference| x@);
                    out.push(
                        BlobReference {
                            profile: refs[a].profile.clone(),
                            rel_path: refs[a].rel_path.clone(),
                        },
                    );
                    proof {
                        assert(out@.map_values(|x: BlobReference| x@) =~= before.push(
                            refs@[a as int]@,
                        ));
                        assert(out@.map_values(|x: BlobReference| x@) =~= refs@.map_values(
                            |x: BlobReference| x@,
                        ).subrange(0, a as int + 1));
                    }
                    a = a + 1;
                }
                proof {
                    assert(refs@.map_values(|x: BlobReference| x@).subrange(
                        0,
                        refs@.len() as int,
                    ) =~= refs@.map_values(|x: BlobReference| x@));
                }
                out
            },
        }
    }

    /// The digest currently recorded for a `(profile, relative path)`
    /// pair, if any.
    pub fn owner_digest(&self, profile: &str, rel_path: &str) -> (r: Option<String>)
        requires
            index_wf(self@),
        ensures
            match r {
                Some(d) => owner_of(self@, profile@, rel_path@) == Some(d@),
                None => owner_of(self@, profile@, rel_path@) is None,
            },
    {
        let ghost v = self@;
        let mut i: usize = 0;
        while i < self.refs.len()
            invariant
                i <= self.refs@.len(),
                v == self@,
                index_wf(v),
                v.len() == self.refs@.len(),
                forall|q: int| 0 <= q < i ==> !refs_have_pair(v[q].1, profile@, rel_path@),
            decreases self.refs.len() - i,
        {
            proof {
                assert(v[i as int] == self.refs@[i as int]@);
            }
            match Self::find_pair(&self.refs[i].refs, profile, rel_path) {
                Some(_) => {
                    proof {
                        assert(refs_have_pair(v[i as int].1, profile@, rel_path@));
                        assert(has_pair(v, profile@, rel_path@));
                        let j = choose|j: int|
                            0 <= j < v.len() && refs_have_pair(v[j].1, profile@, rel_path@);
                        let a = choose|a: int|
                            0 <= a < v[j as int].1.len() && v[j as int].1[a] == (
                                profile@,
                                rel_path@,
                            );
                        let b = choose|b: int|
                            0 <= b < v[i as int].1.len() && v[i as int].1[b] == (
                                profile@,
                                rel_path@,
                            );
                        assert(v[j].1[a] == v[i as int].1[b]);
                        assert(j == i as int);
                    }
                    return Some(self.refs[i].digest.clone());
                },
                None => {},
            }
            i = i + 1;
        }
        proof {
            assert(!has_pair(v, profile@, rel_path@)) by {
                if has_pair(v, profile@, rel_path@) {
                    let j = choose|j: int|
                        0 <= j < v.len() && refs_have_pair(v[j].1, profile@, rel_path@);
                    assert(!refs_have_pair(v[j].1, profile@, rel_path@));
                }
            }
        }
        None
    }
}

/// Removing and re-adding a fresh reference restores the index exactly:
/// after `add_ref(d, p, r)` on an index that nowhere records `(p, r)`,
/// `remove_ref(d, p, r)` yields the prior index, reporting the blob
/// collectable exactly when the digest was previously unknown.
pub proof fn lemma_add_then_remove_restores(v: IndexV, d: Seq<char>, p: Seq<char>, r: Seq<char>)
    requires
        index_wf(v),
        !has_pair(v, p, r),
    ensures
        spec_remove_ref(spec_add_ref(v, d, p, r), d, p, r).0 == v,
        spec_remove_ref(spec_add_ref(v, d, p, r), d, p, r).1 == !has_digest(v, d),
{
    assert(!has_ref(v, d, p, r)) by {
        if has_ref(v, d, p, r) {
            let i = choose|i: int|
                0 <= i < v.len() && v[i].0 == d && refs_have_pair(v[i].1, p, r);
            assert(has_pair(v, p, r));
        }
    }
    let w = spec_add_ref(v, d, p, r);
    if has_digest(v, d) {
        let i = digest_idx(v, d);
        assert(0 <= i < v.len() && v[i].0 == d);
        assert(w == v.update(i, (d, v[i].1.push((p, r)))));
        assert(w[i].0 == d);
        assert(has_digest(w, d));
        let j = digest_idx(w, d);
        assert(0 <= j < w.len() && w[j].0 == d);
        assert(j == i) by {
            if j != i {
                assert(w[j].0 == v[j].0);
                assert(v[j].0 != v[i].0);
            }
        }
        let n = v[i].1.len() as int;
        assert(w[i].1[n] == (p, r));
        assert(refs_have_pair(w[i].1, p, r));
        let a = choose|a: int| 0 <= a < w[i].1.len() && w[i].1[a] == (p, r);
        assert(a == n) by {
            if a != n {
                assert(w[i].1[a] == v[i].1[a]);
                assert(refs_have_pair(v[i].1, p, r));
                assert(has_pair(v, p, r));
            }
        }
        assert(w[i].1.len() == n + 1);
        assert(n >= 1);
        assert(w[i].1.remove(n) =~= v[i].1);
        assert(w.update(i, (d, w[i].1.remove(a))) =~= v);
        assert(spec_remove_ref(w, d, p, r).1 == false);
    } else {
        assert(w == v.push((d, seq![(p, r)])));
        let n = v.len() as int;
        assert(w[n].0 == d);
        assert(has_digest(w, d));
        let j = digest_idx(w, d);
        assert(0 <= j < w.len() && w[j].0 == d);
        assert(j == n) by {
            if j != n {
                assert(w[j].0 == v[j].0);
                assert(has_digest(v, d));
            }
        }
        assert(w[n].1 == seq![(p, r)]);
        assert(w[n].1[0] == (p, r));
        assert(refs_have_pair(w[n].1, p, r));
        assert(w[n].1.len() == 1);
        assert(w.remove(n) =~= v);
        assert(spec_remove_ref(w, d, p, r).1 == true);
    }
}

/// Adding a reference for one pair leaves every other pair's
/// references exactly as they were.
pub proof fn lemma_add_ref_other_pairs(
    v: IndexV,
    d: Seq<char>,
    p: Seq<char>,
    r: Seq<char>,
    d2: Seq<char>,
    p2: Seq<char>,
    r2: Seq<char>,
)
    requires
        index_wf(v),
        (p2, r2) != (p, r),
    ensures
        has_ref(spec_add_ref(v, d, p, r), d2, p2, r2) == has_ref(v, d2, p2, r2),
{
    let w = spec_add_ref(v, d, p, r);
    if has_ref(v, d, p, r) {
    } else if has_digest(v, d) {
        let i = digest_idx(v, d);
        assert(0 <= i < v.len() && v[i].0 == d);
        if has_ref(v, d2, p2, r2) {
            let j = choose|j: int|
                0 <= j < v.len() && v[j].0 == d2 && refs_have_pair(v[j].1, p2, r2);
            let a = choose|a: int| 0 <= a < v[j].1.len() && v[j].1[a] == (p2, r2);
            if j == i {
                assert(w[i].1[a] == (p2, r2));
                assert(w[i].0 == d2);
            } else {
                assert(w[j] == v[j]);
            }
            assert(has_ref(w, d2, p2, r2));
        }
        if has_ref(w, d2, p2, r2) {
            let j = choose|j: int|
                0 <= j < w.len() && w[j].0 == d2 && refs_have_pair(w[j].1, p2, r2);
            let a = choose|a: int| 0 <= a < w[j].1.len() && w[j].1[a] == (p2, r2);
            if j == i {
                if a < v[i].1.len() {
                    assert(v[j].1[a] == (p2, r2));
                } else {
                    assert(w[i].1[a] == (p, r));
                }
            } else {
                assert(w[j] == v[j]);
            }
            assert(has_ref(v, d2, p2, r2));
        }
    } else {
        let n = v.len() as int;
        if has_ref(v, d2, p2, r2) {
            let j = choose|j: int|
                0 <= j < v.len() && v[j].0 == d2 && refs_have_pair(v[j].1, p2, r2);
            assert(w[j] == v[j]);
            assert(has_ref(w, d2, p2, r2));
        }
        if has_ref(w, d2, p2, r2) {
            let j = choose|j: int|
                0 <= j < w.len() && w[j].0 == d2 && refs_have_pair(w[j].1, p2, r2);
            let a = choose|a: int| 0 <= a < w[j].1.len() && w[j].1[a] == (p2, r2);
            if j == n {
                assert(w[n].1 == seq![(p, r)]);
                assert(w[n].1[a] == (p, r));
            } else {
                assert(w[j] == v[j]);
                assert(has_ref(v, d2, p2, r2));
            }
        }
    }
}

/// Removing a reference of one pair leaves every other pair's
/// references exactly as they were.
pub proof fn lemma_remove_ref_other_pairs(
    v: IndexV,
    d: Seq<char>,
    p: Seq<char>,
    r: Seq<char>,
    d2: Seq<char>,
    p2: Seq<char>,
    r2: Seq<char>,
)
    requires
        index_wf(v),
        (p2, r2) != (p, r),
    ensures
        has_ref(spec_remove_ref(v, d, p, r).0, d2, p2, r2) == has_ref(v, d2, p2, r2),
{
    let w = spec_remove_ref(v, d, p, r).0;
    if !has_digest(v, d) {
        return ;
    }
    let i = digest_idx(v, d);
    assert(0 <= i < v.len() && v[i].0 == d);
    if !refs_have_pair(v[i].1, p, r) {
        return ;
    }
    let a0 = choose|a0: int| 0 <= a0 < v[i].1.len() && v[i].1[a0] == (p, r);
    if v[i].1.len() == 1 {
        // The whole entry goes; it held only the removed pair.
        if has_ref(v, d2, p2, r2) {
            let j = choose|j: int|
                0 <= j < v.len() && v[j].0 == d2 && refs_have_pair(v[j].1, p2, r2);
            let b = choose|b: int| 0 <= b < v[j].1.len() && v[j].1[b] == (p2, r2);
            assert(j != i) by {
                if j == i {
                    assert(v[i].1[b] == (p2, r2) && v[i].1[a0] == (p, r));
                    assert(b == a0);
                }
            }
            let j2 = if j < i { j } else { j - 1 };
            assert(w[j2] == v[j]);
            assert(has_ref(w, d2, p2, r2));
        }
        if has_ref(w, d2, p2, r2) {
            let j = choose|j: int|
                0 <= j < w.len() && w[j].0 == d2 && refs_have_pair(w[j].1, p2, r2);
            let j0 = if j < i { j } else { j + 1 };
            assert(w[j] == v[j0]);
            assert(has_ref(v, d2, p2, r2));
        }
    } else {
        // One reference leaves the entry; the others stay in place.
        if has_ref(v, d2, p2, r2) {
            let j = choose|j: int|
                0 <= j < v.len() && v[j].0 == d2 && refs_have_pair(v[j].1, p2, r2);
            let b = choose|b: int| 0 <= b < v[j].1.len() && v[j].1[b] == (p2, r2);
            if j == i {
                assert(b != a0);
                let b2 = if b < a0 { b } else { b - 1 };
                assert(w[i].1[b2] == v[i].1[b]);
                assert(w[i].0 == d2);
                assert(refs_have_pair(w[i].1, p2, r2));
            } else {
                assert(w[j] == v[j]);
            }
            assert(has_ref(w, d2, p2, r2));
        }
        if has_ref(w, d2, p2, r2) {
            let j = choose|j: int|
                0 <= j < w.len() && w[j].0 == d2 && refs_have_pair(w[j].1, p2, r2);
            let b = choose|b: int| 0 <= b < w[j].1.len() && w[j].1[b] == (p2, r2);
            if j == i {
                let b0 = if b < a0 { b } else { b + 1 };
                assert(w[i].1[b] == v[i].1[b0]);
                assert(refs_have_pair(v[i].1, p2, r2));
            } else {
                assert(w[j] == v[j]);
            }
            assert(has_ref(v, d2, p2, r2));
        }
    }
}

/// Removing a whole entry preserves well-formedness.
pub proof fn lemma_remove_entry_wf(v: IndexV, i: int)
    requires
        index_wf(v),
        0 <= i < v.len(),
    ensures
        index_wf(v.remove(i)),
{
    let w = v.remove(i);
    assert forall|x: int| 0 <= x < w.len() implies w[x] == v[if x < i {
        x
    } else {
        x + 1
    }] by {}
    assert forall|x: int, y: int|
        0 <= x < w.len() && 0 <= y < w.len() && x != y implies w[x].0 != w[y].0 by {
        let x0 = if x < i { x } else { x + 1 };
        let y0 = if y < i { y } else { y + 1 };
        assert(w[x] == v[x0] && w[y] == v[y0]);
    }
    assert forall|x: int, y: int, a: int, b: int|
        0 <= x < w.len() && 0 <= y < w.len() && 0 <= a < w[x].1.len() && 0 <= b < w[y].1.len() && w[x].1[a]
            == w[y].1[b] implies x == y by {
        let x0 = if x < i { x } else { x + 1 };
        let y0 = if y < i { y } else { y + 1 };
        assert(w[x] == v[x0] && w[y] == v[y0]);
    }
}

/// Removing one reference from an entry that keeps others preserves
/// well-formedness.
pub proof fn lemma_remove_pair_wf(v: IndexV, i: int, a: int)
    requires
        index_wf(v),
        0 <= i < v.len(),
        0 <= a < v[i].1.len(),
        v[i].1.len() > 1,
    ensures
        index_wf(v.update(i, (v[i].0, v[i].1.remove(a)))),
{
    let w = v.update(i, (v[i].0, v[i].1.remove(a)));
    assert forall|x: int| 0 <= x < w[i].1.len() implies w[i].1[x] == v[i].1[if x < a {
        x
    } else {
        x + 1
    }] by {}
    assert forall|x: int, c: int, b: int|
        0 <= x < w.len() && 0 <= c < w[x].1.len() && 0 <= b < w[x].1.len() && c
            != b implies w[x].1[c] != w[x].1[b] by {
        if x == i {
            let c0 = if c < a { c } else { c + 1 };
            let b0 = if b < a { b } else { b + 1 };
            assert(w[x].1[c] == v[i].1[c0] && w[x].1[b] == v[i].1[b0]);
        }
    }
    assert forall|x: int, y: int, c: int, b: int|
        0 <= x < w.len() && 0 <= y < w.len() && 0 <= c < w[x].1.len() && 0 <= b < w[y].1.len() && w[x].1[c]
            == w[y].1[b] implies x == y by {
        let c0 = if x == i && c >= a { c + 1 } else { c };
        let b0 = if y == i && b >= a { b + 1 } else { b };
        assert(w[x].1[c] == v[x].1[c0] && w[y].1[b] == v[y].1[b0]);
    }
}

/// Any position holding a digest is the position `digest_idx` denotes,
/// when digests are unique.
pub proof fn lemma_digest_idx_agrees(v: IndexV, d: Seq<char>, i: int)
    requires
        index_wf(v),
        0 <= i < v.len(),
        v[i].0 == d,
    ensures
        has_digest(v, d),
        digest_idx(v, d) == i,
{
    assert(has_digest(v, d));
    let j = digest_idx(v, d);
    assert(0 <= j < v.len() && v[j].0 == d);
    if i != j {
        assert(v[i].0 != v[j].0);
    }
}

/// Adding a reference preserves well-formedness.
pub proof fn lemma_add_ref_wf(v: IndexV, d: Seq<char>, p: Seq<char>, r: Seq<char>)
    requires
        index_wf(v),
        forall|i: int, a: int|
            0 <= i < v.len() && 0 <= a < v[i].1.len() && v[i].1[a] == (p, r) ==> v[i].0 == d,
    ensures
        index_wf(spec_add_ref(v, d, p, r)),
{
    let w = spec_add_ref(v, d, p, r);
    if has_ref(v, d, p, r) {
    } else if has_digest(v, d) {
        let i = digest_idx(v, d);
        assert(0 <= i < v.len() && v[i].0 == d);
        assert forall|x: int, a: int, b: int|
            0 <= x < w.len() && 0 <= a < w[x].1.len() && 0 <= b < w[x].1.len() && a
                != b implies w[x].1[a] != w[x].1[b] by {
            if x == i {
                if a < v[i].1.len() && b < v[i].1.len() {
                    assert(w[x].1[a] == v[i].1[a] && w[x].1[b] == v[i].1[b]);
                } else if a == v[i].1.len() {
                    assert(w[x].1[a] == (p, r));
                    assert(!refs_have_pair(v[i].1, p, r));
                } else {
                    assert(w[x].1[b] == (p, r));
                    assert(!refs_have_pair(v[i].1, p, r));
                }
            }
        }
        assert forall|x: int, y: int, a: int, b: int|
            0 <= x < w.len() && 0 <= y < w.len() && 0 <= a < w[x].1.len() && 0 <= b < w[y].1.len()
                && w[x].1[a] == w[y].1[b] implies x == y by {
            if x == i && a == v[i].1.len() {
                if y != i {
                    assert(w[y].1[b] == v[y].1[b]);
                    assert(v[y].0 == d);
                }
            } else if y == i && b == v[i].1.len() {
                if x != i {
                    assert(w[x].1[a] == v[x].1[a]);
                    assert(v[x].0 == d);
                }
            }
        }
    } else {
        assert forall|x: int, y: int, a: int, b: int|
            0 <= x < w.len() && 0 <= y < w.len() && 0 <= a < w[x].1.len() && 0 <= b < w[y].1.len()
                && w[x].1[a] == w[y].1[b] implies x == y by {
            if x == v.len() as int && y != v.len() as int {
                assert(w[y].1[b] == v[y].1[b]);
                assert(v[y].0 == d);
                assert(has_digest(v, d));
            } else if y == v.len() as int && x != v.len() as int {
                assert(w[x].1[a] == v[x].1[a]);
                assert(v[x].0 == d);
                assert(has_digest(v, d));
            }
        }
    }
}

} // verus!
