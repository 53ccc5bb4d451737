//! A model of one filesystem volume as a flat collection of files.
//!
//! A file is keyed by an area (a directory root: the base installation,
//! one profile's workspace, the blob cache, or one runtime tree) and a
//! relative path within it.  Every file carries a node identity: two
//! files with the same node are hardlinks of one another and always hold
//! the same bytes.  All areas share one node space, as hardlinks require
//! a single volume.

use vstd::prelude::*;
use vstd::string::StringExecFns;

verus! {

/// Errors from volume operations.
#[derive(Debug, Clone, Copy, PartialEq, Eq, Structural)]
pub enum VolumeError {
    /// The link source does not exist.
    SourceMissing,
    /// The link destination already exists.
    DestinationExists,
}

/// One file: its key, its node identity, and its content.
#[derive(Debug)]
pub struct FileEntry {
    pub area: String,
    pub rel: String,
    pub node: u64,
    pub bytes: Vec<u8>,
}

impl View for FileEntry {
    type V = (Seq<char>, Seq<char>, u64, Seq<u8>);

    open spec fn view(&self) -> (Seq<char>, Seq<char>, u64, Seq<u8>) {
        (self.area@, self.rel@, self.node, self.bytes@)
    }
}

/// The view of a volume.
pub type VolV = Seq<(Seq<char>, Seq<char>, u64, Seq<u8>)>;

/// The files of one volume, with the next unused node identity.
#[derive(Debug)]
pub struct Volume {
    pub files: Vec<FileEntry>,
    pub next_node: u64,
}

impl View for Volume {
    type V = VolV;

    open spec fn view(&self) -> VolV {
        self.files@.map_values(|f: FileEntry| f@)
    }
}

/// One sequence ends with another.
pub open spec fn seq_has_suffix(s: Seq<char>, suffix: Seq<char>) -> bool {
    s.len() >= suffix.len() && s.subrange(s.len() - suffix.len(), s.len() as int) == suffix
}

/// A file with the given key exists.
pub open spec fn vol_has(v: VolV, a: Seq<char>, r: Seq<char>) -> bool {
    exists|i: int| 0 <= i < v.len() && v[i].0 == a && v[i].1 == r
}

/// The position of the file with the given key.
pub open spec fn vol_idx(v: VolV, a: Seq<char>, r: Seq<char>) -> int {
    choose|i: int| 0 <= i < v.len() && v[i].0 == a && v[i].1 == r
}

/// The node and bytes of the file with the given key, if it exists.
pub open spec fn vol_lookup(v: VolV, a: Seq<char>, r: Seq<char>) -> Option<(u64, Seq<u8>)> {
    if vol_has(v, a, r) {
        let i = vol_idx(v, a, r);
        Some((v[i].2, v[i].3))
    } else {
        None
    }
}

/// Well-formedness: keys are unique, nodes are below the allocation
/// bound, and files sharing a node hold the same bytes.
pub open spec fn vol_wf(v: VolV, next_node: int) -> bool {
    &&& forall|i: int, j: int|
        0 <= i < v.len() && 0 <= j < v.len() && i != j ==> !(v[i].0 == v[j].0 && v[i].1 == v[j].1)
    &&& forall|i: int| 0 <= i < v.len() ==> (#[trigger] v[i]).2 < next_node
    &&& forall|i: int, j: int|
        0 <= i < v.len() && 0 <= j < v.len() && v[i].2 == v[j].2 ==> v[i].3 == v[j].3
}

/// Any position holding a key is the one `vol_idx` denotes, when keys
/// are unique.
pub proof fn lemma_vol_idx_agrees(v: VolV, next_node: int, i: int)
    requires
        vol_wf(v, next_node),
        0 <= i < v.len(),
    ensures
        vol_has(v, v[i].0, v[i].1),
        vol_idx(v, v[i].0, v[i].1) == i,
        vol_lookup(v, v[i].0, v[i].1) == Some((v[i].2, v[i].3)),
{
    assert(vol_has(v, v[i].0, v[i].1));
    let j = vol_idx(v, v[i].0, v[i].1);
    if i != j {
        assert(!(v[i].0 == v[j].0 && v[i].1 == v[j].1));
    }
}

/// Removing one entry leaves every other key's lookup unchanged and
/// removes its own key, when keys are unique.
pub proof fn lemma_lookup_after_entry_remove(v: VolV, next_node: int, i: int)
    requires
        vol_wf(v, next_node),
        0 <= i < v.len(),
    ensures
        forall|a: Seq<char>, r: Seq<char>|
            !(a == v[i].0 && r == v[i].1) ==> #[trigger] vol_lookup(v.remove(i), a, r)
                == vol_lookup(v, a, r),
        vol_lookup(v.remove(i), v[i].0, v[i].1) is None,
        vol_wf(v.remove(i), next_node),
{
    let w = v.remove(i);
    assert forall|x: int| 0 <= x < w.len() implies w[x] == v[if x < i {
        x
    } else {
        x + 1
    }] by {}
    assert forall|a: Seq<char>, r: Seq<char>|
        !(a == v[i].0 && r == v[i].1) implies #[trigger] vol_lookup(w, a, r) == vol_lookup(
        v,
        a,
        r,
    ) by {
        if vol_has(v, a, r) {
            let x = vol_idx(v, a, r);
            assert(0 <= x < v.len() && v[x].0 == a && v[x].1 == r);
            assert(x != i);
            let x2 = if x < i { x } else { x - 1 };
            assert(w[x2] == v[x]);
            assert(vol_has(w, a, r));
            let y = vol_idx(w, a, r);
            let y0 = if y < i { y } else { y + 1 };
            assert(w[y] == v[y0]);
            assert(v[y0].0 == a && v[y0].1 == r);
            assert(y0 == x);
        } else {
            if vol_has(w, a, r) {
                let y = vol_idx(w, a, r);
                let y0 = if y < i { y } else { y + 1 };
                assert(w[y] == v[y0]);
                assert(vol_has(v, a, r));
            }
        }
    }
    if vol_has(w, v[i].0, v[i].1) {
        let y = vol_idx(w, v[i].0, v[i].1);
        let y0 = if y < i { y } else { y + 1 };
        assert(w[y] == v[y0]);
        assert(!(v[y0].0 == v[i].0 && v[y0].1 == v[i].1));
    }
}

/// Two files sharing a node identity hold the same bytes.
pub proof fn lemma_same_node_same_bytes(
    v: VolV,
    next_node: int,
    a1: Seq<char>,
    r1: Seq<char>,
    a2: Seq<char>,
    r2: Seq<char>,
)
    requires
        vol_wf(v, next_node),
        vol_lookup(v, a1, r1) is Some,
        vol_lookup(v, a2, r2) is Some,
        vol_lookup(v, a1, r1)->Some_0.0 == vol_lookup(v, a2, r2)->Some_0.0,
    ensures
        vol_lookup(v, a1, r1)->Some_0.1 == vol_lookup(v, a2, r2)->Some_0.1,
{
    let i = vol_idx(v, a1, r1);
    let j = vol_idx(v, a2, r2);
    assert(v[i].2 == v[j].2);
    assert(v[i].3 == v[j].3);
}

/// Copies a byte vector.
pub fn copy_bytes(src: &Vec<u8>) -> (out: Vec<u8>)
    ensures
        out@ == src@,
{
    let mut out: Vec<u8> = Vec::new();
    let mut i: usize = 0;
    while i < src.len()
        invariant
            i <= src@.len(),
            out@ == src@.subrange(0, i as int),
        decreases src.len() - i,
    {
        out.push(src[i]);
        proof {
            assert(out@ =~= src@.subrange(0, i as int + 1));
        }
        i = i + 1;
    }
    proof {
        assert(src@.subrange(0, src@.len() as int) =~= src@);
    }
    out
}

impl Volume {
    /// Well-formedness of this volume.
    pub open spec fn wf(self) -> bool {
        vol_wf(self@, self.next_node as int)
    }

    /// An empty volume.
    pub fn new() -> (r: Volume)
        ensures
            r@ == VolV::empty(),
            r.wf(),
            r.next_node == 0,
    {
        let r = Volume { files: Vec::new(), next_node: 0 };
        proof {
            assert(r@ =~= VolV::empty());
        }
        r
    }

    /// Finds the position of a key.
    fn find(&self, area: &str, rel: &str) -> (r: Option<usize>)
        ensures
            match r {
                Some(i) => i < self@.len() && self@[i as int].0 == area@ && self@[i as int].1
                    == rel@,
                None => !vol_has(self@, area@, rel@),
            },
    {
        let mut i: usize = 0;
        while i < self.files.len()
            invariant
                i <= self.files@.len(),
                self@.len() == self.files@.len(),
                forall|q: int|
                    0 <= q < i ==> !((#[trigger] self@[q]).0 == area@ && self@[q].1 == rel@),
                forall|q: int| 0 <= q < self@.len() ==> self@[q] == self.files@[q]@,
            decreases self.files.len() - i,
        {
            if crate::pathnorm::eq_str(self.files[i].area.as_str(), area)
                && crate::pathnorm::eq_str(self.files[i].rel.as_str(), rel) {
                return Some(i);
            }
            i = i + 1;
        }
        None
    }

    /// Whether a file exists at the key.
    pub fn exists_file(&self, area: &str, rel: &str) -> (r: bool)
        ensures
            r == vol_has(self@, area@, rel@),
    {
        match self.find(area, rel) {
            Some(_) => true,
            None => false,
        }
    }

    /// Reads a file's content.
    pub fn read(&self, area: &str, rel: &str) -> (r: Option<Vec<u8>>)
        requires
            self.wf(),
        ensures
            match r {
                Some(b) => vol_lookup(self@, area@, rel@) matches Some(f) && f.1 == b@,
                None => vol_lookup(self@, area@, rel@) is None,
            },
    {
        match self.find(area, rel) {
            Some(i) => {
                proof {
                    lemma_vol_idx_agrees(self@, self.next_node as int, i as int);
                }
                Some(copy_bytes(&self.files[i].bytes))
            },
            None => None,
        }
    }

    /// The node identity of a file, if it exists.
    pub fn node_of(&self, area: &str, rel: &str) -> (r: Option<u64>)
        requires
            self.wf(),
        ensures
            match r {
                Some(n) => vol_lookup(self@, area@, rel@) matches Some(f) && f.0 == n,
                None => vol_lookup(self@, area@, rel@) is None,
            },
    {
        match self.find(area, rel) {
            Some(i) => {
                proof {
                    lemma_vol_idx_agrees(self@, self.next_node as int, i as int);
                }
                Some(self.files[i].node)
            },
            None => None,
        }
    }

    /// Writes a file: fresh content under a fresh node, replacing any
    /// file previously at the key.
    pub fn write(&mut self, area: &str, rel: &str, bytes: Vec<u8>)
        requires
            old(self).wf(),
            old(self).next_node < u64::MAX,
        ensures
            final(self).wf(),
            vol_lookup(final(self)@, area@, rel@) == Some((old(self).next_node, bytes@)),
            forall|a: Seq<char>, r: Seq<char>|
                !(a == area@ && r == rel@) ==> #[trigger] vol_lookup(final(self)@, a, r)
                    == vol_lookup(old(self)@, a, r),
            final(self).next_node == old(self).next_node + 1,
    {
        let ghost v0 = self@;
        let ghost nn: int = self.next_node as int;
        match self.find(area, rel) {
            Some(i) => {
                self.files.remove(i);
                proof {
                    assert(self@ =~= v0.remove(i as int));
                    lemma_lookup_after_entry_remove(v0, nn, i as int);
                }
            },
            None => {},
        }
        let ghost v1 = self@;
        let entry = FileEntry {
            area: String::from_str(area),
            rel: String::from_str(rel),
            node: self.next_node,
            bytes,
        };
        self.files.push(entry);
        self.next_node = self.next_node + 1;
        proof {
            assert(self@ =~= v1.push((area@, rel@, nn as u64, bytes@)));
            let w = self@;
            let n = v1.len() as int;
            assert(w[n].0 == area@ && w[n].1 == rel@);
            assert(vol_has(w, area@, rel@));
            assert(!vol_has(v1, area@, rel@));
            let j = vol_idx(w, area@, rel@);
            assert(0 <= j < w.len() && w[j].0 == area@ && w[j].1 == rel@);
            assert(j == n) by {
                if j != n {
                    assert(w[j] == v1[j]);
                    assert(vol_has(v1, area@, rel@));
                }
            }
            assert(vol_lookup(w, area@, rel@) == Some((nn as u64, bytes@)));
            assert(vol_wf(w, nn + 1)) by {
                assert forall|x: int| 0 <= x < w.len() implies (#[trigger] w[x]).2 < nn + 1 by {
                    if x < n {
                        assert(w[x] == v1[x]);
                    }
                }
                assert forall|x: int, y: int|
                    0 <= x < w.len() && 0 <= y < w.len() && w[x].2 == w[y].2 implies w[x].3
                    == w[y].3 by {
                    if x < n && y < n {
                        assert(w[x] == v1[x] && w[y] == v1[y]);
                    } else if x == n && y < n {
                        assert(w[y] == v1[y]);
                        assert(v1[y].2 < nn);
                    } else if y == n && x < n {
                        assert(w[x] == v1[x]);
                        assert(v1[x].2 < nn);
                    }
                }
            }
            assert forall|a: Seq<char>, r: Seq<char>|
                !(a == area@ && r == rel@) implies #[trigger] vol_lookup(w, a, r) == vol_lookup(
                v1,
                a,
                r,
            ) by {
                if vol_has(v1, a, r) {
                    let x = vol_idx(v1, a, r);
                    assert(w[x] == v1[x]);
                    assert(vol_has(w, a, r));
                    let y = vol_idx(w, a, r);
                    assert(y != n);
                    assert(w[y] == v1[y]);
                    assert(y == x) by {
                        if y != x {
                            assert(!(v1[x].0 == v1[y].0 && v1[x].1 == v1[y].1));
                        }
                    }
                } else {
                    if vol_has(w, a, r) {
                        let y = vol_idx(w, a, r);
                        assert(y != n);
                        assert(w[y] == v1[y]);
                        assert(vol_has(v1, a, r));
                    }
                }
            }
        }
    }

    /// Creates a hardlink: the destination gains the source's node and
    /// bytes.  The source must exist and the destination must not.
    pub fn hard_link(&mut self, src_area: &str, src_rel: &str, dst_area: &str, dst_rel: &str) -> (r:
        Result<(), VolumeError>)
        requires
            old(self).wf(),
        ensures
            final(self).wf(),
            final(self).next_node == old(self).next_node,
            r is Err ==> final(self)@ == old(self)@,
            vol_lookup(old(self)@, src_area@, src_rel@) is None ==> r == Err::<(), VolumeError>(
                VolumeError::SourceMissing,
            ),
            vol_lookup(old(self)@, src_area@, src_rel@) is Some && vol_lookup(
                old(self)@,
                dst_area@,
                dst_rel@,
            ) is Some ==> r == Err::<(), VolumeError>(VolumeError::DestinationExists),
            vol_lookup(old(self)@, src_area@, src_rel@) is Some && vol_lookup(
                old(self)@,
                dst_area@,
                dst_rel@,
            ) is None ==> r == Ok::<(), VolumeError>(()),
            r is Ok ==> vol_lookup(final(self)@, dst_area@, dst_rel@) == vol_lookup(
                old(self)@,
                src_area@,
                src_rel@,
            ),
            r is Ok ==> forall|a: Seq<char>, r2: Seq<char>|
                !(a == dst_area@ && r2 == dst_rel@) ==> #[trigger] vol_lookup(final(self)@, a, r2)
                    == vol_lookup(old(self)@, a, r2),
    {
        let ghost v0 = self@;
        let ghost nn: int = self.next_node as int;
        let src_i = match self.find(src_area, src_rel) {
            Some(i) => i,
            None => { return Err(VolumeError::SourceMissing) },
        };
        proof {
            lemma_vol_idx_agrees(v0, nn, src_i as int);
        }
        if self.exists_file(dst_area, dst_rel) {
            return Err(VolumeError::DestinationExists);
        }
        let entry = FileEntry {
            area: String::from_str(dst_area),
            rel: String::from_str(dst_rel),
            node: self.files[src_i].node,
            bytes: copy_bytes(&self.files[src_i].bytes),
        };
        self.files.push(entry);
        proof {
            let w = self@;
            let n = v0.len() as int;
            assert(w =~= v0.push((dst_area@, dst_rel@, v0[src_i as int].2, v0[src_i as int].3)));
            assert(w[n].0 == dst_area@ && w[n].1 == dst_rel@);
            assert(vol_has(w, dst_area@, dst_rel@));
            let j = vol_idx(w, dst_area@, dst_rel@);
            assert(j == n) by {
                if j != n {
                    assert(w[j] == v0[j]);
                    assert(vol_has(v0, dst_area@, dst_rel@));
                }
            }
            assert(vol_wf(w, nn)) by {
                assert forall|x: int| 0 <= x < w.len() implies (#[trigger] w[x]).2 < nn by {
                    if x < n {
                        assert(w[x] == v0[x]);
                    } else {
                        assert(w[x].2 == v0[src_i as int].2);
                    }
                }
                assert forall|x: int, y: int|
                    0 <= x < w.len() && 0 <= y < w.len() && w[x].2 == w[y].2 implies w[x].3
                    == w[y].3 by {
                    let x0 = if x == n { src_i as int } else { x };
                    let y0 = if y == n { src_i as int } else { y };
                    assert(w[x].2 == v0[x0].2 && w[x].3 == v0[x0].3);
                    assert(w[y].2 == v0[y0].2 && w[y].3 == v0[y0].3);
                }
            }
            assert forall|a: Seq<char>, r2: Seq<char>|
                !(a == dst_area@ && r2 == dst_rel@) implies #[trigger] vol_lookup(w, a, r2)
                == vol_lookup(v0, a, r2) by {
                if vol_has(v0, a, r2) {
                    let x = vol_idx(v0, a, r2);
                    assert(w[x] == v0[x]);
                    assert(vol_has(w, a, r2));
                    let y = vol_idx(w, a, r2);
                    assert(y != n);
                    assert(w[y] == v0[y]);
                    assert(y == x) by {
                        if y != x {
                            assert(!(v0[x].0 == v0[y].0 && v0[x].1 == v0[y].1));
                        }
                    }
                } else {
                    if vol_has(w, a, r2) {
                        let y = vol_idx(w, a, r2);
                        assert(y != n);
                        assert(w[y] == v0[y]);
                        assert(vol_has(v0, a, r2));
                    }
                }
            }
        }
        Ok(())
    }

    /// Removes the file at a key, if present; reports whether one was
    /// removed.
    pub fn remove_file(&mut self, area: &str, rel: &str) -> (removed: bool)
        requires
            old(self).wf(),
        ensures
            final(self).wf(),
            final(self).next_node == old(self).next_node,
            removed == vol_has(old(self)@, area@, rel@),
            vol_lookup(final(self)@, area@, rel@) is None,
            forall|a: Seq<char>, r: Seq<char>|
                !(a == area@ && r == rel@) ==> #[trigger] vol_lookup(final(self)@, a, r)
                    == vol_lookup(old(self)@, a, r),
    {
        let ghost v0 = self@;
        let ghost nn: int = self.next_node as int;
        match self.find(area, rel) {
            Some(i) => {
                self.files.remove(i);
                proof {
                    assert(self@ =~= v0.remove(i as int));
                    lemma_lookup_after_entry_remove(v0, nn, i as int);
                }
                true
            },
            None => {
                false
            },
        }
    }

    /// Removes every file in an area.
    pub fn remove_area(&mut self, area: &str)
        requires
            old(self).wf(),
        ensures
            final(self).wf(),
            final(self).next_node == old(self).next_node,
            forall|r: Seq<char>| #[trigger] vol_lookup(final(self)@, area@, r) is None,
            forall|a: Seq<char>, r: Seq<char>|
                a != area@ ==> #[trigger] vol_lookup(final(self)@, a, r) == vol_lookup(
                    old(self)@,
                    a,
                    r,
                ),
    {
        let ghost nn: int = self.next_node as int;
        let mut i: usize = 0;
        while i < self.files.len()
            invariant
                i <= self.files@.len(),
                vol_wf(self@, nn),
                self.next_node as int == nn,
                forall|q: int| 0 <= q < i ==> (#[trigger] self@[q]).0 != area@,
                forall|a: Seq<char>, r: Seq<char>|
                    a != area@ ==> #[trigger] vol_lookup(self@, a, r) == vol_lookup(old(self)@, a, r),
            decreases self.files.len() - i,
        {
            proof {
                assert(self@[i as int] == self.files@[i as int]@);
            }
            if crate::pathnorm::eq_str(self.files[i].area.as_str(), area) {
                let ghost v0 = self@;
                self.files.remove(i);
                proof {
                    assert(self@ =~= v0.remove(i as int));
                    lemma_lookup_after_entry_remove(v0, nn, i as int);
                    assert forall|a: Seq<char>, r: Seq<char>| a != area@ implies #[trigger] vol_lookup(
                        self@,
                        a,
                        r,
                    ) == vol_lookup(old(self)@, a, r) by {
                        assert(!(a == v0[i as int].0 && r == v0[i as int].1));
                        assert(vol_lookup(self@, a, r) == vol_lookup(v0, a, r));
                    }
                }
            } else {
                i = i + 1;
            }
        }
        proof {
            assert forall|r: Seq<char>| #[trigger] vol_lookup(self@, area@, r) is None by {
                if vol_has(self@, area@, r) {
                    let x = vol_idx(self@, area@, r);
                    assert(self@[x].0 == area@);
                }
            }
        }
    }

    /// Removes every file whose area name ends with the given suffix.
    pub fn remove_area_suffix(&mut self, suffix: &str)
        requires
            old(self).wf(),
        ensures
            final(self).wf(),
            final(self).next_node == old(self).next_node,
            forall|a: Seq<char>, r: Seq<char>|
                seq_has_suffix(a, suffix@) ==> #[trigger] vol_lookup(final(self)@, a, r) is None,
            forall|a: Seq<char>, r: Seq<char>|
                !seq_has_suffix(a, suffix@) ==> #[trigger] vol_lookup(final(self)@, a, r)
                    == vol_lookup(old(self)@, a, r),
    {
        let ghost nn: int = self.next_node as int;
        let mut i: usize = 0;
        while i < self.files.len()
            invariant
                i <= self.files@.len(),
                vol_wf(self@, nn),
                self.next_node as int == nn,
                forall|q: int| 0 <= q < i ==> !seq_has_suffix((#[trigger] self@[q]).0, suffix@),
                forall|a: Seq<char>, r: Seq<char>|
                    !seq_has_suffix(a, suffix@) ==> #[trigger] vol_lookup(self@, a, r)
                        == vol_lookup(old(self)@, a, r),
            decreases self.files.len() - i,
        {
            proof {
                assert(self@[i as int] == self.files@[i as int]@);
            }
            if crate::pathnorm::ends_with_str(self.files[i].area.as_str(), suffix) {
                let ghost v0 = self@;
                self.files.remove(i);
                proof {
                    assert(self@ =~= v0.remove(i as int));
                    lemma_lookup_after_entry_remove(v0, nn, i as int);
                    assert forall|a: Seq<char>, r: Seq<char>|
                        !seq_has_suffix(a, suffix@) implies #[trigger] vol_lookup(self@, a, r)
                        == vol_lookup(old(self)@, a, r) by {
                        assert(seq_has_suffix(v0[i as int].0, suffix@));
                        assert(!(a == v0[i as int].0 && r == v0[i as int].1));
                        assert(vol_lookup(self@, a, r) == vol_lookup(v0, a, r));
                    }
                }
            } else {
                i = i + 1;
            }
        }
        proof {
            assert forall|a: Seq<char>, r: Seq<char>|
                seq_has_suffix(a, suffix@) implies #[trigger] vol_lookup(self@, a, r) is None by {
                if vol_has(self@, a, r) {
                    let x = vol_idx(self@, a, r);
                    assert(self@[x].0 == a);
                }
            }
        }
    }

    /// Renames an area: every file under `from` moves to `to`, which
    /// must be empty.
    pub fn rename_area(&mut self, from: &str, to: &str)
        requires
            old(self).wf(),
            from@ != to@,
            forall|r: Seq<char>| #[trigger] vol_lookup(old(self)@, to@, r) is None,
        ensures
            final(self).wf(),
            final(self).next_node == old(self).next_node,
            forall|r: Seq<char>|
                #[trigger] vol_lookup(final(self)@, to@, r) == vol_lookup(old(self)@, from@, r),
            forall|r: Seq<char>| #[trigger] vol_lookup(final(self)@, from@, r) is None,
            forall|a: Seq<char>, r: Seq<char>|
                a != from@ && a != to@ ==> #[trigger] vol_lookup(final(self)@, a, r) == vol_lookup(
                    old(self)@,
                    a,
                    r,
                ),
    {
        let ghost v0 = self@;
        let ghost nn: int = self.next_node as int;
        let mut i: usize = 0;
        while i < self.files.len()
            invariant
                i <= self.files@.len(),
                from@ != to@,
                self@.len() == v0.len(),
                self.next_node as int == nn,
                vol_wf(v0, nn),
                forall|r: Seq<char>| #[trigger] vol_lookup(v0, to@, r) is None,
                forall|q: int|
                    i <= q < v0.len() ==> (#[trigger] self@[q]) == v0[q],
                forall|q: int|
                    0 <= q < i ==> (#[trigger] self@[q]) == (if v0[q].0 == from@ {
                        (to@, v0[q].1, v0[q].2, v0[q].3)
                    } else {
                        v0[q]
                    }),
            decreases self.files.len() - i,
        {
            proof {
                assert(self@[i as int] == self.files@[i as int]@);
            }
            if crate::pathnorm::eq_str(self.files[i].area.as_str(), from) {
                let ghost vc = self@;
                let mut entry = self.files.remove(i);
                entry.area = String::from_str(to);
                self.files.insert(i, entry);
                proof {
                    assert(self@ =~= vc.update(
                        i as int,
                        (to@, v0[i as int].1, v0[i as int].2, v0[i as int].3),
                    ));
                }
            }
            i = i + 1;
        }
        proof {
            let w = self@;
            assert forall|x: int| 0 <= x < w.len() implies (#[trigger] w[x]) == (if v0[x].0
                == from@ {
                (to@, v0[x].1, v0[x].2, v0[x].3)
            } else {
                v0[x]
            }) by {}
            assert(vol_wf(w, nn)) by {
                assert forall|x: int, y: int|
                    0 <= x < w.len() && 0 <= y < w.len() && x != y implies !(w[x].0 == w[y].0
                    && w[x].1 == w[y].1) by {
                    if w[x].0 == w[y].0 && w[x].1 == w[y].1 {
                        if v0[x].0 == from@ && v0[y].0 == from@ {
                            assert(v0[x].1 == v0[y].1);
                            assert(!(v0[x].0 == v0[y].0 && v0[x].1 == v0[y].1));
                        } else if v0[x].0 == from@ {
                            assert(w[y] == v0[y]);
                            assert(v0[y].0 == to@);
                            lemma_vol_idx_agrees(v0, nn, y);
                        } else if v0[y].0 == from@ {
                            assert(w[x] == v0[x]);
                            assert(v0[x].0 == to@);
                            lemma_vol_idx_agrees(v0, nn, x);
                        } else {
                            assert(!(v0[x].0 == v0[y].0 && v0[x].1 == v0[y].1));
                        }
                    }
                }
            }
            assert forall|r: Seq<char>| #[trigger] vol_lookup(w, to@, r) == vol_lookup(
                v0,
                from@,
                r,
            ) by {
                if vol_has(v0, from@, r) {
                    let x = vol_idx(v0, from@, r);
                    assert(0 <= x < v0.len() && v0[x].0 == from@ && v0[x].1 == r);
                    assert(w[x] == (to@, v0[x].1, v0[x].2, v0[x].3));
                    assert(vol_has(w, to@, r));
                    let y = vol_idx(w, to@, r);
                    assert(0 <= y < w.len() && w[y].0 == to@ && w[y].1 == r);
                    assert(y == x) by {
                        if y != x {
                            if v0[y].0 == from@ {
                                assert(!(v0[x].0 == v0[y].0 && v0[x].1 == v0[y].1));
                            } else {
                                assert(w[y] == v0[y]);
                                assert(v0[y].0 == to@);
                                lemma_vol_idx_agrees(v0, nn, y);
                            }
                        }
                    }
                } else {
                    if vol_has(w, to@, r) {
                        let y = vol_idx(w, to@, r);
                        if v0[y].0 == from@ {
                            assert(w[y].1 == v0[y].1);
                            assert(vol_has(v0, from@, r));
                        } else {
                            assert(w[y] == v0[y]);
                            assert(v0[y].0 == to@);
                            lemma_vol_idx_agrees(v0, nn, y);
                        }
                    }
                }
            }
            assert forall|r: Seq<char>| #[trigger] vol_lookup(w, from@, r) is None by {
                if vol_has(w, from@, r) {
                    let y = vol_idx(w, from@, r);
                    if v0[y].0 == from@ {
                        assert(w[y].0 == to@);
                    } else {
                        assert(w[y] == v0[y]);
                    }
                }
            }
            assert forall|a: Seq<char>, r: Seq<char>|
                a != from@ && a != to@ implies #[trigger] vol_lookup(w, a, r) == vol_lookup(
                v0,
                a,
                r,
            ) by {
                if vol_has(v0, a, r) {
                    let x = vol_idx(v0, a, r);
                    assert(v0[x].0 != from@);
                    assert(w[x] == v0[x]);
                    assert(vol_has(w, a, r));
                    let y = vol_idx(w, a, r);
                    assert(y == x) by {
                        if y != x {
                            if v0[y].0 == from@ {
                                assert(w[y].0 == to@);
                            } else {
                                assert(w[y] == v0[y]);
                                assert(!(v0[x].0 == v0[y].0 && v0[x].1 == v0[y].1));
                            }
                        }
                    }
                } else {
                    if vol_has(w, a, r) {
                        let y = vol_idx(w, a, r);
                        if v0[y].0 == from@ {
                            assert(w[y].0 == to@);
                        } else {
                            assert(w[y] == v0[y]);
                            assert(vol_has(v0, a, r));
                        }
                    }
                }
            }
        }
    }

    /// Whether two paths name the same physical file (hardlinks of one
    /// another): both exist and share a node identity.
    pub fn same_file(&self, area1: &str, rel1: &str, area2: &str, rel2: &str) -> (r: bool)
        requires
            self.wf(),
        ensures
            r == (match (vol_lookup(self@, area1@, rel1@), vol_lookup(self@, area2@, rel2@)) {
                (Some(f1), Some(f2)) => f1.0 == f2.0,
                _ => false,
            }),
    {
        let n1 = self.node_of(area1, rel1);
        let n2 = self.node_of(area2, rel2);
        match (n1, n2) {
            (Some(a), Some(b)) => a == b,
            _ => false,
        }
    }
}

} // verus!
