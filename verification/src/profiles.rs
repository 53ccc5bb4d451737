//! Profiles: named modification sets, each with its own workspace and
//! saves directory, managed by a registry with unique names.
//!
//! Creating, loading and deleting the on-disk directories happens
//! outside the core; the registry here validates names, derives paths
//! and keeps the metadata.

use vstd::prelude::*;
use vstd::string::StrSliceExecFns;
use vstd::string::StringExecFns;

verus! {

/// Errors from profile management.
#[derive(Debug, Clone, Copy, PartialEq, Eq, Structural)]
pub enum ProfileError {
    /// The profile name is empty or blank.
    EmptyName,
    /// The profile name contains a forbidden character.
    InvalidName,
    /// A profile with this name already exists.
    AlreadyExists,
    /// No profile with this name exists.
    NotFound,
}

/// A character that may not appear in a profile name.
pub open spec fn is_forbidden_name_char(c: char) -> bool {
    c == '/' || c == '\\' || c == ':' || c == '*' || c == '?' || c == '"' || c == '<' || c == '>'
        || c == '|'
}

/// ASCII whitespace.
pub open spec fn is_space_char(c: char) -> bool {
    c == ' ' || c == '\t' || c == '\r' || c == '\n'
}

/// A name that is empty or all whitespace.
pub open spec fn is_blank(s: Seq<char>) -> bool {
    forall|i: int| 0 <= i < s.len() ==> is_space_char(#[trigger] s[i])
}

/// A valid profile name: not blank, and free of path and filesystem
/// metacharacters.
pub open spec fn valid_profile_name(s: Seq<char>) -> bool {
    !is_blank(s) && forall|i: int| 0 <= i < s.len() ==> !is_forbidden_name_char(#[trigger] s[i])
}

/// Checks a profile name: blank names and names containing
/// `/ \ : * ? " < > |` are rejected.
pub fn validate_profile_name(name: &str) -> (r: Result<(), ProfileError>)
    ensures
        r is Ok <==> valid_profile_name(name@),
        is_blank(name@) ==> r == Err::<(), ProfileError>(ProfileError::EmptyName),
        !is_blank(name@) && !valid_profile_name(name@) ==> r == Err::<(), ProfileError>(
            ProfileError::InvalidName,
        ),
{
    let n: usize = name.unicode_len();
    let mut blank = true;
    let mut i: usize = 0;
    while i < n
        invariant
            n == name@.len(),
            i <= n,
            blank == is_blank(name@.subrange(0, i as int)),
        decreases n - i,
    {
        let c = name.get_char(i);
        if !(c == ' ' || c == '\t' || c == '\r' || c == '\n') {
            blank = false;
        }
        proof {
            assert(name@.subrange(0, i as int + 1).drop_last() =~= name@.subrange(0, i as int));
            if blank {
                assert forall|q: int| 0 <= q < i + 1 implies is_space_char(
                    #[trigger] name@.subrange(0, i as int + 1)[q],
                ) by {
                    if q < i {
                        assert(name@.subrange(0, i as int)[q] == name@.subrange(
                            0,
                            i as int + 1,
                        )[q]);
                    }
                }
            } else {
                if is_blank(name@.subrange(0, i as int + 1)) {
                    if is_blank(name@.subrange(0, i as int)) {
                        assert(is_space_char(name@.subrange(0, i as int + 1)[i as int]));
                    } else {
                        let q = choose|q: int|
                            0 <= q < i && !is_space_char(
                                #[trigger] name@.subrange(0, i as int)[q],
                            );
                        assert(name@.subrange(0, i as int + 1)[q] == name@.subrange(
                            0,
                            i as int,
                        )[q]);
                    }
                }
            }
        }
        i = i + 1;
    }
    proof {
        assert(name@.subrange(0, n as int) =~= name@);
    }
    if blank {
        return Err(ProfileError::EmptyName);
    }
    let mut j: usize = 0;
    while j < n
        invariant
            n == name@.len(),
            j <= n,
            forall|q: int| 0 <= q < j ==> !is_forbidden_name_char(#[trigger] name@[q]),
        decreases n - j,
    {
        let c = name.get_char(j);
        if c == '/' || c == '\\' || c == ':' || c == '*' || c == '?' || c == '"' || c == '<' || c
            == '>' || c == '|' {
            return Err(ProfileError::InvalidName);
        }
        j = j + 1;
    }
    Ok(())
}

/// Metadata stored with a profile.
#[derive(Debug, Clone)]
pub struct ProfileMetadata {
    /// The profile name.
    pub name: String,
    /// Creation time, seconds since the epoch.
    pub created_at: u64,
    /// Last use, seconds since the epoch.
    pub last_used: u64,
    /// Optional description.
    pub description: Option<String>,
    /// Schema version for future migrations.
    pub schema_version: u32,
}

impl ProfileMetadata {
    /// Fresh metadata for a new profile.
    pub fn new(name: String, now: u64) -> (r: ProfileMetadata)
        ensures
            r.name@ == name@,
            r.created_at == now,
            r.last_used == now,
            r.description is None,
            r.schema_version == 1,
    {
        ProfileMetadata { name, created_at: now, last_used: now, description: None, schema_version: 1 }
    }

    /// Updates the last-used time.
    pub fn touch(&mut self, now: u64)
        ensures
            final(self).last_used == now,
            final(self).name@ == old(self).name@,
            final(self).created_at == old(self).created_at,
            final(self).description == old(self).description,
            final(self).schema_version == old(self).schema_version,
    {
        self.last_used = now;
    }
}

/// A profile: its metadata and its directories.
#[derive(Debug)]
pub struct Profile {
    /// Profile metadata.
    pub metadata: ProfileMetadata,
    /// The profile directory.
    pub profile_dir: String,
    /// The workspace overlay directory.
    pub workspace_dir: String,
    /// The saves directory.
    pub saves_dir: String,
}

/// The directories a profile derives from its root directory.
pub open spec fn profile_dirs_ok(p: Profile, profiles_root: Seq<char>) -> bool {
    &&& p.profile_dir@ == profiles_root + seq!['/'] + p.metadata.name@
    &&& p.workspace_dir@ == p.profile_dir@ + "/workspace"@
    &&& p.saves_dir@ == p.profile_dir@ + "/saves"@
}

impl Profile {
    /// Builds a profile under the given profiles root, validating the
    /// name.  The directories are derived; creating them on disk is the
    /// caller's concern.
    pub fn create(profiles_root: &str, name: String, now: u64) -> (r: Result<Profile, ProfileError>)
        ensures
            r is Ok <==> valid_profile_name(name@),
            r matches Ok(p) ==> {
                &&& p.metadata.name@ == name@
                &&& p.metadata.created_at == now
                &&& p.metadata.last_used == now
                &&& profile_dirs_ok(p, profiles_root@)
            },
            is_blank(name@) ==> r == Err::<Profile, ProfileError>(ProfileError::EmptyName),
            !is_blank(name@) && !valid_profile_name(name@) ==> r == Err::<Profile, ProfileError>(
                ProfileError::InvalidName,
            ),
    {
        match validate_profile_name(name.as_str()) {
            Ok(()) => {},
            Err(e) => { return Err(e) },
        }
        proof {
            reveal_strlit("/");
        }
        let profile_dir = String::from_str(profiles_root).concat("/").concat(name.as_str());
        let workspace_dir = profile_dir.clone().concat("/workspace");
        let saves_dir = profile_dir.clone().concat("/saves");
        let metadata = ProfileMetadata::new(name, now);
        let p = Profile { metadata, profile_dir, workspace_dir, saves_dir };
        proof {
            assert("/"@ =~= seq!['/']);
            assert(p.profile_dir@ =~= profiles_root@ + seq!['/'] + p.metadata.name@);
        }
        Ok(p)
    }

    /// A field-by-field copy.
    pub fn duplicate(&self) -> (r: Profile)
        ensures
            r.metadata.name@ == self.metadata.name@,
            r.metadata.created_at == self.metadata.created_at,
            r.metadata.last_used == self.metadata.last_used,
            r.metadata.schema_version == self.metadata.schema_version,
            r.profile_dir@ == self.profile_dir@,
            r.workspace_dir@ == self.workspace_dir@,
            r.saves_dir@ == self.saves_dir@,
    {
        Profile {
            metadata: ProfileMetadata {
                name: self.metadata.name.clone(),
                created_at: self.metadata.created_at,
                last_used: self.metadata.last_used,
                description: match &self.metadata.description {
                    Some(d) => Some(d.clone()),
                    None => None,
                },
                schema_version: self.metadata.schema_version,
            },
            profile_dir: self.profile_dir.clone(),
            workspace_dir: self.workspace_dir.clone(),
            saves_dir: self.saves_dir.clone(),
        }
    }
}

/// The profile registry: the known profiles, with unique names, rooted
/// at one profiles directory.
#[derive(Debug)]
pub struct ProfileManager {
    pub profiles_root: String,
    pub profiles: Vec<Profile>,
}

/// Names in the registry are unique.
pub open spec fn manager_wf(m: ProfileManager) -> bool {
    forall|i: int, j: int|
        0 <= i < m.profiles.len() && 0 <= j < m.profiles.len() && i != j
            ==> (#[trigger] m.profiles[i]).metadata.name@ != (#[trigger] m.profiles[j]).metadata.name@
}

/// The registry holds a profile with the given name.
pub open spec fn manager_has(m: ProfileManager, name: Seq<char>) -> bool {
    exists|i: int| 0 <= i < m.profiles.len() && (#[trigger] m.profiles[i]).metadata.name@ == name
}

impl ProfileManager {
    /// An empty registry.
    pub fn new(profiles_root: String) -> (r: ProfileManager)
        ensures
            r.profiles_root@ == profiles_root@,
            r.profiles@.len() == 0,
            manager_wf(r),
    {
        ProfileManager { profiles_root, profiles: Vec::new() }
    }

    /// Finds a profile's position by name.
    fn find(&self, name: &str) -> (r: Option<usize>)
        ensures
            match r {
                Some(i) => i < self.profiles@.len() && self.profiles@[i as int].metadata.name@
                    == name@,
                None => !manager_has(*self, name@),
            },
    {
        let mut i: usize = 0;
        while i < self.profiles.len()
            invariant
                i <= self.profiles@.len(),
                forall|q: int|
                    0 <= q < i ==> (#[trigger] self.profiles@[q]).metadata.name@ != name@,
            decreases self.profiles.len() - i,
        {
            if crate::pathnorm::eq_str(self.profiles[i].metadata.name.as_str(), name) {
                return Some(i);
            }
            i = i + 1;
        }
        None
    }

    /// Creates a profile: the name must be valid and not yet taken.
    /// The new profile is recorded and a copy of it returned.
    pub fn create_profile(&mut self, name: String, now: u64) -> (r: Result<Profile, ProfileError>)
        requires
            manager_wf(*old(self)),
        ensures
            manager_wf(*final(self)),
            final(self).profiles_root@ == old(self).profiles_root@,
            !valid_profile_name(name@) ==> final(self).profiles@ == old(self).profiles@ && r is Err && (r
                == Err::<Profile, ProfileError>(ProfileError::EmptyName) || r == Err::<
                Profile,
                ProfileError,
            >(ProfileError::InvalidName)),
            valid_profile_name(name@) && manager_has(*old(self), name@)
                ==> final(self).profiles@ == old(self).profiles@ && r == Err::<
                Profile,
                ProfileError,
            >(ProfileError::AlreadyExists),
            valid_profile_name(name@) && !manager_has(*old(self), name@) ==> {
                &&& r matches Ok(p)
                &&& p.metadata.name@ == name@
                &&& p.metadata.created_at == now
                &&& profile_dirs_ok(p, old(self).profiles_root@)
                &&& final(self).profiles@.len() == old(self).profiles@.len() + 1
                &&& manager_has(*final(self), name@)
                &&& (forall|q: int|
                    0 <= q < old(self).profiles@.len() ==> final(self).profiles@[q]
                        == old(self).profiles@[q])
            },
    {
        match self.find(name.as_str()) {
            Some(_) => {
                match validate_profile_name(name.as_str()) {
                    Ok(()) => Err(ProfileError::AlreadyExists),
                    Err(e) => Err(e),
                }
            },
            None => {
                let p = match Profile::create(self.profiles_root.as_str(), name, now) {
                    Ok(p) => p,
                    Err(e) => { return Err(e) },
                };
                let copy = p.duplicate();
                let ghost n0 = self.profiles@.len();
                self.profiles.push(p);
                proof {
                    assert(self.profiles@[n0 as int].metadata.name@ == copy.metadata.name@);
                    assert(manager_has(*self, copy.metadata.name@));
                }
                Ok(copy)
            },
        }
    }

    /// Looks up a profile by name, yielding a copy.
    pub fn get_profile(&self, name: &str) -> (r: Option<Profile>)
        ensures
            match r {
                Some(p) => manager_has(*self, name@) && p.metadata.name@ == name@,
                None => !manager_has(*self, name@),
            },
    {
        match self.find(name) {
            Some(i) => {
                proof {
                    assert(manager_has(*self, name@));
                }
                Some(self.profiles[i].duplicate())
            },
            None => None,
        }
    }

    /// Deletes a profile by name.
    pub fn delete_profile(&mut self, name: &str) -> (r: Result<(), ProfileError>)
        requires
            manager_wf(*old(self)),
        ensures
            manager_wf(*final(self)),
            final(self).profiles_root@ == old(self).profiles_root@,
            !manager_has(*old(self), name@) ==> r == Err::<(), ProfileError>(ProfileError::NotFound)
                && final(self).profiles@ == old(self).profiles@,
            manager_has(*old(self), name@) ==> r == Ok::<(), ProfileError>(()) && !manager_has(
                *final(self),
                name@,
            ) && final(self).profiles@.len() == old(self).profiles@.len() - 1,
            manager_has(*old(self), name@) ==> exists|i: int|
                0 <= i < old(self).profiles@.len() && (#[trigger] old(self).profiles@[i]).metadata.name@
                    == name@ && final(self).profiles@ == old(self).profiles@.remove(i),
    {
        let ghost v0 = self.profiles@;
        match self.find(name) {
            Some(i) => {
                proof {
                    assert(manager_has(*self, name@));
                }
                self.profiles.remove(i);
                proof {
                    assert(self.profiles@ =~= v0.remove(i as int));
                    assert forall|x: int| 0 <= x < self.profiles@.len() implies self.profiles@[x]
                        == v0[if x < i as int {
                        x
                    } else {
                        x + 1
                    }] by {}
                    if manager_has(*self, name@) {
                        let x = choose|x: int|
                            0 <= x < self.profiles@.len()
                                && (#[trigger] self.profiles@[x]).metadata.name@ == name@;
                        let x0 = if x < i as int { x } else { x + 1 };
                        assert(v0[x0].metadata.name@ == name@);
                        assert(v0[i as int].metadata.name@ == name@);
                        assert(x0 != i as int);
                    }
                }
                Ok(())
            },
            None => Err(ProfileError::NotFound),
        }
    }

    /// Renames a profile: the new name must be valid and free.
    pub fn rename_profile(&mut self, old_name: &str, new_name: String, now: u64) -> (r: Result<
        Profile,
        ProfileError,
    >)
        requires
            manager_wf(*old(self)),
        ensures
            manager_wf(*final(self)),
            final(self).profiles_root@ == old(self).profiles_root@,
            !manager_has(*old(self), old_name@) ==> r == Err::<Profile, ProfileError>(
                ProfileError::NotFound,
            ) && final(self).profiles@ == old(self).profiles@,
            manager_has(*old(self), old_name@) && !valid_profile_name(new_name@) ==> r is Err
                && final(self).profiles@ == old(self).profiles@,
            manager_has(*old(self), old_name@) && valid_profile_name(new_name@) && manager_has(
                *old(self),
                new_name@,
            ) && new_name@ != old_name@ ==> r == Err::<Profile, ProfileError>(
                ProfileError::AlreadyExists,
            ) && final(self).profiles@ == old(self).profiles@,
            manager_has(*old(self), old_name@) && valid_profile_name(new_name@) && (new_name@
                == old_name@ || !manager_has(*old(self), new_name@)) ==> r is Ok,
            r matches Ok(p) ==> p.metadata.name@ == new_name@ && manager_has(
                *final(self),
                new_name@,
            ) && profile_dirs_ok(p, old(self).profiles_root@) && final(self).profiles@.len()
                == old(self).profiles@.len(),
            r is Ok ==> forall|nm: Seq<char>|
                nm != old_name@ && nm != new_name@ ==> #[trigger] manager_has(*final(self), nm)
                    == manager_has(*old(self), nm),
    {
        let i = match self.find(old_name) {
            Some(i) => i,
            None => { return Err(ProfileError::NotFound) },
        };
        proof {
            assert(manager_has(*self, old_name@));
        }
        match validate_profile_name(new_name.as_str()) {
            Ok(()) => {},
            Err(e) => { return Err(e) },
        }
        if !crate::pathnorm::eq_str(new_name.as_str(), old_name) {
            match self.find(new_name.as_str()) {
                Some(_) => { return Err(ProfileError::AlreadyExists) },
                None => {},
            }
        } else {
            proof {
                assert(new_name@ == old_name@);
            }
        }
        let ghost v0 = self.profiles@;
        let old_profile = self.profiles.remove(i);
        proof {
            lemma_names_after_remove(v0, i as int);
            if manager_has_seq(self.profiles@, new_name@) {
                let x = choose|x: int|
                    0 <= x < self.profiles@.len()
                        && (#[trigger] self.profiles@[x]).metadata.name@ == new_name@;
                let x0 = if x < i as int { x } else { x + 1 };
                assert(v0[x0].metadata.name@ == new_name@);
                if new_name@ == old_name@ {
                    assert(v0[i as int].metadata.name@ == old_name@);
                    assert(x0 != i as int);
                } else {
                    assert(manager_has(*old(self), new_name@));
                }
            }
        }
        proof {
            reveal_strlit("/");
        }
        let profile_dir = String::from_str(self.profiles_root.as_str()).concat("/").concat(
            new_name.as_str(),
        );
        let workspace_dir = profile_dir.clone().concat("/workspace");
        let saves_dir = profile_dir.clone().concat("/saves");
        let mut metadata = old_profile.metadata;
        metadata.name = new_name;
        metadata.touch(now);
        let p = Profile { metadata, profile_dir, workspace_dir, saves_dir };
        proof {
            assert("/"@ =~= seq!['/']);
            assert(p.profile_dir@ =~= self.profiles_root@ + seq!['/'] + p.metadata.name@);
        }
        let copy = p.duplicate();
        let ghost n1 = self.profiles@.len();
        self.profiles.push(p);
        proof {
            assert(self.profiles@[n1 as int].metadata.name@ == copy.metadata.name@);
            assert(manager_has(*self, copy.metadata.name@));
            assert forall|x: int, y: int|
                0 <= x < self.profiles@.len() && 0 <= y < self.profiles@.len() && x
                    != y implies (#[trigger] self.profiles@[x]).metadata.name@
                != (#[trigger] self.profiles@[y]).metadata.name@ by {
                if x < n1 && y < n1 {
                } else if x == n1 {
                    assert(!manager_has_seq(self.profiles@.subrange(0, n1 as int), copy.metadata.name@));
                    assert(self.profiles@.subrange(0, n1 as int)[y] == self.profiles@[y]);
                } else if y == n1 {
                    assert(!manager_has_seq(self.profiles@.subrange(0, n1 as int), copy.metadata.name@));
                    assert(self.profiles@.subrange(0, n1 as int)[x] == self.profiles@[x]);
                }
            }
            // Names other than the two involved are untouched.
            assert forall|nm: Seq<char>|
                nm != old_name@ && nm != new_name@ implies #[trigger] manager_has(*self, nm)
                == manager_has(*old(self), nm) by {
                if manager_has(*old(self), nm) {
                    let x0 = choose|x0: int|
                        0 <= x0 < v0.len() && (#[trigger] v0[x0]).metadata.name@ == nm;
                    assert(v0[i as int].metadata.name@ == old_name@);
                    assert(x0 != i as int);
                    let x = if x0 < i as int { x0 } else { x0 - 1 };
                    assert(self.profiles@[x] == v0[x0]);
                    assert(manager_has(*self, nm));
                }
                if manager_has(*self, nm) {
                    let x = choose|x: int|
                        0 <= x < self.profiles@.len()
                            && (#[trigger] self.profiles@[x]).metadata.name@ == nm;
                    assert(x != n1);
                    let x0 = if x < i as int { x } else { x + 1 };
                    assert(self.profiles@[x] == v0[x0]);
                    assert(manager_has(*old(self), nm));
                }
            }
        }
        Ok(copy)
    }

    /// The profiles, most recently used first.
    pub fn list_profiles(&self) -> (out: Vec<Profile>)
        ensures
            out@.len() == self.profiles@.len(),
            forall|x: int, y: int|
                0 <= x < y < out@.len() ==> (#[trigger] out@[x]).metadata.last_used
                    >= (#[trigger] out@[y]).metadata.last_used,
            forall|name: Seq<char>|
                #[trigger] manager_has(*self, name) ==> exists|k: int|
                    0 <= k < out@.len() && (#[trigger] out@[k]).metadata.name@ == name,
    {
        let mut out: Vec<Profile> = Vec::new();
        let mut i: usize = 0;
        while i < self.profiles.len()
            invariant
                i <= self.profiles@.len(),
                out@.len() == i,
                forall|x: int, y: int|
                    0 <= x < y < out@.len() ==> (#[trigger] out@[x]).metadata.last_used
                        >= (#[trigger] out@[y]).metadata.last_used,
                forall|q: int|
                    0 <= q < i ==> exists|k: int|
                        0 <= k < out@.len() && (#[trigger] out@[k]).metadata.name@
                            == (#[trigger] self.profiles@[q]).metadata.name@,
            decreases self.profiles.len() - i,
        {
            let ghost out0 = out@;
            let item = self.profiles[i].duplicate();
            let mut pos: usize = 0;
            while pos < out.len() && out[pos].metadata.last_used >= item.metadata.last_used
                invariant
                    pos <= out@.len(),
                    out@ == out0,
                    item.metadata.name@ == self.profiles@[i as int].metadata.name@,
                    item.metadata.last_used == self.profiles@[i as int].metadata.last_used,
                    forall|q: int|
                        0 <= q < pos ==> (#[trigger] out@[q]).metadata.last_used
                            >= item.metadata.last_used,
                decreases out@.len() - pos,
            {
                pos = pos + 1;
            }
            out.insert(pos, item);
            proof {
                assert forall|x: int, y: int|
                    0 <= x < y < out@.len() implies (#[trigger] out@[x]).metadata.last_used
                    >= (#[trigger] out@[y]).metadata.last_used by {
                    let x0 = if x < pos as int {
                        x
                    } else {
                        x - 1
                    };
                    let y0 = if y < pos as int {
                        y
                    } else {
                        y - 1
                    };
                    if x == pos as int {
                        assert(out@[y] == out0[y0]);
                        if y0 >= pos as int {
                            assert(!(out0[pos as int].metadata.last_used
                                >= out@[x].metadata.last_used) || pos as int >= out0.len());
                        }
                    } else if y == pos as int {
                        assert(out@[x] == out0[x0]);
                    } else {
                        assert(out@[x] == out0[x0] && out@[y] == out0[y0]);
                    }
                }
                assert forall|q: int| 0 <= q < i + 1 implies exists|k: int|
                    0 <= k < out@.len() && (#[trigger] out@[k]).metadata.name@
                        == (#[trigger] self.profiles@[q]).metadata.name@ by {
                    if q == i as int {
                        assert(out@[pos as int].metadata.name@
                            == self.profiles@[q].metadata.name@);
                    } else {
                        let k = choose|k: int|
                            0 <= k < out0.len() && (#[trigger] out0[k]).metadata.name@
                                == self.profiles@[q].metadata.name@;
                        let k2 = if k < pos as int {
                            k
                        } else {
                            k + 1
                        };
                        assert(out@[k2] == out0[k]);
                    }
                }
            }
            i = i + 1;
        }
        proof {
            assert forall|name: Seq<char>| #[trigger] manager_has(*self, name) implies exists|
                k: int,
            | 0 <= k < out@.len() && (#[trigger] out@[k]).metadata.name@ == name by {
                let q = choose|q: int|
                    0 <= q < self.profiles@.len() && (#[trigger] self.profiles@[q]).metadata.name@
                        == name;
            }
        }
        out
    }
}

/// The names of a sequence of profiles.
pub open spec fn manager_has_seq(s: Seq<Profile>, name: Seq<char>) -> bool {
    exists|i: int| 0 <= i < s.len() && (#[trigger] s[i]).metadata.name@ == name
}

/// After removing one profile, every other position keeps its profile.
pub proof fn lemma_names_after_remove(v: Seq<Profile>, i: int)
    requires
        0 <= i < v.len(),
    ensures
        forall|x: int| 0 <= x < v.remove(i).len() ==> v.remove(i)[x] == v[if x < i {
            x
        } else {
            x + 1
        }],
{
    assert forall|x: int| 0 <= x < v.remove(i).len() implies v.remove(i)[x] == v[if x < i {
        x
    } else {
        x + 1
    }] by {}
}

} // verus!
