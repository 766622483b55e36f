//! Storage provisioning: the fixed set of directory roles the service needs
//! on disk, and the idempotent step that brings a filesystem to hold them.
//!
//! The filesystem itself is outside this crate; `DirSet` is the model of the
//! set of directories that exist. The caller performs one real directory
//! creation per entry of the plan returned by [`provision`], in order, and
//! aborts startup naming the failing path if one creation fails.

use vstd::prelude::*;
use vstd::string::StringExecFns;

verus! {

/// The directory roles the service stores files under.
#[derive(Clone, Copy, Debug, PartialEq, Eq, Structural)]
pub enum StorageRole {
    AudioFiles,
    CoverArt,
    UserAvatars,
    PlaylistCovers,
}

/// The storage layout: every role's directory lives under one configurable
/// root directory.
pub struct StorageLayout {
    pub root: String,
}

impl StorageLayout {
    /// The layout under the configured storage root; when the environment
    /// gives none, the default root is used — the root is not a required
    /// value, so its absence is no startup error.
    pub fn from_root(root: Option<String>) -> (r: StorageLayout)
        ensures
            r.root@ == match root {
                Some(s) => s@,
                None => "storage"@,
            },
    {
        match root {
            Some(s) => StorageLayout { root: s },
            None => StorageLayout { root: String::from_str("storage") },
        }
    }

    /// The directory path of one role, as a sequence of characters.
    pub open spec fn spec_role_dir(&self, role: StorageRole) -> Seq<char> {
        match role {
            StorageRole::AudioFiles => self.root@ + "/music"@,
            StorageRole::CoverArt => self.root@ + "/cover_images"@,
            StorageRole::UserAvatars => self.root@ + "/user_profile_pictures"@,
            StorageRole::PlaylistCovers => self.root@ + "/playlist_cover_images"@,
        }
    }

    /// The set of directories the layout requires: the root and one
    /// directory per role.
    pub open spec fn spec_required(&self) -> Set<Seq<char>> {
        set![
            self.root@,
            self.spec_role_dir(StorageRole::AudioFiles),
            self.spec_role_dir(StorageRole::CoverArt),
            self.spec_role_dir(StorageRole::UserAvatars),
            self.spec_role_dir(StorageRole::PlaylistCovers),
        ]
    }

    /// Builds the directory path of one role.
    pub fn role_dir(&self, role: StorageRole) -> (r: String)
        ensures
            r@ == self.spec_role_dir(role),
    {
        match role {
            StorageRole::AudioFiles => self.root.clone().concat("/music"),
            StorageRole::CoverArt => self.root.clone().concat("/cover_images"),
            StorageRole::UserAvatars => self.root.clone().concat("/user_profile_pictures"),
            StorageRole::PlaylistCovers => self.root.clone().concat("/playlist_cover_images"),
        }
    }

    /// Lists every required directory, root first, in a fixed order.
    pub fn required_dirs(&self) -> (r: Vec<String>)
        ensures
            r@.len() == 5,
            r@[0]@ == self.root@,
            r@[1]@ == self.spec_role_dir(StorageRole::AudioFiles),
            r@[2]@ == self.spec_role_dir(StorageRole::CoverArt),
            r@[3]@ == self.spec_role_dir(StorageRole::UserAvatars),
            r@[4]@ == self.spec_role_dir(StorageRole::PlaylistCovers),
            forall|i: int| 0 <= i < 5 ==> self.spec_required().contains(#[trigger] r@[i]@),
            forall|p: Seq<char>|
                self.spec_required().contains(p) ==> exists|i: int| 0 <= i < 5 && #[trigger] r@[i]@ == p,
    {
        let mut r: Vec<String> = Vec::new();
        r.push(self.root.clone());
        r.push(self.role_dir(StorageRole::AudioFiles));
        r.push(self.role_dir(StorageRole::CoverArt));
        r.push(self.role_dir(StorageRole::UserAvatars));
        r.push(self.role_dir(StorageRole::PlaylistCovers));
        r
    }
}

/// A model of which directories exist on the filesystem.
pub struct DirSet {
    dirs: Vec<String>,
}

impl DirSet {
    /// The set of directories that exist.
    pub closed spec fn view(&self) -> Set<Seq<char>> {
        Set::new(|p: Seq<char>| exists|i: int| 0 <= i < self.dirs@.len() && #[trigger] self.dirs@[i]@ == p)
    }

    /// No directory is listed twice.
    pub closed spec fn wf(&self) -> bool {
        forall|i: int, j: int|
            0 <= i < j < self.dirs@.len() ==> #[trigger] self.dirs@[i]@ != #[trigger] self.dirs@[j]@
    }

    /// An empty filesystem model.
    pub fn new() -> (r: DirSet)
        ensures
            r@ =~= Set::<Seq<char>>::empty(),
            r.wf(),
            r.spec_count() == 0,
    {
        DirSet { dirs: Vec::new() }
    }

    /// How many directories exist.
    pub closed spec fn spec_count(&self) -> nat {
        self.dirs@.len()
    }

    /// How many directories exist.
    pub fn count(&self) -> (r: usize)
        ensures
            r == self.spec_count(),
    {
        self.dirs.len()
    }

    /// Whether directory `d` exists.
    pub fn contains_dir(&self, d: &String) -> (r: bool)
        ensures
            r == self@.contains(d@),
    {
        let mut i: usize = 0;
        while i < self.dirs.len()
            invariant
                0 <= i <= self.dirs@.len(),
                forall|j: int| 0 <= j < i ==> #[trigger] self.dirs@[j]@ != d@,
            decreases self.dirs@.len() - i,
        {
            if self.dirs[i] == *d {
                return true;
            }
            i = i + 1;
        }
        false
    }

    /// Creates directory `d` in the model; the caller mirrors this with one
    /// real directory creation.
    pub fn add_dir(&mut self, d: String)
        requires
            old(self).wf(),
            !old(self)@.contains(d@),
        ensures
            final(self).wf(),
            final(self)@ =~= old(self)@.insert(d@),
            final(self).spec_count() == old(self).spec_count() + 1,
    {
        proof {
            assert(forall|i: int|
                0 <= i < self.dirs@.len() ==> #[trigger] self.dirs@[i]@ != d@);
        }
        self.dirs.push(d);
        proof {
            let pushed = self.dirs@;
            let orig = old(self).dirs@;
            assert forall|p: Seq<char>| #[trigger] self@.contains(p) implies old(self)@.insert(
                d@,
            ).contains(p) by {
                let i = choose|i: int| 0 <= i < pushed.len() && #[trigger] pushed[i]@ == p;
                if i < orig.len() {
                    assert(orig[i]@ == p);
                    assert(old(self)@.contains(p));
                } else {
                    assert(p == d@);
                }
            }
            assert forall|p: Seq<char>| old(self)@.insert(d@).contains(p) implies #[trigger] self@.contains(
                p,
            ) by {
                if p == d@ {
                    assert(pushed[orig.len() as int]@ == p);
                } else {
                    let i = choose|i: int| 0 <= i < orig.len() && #[trigger] orig[i]@ == p;
                    assert(pushed[i]@ == p);
                }
            }
            assert(self@ =~= old(self)@.insert(d@));
        }
    }
}

/// The set of directories after provisioning a filesystem `fs` for `layout`:
/// what existed, plus every required directory.
pub open spec fn spec_provision(fs: Set<Seq<char>>, layout: StorageLayout) -> Set<Seq<char>> {
    fs.union(layout.spec_required())
}

/// Provisioning is idempotent: provisioning an already provisioned
/// filesystem leaves it unchanged.
pub proof fn lemma_provision_idempotent(fs: Set<Seq<char>>, layout: StorageLayout)
    ensures
        spec_provision(spec_provision(fs, layout), layout) == spec_provision(fs, layout),
{
    assert(spec_provision(spec_provision(fs, layout), layout) =~= spec_provision(fs, layout));
}

/// Ensures every required directory of `layout` exists in `fs`, creating the
/// missing ones; returns the directories it created, in creation order.
///
/// A run on a filesystem that already holds every required directory creates
/// nothing and leaves the model untouched.
pub fn provision(fs: &mut DirSet, layout: &StorageLayout) -> (created: Vec<String>)
    requires
        old(fs).wf(),
    ensures
        final(fs).wf(),
        final(fs)@ == spec_provision(old(fs)@, *layout),
        forall|i: int|
            0 <= i < created@.len() ==> layout.spec_required().contains(#[trigger] created@[i]@)
                && !old(fs)@.contains(created@[i]@),
        forall|p: Seq<char>|
            layout.spec_required().contains(p) && !old(fs)@.contains(p) ==> exists|i: int|
                0 <= i < created@.len() && #[trigger] created@[i]@ == p,
        layout.spec_required().subset_of(old(fs)@) ==> *final(fs) == *old(fs) && created@.len()
            == 0,
{
    let required = layout.required_dirs();
    let mut created: Vec<String> = Vec::new();
    let mut i: usize = 0;
    while i < required.len()
        invariant
            required@.len() == 5,
            forall|k: int| 0 <= k < 5 ==> layout.spec_required().contains(#[trigger] required@[k]@),
            forall|p: Seq<char>|
                layout.spec_required().contains(p) ==> exists|k: int|
                    0 <= k < 5 && #[trigger] required@[k]@ == p,
            0 <= i <= 5,
            fs.wf(),
            fs@ =~= old(fs)@.union(
                Set::new(
                    |p: Seq<char>| exists|k: int| 0 <= k < i && #[trigger] required@[k]@ == p,
                ),
            ),
            forall|j: int|
                0 <= j < created@.len() ==> layout.spec_required().contains(#[trigger] created@[j]@)
                    && !old(fs)@.contains(created@[j]@),
            forall|k: int|
                0 <= k < i && !old(fs)@.contains(#[trigger] required@[k]@) ==> exists|j: int|
                    0 <= j < created@.len() && #[trigger] created@[j]@ == required@[k]@,
            layout.spec_required().subset_of(old(fs)@) ==> *fs == *old(fs) && created@.len() == 0,
        decreases 5 - i,
    {
        let d = &required[i];
        if !fs.contains_dir(d) {
            fs.add_dir(d.clone());
            let ghost created0 = created@;
            created.push(d.clone());
            proof {
                assert forall|k: int|
                    0 <= k < i + 1 && !old(fs)@.contains(#[trigger] required@[k]@) implies exists|j: int|
                    0 <= j < created@.len() && #[trigger] created@[j]@ == required@[k]@ by {
                    if k < i {
                        let j = choose|j: int|
                            0 <= j < created0.len() && #[trigger] created0[j]@ == required@[k]@;
                        assert(created@[j]@ == required@[k]@);
                    } else {
                        assert(created@[created@.len() - 1]@ == required@[i as int]@);
                    }
                }
            }
        } else {
            proof {
                if !old(fs)@.contains(d@) {
                    let inner = Set::new(
                        |p: Seq<char>| exists|k: int| 0 <= k < i && #[trigger] required@[k]@ == p,
                    );
                    assert(inner.contains(d@));
                    let k = choose|k: int| 0 <= k < i && #[trigger] required@[k]@ == d@;
                    assert(exists|j: int|
                        0 <= j < created@.len() && #[trigger] created@[j]@ == required@[k]@);
                }
            }
        }
        i = i + 1;
    }
    proof {
        assert(fs@ =~= spec_provision(old(fs)@, *layout));
        assert(forall|p: Seq<char>|
            layout.spec_required().contains(p) && !old(fs)@.contains(p) ==> exists|j: int|
                0 <= j < created@.len() && #[trigger] created@[j]@ == p);
    }
    created
}

} // verus!
