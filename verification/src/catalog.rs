//! The catalog: one entry per known audio file, keyed by canonical
//! filesystem path. The canonical path is unique across the catalog;
//! re-ingesting a path updates the existing entry in place and never creates
//! a second row.

use vstd::prelude::*;

verus! {

/// Best-effort track metadata; absent values stay absent rather than failing
/// the file.
pub struct TrackMeta {
    pub title: Option<String>,
    pub artist: Option<String>,
    pub album: Option<String>,
    pub duration_secs: u64,
}

/// The mathematical model of [`TrackMeta`]: each text field as a character
/// sequence.
pub struct TrackMetaModel {
    pub title: Option<Seq<char>>,
    pub artist: Option<Seq<char>>,
    pub album: Option<Seq<char>>,
    pub duration_secs: u64,
}

impl View for TrackMeta {
    type V = TrackMetaModel;

    open spec fn view(&self) -> TrackMetaModel {
        TrackMetaModel {
            title: self.title.deep_view(),
            artist: self.artist.deep_view(),
            album: self.album.deep_view(),
            duration_secs: self.duration_secs,
        }
    }
}

/// Copies track metadata; the copy models identically.
pub fn clone_meta(m: &TrackMeta) -> (r: TrackMeta)
    ensures
        r@ == m@,
{
    TrackMeta {
        title: clone_opt_string(&m.title),
        artist: clone_opt_string(&m.artist),
        album: clone_opt_string(&m.album),
        duration_secs: m.duration_secs,
    }
}

/// Copies an optional string; the copy models identically.
pub fn clone_opt_string(s: &Option<String>) -> (r: Option<String>)
    ensures
        r.deep_view() == s.deep_view(),
{
    match s {
        Some(v) => Some(v.clone()),
        None => None,
    }
}

/// One catalog row: canonical path (the unique key), metadata, and a content
/// fingerprint for deduplication robustness against renames.
pub struct CatalogEntry {
    pub path: String,
    pub meta: TrackMeta,
    pub fingerprint: u64,
}

/// The mathematical model of a catalog row.
pub struct EntryModel {
    pub path: Seq<char>,
    pub meta: TrackMetaModel,
    pub fingerprint: u64,
}

impl View for CatalogEntry {
    type V = EntryModel;

    open spec fn view(&self) -> EntryModel {
        EntryModel { path: self.path@, meta: self.meta@, fingerprint: self.fingerprint }
    }
}

/// Copies a catalog row; the copy models identically.
pub fn clone_entry(e: &CatalogEntry) -> (r: CatalogEntry)
    ensures
        r@ == e@,
{
    CatalogEntry { path: e.path.clone(), meta: clone_meta(&e.meta), fingerprint: e.fingerprint }
}

/// Some entry of `cat` has canonical path `path`.
pub open spec fn spec_contains_path(cat: Seq<EntryModel>, path: Seq<char>) -> bool {
    exists|i: int| 0 <= i < cat.len() && #[trigger] cat[i].path == path
}

/// The index of the entry with canonical path `path`; meaningful only when
/// the catalog contains the path and paths are unique.
pub open spec fn index_of_path(cat: Seq<EntryModel>, path: Seq<char>) -> int {
    choose|i: int| 0 <= i < cat.len() && #[trigger] cat[i].path == path
}

/// Canonical paths are unique across the catalog.
pub open spec fn paths_unique(cat: Seq<EntryModel>) -> bool {
    forall|i: int, j: int|
        0 <= i < j < cat.len() ==> #[trigger] cat[i].path != #[trigger] cat[j].path
}

/// The catalog after an upsert of `e`: the entry with the same canonical
/// path updated in place when one exists, `e` appended otherwise.
pub open spec fn spec_upsert(cat: Seq<EntryModel>, e: EntryModel) -> Seq<EntryModel> {
    if spec_contains_path(cat, e.path) {
        cat.update(index_of_path(cat, e.path), e)
    } else {
        cat.push(e)
    }
}

/// An upsert never removes a path and adds exactly the upserted one; it
/// grows the catalog only when the path was absent, and it keeps paths
/// unique. Re-ingesting an existing canonical path never creates a second
/// row.
pub proof fn lemma_spec_upsert(cat: Seq<EntryModel>, e: EntryModel)
    requires
        paths_unique(cat),
    ensures
        paths_unique(spec_upsert(cat, e)),
        spec_contains_path(spec_upsert(cat, e), e.path),
        forall|p: Seq<char>|
            #[trigger] spec_contains_path(spec_upsert(cat, e), p) <==> (spec_contains_path(cat, p)
                || p == e.path),
        spec_upsert(cat, e).len() == if spec_contains_path(cat, e.path) {
            cat.len()
        } else {
            cat.len() + 1
        },
{
    let out = spec_upsert(cat, e);
    if spec_contains_path(cat, e.path) {
        let i = index_of_path(cat, e.path);
        assert(0 <= i < cat.len() && cat[i].path == e.path);
        assert(out[i].path == e.path);
        assert forall|p: Seq<char>| #[trigger] spec_contains_path(out, p) implies (
        spec_contains_path(cat, p) || p == e.path) by {
            let j = choose|j: int| 0 <= j < out.len() && #[trigger] out[j].path == p;
            if j != i {
                assert(cat[j].path == p);
            }
        }
        assert forall|p: Seq<char>| spec_contains_path(cat, p) implies #[trigger] spec_contains_path(
            out,
            p,
        ) by {
            let j = choose|j: int| 0 <= j < cat.len() && #[trigger] cat[j].path == p;
            if j == i {
                assert(out[i].path == e.path);
                assert(cat[i].path == e.path);
            } else {
                assert(out[j].path == p);
            }
        }
    } else {
        assert(out[cat.len() as int].path == e.path);
        assert forall|p: Seq<char>| #[trigger] spec_contains_path(out, p) implies (
        spec_contains_path(cat, p) || p == e.path) by {
            let j = choose|j: int| 0 <= j < out.len() && #[trigger] out[j].path == p;
            if j < cat.len() {
                assert(cat[j].path == p);
            }
        }
        assert forall|p: Seq<char>| spec_contains_path(cat, p) implies #[trigger] spec_contains_path(
            out,
            p,
        ) by {
            let j = choose|j: int| 0 <= j < cat.len() && #[trigger] cat[j].path == p;
            assert(out[j].path == p);
        }
        assert forall|i: int, j: int| 0 <= i < j < out.len() implies #[trigger] out[i].path
            != #[trigger] out[j].path by {
            if j == cat.len() as int {
                assert(!spec_contains_path(cat, e.path));
                assert(cat[i].path != e.path);
            }
        }
    }
}

/// The result of one catalog upsert.
#[derive(Clone, Copy, Debug, PartialEq, Eq, Structural)]
pub enum UpsertOutcome {
    Inserted,
    Updated,
}

/// The persistent collection of catalog rows.
pub struct Catalog {
    entries: Vec<CatalogEntry>,
}

impl Catalog {
    /// The rows, in insertion order.
    pub closed spec fn view(&self) -> Seq<EntryModel> {
        self.entries@.map_values(|e: CatalogEntry| e@)
    }

    /// Canonical paths are unique.
    pub open spec fn wf(&self) -> bool {
        paths_unique(self@)
    }

    /// An empty catalog.
    pub fn new() -> (r: Catalog)
        ensures
            r@ =~= Seq::<EntryModel>::empty(),
            r.wf(),
    {
        let c = Catalog { entries: Vec::new() };
        proof {
            assert(c@ =~= Seq::<EntryModel>::empty());
        }
        c
    }

    /// How many rows the catalog holds.
    pub fn len(&self) -> (r: usize)
        ensures
            r == self@.len(),
    {
        self.entries.len()
    }

    /// The row at position `i`.
    pub fn get(&self, i: usize) -> (r: &CatalogEntry)
        requires
            i < self@.len(),
        ensures
            r@ == self@[i as int],
    {
        &self.entries[i]
    }

    /// The position of the row with canonical path `path`, if one exists.
    pub fn find_path(&self, path: &String) -> (r: Option<usize>)
        requires
            self.wf(),
        ensures
            match r {
                Some(i) => i < self@.len() && self@[i as int].path == path@,
                None => !spec_contains_path(self@, path@),
            },
    {
        let mut i: usize = 0;
        while i < self.entries.len()
            invariant
                0 <= i <= self@.len(),
                self@.len() == self.entries@.len(),
                forall|j: int| 0 <= j < i ==> #[trigger] self@[j].path != path@,
            decreases self@.len() - i,
        {
            if self.entries[i].path == *path {
                return Some(i);
            }
            i = i + 1;
        }
        None
    }

    /// Whether a row with canonical path `path` exists.
    pub fn contains_path(&self, path: &String) -> (r: bool)
        requires
            self.wf(),
        ensures
            r == spec_contains_path(self@, path@),
    {
        match self.find_path(path) {
            Some(_) => true,
            None => false,
        }
    }

    /// Inserts `e` when its canonical path is new; updates the existing row
    /// in place otherwise. The catalog never gains a second row for a path.
    pub fn upsert(&mut self, e: CatalogEntry) -> (r: UpsertOutcome)
        requires
            old(self).wf(),
        ensures
            final(self).wf(),
            final(self)@ == spec_upsert(old(self)@, e@),
            r == UpsertOutcome::Updated <==> spec_contains_path(old(self)@, e@.path),
            r == UpsertOutcome::Inserted <==> !spec_contains_path(old(self)@, e@.path),
            final(self)@.len() == old(self)@.len() + (if spec_contains_path(old(self)@, e@.path) {
                0int
            } else {
                1int
            }),
    {
        proof {
            lemma_spec_upsert(old(self)@, e@);
        }
        match self.find_path(&e.path) {
            Some(i) => {
                proof {
                    let k = index_of_path(self@, e@.path);
                    assert(0 <= k < self@.len() && self@[k].path == e@.path);
                    assert(k == i as int);
                }
                self.entries[i] = e;
                proof {
                    assert(self@ =~= spec_upsert(old(self)@, e@));
                }
                UpsertOutcome::Updated
            },
            None => {
                self.entries.push(e);
                proof {
                    assert(self@ =~= spec_upsert(old(self)@, e@));
                }
                UpsertOutcome::Inserted
            },
        }
    }
}

} // verus!
