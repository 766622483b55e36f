//! The library ingestion pipeline: candidate selection over walked paths,
//! filename-derived titles, content fingerprints, and the run that upserts
//! one catalog row per readable candidate while counting, never aborting on
//! a single bad file.
//!
//! The directory walk and per-file reads happen outside this crate; they
//! hand the pipeline canonical paths and, per candidate, either the file's
//! tags and fingerprint material or the fact that it was unreadable.

use vstd::prelude::*;
use vstd::string::StrSliceExecFns;
use vstd::string::StringExecFns;
use crate::app_state::AppState;
use crate::catalog::CatalogEntry;
use crate::catalog::EntryModel;
use crate::catalog::TrackMeta;
use crate::catalog::TrackMetaModel;
use crate::catalog::UpsertOutcome;
use crate::catalog::clone_meta;
use crate::catalog::lemma_spec_upsert;
use crate::catalog::paths_unique;
use crate::catalog::spec_contains_path;
use crate::catalog::spec_upsert;

verus! {

/// ASCII-lowercases one character; characters outside `A`..`Z` are kept.
pub open spec fn spec_lower_char(c: char) -> char {
    if 'A' <= c && c <= 'Z' {
        (((c as u32) + 32) as u8) as char
    } else {
        c
    }
}

/// ASCII-lowercases a character sequence.
pub open spec fn spec_lower(s: Seq<char>) -> Seq<char> {
    s.map_values(|c: char| spec_lower_char(c))
}

/// The recognized audio file extensions, compared case-insensitively.
pub open spec fn spec_is_audio_ext(ext: Seq<char>) -> bool {
    ||| spec_lower(ext) == "mp3"@
    ||| spec_lower(ext) == "flac"@
    ||| spec_lower(ext) == "wav"@
    ||| spec_lower(ext) == "ogg"@
    ||| spec_lower(ext) == "m4a"@
    ||| spec_lower(ext) == "aac"@
    ||| spec_lower(ext) == "opus"@
}

/// Index of the last occurrence of `c` in `s`, or `-1`.
pub open spec fn spec_last_index(s: Seq<char>, c: char) -> int
    decreases s.len(),
{
    if s.len() == 0 {
        -1
    } else if s.last() == c {
        s.len() - 1
    } else {
        spec_last_index(s.drop_last(), c)
    }
}

/// The extension of a path: what follows the final dot, provided the dot
/// lies after the last path separator, is not the leading character of the
/// final component, and is not the last character.
pub open spec fn spec_extension(s: Seq<char>) -> Option<Seq<char>> {
    let dot = spec_last_index(s, '.');
    let slash = spec_last_index(s, '/');
    if dot > slash + 1 && dot < s.len() - 1 {
        Some(s.subrange(dot + 1, s.len() as int))
    } else {
        None
    }
}

/// Some path component begins with a dot: a hidden or system path.
pub open spec fn spec_is_hidden(s: Seq<char>) -> bool {
    exists|i: int| 0 <= i < s.len() && #[trigger] s[i] == '.' && (i == 0 || s[i - 1] == '/')
}

/// A path the walk hands on to metadata extraction: not hidden, and bearing
/// a recognized audio extension.
pub open spec fn spec_is_audio_candidate(s: Seq<char>) -> bool {
    &&& !spec_is_hidden(s)
    &&& spec_extension(s) is Some
    &&& spec_is_audio_ext(spec_extension(s)->0)
}

/// The title a file falls back to when its tags give none: the final path
/// component, without the extension.
pub open spec fn spec_title_from_path(s: Seq<char>) -> Seq<char> {
    let slash = spec_last_index(s, '/');
    if spec_extension(s) is Some {
        s.subrange(slash + 1, spec_last_index(s, '.'))
    } else {
        s.subrange(slash + 1, s.len() as int)
    }
}

/// `spec_last_index` is an index into `s` when it is not `-1`, and the
/// character there is `c`; no later character is `c`.
pub proof fn lemma_spec_last_index(s: Seq<char>, c: char)
    ensures
        -1 <= spec_last_index(s, c) < s.len(),
        spec_last_index(s, c) >= 0 ==> s[spec_last_index(s, c)] == c,
        forall|j: int| spec_last_index(s, c) < j < s.len() ==> s[j] != c,
    decreases s.len(),
{
    if s.len() > 0 && s.last() != c {
        lemma_spec_last_index(s.drop_last(), c);
        assert(forall|j: int| 0 <= j < s.len() - 1 ==> s[j] == s.drop_last()[j]);
    }
}

/// ASCII-lowercases one character.
pub fn lower_char(c: char) -> (r: char)
    ensures
        r == spec_lower_char(c),
{
    if 'A' <= c && c <= 'Z' {
        (((c as u32) + 32) as u8) as char
    } else {
        c
    }
}

/// ASCII-lowercases a string into its characters.
fn lower_chars(s: &str) -> (r: Vec<char>)
    ensures
        r@ == spec_lower(s@),
{
    let n = s.unicode_len();
    let mut r: Vec<char> = Vec::new();
    let mut i: usize = 0;
    while i < n
        invariant
            n == s@.len(),
            0 <= i <= n,
            r@ =~= spec_lower(s@.subrange(0, i as int)),
        decreases n - i,
    {
        r.push(lower_char(s.get_char(i)));
        proof {
            assert(spec_lower(s@.subrange(0, i + 1)) =~= spec_lower(s@.subrange(0, i as int)).push(
                spec_lower_char(s@[i as int]),
            ));
        }
        i = i + 1;
    }
    proof {
        assert(s@.subrange(0, n as int) =~= s@);
    }
    r
}

/// Whether the characters of `v` are exactly those of `s`.
fn chars_eq_str(v: &Vec<char>, s: &str) -> (r: bool)
    ensures
        r == (v@ == s@),
{
    let n = s.unicode_len();
    if v.len() != n {
        return false;
    }
    let mut i: usize = 0;
    while i < n
        invariant
            n == s@.len(),
            n == v@.len(),
            0 <= i <= n,
            forall|j: int| 0 <= j < i ==> v@[j] == s@[j],
        decreases n - i,
    {
        if v[i] != s.get_char(i) {
            return false;
        }
        i = i + 1;
    }
    proof {
        assert(v@ =~= s@);
    }
    true
}

/// Whether `ext` is a recognized audio extension, case-insensitively.
pub fn is_audio_extension(ext: &str) -> (r: bool)
    ensures
        r == spec_is_audio_ext(ext@),
{
    let lowered = lower_chars(ext);
    chars_eq_str(&lowered, "mp3") || chars_eq_str(&lowered, "flac") || chars_eq_str(
        &lowered,
        "wav",
    ) || chars_eq_str(&lowered, "ogg") || chars_eq_str(&lowered, "m4a") || chars_eq_str(
        &lowered,
        "aac",
    ) || chars_eq_str(&lowered, "opus")
}

/// Index of the last occurrence of `c` in `s`, if any.
fn last_index_of(s: &str, c: char) -> (r: Option<usize>)
    ensures
        match r {
            Some(i) => i < s@.len() && spec_last_index(s@, c) == i as int,
            None => spec_last_index(s@, c) == -1,
        },
{
    let n = s.unicode_len();
    let mut last: Option<usize> = None;
    let mut i: usize = 0;
    while i < n
        invariant
            n == s@.len(),
            0 <= i <= n,
            match last {
                Some(l) => l < i && spec_last_index(s@.subrange(0, i as int), c) == l as int,
                None => spec_last_index(s@.subrange(0, i as int), c) == -1,
            },
        decreases n - i,
    {
        proof {
            assert(s@.subrange(0, i + 1).drop_last() =~= s@.subrange(0, i as int));
            assert(s@.subrange(0, i + 1).last() == s@[i as int]);
        }
        if s.get_char(i) == c {
            last = Some(i);
        }
        i = i + 1;
    }
    proof {
        assert(s@.subrange(0, n as int) =~= s@);
    }
    last
}

/// Whether some component of `path` begins with a dot.
pub fn is_hidden_path(path: &str) -> (r: bool)
    ensures
        r == spec_is_hidden(path@),
{
    let n = path.unicode_len();
    let mut i: usize = 0;
    while i < n
        invariant
            n == path@.len(),
            0 <= i <= n,
            forall|j: int| 0 <= j < i ==> !(#[trigger] path@[j] == '.' && (j == 0 || path@[j - 1] == '/')),
        decreases n - i,
    {
        if path.get_char(i) == '.' {
            if i == 0 || path.get_char(i - 1) == '/' {
                return true;
            }
        }
        i = i + 1;
    }
    false
}

/// The extension of `path`, when it has one.
pub fn extension_of(path: &str) -> (r: Option<&str>)
    ensures
        match r {
            Some(e) => spec_extension(path@) == Some(e@),
            None => spec_extension(path@) is None,
        },
{
    proof {
        lemma_spec_last_index(path@, '.');
        lemma_spec_last_index(path@, '/');
    }
    let n = path.unicode_len();
    let dot = match last_index_of(path, '.') {
        Some(d) => d,
        None => {
            return None;
        },
    };
    let slash_plus_one: usize = match last_index_of(path, '/') {
        Some(sl) => sl + 1,
        None => 0,
    };
    if dot > slash_plus_one && dot + 1 < n {
        Some(path.substring_char(dot + 1, n))
    } else {
        None
    }
}

/// Whether `path` is a candidate for ingestion: not hidden, with a
/// recognized audio extension.
pub fn is_audio_candidate(path: &str) -> (r: bool)
    ensures
        r == spec_is_audio_candidate(path@),
{
    if is_hidden_path(path) {
        return false;
    }
    match extension_of(path) {
        Some(e) => is_audio_extension(e),
        None => false,
    }
}

/// The filename-derived fallback title of `path`: its final component
/// without the extension.
pub fn title_from_path(path: &str) -> (r: String)
    ensures
        r@ == spec_title_from_path(path@),
{
    proof {
        lemma_spec_last_index(path@, '.');
        lemma_spec_last_index(path@, '/');
    }
    let n = path.unicode_len();
    let start: usize = match last_index_of(path, '/') {
        Some(sl) => sl + 1,
        None => 0,
    };
    let end: usize = match extension_of(path) {
        Some(_) => {
            match last_index_of(path, '.') {
                Some(d) => d,
                None => n,  // unreachable: an extension implies a dot
            }
        },
        None => n,
    };
    path.substring_char(start, end).to_owned()
}

/// Offset basis of the 64-bit FNV-1a hash.
pub const FNV_OFFSET: u64 = 0xcbf29ce484222325;

/// Prime of the 64-bit FNV-1a hash.
pub const FNV_PRIME: u64 = 0x100000001b3;

/// One FNV-1a step: fold one byte into the accumulator.
pub open spec fn spec_fingerprint_step(acc: u64, b: u8) -> u64 {
    vstd::wrapping::u64_specs::wrapping_mul(acc ^ (b as u64), FNV_PRIME)
}

/// FNV-1a over `bytes`, starting from `acc`.
pub open spec fn spec_fingerprint_from(acc: u64, bytes: Seq<u8>) -> u64
    decreases bytes.len(),
{
    if bytes.len() == 0 {
        acc
    } else {
        spec_fingerprint_from(spec_fingerprint_step(acc, bytes[0]), bytes.drop_first())
    }
}

/// The content fingerprint: 64-bit FNV-1a over the file's bytes. A fast
/// checksum for deduplication robustness, not a cryptographic digest.
pub open spec fn spec_fingerprint(bytes: Seq<u8>) -> u64 {
    spec_fingerprint_from(FNV_OFFSET, bytes)
}

/// Computes the content fingerprint of a file's bytes.
pub fn fingerprint(bytes: &Vec<u8>) -> (r: u64)
    ensures
        r == spec_fingerprint(bytes@),
{
    let mut acc: u64 = FNV_OFFSET;
    let mut i: usize = 0;
    let n = bytes.len();
    proof {
        assert(bytes@.subrange(0, n as int) =~= bytes@);
    }
    while i < n
        invariant
            n == bytes@.len(),
            0 <= i <= n,
            spec_fingerprint_from(acc, bytes@.subrange(i as int, n as int)) == spec_fingerprint(
                bytes@,
            ),
        decreases n - i,
    {
        proof {
            let rest = bytes@.subrange(i as int, n as int);
            assert(rest[0] == bytes@[i as int]);
            assert(rest.drop_first() =~= bytes@.subrange(i + 1, n as int));
        }
        acc = (acc ^ (bytes[i] as u64)).wrapping_mul(FNV_PRIME);
        i = i + 1;
    }
    proof {
        assert(bytes@.subrange(n as int, n as int) =~= Seq::<u8>::empty());
    }
    acc
}

/// The ingestion candidates among walked paths, in walk order.
pub open spec fn spec_candidates(paths: Seq<Seq<char>>) -> Seq<Seq<char>>
    decreases paths.len(),
{
    if paths.len() == 0 {
        Seq::empty()
    } else if spec_is_audio_candidate(paths[0]) {
        seq![paths[0]] + spec_candidates(paths.drop_first())
    } else {
        spec_candidates(paths.drop_first())
    }
}

/// Filters walked paths to the ingestion candidates, keeping walk order;
/// non-matching and hidden paths are skipped here and never reach metadata
/// extraction.
pub fn select_candidates(paths: &Vec<String>) -> (r: Vec<String>)
    ensures
        r@.map_values(|s: String| s@) == spec_candidates(paths@.map_values(|s: String| s@)),
{
    let ghost whole = paths@.map_values(|s: String| s@);
    let mut r: Vec<String> = Vec::new();
    let mut i: usize = 0;
    let n = paths.len();
    proof {
        assert(whole.skip(0) =~= whole);
        assert(r@.map_values(|s: String| s@) + spec_candidates(whole) =~= spec_candidates(whole));
    }
    while i < n
        invariant
            whole == paths@.map_values(|s: String| s@),
            n == paths@.len(),
            0 <= i <= n,
            r@.map_values(|s: String| s@) + spec_candidates(whole.skip(i as int))
                == spec_candidates(whole),
        decreases n - i,
    {
        let ghost rv = r@.map_values(|s: String| s@);
        let ghost rest = whole.skip(i as int);
        proof {
            assert(rest.len() == n - i);
            assert(rest[0] == whole[i as int]);
            assert(rest.drop_first() =~= whole.skip(i as int + 1));
            assert(whole[i as int] == paths@[i as int]@);
        }
        if is_audio_candidate(paths[i].as_str()) {
            r.push(paths[i].clone());
            proof {
                assert(r@.map_values(|s: String| s@) =~= rv.push(whole[i as int]));
                assert(spec_candidates(rest) == seq![rest[0]] + spec_candidates(rest.drop_first()));
                assert(rv.push(whole[i as int]) + spec_candidates(whole.skip(i as int + 1)) =~= rv
                    + spec_candidates(rest));
            }
        } else {
            proof {
                assert(spec_candidates(rest) == spec_candidates(rest.drop_first()));
            }
        }
        i = i + 1;
    }
    proof {
        assert(whole.skip(n as int) =~= Seq::<Seq<char>>::empty());
        assert(r@.map_values(|s: String| s@) + spec_candidates(whole.skip(n as int)) =~= r@.map_values(
            |s: String| s@,
        ));
    }
    r
}

/// What reading one candidate file produced: its embedded tags (possibly
/// absent) and content fingerprint, or the fact that it could not be read or
/// parsed at all.
pub enum FileOutcome {
    Readable { tags: Option<TrackMeta>, fingerprint: u64 },
    Unreadable,
}

/// The mathematical model of [`FileOutcome`].
pub enum OutcomeModel {
    Readable { tags: Option<TrackMetaModel>, fingerprint: u64 },
    Unreadable,
}

impl View for FileOutcome {
    type V = OutcomeModel;

    open spec fn view(&self) -> OutcomeModel {
        match self {
            FileOutcome::Readable { tags, fingerprint } => OutcomeModel::Readable {
                tags: match tags {
                    Some(t) => Some(t@),
                    None => None,
                },
                fingerprint: *fingerprint,
            },
            FileOutcome::Unreadable => OutcomeModel::Unreadable,
        }
    }
}

/// One candidate file as the walk and the per-file read hand it to the run:
/// canonical path and read outcome.
pub struct ScannedFile {
    pub path: String,
    pub outcome: FileOutcome,
}

/// The mathematical model of [`ScannedFile`].
pub struct FileModel {
    pub path: Seq<char>,
    pub outcome: OutcomeModel,
}

impl View for ScannedFile {
    type V = FileModel;

    open spec fn view(&self) -> FileModel {
        FileModel { path: self.path@, outcome: self.outcome@ }
    }
}

/// The metadata of a file whose tags were absent entirely: filename-derived
/// title, nothing else.
pub open spec fn spec_fallback_meta(path: Seq<char>) -> TrackMetaModel {
    TrackMetaModel {
        title: Some(spec_title_from_path(path)),
        artist: None,
        album: None,
        duration_secs: 0,
    }
}

/// Resolved metadata of a readable file: its tags, with the title falling
/// back to the filename-derived one when the tags give none.
pub open spec fn spec_resolve_meta(path: Seq<char>, tags: Option<TrackMetaModel>) -> TrackMetaModel {
    match tags {
        Some(t) => TrackMetaModel {
            title: if t.title is Some {
                t.title
            } else {
                Some(spec_title_from_path(path))
            },
            artist: t.artist,
            album: t.album,
            duration_secs: t.duration_secs,
        },
        None => spec_fallback_meta(path),
    }
}

/// The model of optional tags.
pub open spec fn spec_opt_meta(tags: Option<TrackMeta>) -> Option<TrackMetaModel> {
    match tags {
        Some(t) => Some(t@),
        None => None,
    }
}

/// Resolves the metadata of a readable file, falling back to the
/// filename-derived title when the tags give none.
pub fn resolve_meta(path: &str, tags: &Option<TrackMeta>) -> (r: TrackMeta)
    ensures
        r@ == spec_resolve_meta(path@, spec_opt_meta(*tags)),
{
    match tags {
        Some(t) => {
            let m = clone_meta(t);
            let title = match m.title {
                Some(x) => Some(x),
                None => Some(title_from_path(path)),
            };
            TrackMeta { title, artist: m.artist, album: m.album, duration_secs: m.duration_secs }
        },
        None => TrackMeta {
            title: Some(title_from_path(path)),
            artist: None,
            album: None,
            duration_secs: 0,
        },
    }
}

/// The catalog row a readable file becomes.
pub open spec fn spec_entry_for(path: Seq<char>, tags: Option<TrackMetaModel>, fp: u64) -> EntryModel {
    EntryModel { path, meta: spec_resolve_meta(path, tags), fingerprint: fp }
}

/// The catalog after one run over `files`, upserting one row per readable
/// file, in walk order; unreadable files leave no trace.
pub open spec fn spec_ingest_catalog(cat: Seq<EntryModel>, files: Seq<FileModel>) -> Seq<EntryModel>
    decreases files.len(),
{
    if files.len() == 0 {
        cat
    } else {
        match files[0].outcome {
            OutcomeModel::Unreadable => spec_ingest_catalog(cat, files.drop_first()),
            OutcomeModel::Readable { tags, fingerprint } => spec_ingest_catalog(
                spec_upsert(cat, spec_entry_for(files[0].path, tags, fingerprint)),
                files.drop_first(),
            ),
        }
    }
}

/// How many files of a run insert a new row.
pub open spec fn spec_inserted(cat: Seq<EntryModel>, files: Seq<FileModel>) -> int
    decreases files.len(),
{
    if files.len() == 0 {
        0
    } else {
        match files[0].outcome {
            OutcomeModel::Unreadable => spec_inserted(cat, files.drop_first()),
            OutcomeModel::Readable { tags, fingerprint } => (if spec_contains_path(
                cat,
                files[0].path,
            ) {
                0int
            } else {
                1int
            }) + spec_inserted(
                spec_upsert(cat, spec_entry_for(files[0].path, tags, fingerprint)),
                files.drop_first(),
            ),
        }
    }
}

/// How many files of a run update an existing row in place.
pub open spec fn spec_updated(cat: Seq<EntryModel>, files: Seq<FileModel>) -> int
    decreases files.len(),
{
    if files.len() == 0 {
        0
    } else {
        match files[0].outcome {
            OutcomeModel::Unreadable => spec_updated(cat, files.drop_first()),
            OutcomeModel::Readable { tags, fingerprint } => (if spec_contains_path(
                cat,
                files[0].path,
            ) {
                1int
            } else {
                0int
            }) + spec_updated(
                spec_upsert(cat, spec_entry_for(files[0].path, tags, fingerprint)),
                files.drop_first(),
            ),
        }
    }
}

/// How many files of a run fail locally and are skipped.
pub open spec fn spec_failed(files: Seq<FileModel>) -> int
    decreases files.len(),
{
    if files.len() == 0 {
        0
    } else {
        (if files[0].outcome is Unreadable {
            1int
        } else {
            0int
        }) + spec_failed(files.drop_first())
    }
}

/// How many fixed-size transactions commit `changes` rows: the batches are
/// full except possibly the last.
pub open spec fn spec_batches(changes: int, batch_size: int) -> int {
    changes / batch_size + (if changes % batch_size != 0 {
        1int
    } else {
        0int
    })
}

/// Default number of rows per ingestion transaction.
pub const DEFAULT_BATCH_SIZE: usize = 256;

/// Why an ingestion run refused to start; per-file trouble never surfaces
/// here.
#[derive(Clone, Copy, Debug, PartialEq, Eq, Structural)]
pub enum IngestError {
    /// Another run holds ingestion exclusivity; the call fails immediately
    /// rather than queueing.
    Busy,
    /// The chosen root directory could not be opened at all.
    RootUnreadable,
}

/// The final counts of one ingestion run.
#[derive(Clone, Copy, Debug, PartialEq, Eq, Structural)]
pub struct IngestionReport {
    pub scanned: usize,
    pub inserted: usize,
    pub updated: usize,
    pub failed: usize,
    pub batches_committed: usize,
}

/// What enumerating the chosen root produced: the candidate files, or the
/// fact that the root could not be opened.
pub enum ScanOutcome {
    Opened(Vec<ScannedFile>),
    RootUnreadable,
}

/// One ingestion run against the shared state.
///
/// Acquires ingestion exclusivity first: when another run is active the call
/// fails immediately with `Busy` and changes nothing. An unopenable root is
/// a run-level error that releases exclusivity and leaves the catalog
/// untouched. Otherwise every readable candidate is upserted, in walk order
/// and in fixed-size batches, a per-file failure only counts, and the run
/// ends with exclusivity released and the final counts reported, with
/// every scanned file accounted for as inserted, updated or failed.
pub fn run_ingestion(state: &mut AppState, scan: &ScanOutcome, batch_size: usize) -> (r: Result<
    IngestionReport,
    IngestError,
>)
    requires
        old(state).wf(),
        batch_size >= 1,
    ensures
        final(state).wf(),
        old(state).spec_ingestion_active() ==> r == Err::<IngestionReport, IngestError>(
            IngestError::Busy,
        ) && *final(state) == *old(state),
        !old(state).spec_ingestion_active() ==> !final(state).spec_ingestion_active(),
        !old(state).spec_ingestion_active() && scan is RootUnreadable ==> r == Err::<
            IngestionReport,
            IngestError,
        >(IngestError::RootUnreadable) && final(state).catalog == old(state).catalog,
        !old(state).spec_ingestion_active() ==> (match scan {
            ScanOutcome::Opened(files) => {
                let fm = files@.map_values(|f: ScannedFile| f@);
                &&& final(state).catalog@ == spec_ingest_catalog(old(state).catalog@, fm)
                &&& r is Ok
                &&& r->Ok_0.scanned == fm.len()
                &&& r->Ok_0.inserted == spec_inserted(old(state).catalog@, fm)
                &&& r->Ok_0.updated == spec_updated(old(state).catalog@, fm)
                &&& r->Ok_0.failed == spec_failed(fm)
                &&& r->Ok_0.scanned == r->Ok_0.inserted + r->Ok_0.updated + r->Ok_0.failed
                &&& r->Ok_0.batches_committed == spec_batches(
                    r->Ok_0.inserted + r->Ok_0.updated,
                    batch_size as int,
                )
            },
            ScanOutcome::RootUnreadable => true,
        }),
{
    if !state.try_begin_ingestion() {
        return Err(IngestError::Busy);
    }
    let files = match scan {
        ScanOutcome::Opened(files) => files,
        ScanOutcome::RootUnreadable => {
            state.end_ingestion();
            return Err(IngestError::RootUnreadable);
        },
    };
    let ghost cat0 = old(state).catalog@;
    let ghost fm = files@.map_values(|f: ScannedFile| f@);
    let mut inserted: usize = 0;
    let mut updated: usize = 0;
    let mut failed: usize = 0;
    let mut i: usize = 0;
    let n = files.len();
    proof {
        assert(fm.skip(0) =~= fm);
    }
    while i < n
        invariant
            n == files@.len(),
            fm == files@.map_values(|f: ScannedFile| f@),
            cat0 == old(state).catalog@,
            0 <= i <= n,
            inserted + updated + failed == i,
            state.catalog.wf(),
            spec_ingest_catalog(cat0, fm) == spec_ingest_catalog(
                state.catalog@,
                fm.skip(i as int),
            ),
            spec_inserted(cat0, fm) == inserted + spec_inserted(state.catalog@, fm.skip(i as int)),
            spec_updated(cat0, fm) == updated + spec_updated(state.catalog@, fm.skip(i as int)),
            spec_failed(fm) == failed + spec_failed(fm.skip(i as int)),
            state.spec_ingestion_active(),
        decreases n - i,
    {
        let ghost rest = fm.skip(i as int);
        proof {
            assert(rest.len() == n - i);
            assert(rest[0] == fm[i as int]);
            assert(rest.drop_first() =~= fm.skip(i as int + 1));
            assert(fm[i as int] == files@[i as int]@);
        }
        let f = &files[i];
        match &f.outcome {
            FileOutcome::Unreadable => {
                failed = failed + 1;
            },
            FileOutcome::Readable { tags, fingerprint } => {
                let meta = resolve_meta(f.path.as_str(), tags);
                let entry = CatalogEntry { path: f.path.clone(), meta, fingerprint: *fingerprint };
                proof {
                    assert(rest[0].outcome matches OutcomeModel::Readable {
                        tags: t,
                        fingerprint: fp,
                    } && entry@ == spec_entry_for(rest[0].path, t, fp));
                }
                match state.catalog.upsert(entry) {
                    UpsertOutcome::Inserted => {
                        inserted = inserted + 1;
                    },
                    UpsertOutcome::Updated => {
                        updated = updated + 1;
                    },
                }
            },
        }
        i = i + 1;
    }
    proof {
        assert(fm.skip(n as int) =~= Seq::<FileModel>::empty());
    }
    state.end_ingestion();
    let changes: usize = inserted + updated;
    proof {
        if (changes as int) % (batch_size as int) != 0 {
            assert((changes as int) / (batch_size as int) < changes as int) by (nonlinear_arith)
                requires
                    (batch_size as int) >= 1,
                    (changes as int) >= 0,
                    (changes as int) % (batch_size as int) != 0;
        } else {
            assert((changes as int) / (batch_size as int) <= changes as int) by (nonlinear_arith)
                requires
                    (batch_size as int) >= 1,
                    (changes as int) >= 0;
        }
    }
    let batches: usize = changes / batch_size + (if changes % batch_size != 0 {
        1
    } else {
        0
    });
    Ok(
        IngestionReport {
            scanned: n,
            inserted,
            updated,
            failed,
            batches_committed: batches,
        },
    )
}

/// One ingestion run keeps canonical paths unique, never drops a path that
/// was in the catalog, and ends with a row for every readable file it
/// scanned.
pub proof fn lemma_ingest_covers_paths(cat: Seq<EntryModel>, files: Seq<FileModel>)
    requires
        paths_unique(cat),
    ensures
        paths_unique(spec_ingest_catalog(cat, files)),
        forall|p: Seq<char>|
            spec_contains_path(cat, p) ==> spec_contains_path(
                spec_ingest_catalog(cat, files),
                p,
            ),
        forall|i: int|
            0 <= i < files.len() && !(#[trigger] files[i].outcome is Unreadable)
                ==> spec_contains_path(spec_ingest_catalog(cat, files), files[i].path),
    decreases files.len(),
{
    if files.len() > 0 {
        let rest = files.drop_first();
        match files[0].outcome {
            OutcomeModel::Unreadable => {
                lemma_ingest_covers_paths(cat, rest);
                assert forall|i: int|
                    0 <= i < files.len() && !(#[trigger] files[i].outcome is Unreadable) implies spec_contains_path(
                    spec_ingest_catalog(cat, files),
                    files[i].path,
                ) by {
                    assert(rest[i - 1] == files[i]);
                }
            },
            OutcomeModel::Readable { tags, fingerprint } => {
                let e = spec_entry_for(files[0].path, tags, fingerprint);
                lemma_spec_upsert(cat, e);
                lemma_ingest_covers_paths(spec_upsert(cat, e), rest);
                assert forall|p: Seq<char>| spec_contains_path(cat, p) implies spec_contains_path(
                    spec_ingest_catalog(cat, files),
                    p,
                ) by {
                    assert(spec_contains_path(spec_upsert(cat, e), p));
                }
                assert forall|i: int|
                    0 <= i < files.len() && !(#[trigger] files[i].outcome is Unreadable) implies spec_contains_path(
                    spec_ingest_catalog(cat, files),
                    files[i].path,
                ) by {
                    if i == 0 {
                        assert(spec_contains_path(spec_upsert(cat, e), files[0].path));
                    } else {
                        assert(rest[i - 1] == files[i]);
                    }
                }
            },
        }
    }
}

/// A run over files whose readable paths are all already in the catalog
/// inserts nothing: every readable file updates its existing row in place
/// and the catalog row count stays what it was.
pub proof fn lemma_reingest_is_update_only(cat: Seq<EntryModel>, files: Seq<FileModel>)
    requires
        paths_unique(cat),
        forall|i: int|
            0 <= i < files.len() && !(#[trigger] files[i].outcome is Unreadable)
                ==> spec_contains_path(cat, files[i].path),
    ensures
        spec_inserted(cat, files) == 0,
        spec_updated(cat, files) == files.len() - spec_failed(files),
        spec_ingest_catalog(cat, files).len() == cat.len(),
    decreases files.len(),
{
    if files.len() > 0 {
        let rest = files.drop_first();
        assert(forall|i: int| 0 <= i < rest.len() ==> #[trigger] rest[i] == files[i + 1]);
        match files[0].outcome {
            OutcomeModel::Unreadable => {
                lemma_reingest_is_update_only(cat, rest);
            },
            OutcomeModel::Readable { tags, fingerprint } => {
                let e = spec_entry_for(files[0].path, tags, fingerprint);
                assert(!(files[0].outcome is Unreadable));
                assert(spec_contains_path(cat, files[0].path));
                lemma_spec_upsert(cat, e);
                lemma_reingest_is_update_only(spec_upsert(cat, e), rest);
            },
        }
    }
}

/// Re-running ingestion over the same scan with no filesystem changes
/// inserts nothing, updates one row per readable file, and leaves the
/// catalog row count unchanged.
pub proof fn lemma_second_run_same_files(cat: Seq<EntryModel>, files: Seq<FileModel>)
    requires
        paths_unique(cat),
    ensures
        ({
            let cat1 = spec_ingest_catalog(cat, files);
            &&& spec_inserted(cat1, files) == 0
            &&& spec_updated(cat1, files) == files.len() - spec_failed(files)
            &&& spec_ingest_catalog(cat1, files).len() == cat1.len()
        }),
{
    lemma_ingest_covers_paths(cat, files);
    lemma_reingest_is_update_only(spec_ingest_catalog(cat, files), files);
}

/// Upserts commit in the order the walk produced: a run over all files acts
/// as a run over any prefix followed by a run over the remainder, so an
/// interrupted run leaves the catalog exactly as the completed prefix of the
/// walk left it.
pub proof fn lemma_ingest_prefix_order(cat: Seq<EntryModel>, files: Seq<FileModel>, i: int)
    requires
        0 <= i <= files.len(),
    ensures
        spec_ingest_catalog(cat, files) == spec_ingest_catalog(
            spec_ingest_catalog(cat, files.take(i)),
            files.skip(i),
        ),
    decreases i,
{
    if i == 0 {
        assert(files.take(0) =~= Seq::<FileModel>::empty());
        assert(files.skip(0) =~= files);
    } else {
        let head = files[0];
        let rest = files.drop_first();
        let prefix = files.take(i);
        assert(prefix[0] == head);
        assert(prefix.drop_first() =~= rest.take(i - 1));
        assert(files.skip(i) =~= rest.skip(i - 1));
        match head.outcome {
            OutcomeModel::Unreadable => {
                lemma_ingest_prefix_order(cat, rest, i - 1);
            },
            OutcomeModel::Readable { tags, fingerprint } => {
                let stepped = spec_upsert(cat, spec_entry_for(head.path, tags, fingerprint));
                lemma_ingest_prefix_order(stepped, rest, i - 1);
            },
        }
    }
}

} // verus!
