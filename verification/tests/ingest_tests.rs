use lobic::app_state::AppState;
use lobic::catalog::Catalog;
use lobic::catalog::CatalogEntry;
use lobic::catalog::TrackMeta;
use lobic::catalog::UpsertOutcome;
use lobic::ingest::fingerprint;
use lobic::ingest::is_audio_candidate;
use lobic::ingest::is_audio_extension;
use lobic::ingest::is_hidden_path;
use lobic::ingest::extension_of;
use lobic::ingest::lower_char;
use lobic::ingest::run_ingestion;
use lobic::ingest::select_candidates;
use lobic::ingest::title_from_path;
use lobic::ingest::FileOutcome;
use lobic::ingest::IngestError;
use lobic::ingest::ScanOutcome;
use lobic::ingest::ScannedFile;
use lobic::ingest::DEFAULT_BATCH_SIZE;

fn no_meta() -> TrackMeta {
    TrackMeta { title: None, artist: None, album: None, duration_secs: 0 }
}

fn tagged(title: &str, artist: &str) -> TrackMeta {
    TrackMeta {
        title: Some(String::from(title)),
        artist: Some(String::from(artist)),
        album: None,
        duration_secs: 180,
    }
}

fn readable(path: &str, tags: Option<TrackMeta>, fp: u64) -> ScannedFile {
    ScannedFile { path: String::from(path), outcome: FileOutcome::Readable { tags, fingerprint: fp } }
}

fn unreadable(path: &str) -> ScannedFile {
    ScannedFile { path: String::from(path), outcome: FileOutcome::Unreadable }
}

#[test]
fn lowercasing_and_extension_recognition() {
    assert_eq!(lower_char('A'), 'a');
    assert_eq!(lower_char('Z'), 'z');
    assert_eq!(lower_char('a'), 'a');
    assert_eq!(lower_char('/'), '/');
    assert!(is_audio_extension("mp3"));
    assert!(is_audio_extension("MP3"));
    assert!(is_audio_extension("FlAc"));
    assert!(is_audio_extension("opus"));
    assert!(!is_audio_extension("txt"));
    assert!(!is_audio_extension("wma"));
    assert!(!is_audio_extension(""));
}

#[test]
fn extension_and_hidden_path_rules() {
    assert_eq!(extension_of("a/b/song.mp3"), Some("mp3"));
    assert_eq!(extension_of("song.tar.gz"), Some("gz"));
    assert_eq!(extension_of("no_extension"), None);
    assert_eq!(extension_of("trailing_dot."), None);
    assert_eq!(extension_of("a/.hidden"), None);
    assert!(is_hidden_path(".git/x.mp3"));
    assert!(is_hidden_path("a/.cache/x.mp3"));
    assert!(is_hidden_path("a/b/.x.mp3"));
    assert!(!is_hidden_path("a/b/x.mp3"));
    assert!(!is_hidden_path("a.b/x.mp3"));
}

#[test]
fn candidate_selection_is_case_insensitive_and_skips_hidden() {
    assert!(is_audio_candidate("music/track.mp3"));
    assert!(is_audio_candidate("music/track.MP3"));
    assert!(is_audio_candidate("music/deep/path/track.FlAc"));
    assert!(!is_audio_candidate("music/track.txt"));
    assert!(!is_audio_candidate("music/.hidden/track.mp3"));
    assert!(!is_audio_candidate(".mp3"));
    assert!(!is_audio_candidate("music/track"));
    let paths = vec![
        String::from("a/one.mp3"),
        String::from("a/readme.txt"),
        String::from("a/.private/two.mp3"),
        String::from("a/three.OGG"),
    ];
    let picked = select_candidates(&paths);
    assert_eq!(picked, vec![String::from("a/one.mp3"), String::from("a/three.OGG")]);
}

#[test]
fn title_falls_back_to_filename_without_extension() {
    assert_eq!(title_from_path("a/b/My Song.mp3"), "My Song");
    assert_eq!(title_from_path("My Song.mp3"), "My Song");
    assert_eq!(title_from_path("a/b/noext"), "noext");
}

#[test]
fn fingerprint_has_exact_known_values() {
    assert_eq!(fingerprint(&vec![]), 14695981039346656037);
    assert_eq!(fingerprint(&vec![b'a']), 12638187200555641996);
    assert_eq!(fingerprint(&vec![b'a', b'b', b'c']), 16654208175385433931);
    assert_ne!(fingerprint(&vec![0]), fingerprint(&vec![1]));
}

#[test]
fn catalog_upsert_updates_in_place() {
    let mut catalog = Catalog::new();
    let first = CatalogEntry {
        path: String::from("m/a.mp3"),
        meta: tagged("A", "Artist"),
        fingerprint: 7,
    };
    assert_eq!(catalog.upsert(first), UpsertOutcome::Inserted);
    let other = CatalogEntry { path: String::from("m/b.mp3"), meta: no_meta(), fingerprint: 8 };
    assert_eq!(catalog.upsert(other), UpsertOutcome::Inserted);
    assert_eq!(catalog.len(), 2);
    let replacement = CatalogEntry {
        path: String::from("m/a.mp3"),
        meta: tagged("A2", "Artist2"),
        fingerprint: 9,
    };
    assert_eq!(catalog.upsert(replacement), UpsertOutcome::Updated);
    assert_eq!(catalog.len(), 2);
    assert!(catalog.contains_path(&String::from("m/a.mp3")));
    assert!(!catalog.contains_path(&String::from("m/c.mp3")));
    let i = catalog.find_path(&String::from("m/a.mp3")).unwrap();
    assert_eq!(catalog.get(i).fingerprint, 9);
    assert_eq!(catalog.get(i).meta.title.as_deref(), Some("A2"));
}

#[test]
fn same_canonical_path_twice_inserts_one_entry() {
    // Two walked paths that resolved to one canonical path (e.g. through a
    // symbolic link) arrive as the same canonical path.
    let mut state = AppState::new();
    let files = vec![
        readable("music/real/song.mp3", Some(tagged("Song", "Band")), 41),
        readable("music/real/song.mp3", None, 41),
    ];
    let report = run_ingestion(&mut state, &ScanOutcome::Opened(files), DEFAULT_BATCH_SIZE).unwrap();
    assert_eq!(report.scanned, 2);
    assert_eq!(report.inserted, 1);
    assert_eq!(report.updated, 1);
    assert_eq!(report.failed, 0);
    assert_eq!(state.catalog.len(), 1);
}

#[test]
fn one_corrupted_file_never_aborts_the_run() {
    let mut state = AppState::new();
    let mut files = Vec::new();
    for i in 0..100 {
        files.push(readable(&format!("m/track{i}.mp3"), None, i as u64));
    }
    files.push(unreadable("m/corrupted.mp3"));
    let report = run_ingestion(&mut state, &ScanOutcome::Opened(files), DEFAULT_BATCH_SIZE).unwrap();
    assert_eq!(report.scanned, 101);
    assert_eq!(report.inserted, 100);
    assert_eq!(report.updated, 0);
    assert_eq!(report.failed, 1);
    assert_eq!(state.catalog.len(), 100);
    assert!(!state.ingestion_active());
}

#[test]
fn second_run_while_active_fails_busy() {
    let mut state = AppState::new();
    let files = vec![readable("m/a.mp3", None, 1)];
    let first_run_report = run_ingestion(
        &mut state,
        &ScanOutcome::Opened(vec![readable("m/z.mp3", None, 2)]),
        DEFAULT_BATCH_SIZE,
    )
    .unwrap();
    // Simulate a run still holding exclusivity, then trigger a second one.
    assert!(state.try_begin_ingestion());
    let second = run_ingestion(&mut state, &ScanOutcome::Opened(files), DEFAULT_BATCH_SIZE);
    assert_eq!(second.err(), Some(IngestError::Busy));
    // The first run's counts and the catalog are unaffected.
    assert_eq!(first_run_report.inserted, 1);
    assert_eq!(state.catalog.len(), 1);
    assert!(state.ingestion_active());
    state.end_ingestion();
    assert!(!state.ingestion_active());
}

#[test]
fn unreadable_root_is_a_run_level_error() {
    let mut state = AppState::new();
    let r = run_ingestion(&mut state, &ScanOutcome::RootUnreadable, DEFAULT_BATCH_SIZE);
    assert_eq!(r.err(), Some(IngestError::RootUnreadable));
    assert_eq!(state.catalog.len(), 0);
    assert!(!state.ingestion_active());
}

#[test]
fn rerun_on_unchanged_directory_inserts_nothing() {
    let mut state = AppState::new();
    let make_files = || {
        vec![
            readable("m/a.mp3", Some(tagged("A", "X")), 1),
            readable("m/b.flac", None, 2),
            readable("m/c.ogg", None, 3),
        ]
    };
    let first = run_ingestion(
        &mut state,
        &ScanOutcome::Opened(make_files()),
        DEFAULT_BATCH_SIZE,
    )
    .unwrap();
    assert_eq!(first.inserted, 3);
    assert_eq!(state.catalog.len(), 3);
    let second = run_ingestion(
        &mut state,
        &ScanOutcome::Opened(make_files()),
        DEFAULT_BATCH_SIZE,
    )
    .unwrap();
    assert_eq!(second.inserted, 0);
    assert_eq!(second.updated, 3);
    assert_eq!(second.failed, 0);
    assert_eq!(state.catalog.len(), 3);
}

#[test]
fn batches_commit_in_fixed_sizes() {
    let mut state = AppState::new();
    let files = vec![
        readable("m/a.mp3", None, 1),
        readable("m/b.mp3", None, 2),
        readable("m/c.mp3", None, 3),
        unreadable("m/d.mp3"),
    ];
    let report = run_ingestion(&mut state, &ScanOutcome::Opened(files), 2).unwrap();
    // Three changed rows in batches of two: one full batch and one remainder.
    assert_eq!(report.inserted, 3);
    assert_eq!(report.batches_committed, 2);
    let mut other = AppState::new();
    let report = run_ingestion(
        &mut other,
        &ScanOutcome::Opened(vec![readable("m/a.mp3", None, 1), readable("m/b.mp3", None, 2)]),
        2,
    )
    .unwrap();
    assert_eq!(report.batches_committed, 1);
}

#[test]
fn fallback_title_comes_from_filename() {
    let mut state = AppState::new();
    let files = vec![readable("m/Greatest Hit.mp3", None, 5)];
    run_ingestion(&mut state, &ScanOutcome::Opened(files), DEFAULT_BATCH_SIZE).unwrap();
    let i = state.catalog.find_path(&String::from("m/Greatest Hit.mp3")).unwrap();
    assert_eq!(state.catalog.get(i).meta.title.as_deref(), Some("Greatest Hit"));
    assert_eq!(state.catalog.get(i).meta.artist, None);
}

#[test]
fn tag_title_wins_over_filename() {
    let mut state = AppState::new();
    let files = vec![readable("m/track01.mp3", Some(tagged("Real Title", "Band")), 5)];
    run_ingestion(&mut state, &ScanOutcome::Opened(files), DEFAULT_BATCH_SIZE).unwrap();
    let i = state.catalog.find_path(&String::from("m/track01.mp3")).unwrap();
    assert_eq!(state.catalog.get(i).meta.title.as_deref(), Some("Real Title"));
    assert_eq!(state.catalog.get(i).meta.artist.as_deref(), Some("Band"));
    assert_eq!(state.catalog.get(i).meta.duration_secs, 180);
}
