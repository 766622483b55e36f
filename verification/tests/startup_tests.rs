use lobic::config::parse_port;
use lobic::config::resolve_config;
use lobic::config::frontend_config_text;
use lobic::config::http_base_url;
use lobic::config::ws_base_url;
use lobic::config::ConfigError;
use lobic::migrations::run_migrations;
use lobic::migrations::Ledger;
use lobic::migrations::Migration;
use lobic::migrations::MigrationError;
use lobic::orchestrator::startup;
use lobic::orchestrator::StartupError;
use lobic::orchestrator::StartupInput;
use lobic::storage::provision;
use lobic::storage::DirSet;
use lobic::storage::StorageLayout;
use lobic::storage::StorageRole;

fn layout() -> StorageLayout {
    StorageLayout { root: String::from("storage") }
}

#[test]
fn provision_creates_all_roles_on_clean_filesystem() {
    let mut fs = DirSet::new();
    let created = provision(&mut fs, &layout());
    assert_eq!(created.len(), 5);
    assert_eq!(fs.count(), 5);
    assert!(fs.contains_dir(&String::from("storage")));
    assert!(fs.contains_dir(&String::from("storage/music")));
    assert!(fs.contains_dir(&String::from("storage/cover_images")));
    assert!(fs.contains_dir(&String::from("storage/user_profile_pictures")));
    assert!(fs.contains_dir(&String::from("storage/playlist_cover_images")));
}

#[test]
fn provision_twice_is_a_noop_with_identical_directories() {
    let mut fs = DirSet::new();
    let first = provision(&mut fs, &layout());
    assert_eq!(first.len(), 5);
    let count_after_first = fs.count();
    let second = provision(&mut fs, &layout());
    assert_eq!(second.len(), 0);
    assert_eq!(fs.count(), count_after_first);
    assert!(fs.contains_dir(&String::from("storage")));
    assert!(fs.contains_dir(&String::from("storage/music")));
    assert!(fs.contains_dir(&String::from("storage/cover_images")));
    assert!(fs.contains_dir(&String::from("storage/user_profile_pictures")));
    assert!(fs.contains_dir(&String::from("storage/playlist_cover_images")));
}

#[test]
fn provision_keeps_unrelated_directories() {
    let mut fs = DirSet::new();
    provision(&mut fs, &layout());
    let other = StorageLayout { root: String::from("elsewhere") };
    let created = provision(&mut fs, &other);
    assert_eq!(created.len(), 5);
    assert_eq!(fs.count(), 10);
    assert!(fs.contains_dir(&String::from("storage/music")));
    assert!(fs.contains_dir(&String::from("elsewhere/music")));
}

#[test]
fn layout_root_is_configurable_with_a_default() {
    let configured = StorageLayout::from_root(Some(String::from("/var/lib/media")));
    assert_eq!(configured.role_dir(StorageRole::AudioFiles), "/var/lib/media/music");
    let defaulted = StorageLayout::from_root(None);
    assert_eq!(defaulted.role_dir(StorageRole::AudioFiles), "storage/music");
}

#[test]
fn role_dir_paths() {
    let l = layout();
    assert_eq!(l.role_dir(StorageRole::AudioFiles), "storage/music");
    assert_eq!(l.role_dir(StorageRole::CoverArt), "storage/cover_images");
    assert_eq!(l.role_dir(StorageRole::UserAvatars), "storage/user_profile_pictures");
    assert_eq!(l.role_dir(StorageRole::PlaylistCovers), "storage/playlist_cover_images");
}

fn ok_migration(id: u64) -> Migration {
    Migration { id, succeeds: true }
}

#[test]
fn migrations_apply_all_in_order_then_noop() {
    let mut ledger = Ledger::new();
    let migrations = vec![ok_migration(1), ok_migration(2), ok_migration(3)];
    let r = run_migrations(&mut ledger, &migrations);
    assert_eq!(r, Ok(3));
    assert_eq!(ledger.count(), 3);
    assert_eq!(ledger.applied_at(0), 1);
    assert_eq!(ledger.applied_at(1), 2);
    assert_eq!(ledger.applied_at(2), 3);
    assert!(ledger.is_applied(1));
    assert!(ledger.is_applied(2));
    assert!(ledger.is_applied(3));
    let again = run_migrations(&mut ledger, &migrations);
    assert_eq!(again, Ok(0));
    assert_eq!(ledger.count(), 3);
}

#[test]
fn migration_failure_stops_at_failing_step() {
    let mut ledger = Ledger::new();
    let migrations = vec![
        ok_migration(1),
        Migration { id: 2, succeeds: false },
        ok_migration(3),
    ];
    let r = run_migrations(&mut ledger, &migrations);
    assert_eq!(r, Err(MigrationError { failed_id: 2 }));
    assert_eq!(ledger.count(), 1);
    assert_eq!(ledger.applied_at(0), 1);
    assert!(ledger.is_applied(1));
    assert!(!ledger.is_applied(2));
    assert!(!ledger.is_applied(3));
}

#[test]
fn migrations_resume_from_applied_prefix() {
    let mut ledger = Ledger::new();
    let broken = vec![ok_migration(1), Migration { id: 2, succeeds: false }];
    let _ = run_migrations(&mut ledger, &broken);
    assert_eq!(ledger.count(), 1);
    let repaired = vec![ok_migration(1), ok_migration(2)];
    let r = run_migrations(&mut ledger, &repaired);
    assert_eq!(r, Ok(1));
    assert_eq!(ledger.count(), 2);
    assert_eq!(ledger.applied_at(1), 2);
}

#[test]
fn parse_port_accepts_valid_ports() {
    assert_eq!(parse_port("0"), Some(0));
    assert_eq!(parse_port("80"), Some(80));
    assert_eq!(parse_port("8080"), Some(8080));
    assert_eq!(parse_port("65535"), Some(65535));
}

#[test]
fn parse_port_rejects_malformed_ports() {
    assert_eq!(parse_port(""), None);
    assert_eq!(parse_port("65536"), None);
    assert_eq!(parse_port("123456"), None);
    assert_eq!(parse_port("80a"), None);
    assert_eq!(parse_port("-1"), None);
    assert_eq!(parse_port("8 0"), None);
}

#[test]
fn resolve_config_reports_each_missing_value() {
    let r = resolve_config(None, Some(String::from("80")), Some(String::from("db.sqlite")));
    assert_eq!(r.err(), Some(ConfigError::MissingHost));
    let r = resolve_config(Some(String::from("h")), None, Some(String::from("db.sqlite")));
    assert_eq!(r.err(), Some(ConfigError::MissingPort));
    let r = resolve_config(
        Some(String::from("h")),
        Some(String::from("eighty")),
        Some(String::from("db.sqlite")),
    );
    assert_eq!(r.err(), Some(ConfigError::InvalidPort));
    let r = resolve_config(Some(String::from("h")), Some(String::from("80")), None);
    assert_eq!(r.err(), Some(ConfigError::MissingDatabaseUrl));
}

#[test]
fn resolve_config_returns_resolved_values() {
    let r = resolve_config(
        Some(String::from("127.0.0.1")),
        Some(String::from("8080")),
        Some(String::from("db.sqlite")),
    )
    .unwrap();
    assert_eq!(r.host, "127.0.0.1");
    assert_eq!(r.port, 8080);
    assert_eq!(r.port_text, "8080");
    assert_eq!(r.db_url, "db.sqlite");
}

#[test]
fn frontend_artifact_holds_both_base_urls() {
    let config = resolve_config(
        Some(String::from("127.0.0.1")),
        Some(String::from("8080")),
        Some(String::from("db.sqlite")),
    )
    .unwrap();
    assert_eq!(http_base_url(&config), "http://127.0.0.1:8080");
    assert_eq!(ws_base_url(&config), "ws://127.0.0.1:8080/ws");
    assert_eq!(
        frontend_config_text(&config),
        "export const SERVER_IP = 'http://127.0.0.1:8080'; \nexport const WS_SERVER_IP = 'ws://127.0.0.1:8080/ws'; "
    );
}

#[test]
fn startup_succeeds_and_prepares_everything() {
    let mut fs = DirSet::new();
    let mut ledger = Ledger::new();
    let migrations = vec![ok_migration(1), ok_migration(2)];
    let input = StartupInput {
        host: Some(String::from("localhost")),
        port: Some(String::from("3000")),
        db_url: Some(String::from("db.sqlite")),
    };
    let ready = startup(input, &layout(), &mut fs, &mut ledger, &migrations).unwrap();
    assert_eq!(fs.count(), 5);
    assert_eq!(ledger.count(), 2);
    assert!(!ready.state.ingestion_active);
    assert_eq!(ready.state.catalog.len(), 0);
    assert_eq!(
        ready.frontend_artifact,
        "export const SERVER_IP = 'http://localhost:3000'; \nexport const WS_SERVER_IP = 'ws://localhost:3000/ws'; "
    );
}

#[test]
fn startup_config_failure_touches_nothing() {
    let mut fs = DirSet::new();
    let mut ledger = Ledger::new();
    let migrations = vec![ok_migration(1)];
    let input = StartupInput {
        host: Some(String::from("localhost")),
        port: Some(String::from("3000")),
        db_url: None,
    };
    let r = startup(input, &layout(), &mut fs, &mut ledger, &migrations);
    assert_eq!(r.err(), Some(StartupError::Config(ConfigError::MissingDatabaseUrl)));
    assert_eq!(fs.count(), 0);
    assert_eq!(ledger.count(), 0);
}

#[test]
fn startup_migration_failure_comes_after_provisioning() {
    let mut fs = DirSet::new();
    let mut ledger = Ledger::new();
    let migrations = vec![ok_migration(1), Migration { id: 2, succeeds: false }];
    let input = StartupInput {
        host: Some(String::from("localhost")),
        port: Some(String::from("3000")),
        db_url: Some(String::from("db.sqlite")),
    };
    let r = startup(input, &layout(), &mut fs, &mut ledger, &migrations);
    assert_eq!(
        r.err(),
        Some(StartupError::Migration(MigrationError { failed_id: 2 }))
    );
    assert_eq!(fs.count(), 5);
    assert_eq!(ledger.count(), 1);
}
