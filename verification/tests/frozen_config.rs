use workmux::config::{Config, ConfigLocation, SidebarConfig, StatusIcons};
use workmux::frozen_config::{
    load, validate_path, FileKind, FrozenConfigError, FrozenConfigFile, SnapshotFile,
    FROZEN_CONFIG_ENV, SNAPSHOT_VERSION,
};
use workmux::paths::FilePath;
use workmux::values::Value;

fn sample_config() -> Config {
    Config {
        agent: Some("codex --model sonnet".to_string()),
        agent_type: Some("codex".to_string()),
        selected_agent: Some("helper".to_string()),
        status_icons: StatusIcons {
            working: Some("work".to_string()),
            waiting: Some("wait".to_string()),
            done: Some("done".to_string()),
        },
        sidebar: SidebarConfig {
            layout: None,
            position: None,
            sort: None,
        },
        other_settings: String::new(),
    }
}

fn sample_location(root: &str) -> ConfigLocation {
    let root = FilePath::parse(root);
    ConfigLocation {
        config_path: root.child("app/.workmux.yaml"),
        config_dir: root.child("app"),
        rel_dir: FilePath::parse("app"),
    }
}

fn snapshot_path() -> FilePath {
    FilePath::parse("/tmp/snapshot.json")
}

fn message(error: FrozenConfigError, path: &FilePath) -> String {
    error.message(path)
}

#[test]
fn round_trip_preserves_resolved_config_and_location() {
    let config = sample_config();
    let location = sample_location("/root");
    let mut stored = FrozenConfigFile::capture(&config, Some(&location));
    // The stored form of a configuration leaves these out.
    stored.config.agent_type = None;
    stored.config.selected_agent = None;

    let (loaded, loaded_location) = load(
        &snapshot_path(),
        FileKind::Regular,
        SnapshotFile::Snapshot(stored),
    )
    .ok()
    .unwrap();

    assert_eq!(loaded.agent, config.agent);
    assert_eq!(loaded.agent_type, config.agent_type);
    assert_eq!(loaded.selected_agent, config.selected_agent);
    assert_eq!(loaded.status_icons.working, config.status_icons.working);
    assert_eq!(loaded.status_icons.waiting, config.status_icons.waiting);
    assert_eq!(loaded.status_icons.done, config.status_icons.done);
    assert!(loaded.same(&config));
    assert!(loaded_location.unwrap().same(&location));
}

#[test]
fn rejects_relative_path() {
    let path = FilePath::parse("snapshot.json");
    let error = load(&path, FileKind::Regular, SnapshotFile::Unopened)
        .err()
        .unwrap();
    assert!(message(error, &path).contains("must be absolute"));
}

#[test]
fn rejects_directory() {
    let path = FilePath::parse("/tmp");
    let error = load(&path, FileKind::Special, SnapshotFile::Unopened)
        .err()
        .unwrap();
    assert!(message(error, &path).contains("must be a regular file"));
}

#[test]
fn rejects_symlink() {
    let link = snapshot_path();
    let error = load(&link, FileKind::Symlink, SnapshotFile::Unopened)
        .err()
        .unwrap();
    assert!(message(error, &link).contains("must be a regular file"));
}

#[test]
fn rejects_malformed_snapshot() {
    let path = snapshot_path();
    let error = load(&path, FileKind::Regular, SnapshotFile::Malformed)
        .err()
        .unwrap();
    assert!(message(error, &path).contains("Failed to parse"));
}

#[test]
fn rejects_unknown_version() {
    let mut snapshot = FrozenConfigFile::capture(&sample_config(), None);
    snapshot.version = SNAPSHOT_VERSION + 1;
    let path = snapshot_path();
    let error = load(&path, FileKind::Regular, SnapshotFile::Snapshot(snapshot))
        .err()
        .unwrap();
    assert_eq!(error, FrozenConfigError::UnsupportedVersion(2));
    assert!(message(error, &path).contains("Unsupported"));
    assert!(message(error, &path).ends_with("version 2"));
}

#[test]
fn snapshots_that_cannot_be_reached_are_errors() {
    let path = snapshot_path();
    assert_eq!(
        validate_path(&path, FileKind::Unavailable),
        Err(FrozenConfigError::Unavailable)
    );
    assert_eq!(validate_path(&path, FileKind::Regular), Ok(()));
    assert_eq!(
        FrozenConfigError::Unavailable.message(&path),
        "Frozen configuration snapshot is unavailable: /tmp/snapshot.json"
    );
    let error = load(&path, FileKind::Regular, SnapshotFile::Unopened)
        .err()
        .unwrap();
    assert_eq!(error, FrozenConfigError::OpenFailed);
    assert!(message(error, &path).starts_with("Failed to open"));
    assert_eq!(FROZEN_CONFIG_ENV, "WORKMUX_FROZEN_CONFIG");
}

#[test]
fn errors_show_paths_as_they_are_spelled() {
    let path = FilePath::parse("./snapshots//one.json");
    let error = validate_path(&path, FileKind::Regular).unwrap_err();
    assert_eq!(
        error.message(&path),
        "Frozen configuration snapshot path must be absolute: ./snapshots//one.json"
    );
}

#[test]
fn snapshots_can_be_handed_on() {
    let location = sample_location("/root//x");
    let mut config = sample_config();
    let mut at = Some(location);
    for _ in 0..3 {
        let mut stored = FrozenConfigFile::capture(&config, at.as_ref());
        stored.config.agent_type = None;
        stored.config.selected_agent = None;
        let loaded = load(
            &snapshot_path(),
            FileKind::Regular,
            SnapshotFile::Snapshot(stored),
        );
        (config, at) = loaded.ok().unwrap();
    }
    assert!(config.same(&sample_config()));
    let at = at.unwrap();
    assert!(at.same(&sample_location("/root/x")));
    assert_eq!(at.config_dir.text(), "/root//x/app");
}

#[test]
fn only_what_passes_is_loaded() {
    let relative = FilePath::parse("tmp/snapshot.json");
    for kind in [
        FileKind::Unavailable,
        FileKind::Symlink,
        FileKind::Special,
        FileKind::Regular,
    ] {
        let snapshot = || SnapshotFile::Snapshot(FrozenConfigFile::capture(&sample_config(), None));
        assert_eq!(
            load(&relative, kind, snapshot()).err(),
            Some(FrozenConfigError::NotAbsolute)
        );
        assert_eq!(
            load(&snapshot_path(), kind, snapshot()).is_ok(),
            kind == FileKind::Regular
        );
    }
}
