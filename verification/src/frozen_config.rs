//! A snapshot of the configuration for the supervisor of a sandbox.
use vstd::prelude::*;

use crate::config::{Config, ConfigLocation, ConfigLocationView, ConfigView};
use crate::paths::{FilePath, PathView};
use crate::text;
use crate::values::Value;

verus! {

/// The variable that names the snapshot.
pub const FROZEN_CONFIG_ENV: &'static str = "WORKMUX_FROZEN_CONFIG";

/// The version of the snapshots that are written and read.
pub const SNAPSHOT_VERSION: u32 = 1;

/// A snapshot. It holds the selected agent and its type beside the configuration, because the
/// stored form of a configuration leaves them out.
pub struct FrozenConfigFile {
    pub version: u32,
    pub config: Config,
    pub selected_agent: Option<String>,
    pub agent_type: Option<String>,
    pub location: Option<ConfigLocation>,
}

/// A snapshot.
pub struct SnapshotView {
    pub version: u32,
    pub config: ConfigView,
    pub selected_agent: Option<Seq<char>>,
    pub agent_type: Option<Seq<char>>,
    pub location: Option<ConfigLocationView>,
}

impl DeepView for FrozenConfigFile {
    type V = SnapshotView;

    open spec fn deep_view(&self) -> SnapshotView {
        SnapshotView {
            version: self.version,
            config: self.config.deep_view(),
            selected_agent: self.selected_agent.deep_view(),
            agent_type: self.agent_type.deep_view(),
            location: self.location.deep_view(),
        }
    }
}

/// The snapshot of a configuration.
pub open spec fn snapshot_of(
    config: ConfigView,
    location: Option<ConfigLocationView>,
) -> SnapshotView {
    SnapshotView {
        version: SNAPSHOT_VERSION,
        config,
        selected_agent: config.selected_agent,
        agent_type: config.agent_type,
        location,
    }
}

impl FrozenConfigFile {
    /// Takes a snapshot of a configuration.
    pub fn capture(config: &Config, location: Option<&ConfigLocation>) -> (snapshot: Self)
        ensures
            snapshot.deep_view() == snapshot_of(
                config.deep_view(),
                match location {
                    Some(location) => Some(location.deep_view()),
                    None => None,
                },
            ),
            match (location, snapshot.location) {
                (Some(location), Some(kept)) => kept.spelled_as(*location),
                _ => true,
            },
    {
        FrozenConfigFile {
            version: SNAPSHOT_VERSION,
            config: config.dup(),
            selected_agent: config.selected_agent.dup(),
            agent_type: config.agent_type.dup(),
            location: match location {
                Some(location) => Some(location.dup()),
                None => None,
            },
        }
    }
}

/// What stands at the path of a snapshot.
#[derive(Debug, Clone, Copy, PartialEq, Eq, Structural)]
pub enum FileKind {
    /// Nothing, or nothing that can be looked at.
    Unavailable,
    Regular,
    Symlink,
    /// A directory or anything else.
    Special,
}

/// Why a snapshot cannot be used.
#[derive(Debug, Clone, Copy, PartialEq, Eq, Structural)]
pub enum FrozenConfigError {
    NotAbsolute,
    Unavailable,
    NotRegular,
    OpenFailed,
    ParseFailed,
    UnsupportedVersion(u32),
}

/// What is wrong with the path of a snapshot, if anything is.
pub open spec fn path_error(path: PathView, kind: FileKind) -> Option<FrozenConfigError> {
    if !path.absolute {
        Some(FrozenConfigError::NotAbsolute)
    } else if kind == FileKind::Unavailable {
        Some(FrozenConfigError::Unavailable)
    } else if kind != FileKind::Regular {
        Some(FrozenConfigError::NotRegular)
    } else {
        None
    }
}

/// Checks that a path is absolute and names a regular file, not a link to one.
pub fn validate_path(path: &FilePath, kind: FileKind) -> (result: Result<(), FrozenConfigError>)
    ensures
        result == (match path_error(path.deep_view(), kind) {
            Some(error) => Err::<(), FrozenConfigError>(error),
            None => Ok(()),
        }),
{
    if !path.is_absolute() {
        return Err(FrozenConfigError::NotAbsolute);
    }
    match kind {
        FileKind::Unavailable => Err(FrozenConfigError::Unavailable),
        FileKind::Regular => Ok(()),
        FileKind::Symlink => Err(FrozenConfigError::NotRegular),
        FileKind::Special => Err(FrozenConfigError::NotRegular),
    }
}

/// What reading the file of a snapshot gave.
pub enum SnapshotFile {
    Unopened,
    Malformed,
    Snapshot(FrozenConfigFile),
}

/// The configuration that a snapshot holds.
pub open spec fn restored(snapshot: SnapshotView) -> ConfigView {
    ConfigView {
        selected_agent: snapshot.selected_agent,
        agent_type: snapshot.agent_type,
        ..snapshot.config
    }
}

/// What is wrong with a snapshot, if anything is: its path first, then its file, then its version.
pub open spec fn load_error(path: PathView, kind: FileKind, file: SnapshotFile) -> Option<
    FrozenConfigError,
> {
    match path_error(path, kind) {
        Some(error) => Some(error),
        None => match file {
            SnapshotFile::Unopened => Some(FrozenConfigError::OpenFailed),
            SnapshotFile::Malformed => Some(FrozenConfigError::ParseFailed),
            SnapshotFile::Snapshot(snapshot) => if snapshot.version != SNAPSHOT_VERSION {
                Some(FrozenConfigError::UnsupportedVersion(snapshot.version))
            } else {
                None
            },
        },
    }
}

/// Gets the configuration and its location out of a snapshot.
pub fn load(path: &FilePath, kind: FileKind, file: SnapshotFile) -> (loaded: Result<
    (Config, Option<ConfigLocation>),
    FrozenConfigError,
>)
    ensures
        match loaded {
            Ok((config, location)) => {
                &&& load_error(path.deep_view(), kind, file) is None
                &&& file matches SnapshotFile::Snapshot(snapshot)
                &&& config.deep_view() == restored(snapshot.deep_view())
                &&& location == snapshot.location
            },
            Err(error) => load_error(path.deep_view(), kind, file) == Some(error),
        },
{
    match validate_path(path, kind) {
        Err(error) => Err(error),
        Ok(_) => match file {
            SnapshotFile::Unopened => Err(FrozenConfigError::OpenFailed),
            SnapshotFile::Malformed => Err(FrozenConfigError::ParseFailed),
            SnapshotFile::Snapshot(snapshot) => {
                if snapshot.version != SNAPSHOT_VERSION {
                    return Err(FrozenConfigError::UnsupportedVersion(snapshot.version));
                }
                let config = Config {
                    agent: snapshot.config.agent,
                    agent_type: snapshot.agent_type,
                    selected_agent: snapshot.selected_agent,
                    status_icons: snapshot.config.status_icons,
                    sidebar: snapshot.config.sidebar,
                    other_settings: snapshot.config.other_settings,
                };
                Ok((config, snapshot.location))
            },
        },
    }
}

/// What is said of an error on a path with this spelling.
pub open spec fn error_message(error: FrozenConfigError, path: Seq<u8>) -> Seq<char> {
    let path = crate::bytes::shown(path);
    match error {
        FrozenConfigError::NotAbsolute => "Frozen configuration snapshot path must be absolute: "@
            + path,
        FrozenConfigError::Unavailable => "Frozen configuration snapshot is unavailable: "@
            + path,
        FrozenConfigError::NotRegular => "Frozen configuration snapshot must be a regular file: "@
            + path,
        FrozenConfigError::OpenFailed => "Failed to open frozen configuration snapshot: "@
            + path,
        FrozenConfigError::ParseFailed => "Failed to parse frozen configuration snapshot: "@
            + path,
        FrozenConfigError::UnsupportedVersion(version) =>
            "Unsupported frozen configuration snapshot version "@ + crate::text::decimal_digits(
            version as nat,
        ),
    }
}

impl FrozenConfigError {
    /// What is said of this error on a path.
    pub fn message(&self, path: &FilePath) -> (message: String)
        ensures
            message@ == error_message(*self, path.spelled()),
    {
        let prefix = match self {
            FrozenConfigError::NotAbsolute =>
                "Frozen configuration snapshot path must be absolute: ",
            FrozenConfigError::Unavailable => "Frozen configuration snapshot is unavailable: ",
            FrozenConfigError::NotRegular =>
                "Frozen configuration snapshot must be a regular file: ",
            FrozenConfigError::OpenFailed => "Failed to open frozen configuration snapshot: ",
            FrozenConfigError::ParseFailed => "Failed to parse frozen configuration snapshot: ",
            FrozenConfigError::UnsupportedVersion(_) =>
                "Unsupported frozen configuration snapshot version ",
        };
        let mut message = prefix.to_owned();
        match self {
            FrozenConfigError::UnsupportedVersion(version) => message.append(
                text::decimal(*version as u64).as_str(),
            ),
            _ => message.append(path.text().as_str()),
        }
        message
    }
}

/// What was captured is what is loaded from a regular file at an absolute path, whatever the stored
/// form made of the selected agent and its type inside the configuration. A snapshot of what was
/// loaded is the same snapshot, so that it can be handed on any number of times.
pub proof fn snapshot_round_trip(
    config: ConfigView,
    location: Option<ConfigLocationView>,
    path: PathView,
    stored: FrozenConfigFile,
)
    requires
        path.absolute,
        ({
            let taken = snapshot_of(config, location);
            let kept = stored.deep_view();
            &&& kept.version == taken.version
            &&& kept.selected_agent == taken.selected_agent
            &&& kept.agent_type == taken.agent_type
            &&& kept.location == taken.location
            &&& kept.config == (ConfigView {
                selected_agent: kept.config.selected_agent,
                agent_type: kept.config.agent_type,
                ..config
            })
        }),
    ensures
        load_error(path, FileKind::Regular, SnapshotFile::Snapshot(stored)) is None,
        restored(stored.deep_view()) == config,
        stored.location.deep_view() == location,
        snapshot_of(restored(stored.deep_view()), stored.location.deep_view()) == snapshot_of(
            config,
            location,
        ),
{
}

/// No snapshot is loaded from a path that is not absolute, or at which anything but a regular file
/// stands, whatever is found there.
pub proof fn only_regular_files_are_loaded(path: PathView, kind: FileKind, file: SnapshotFile)
    requires
        !path.absolute || kind != FileKind::Regular,
    ensures
        load_error(path, kind, file) is Some,
        load_error(path, kind, file) == path_error(path, kind),
{
}

/// What keeps a snapshot from being used is told exactly: first that its path is not absolute, then what stands
/// there, then that it could not be opened or read, and then that it has another version than the first.
pub proof fn unusable_snapshots_are_told_apart(path: PathView, kind: FileKind, file: SnapshotFile)
    ensures
        ({
            let error = load_error(path, kind, file);
            let named = path.absolute && kind == FileKind::Regular;
            &&& error == Some(FrozenConfigError::NotAbsolute) <==> !path.absolute
            &&& error == Some(FrozenConfigError::Unavailable) <==> path.absolute && kind
                == FileKind::Unavailable
            &&& error == Some(FrozenConfigError::NotRegular) <==> path.absolute && (kind
                == FileKind::Symlink || kind == FileKind::Special)
            &&& error == Some(FrozenConfigError::OpenFailed) <==> named && file is Unopened
            &&& error == Some(FrozenConfigError::ParseFailed) <==> named && file is Malformed
            &&& named && file is Snapshot ==> (error is None <==> file->Snapshot_0.version == 1)
            &&& named && file is Snapshot && file->Snapshot_0.version != 1 ==> error == Some(
                FrozenConfigError::UnsupportedVersion(file->Snapshot_0.version),
            )
        }),
{
}

/// A snapshot holds the configuration that it was taken of and its location, has the first version, and keeps the
/// selected agent and its type beside the configuration, from where they are restored.
pub proof fn snapshots_hold_everything(
    config: ConfigView,
    location: Option<ConfigLocationView>,
    snapshot: SnapshotView,
)
    ensures
        ({
            let taken = snapshot_of(config, location);
            &&& taken.version == 1
            &&& taken.config == config
            &&& taken.location == location
            &&& taken.selected_agent == config.selected_agent
            &&& taken.agent_type == config.agent_type
        }),
        ({
            let config = restored(snapshot);
            &&& config.selected_agent == snapshot.selected_agent
            &&& config.agent_type == snapshot.agent_type
            &&& config == (ConfigView {
                selected_agent: config.selected_agent,
                agent_type: config.agent_type,
                ..snapshot.config
            })
        }),
{
}

/// What is said of an error names the path, or the version where that is what is wrong.
pub proof fn errors_name_the_path(error: FrozenConfigError, path: Seq<u8>)
    ensures
        error matches FrozenConfigError::UnsupportedVersion(version) ==> crate::text::decimal_digits(
            version as nat,
        ).is_suffix_of(error_message(error, path)),
        !(error is UnsupportedVersion) ==> crate::bytes::shown(path).is_suffix_of(
            error_message(error, path),
        ),
        error is NotAbsolute ==> "Frozen configuration snapshot path must be absolute: "@.is_prefix_of(
            error_message(error, path),
        ),
        error is NotRegular ==> "Frozen configuration snapshot must be a regular file: "@.is_prefix_of(
            error_message(error, path),
        ),
        error is Unavailable ==> "Frozen configuration snapshot is unavailable: "@.is_prefix_of(
            error_message(error, path),
        ),
        error is OpenFailed ==> "Failed to open frozen configuration snapshot: "@.is_prefix_of(
            error_message(error, path),
        ),
        error is ParseFailed ==> "Failed to parse frozen configuration snapshot: "@.is_prefix_of(
            error_message(error, path),
        ),
{
    let message = error_message(error, path);
    let shown = crate::bytes::shown(path);
    let prefix = match error {
        FrozenConfigError::NotAbsolute => "Frozen configuration snapshot path must be absolute: "@,
        FrozenConfigError::Unavailable => "Frozen configuration snapshot is unavailable: "@,
        FrozenConfigError::NotRegular => "Frozen configuration snapshot must be a regular file: "@,
        FrozenConfigError::OpenFailed => "Failed to open frozen configuration snapshot: "@,
        FrozenConfigError::ParseFailed => "Failed to parse frozen configuration snapshot: "@,
        FrozenConfigError::UnsupportedVersion(_) =>
            "Unsupported frozen configuration snapshot version "@,
    };
    let end = match error {
        FrozenConfigError::UnsupportedVersion(version) => crate::text::decimal_digits(
            version as nat,
        ),
        _ => shown,
    };
    assert(message == prefix + end);
    assert(message.subrange(0, prefix.len() as int) =~= prefix);
    assert(message.subrange(message.len() - end.len(), message.len() as int) =~= end);
}

} // verus!
