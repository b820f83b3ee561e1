//! Status tracking for agents: detecting them, and installing, checking and removing hooks.
use vstd::prelude::*;

pub mod claude;
pub mod copilot;
pub mod extension_file;

verus! {

/// How far status tracking is set up for an agent.
#[derive(Debug, Clone, Copy, PartialEq, Eq, Structural)]
pub enum StatusCheck {
    /// All of it is in place.
    Installed,
    /// Some of it is in place.
    UpdateAvailable,
    /// None of it is in place.
    NotInstalled,
}

/// Why a setup step failed.
#[derive(Debug, Clone, Copy, PartialEq, Eq, Structural)]
pub enum SetupError {
    /// The home directory is not known.
    NoHome,
    /// The path of the hooks file has no parent directory.
    NoParent,
    /// A file could not be read.
    ReadFailed,
    /// The settings file is not JSON.
    NotJson,
    /// A file could not be removed.
    RemoveFailed,
}

} // verus!
