//! File system events.
use vstd::prelude::*;

use crate::bytes::spell_text;
use crate::paths::FilePath;

verus! {

/// Something that happened in the file system.
pub struct FsEvent {
    /// Whether events were lost, so that everything must be looked at again.
    pub needs_rescan: bool,
    /// Whether something was only read.
    pub is_access: bool,
    pub paths: Vec<FilePath>,
}

/// Whether everything must be looked at again.
pub fn git_event_requires_recovery(event: &FsEvent) -> (yes: bool)
    ensures
        yes == event.needs_rescan,
{
    event.needs_rescan
}

/// Whether a file of this name holds configuration.
pub open spec fn is_config_name(name: Seq<u8>) -> bool {
    ||| name == crate::bytes::utf8("config.yaml"@)
    ||| name == crate::bytes::utf8("config.yml"@)
    ||| name == crate::bytes::utf8(".workmux.yaml"@)
    ||| name == crate::bytes::utf8(".workmux.yml"@)
}

/// Whether a path is that of a file that holds configuration.
pub open spec fn is_config_file(path: crate::paths::PathView) -> bool {
    path.file_name() matches Some(name) && is_config_name(name)
}

/// Whether an event touches a file that holds configuration.
pub open spec fn touches_config(event: FsEvent) -> bool {
    exists|i: int| 0 <= i < event.paths@.len() && is_config_file((#[trigger] event.paths@[i]).deep_view())
}

/// Whether an event may have changed a configuration: events were lost, or a file that holds one was
/// more than read.
pub open spec fn may_change_config(event: FsEvent) -> bool {
    event.needs_rescan || (!event.is_access && touches_config(event))
}

/// Whether an event means that the configuration may have changed. Reading does not: the daemon
/// itself reads it. Where events were lost it may have.
pub fn config_event_triggers_reload(event: &FsEvent) -> (yes: bool)
    ensures
        yes == may_change_config(*event),
{
    if event.needs_rescan {
        return true;
    }
    if event.is_access {
        return false;
    }
    for i in 0..event.paths.len()
        invariant
            !event.is_access,
            forall|j: int|
                0 <= j < i ==> !is_config_file((#[trigger] event.paths@[j]).deep_view()),
    {
        if let Some(name) = event.paths[i].file_name() {
            if spell_text(name, "config.yaml") || spell_text(name, "config.yml")
                || spell_text(name, ".workmux.yaml") || spell_text(name, ".workmux.yml") {
                assert(is_config_file(event.paths@[i as int].deep_view()));
                assert(touches_config(*event));
                return true;
            }
        }
        assert(!is_config_file(event.paths@[i as int].deep_view()));
    }
    false
}

/// A path is that of a configuration if its last component is one of the four names that these have.
pub proof fn configurations_are_known_by_name(path: crate::paths::PathView, name: Seq<char>)
    requires
        path.file_name() == Some(crate::bytes::utf8(name)),
    ensures
        is_config_file(path) <==> name == "config.yaml"@ || name == "config.yml"@ || name
            == ".workmux.yaml"@ || name == ".workmux.yml"@,
{
    crate::bytes::texts_are_told_apart(name, "config.yaml"@);
    crate::bytes::texts_are_told_apart(name, "config.yml"@);
    crate::bytes::texts_are_told_apart(name, ".workmux.yaml"@);
    crate::bytes::texts_are_told_apart(name, ".workmux.yml"@);
}

/// A change of a configuration among whatever other paths of an event counts, reading one does not, and where events
/// were lost it must be assumed.
pub proof fn changed_configurations_count(event: FsEvent, i: int)
    requires
        0 <= i < event.paths@.len(),
        is_config_file(event.paths@[i].deep_view()),
    ensures
        may_change_config(event) <==> event.needs_rescan || !event.is_access,
{
}

} // verus!
