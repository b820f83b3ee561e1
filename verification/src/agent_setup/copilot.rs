//! Copilot CLI status tracking: a personal hook under `~/.copilot/hooks/`.
use vstd::prelude::*;

use super::extension_file::{install_extension_file, FileProbe, FileStep, RemoveStage};
use super::{SetupError, StatusCheck};
use crate::paths::FilePath;
use crate::text;
use crate::values::Value;

verus! {

/// The hooks that are installed. Which hooks there are is a choice of this file: an agent that works
/// is shown as working, and one that has stopped as done. Of the text the code relies only on the
/// command by which an installed hook is known; everything else in it may be put differently.
pub const HOOKS_JSON: &'static str = "{\n  \"version\": 1,\n  \"hooks\": {\n    \"userPromptSubmitted\": [\n      { \"type\": \"command\", \"bash\": \"workmux set-window-status working\" }\n    ],\n    \"postToolUse\": [\n      { \"type\": \"command\", \"bash\": \"workmux set-window-status working\" }\n    ],\n    \"agentStop\": [\n      { \"type\": \"command\", \"bash\": \"workmux set-window-status done\" }\n    ]\n  }\n}\n";

/// The command by which an installed hook is known.
pub const STATUS_COMMAND: &'static str = "workmux set-window-status";

/// The configuration directory: the configured one, else `.copilot` in the home directory.
pub fn copilot_dir(config_dir: Option<FilePath>, home: Option<&FilePath>) -> (dir: Option<FilePath>)
    ensures
        dir.deep_view() == (match (config_dir, home) {
            (Some(config_dir), _) => Some(config_dir.deep_view()),
            (None, Some(home)) => Some(
                home.deep_view().join(crate::paths::path_of(crate::bytes::utf8(".copilot"@))),
            ),
            (None, None) => None,
        }),
        dir matches Some(dir) ==> dir.spelled() == (match config_dir {
            Some(config_dir) => config_dir.spelled(),
            None => crate::paths::joined(home->0.spelled(), crate::bytes::utf8(".copilot"@)),
        }),
{
    match config_dir {
        Some(dir) => Some(dir),
        None => match home {
            Some(home) => Some(home.child(".copilot")),
            None => None,
        },
    }
}

/// The path of the hooks file below a home directory.
pub open spec fn hooks_path(home: crate::paths::PathView) -> crate::paths::PathView {
    home.join(crate::paths::path_of(crate::bytes::utf8(".copilot/hooks"@))).join(
        crate::paths::path_of(crate::bytes::utf8("workmux-status.json"@)),
    )
}

/// The spelling of the hooks file below a home directory with a spelling.
pub open spec fn hooks_spelling(home: Seq<u8>) -> Seq<u8> {
    crate::paths::joined(
        crate::paths::joined(home, crate::bytes::utf8(".copilot/hooks"@)),
        crate::bytes::utf8("workmux-status.json"@),
    )
}

/// The hooks file below a home directory.
pub fn hooks_file_at(home: &FilePath) -> (path: FilePath)
    ensures
        path.deep_view() == hooks_path(home.deep_view()),
        path.spelled() == hooks_spelling(home.spelled()),
{
    home.child(".copilot/hooks").child("workmux-status.json")
}

/// The hooks file, if the home directory is known.
pub fn hooks_file(home: Option<&FilePath>) -> (path: Option<FilePath>)
    ensures
        path.deep_view() == (match home {
            Some(home) => Some(hooks_path(home.deep_view())),
            None => None,
        }),
        path matches Some(path) ==> path.spelled() == hooks_spelling(home->0.spelled()),
{
    match home {
        Some(home) => Some(hooks_file_at(home)),
        None => None,
    }
}

/// Detects Copilot CLI by its configuration directory. `is_dir` says whether that directory
/// exists, if one is known.
pub fn detect(is_dir: Option<bool>) -> (reason: Option<&'static str>)
    ensures
        match reason {
            Some(reason) => is_dir == Some(true) && reason@ == "found Copilot config directory"@,
            None => is_dir != Some(true),
        },
{
    match is_dir {
        Some(true) => Some("found Copilot config directory"),
        _ => None,
    }
}

/// The status that the text of the hooks file shows.
pub open spec fn hooks_status(content: Seq<char>) -> StatusCheck {
    if crate::text::has_text(content, STATUS_COMMAND@) {
        StatusCheck::Installed
    } else {
        StatusCheck::NotInstalled
    }
}

/// Whether the personal hook is installed, by what was found at the path of the hooks file.
pub fn check_at(probe: &FileProbe) -> (status: Result<StatusCheck, SetupError>)
    ensures
        status == (match probe {
            FileProbe::Missing => Ok(StatusCheck::NotInstalled),
            FileProbe::Unreadable => Err(SetupError::ReadFailed),
            FileProbe::Text(content) => Ok(hooks_status(content@)),
        }),
{
    match probe {
        FileProbe::Missing => Ok(StatusCheck::NotInstalled),
        FileProbe::Unreadable => Err(SetupError::ReadFailed),
        FileProbe::Text(content) => if text::contains(content.as_str(), STATUS_COMMAND) {
            Ok(StatusCheck::Installed)
        } else {
            Ok(StatusCheck::NotInstalled)
        },
    }
}

/// Whether the personal hook is installed. Without a home directory nothing was probed.
pub fn check(probe: Option<&FileProbe>) -> (status: Result<StatusCheck, SetupError>)
    ensures
        status == (match probe {
            Some(FileProbe::Unreadable) => Err(SetupError::ReadFailed),
            Some(FileProbe::Text(content)) => Ok(hooks_status(content@)),
            _ => Ok(StatusCheck::NotInstalled),
        }),
{
    match probe {
        Some(probe) => check_at(probe),
        None => Ok(StatusCheck::NotInstalled),
    }
}

/// What installing does, and what it reports when it is done.
pub struct InstallPlan {
    pub steps: Vec<FileStep>,
    pub message: String,
}

/// `prefix` and a path behind it, as it is spelled.
pub open spec fn about(prefix: Seq<char>, path: Seq<u8>) -> Seq<char> {
    prefix + crate::bytes::shown(path)
}

fn about_path(prefix: &str, path: &FilePath) -> (message: String)
    ensures
        message@ == about(prefix@, path.spelled()),
{
    let mut message = prefix.to_owned();
    message.append(path.text().as_str());
    message
}

/// Plans the hooks file at a path.
pub fn install_at(path: &FilePath) -> (plan: Result<InstallPlan, SetupError>)
    ensures
        match plan {
            Ok(plan) => {
                let at = path.spelled();
                &&& path.deep_view().parent() is Some
                &&& plan.steps.deep_view() == super::extension_file::install_steps(
                    at,
                    HOOKS_JSON@,
                    about("Failed to create "@, crate::paths::parent_spelling(at)),
                    about("Failed to write Copilot hooks to "@, at),
                )
                &&& plan.message@ == about("Installed hooks to "@, at)
            },
            Err(error) => error == SetupError::NoParent && path.deep_view().parent() is None,
        },
{
    let dir = match path.parent() {
        Some(dir) => dir,
        None => {
            return Err(SetupError::NoParent);
        },
    };
    let mkdir_context = about_path("Failed to create ", &dir);
    let write_context = about_path("Failed to write Copilot hooks to ", path);
    let steps = install_extension_file(
        path,
        HOOKS_JSON,
        mkdir_context.as_str(),
        write_context.as_str(),
    );
    Ok(InstallPlan { steps, message: about_path("Installed hooks to ", path) })
}

/// Plans the personal hook.
pub fn install(home: Option<&FilePath>) -> (plan: Result<InstallPlan, SetupError>)
    ensures
        match plan {
            Ok(plan) => {
                let at = hooks_spelling(home->0.spelled());
                &&& home is Some
                &&& plan.steps.deep_view() == super::extension_file::install_steps(
                    at,
                    HOOKS_JSON@,
                    about("Failed to create "@, crate::paths::parent_spelling(at)),
                    about("Failed to write Copilot hooks to "@, at),
                )
                &&& plan.message@ == about("Installed hooks to "@, at)
            },
            Err(error) => error == SetupError::NoHome && home is None,
        },
{
    match hooks_file(home) {
        Some(path) => {
            proof {
                lemma_hooks_path_has_parent(home->0.deep_view());
            }
            install_at(&path)
        },
        None => Err(SetupError::NoHome),
    }
}

/// The hooks file lies in a directory of its own below every home directory.
pub proof fn lemma_hooks_path_has_parent(home: crate::paths::PathView)
    ensures
        hooks_path(home).parts.len() > 0,
        hooks_path(home).parts.last() == crate::bytes::utf8("workmux-status.json"@),
        hooks_path(home).parent() == Some(home.join(crate::paths::path_of(crate::bytes::utf8(".copilot/hooks"@)))),
{
    let text = "workmux-status.json"@;
    reveal_strlit("workmux-status.json");
    assert(text.len() == 19);
    assert(!text.contains('/'));
    crate::bytes::utf8_keeps_slashes(text);
    let name = crate::bytes::utf8(text);
    crate::paths::lemma_path_of_name(name);
    assert(name.len() != seq![crate::paths::DOT].len());
    let dir = home.join(crate::paths::path_of(crate::bytes::utf8(".copilot/hooks"@)));
    assert(hooks_path(home).parts.drop_last() =~= dir.parts);
}

/// Reports the end of a removal of the hooks file at a path.
pub fn uninstall_at(path: &FilePath, end: RemoveStage) -> (report: Result<String, SetupError>)
    ensures
        match report {
            Ok(message) => if end == RemoveStage::Absent {
                message@ == "No Copilot personal hooks found"@
            } else {
                end == RemoveStage::Removed && message@ == about(
                    "Removed Copilot hooks from "@,
                    path.spelled(),
                )
            },
            Err(error) => error == SetupError::RemoveFailed && end != RemoveStage::Absent && end
                != RemoveStage::Removed,
        },
{
    match end {
        RemoveStage::Absent => Ok("No Copilot personal hooks found".to_owned()),
        RemoveStage::Removed => Ok(about_path("Removed Copilot hooks from ", path)),
        _ => Err(SetupError::RemoveFailed),
    }
}

/// Reports the removal of the personal hook. Without a home directory nothing is removed.
pub fn uninstall(home: Option<&FilePath>, end: RemoveStage) -> (report: Result<String, SetupError>)
    ensures
        match report {
            Ok(message) => match home {
                None => message@ == "Home directory not found, no Copilot hooks removed"@,
                Some(home) => if end == RemoveStage::Absent {
                    message@ == "No Copilot personal hooks found"@
                } else {
                    end == RemoveStage::Removed && message@ == about(
                        "Removed Copilot hooks from "@,
                        hooks_spelling(home.spelled()),
                    )
                },
            },
            Err(error) => error == SetupError::RemoveFailed && home is Some && end
                != RemoveStage::Absent && end != RemoveStage::Removed,
        },
{
    match hooks_file(home) {
        Some(path) => uninstall_at(&path, end),
        None => Ok("Home directory not found, no Copilot hooks removed".to_owned()),
    }
}

/// Behind an installation checking finds the hooks, below whatever home directory and whatever
/// files there were; other files are as they were, and to install again changes nothing.
pub proof fn installed_hooks_are_found(
    files: Map<crate::paths::PathView, Seq<char>>,
    home: Seq<u8>,
    mkdir_context: Seq<char>,
    write_context: Seq<char>,
)
    ensures
        ({
            let path = hooks_path(crate::paths::path_of(home));
            let steps = super::extension_file::install_steps(
                hooks_spelling(home),
                HOOKS_JSON@,
                mkdir_context,
                write_context,
            );
            let once = super::extension_file::files_after(files, steps);
            &&& hooks_status(once[path]) == StatusCheck::Installed
            &&& once.remove(path) == files.remove(path)
            &&& super::extension_file::files_after(once, steps) == once
        }),
{
    let path = hooks_path(crate::paths::path_of(home));
    let dir = crate::bytes::utf8(".copilot/hooks"@);
    crate::paths::joined_spells_join(home, dir);
    crate::paths::joined_spells_join(
        crate::paths::joined(home, dir),
        crate::bytes::utf8("workmux-status.json"@),
    );
    super::extension_file::installing_is_idempotent(
        files,
        hooks_spelling(home),
        HOOKS_JSON@,
        mkdir_context,
        write_context,
    );
    assert(files.insert(path, HOOKS_JSON@).remove(path) =~= files.remove(path));
    lemma_hooks_hold_command();
}

proof fn lemma_hooks_hold_command()
    ensures
        crate::text::has_text(HOOKS_JSON@, STATUS_COMMAND@),
{
    reveal_strlit("{\n  \"version\": 1,\n  \"hooks\": {\n    \"userPromptSubmitted\": [\n      { \"type\": \"command\", \"bash\": \"workmux set-window-status working\" }\n    ],\n    \"postToolUse\": [\n      { \"type\": \"command\", \"bash\": \"workmux set-window-status working\" }\n    ],\n    \"agentStop\": [\n      { \"type\": \"command\", \"bash\": \"workmux set-window-status done\" }\n    ]\n  }\n}\n");
    reveal_strlit("workmux set-window-status");
    assert(HOOKS_JSON@.subrange(96, 121) =~= STATUS_COMMAND@);
    assert(crate::text::stands_at(HOOKS_JSON@, STATUS_COMMAND@, 96));
}

/// The hooks count as installed if and only if the file holds the command that sets the status of a window, at
/// whatever place.
pub proof fn hooks_are_known_by_their_command(before: Seq<char>, after: Seq<char>, content: Seq<char>)
    ensures
        hooks_status(before + "workmux set-window-status"@ + after) == StatusCheck::Installed,
        hooks_status(content) == StatusCheck::Installed ==> exists|at: int|
            0 <= at <= content.len() && "workmux set-window-status"@.is_prefix_of(
                #[trigger] content.skip(at),
            ),
        hooks_status(content) != StatusCheck::Installed ==> hooks_status(content)
            == StatusCheck::NotInstalled,
{
    let command = "workmux set-window-status"@;
    let whole = before + command + after;
    let n = before.len() as int;
    assert(whole.subrange(n, n + command.len()) =~= command);
    assert(crate::text::stands_at(whole, command, n));
    if crate::text::has_text(content, command) {
        let at = choose|at: int| crate::text::stands_at(content, command, at);
        assert(content.skip(at).subrange(0, command.len() as int) =~= content.subrange(
            at,
            at + command.len(),
        ));
        assert(command.is_prefix_of(content.skip(at)));
    }
}

} // verus!
