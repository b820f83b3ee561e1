//! Status tracking for an agent that keeps its hooks in `settings.json`. The agent's name is
//! handed in: its configuration directory and what is reported are named after it.
use vstd::prelude::*;

use super::extension_file::FileProbe;
use super::{SetupError, StatusCheck};
use crate::paths::FilePath;
use crate::text;
use crate::values::Value;

verus! {

/// What the library reads of a settings file: the members of `enabledPlugins`, each with its value
/// if that is a flag, if there is such an object.
pub struct Settings {
    pub enabled_plugins: Option<Vec<(String, Option<bool>)>>,
}

/// What the library reads of a settings file.
pub struct SettingsView {
    pub enabled_plugins: Option<Seq<(Seq<char>, Option<bool>)>>,
}

impl DeepView for Settings {
    type V = SettingsView;

    open spec fn deep_view(&self) -> SettingsView {
        SettingsView { enabled_plugins: self.enabled_plugins.deep_view() }
    }
}

/// What `serde_json` finds in a text under the name of a member: nothing if the text is not JSON,
/// else the members of the object under that name, if there is one, each with its value if that is
/// `true` or `false`.
pub uninterp spec fn json_flags(text: Seq<char>, name: Seq<char>) -> Option<
    Option<Seq<(Seq<char>, Option<bool>)>>,
>;

/// Reads a text by [`serde_json::from_str`] and looks a member up by `Value::get`,
/// `Value::as_object` and `Value::as_bool`. Which texts are JSON, and what they hold, is left to the
/// crate: the result is a function of the text and the name.
#[verifier::external_body]
fn read_json_flags(text: &str, name: &str) -> (flags: Option<Option<Vec<(String, Option<bool>)>>>)
    ensures
        flags.deep_view() == json_flags(text@, name@),
{
    let value: serde_json::Value = serde_json::from_str(text).ok()?;
    let object = value.get(name).and_then(|member| member.as_object());
    Some(object.map(|members| members.iter().map(|(key, flag)| (key.clone(), flag.as_bool())).collect()))
}

/// What `serde_json` prints of a text that is JSON, with line breaks and indentation.
pub uninterp spec fn json_print(text: Seq<char>) -> Option<Seq<char>>;

/// Reads a text by [`serde_json::from_str`] and prints it by [`serde_json::to_string_pretty`]. The
/// result is a function of the text.
#[verifier::external_body]
fn print_json(text: &str) -> (printed: Option<String>)
    ensures
        printed.deep_view() == json_print(text@),
{
    let value: serde_json::Value = serde_json::from_str(text).ok()?;
    serde_json::to_string_pretty(&value).ok()
}

/// The settings that a text spells, if it is JSON.
pub open spec fn settings_of(text: Seq<char>) -> Option<SettingsView> {
    match json_flags(text, "enabledPlugins"@) {
        Some(enabled_plugins) => Some(SettingsView { enabled_plugins }),
        None => None,
    }
}

/// Reads settings.
pub fn read_settings(content: &str) -> (settings: Result<Settings, SetupError>)
    ensures
        match settings {
            Ok(settings) => settings_of(content@) == Some(settings.deep_view()),
            Err(error) => settings_of(content@) is None && error == SetupError::NotJson,
        },
{
    match read_json_flags(content, "enabledPlugins") {
        Some(enabled_plugins) => Ok(Settings { enabled_plugins }),
        None => Err(SetupError::NotJson),
    }
}

/// How the keys of the status plugin begin.
pub const PLUGIN_PREFIX: &'static str = "workmux-status@";

/// Whether a member of `enabledPlugins` switches the status plugin on.
pub open spec fn enables_plugin(plugin: (Seq<char>, Option<bool>)) -> bool {
    PLUGIN_PREFIX@.is_prefix_of(plugin.0) && plugin.1 == Some(true)
}

/// Whether one of these members switches the status plugin on.
pub open spec fn some_enables(plugins: Seq<(Seq<char>, Option<bool>)>) -> bool {
    exists|i: int| 0 <= i < plugins.len() && enables_plugin(#[trigger] plugins[i])
}

/// Whether the settings switch the status plugin on.
pub open spec fn plugin_enabled(settings: SettingsView) -> bool {
    settings.enabled_plugins matches Some(plugins) && some_enables(plugins)
}

fn has_enabled_plugin(settings: &Settings) -> (yes: bool)
    ensures
        yes == plugin_enabled(settings.deep_view()),
{
    match &settings.enabled_plugins {
        Some(plugins) => {
            let ghost members = plugins.deep_view();
            for i in 0..plugins.len()
                invariant
                    members == plugins.deep_view(),
                    settings.deep_view().enabled_plugins == Some(members),
                    forall|j: int| 0 <= j < i ==> !enables_plugin(#[trigger] members[j]),
            {
                let ghost member = members[i as int];
                assert(member == (plugins@[i as int].0@, plugins@[i as int].1));
                let on = matches!(plugins[i].1, Some(true));
                if text::starts_with(plugins[i].0.as_str(), PLUGIN_PREFIX) && on {
                    assert(enables_plugin(members[i as int]));
                    assert(some_enables(members));
                    return true;
                }
                assert(!enables_plugin(members[i as int]));
            }
            false
        },
        None => false,
    }
}

/// A text with another one in its middle.
fn phrase(before: &str, middle: &str, after: &str) -> (text: String)
    ensures
        text@ == before@ + middle@ + after@,
{
    let mut text = before.to_owned();
    text.append(middle);
    text.append(after);
    text
}

/// The name of the agent's configuration directory: a dot and the agent's name in lower case.
pub open spec fn dir_name(agent: Seq<char>) -> Seq<char> {
    "."@ + crate::text::lower(agent)
}

fn config_dir_name(agent: &str) -> (name: String)
    ensures
        name@ == dir_name(agent@),
{
    let mut name = ".".to_owned();
    name.append(text::to_ascii_lowercase(agent).as_str());
    name
}

/// The configuration directory: the configured one, else that of the agent in the home directory.
pub fn claude_dir_from_config(agent: &str, home: FilePath, config_dir: Option<FilePath>) -> (dir:
    FilePath)
    ensures
        dir.deep_view() == (match config_dir {
            Some(config_dir) => config_dir.deep_view(),
            None => home.deep_view().join(crate::paths::path_of(crate::bytes::utf8(dir_name(agent@)))),
        }),
        dir.spelled() == (match config_dir {
            Some(config_dir) => config_dir.spelled(),
            None => crate::paths::joined(home.spelled(), crate::bytes::utf8(dir_name(agent@))),
        }),
{
    match config_dir {
        Some(dir) => dir,
        None => home.child(config_dir_name(agent).as_str()),
    }
}

/// The configuration directory, if the home directory is known.
pub fn claude_dir(agent: &str, home: Option<FilePath>, config_dir: Option<FilePath>) -> (dir:
    Option<FilePath>)
    ensures
        dir.deep_view() == (match (home, config_dir) {
            (Some(_), Some(config_dir)) => Some(config_dir.deep_view()),
            (Some(home), None) => Some(
                home.deep_view().join(crate::paths::path_of(crate::bytes::utf8(dir_name(agent@)))),
            ),
            (None, _) => None,
        }),
        dir matches Some(dir) ==> dir.spelled() == (match config_dir {
            Some(config_dir) => config_dir.spelled(),
            None => crate::paths::joined(home->0.spelled(), crate::bytes::utf8(dir_name(agent@))),
        }),
{
    match home {
        Some(home) => Some(claude_dir_from_config(agent, home, config_dir)),
        None => None,
    }
}

/// The settings file in the configuration directory.
pub fn settings_path(dir: Option<FilePath>) -> (path: Option<FilePath>)
    ensures
        path.deep_view() == (match dir {
            Some(dir) => Some(dir.deep_view().join(crate::paths::path_of(crate::bytes::utf8("settings.json"@)))),
            None => None,
        }),
        path matches Some(path) ==> path.spelled() == crate::paths::joined(
            dir->0.spelled(),
            crate::bytes::utf8("settings.json"@),
        ),
{
    match dir {
        Some(dir) => Some(dir.child("settings.json")),
        None => None,
    }
}

/// Detects the agent by its configuration directory. `is_dir` says whether that directory
/// exists, if one is known.
pub fn detect(agent: &str, is_dir: Option<bool>) -> (reason: Option<String>)
    ensures
        match reason {
            Some(reason) => {
                &&& is_dir == Some(true)
                &&& reason@ == "found "@ + agent@ + " config directory"@
            },
            None => is_dir != Some(true),
        },
{
    match is_dir {
        Some(true) => Some(phrase("found ", agent, " config directory")),
        _ => None,
    }
}

/// How much of the bundled hooks stands in the settings.
#[derive(Debug, Clone, Copy, PartialEq, Eq, Structural)]
pub struct HookFacts {
    /// Every bundled command stands in its event and matcher scope.
    pub complete: bool,
    /// Some workmux hook stands there.
    pub any: bool,
}

/// The status that the settings show.
pub open spec fn settings_status(settings: SettingsView, hooks: HookFacts) -> StatusCheck {
    if plugin_enabled(settings) || hooks.complete {
        StatusCheck::Installed
    } else if hooks.any {
        StatusCheck::UpdateAvailable
    } else {
        StatusCheck::NotInstalled
    }
}

/// Checks settings for the enabled plugin, then for the hooks.
pub fn check_settings(settings: &Settings, hooks: HookFacts) -> (status: StatusCheck)
    ensures
        status == settings_status(settings.deep_view(), hooks),
{
    if has_enabled_plugin(settings) {
        return StatusCheck::Installed;
    }
    if hooks.complete {
        return StatusCheck::Installed;
    }
    if hooks.any {
        return StatusCheck::UpdateAvailable;
    }
    StatusCheck::NotInstalled
}

/// Checks whether status tracking is set up, by what was found at the path of the settings file.
/// Without a home directory nothing was probed.
pub fn check(probe: Option<&FileProbe>, hooks: HookFacts) -> (status: Result<
    StatusCheck,
    SetupError,
>)
    ensures
        status == (match probe {
            Some(FileProbe::Unreadable) => Err(SetupError::ReadFailed),
            Some(FileProbe::Text(content)) => match settings_of(content@) {
                Some(settings) => Ok(settings_status(settings, hooks)),
                None => Err(SetupError::NotJson),
            },
            _ => Ok(StatusCheck::NotInstalled),
        }),
{
    match probe {
        Some(FileProbe::Unreadable) => Err(SetupError::ReadFailed),
        Some(FileProbe::Text(content)) => match read_settings(content.as_str()) {
            Ok(settings) => Ok(check_settings(&settings, hooks)),
            Err(error) => Err(error),
        },
        _ => Ok(StatusCheck::NotInstalled),
    }
}

/// How hooks are taken out of a settings file.
pub struct UninstallRequest {
    pub path: FilePath,
    /// Reported when there is no file.
    pub file_missing: String,
    /// Reported when the file holds no hook.
    pub not_found: String,
    pub delete_if_no_hooks_remain: bool,
    pub remove_plugins: bool,
    pub soft_errors: bool,
}

impl UninstallRequest {
    /// The request for the settings file at a path.
    pub open spec fn is_for(self, agent: Seq<char>, path: FilePath) -> bool {
        &&& self.path == path
        &&& self.file_missing@ == "No "@ + agent + " Code settings.json found"@
        &&& self.not_found@ == "No workmux hooks found in "@ + agent + " Code settings"@
        &&& !self.delete_if_no_hooks_remain
        &&& self.remove_plugins
        &&& !self.soft_errors
    }
}

/// What uninstalling does.
pub enum Uninstall {
    /// Nothing but report this.
    Nothing(String),
    /// Take the hooks out of the settings file.
    Run(UninstallRequest),
}

/// The request that takes the hooks out of the settings file at a path.
pub fn uninstall_at(agent: &str, path: FilePath) -> (request: UninstallRequest)
    ensures
        request.is_for(agent@, path),
{
    UninstallRequest {
        path,
        file_missing: phrase("No ", agent, " Code settings.json found"),
        not_found: phrase("No workmux hooks found in ", agent, " Code settings"),
        delete_if_no_hooks_remain: false,
        remove_plugins: true,
        soft_errors: false,
    }
}

/// Takes the hooks out of the settings file, if its path is known.
pub fn uninstall(agent: &str, path: Option<FilePath>) -> (step: Uninstall)
    ensures
        match path {
            Some(path) => {
                &&& step matches Uninstall::Run(request)
                &&& request.is_for(agent@, path)
            },
            None => {
                &&& step matches Uninstall::Nothing(report)
                &&& report@ == agent@ + " Code config dir not found, nothing to uninstall"@
            },
        },
{
    match path {
        Some(path) => Uninstall::Run(uninstall_at(agent, path)),
        None => {
            let mut report = agent.to_owned();
            report.append(" Code config dir not found, nothing to uninstall");
            Uninstall::Nothing(report)
        },
    }
}

/// How hooks are merged into a settings file.
pub struct InstallRequest {
    pub path: FilePath,
    pub read_context: String,
    pub parse_context: String,
    pub write_context: String,
    pub mkdir_context: String,
    /// Reported when it is done.
    pub message: String,
}

/// Plans the hooks in the settings file at a path. A file that does not exist is taken for an
/// empty object.
pub fn install(agent: &str, path: Option<FilePath>) -> (request: Result<
    InstallRequest,
    SetupError,
>)
    ensures
        match request {
            Ok(request) => {
                let dir = dir_name(agent@);
                &&& path is Some
                &&& request.path == path->0
                &&& request.read_context@ == "Failed to read ~/"@ + dir + "/settings.json"@
                &&& request.parse_context@ == "~/"@ + dir + "/settings.json is not valid JSON"@
                &&& request.write_context@ == "Failed to write ~/"@ + dir + "/settings.json"@
                &&& request.mkdir_context@ == "Failed to create ~/"@ + dir + "/ directory"@
                &&& request.message@ == "Installed hooks to "@ + crate::bytes::shown(
                    path->0.spelled(),
                )
            },
            Err(error) => error == SetupError::NoHome && path is None,
        },
{
    match path {
        Some(path) => {
            let name = config_dir_name(agent);
            let dir = name.as_str();
            let mut message = "Installed hooks to ".to_owned();
            message.append(path.text().as_str());
            Ok(
                InstallRequest {
                    path,
                    read_context: phrase("Failed to read ~/", dir, "/settings.json"),
                    parse_context: phrase("~/", dir, "/settings.json is not valid JSON"),
                    write_context: phrase("Failed to write ~/", dir, "/settings.json"),
                    mkdir_context: phrase("Failed to create ~/", dir, "/ directory"),
                    message,
                },
            )
        },
        None => Err(SetupError::NoHome),
    }
}

/// Settings before and after an update.
pub struct UpdatePreview {
    pub label: String,
    pub installed: String,
    pub bundled: String,
}

/// Shows what an update of the settings file would change. `merged` is the text of the settings
/// with the missing hooks.
pub fn update_preview(path: &FilePath, probe: &FileProbe, merged: &str) -> (preview: Result<
    Option<UpdatePreview>,
    SetupError,
>)
    ensures
        match probe {
            FileProbe::Missing => preview matches Ok(None),
            FileProbe::Unreadable => preview matches Err(SetupError::ReadFailed),
            FileProbe::Text(content) => match (json_print(content@), json_print(merged@)) {
                (Some(installed), Some(bundled)) => {
                    &&& preview matches Ok(Some(shown))
                    &&& shown.label@ == crate::bytes::shown(path.spelled())
                    &&& shown.installed@ == installed.push('\n')
                    &&& shown.bundled@ == bundled.push('\n')
                },
                _ => preview matches Err(SetupError::NotJson),
            },
        },
{
    match probe {
        FileProbe::Missing => Ok(None),
        FileProbe::Unreadable => Err(SetupError::ReadFailed),
        FileProbe::Text(content) => match (print_json(content.as_str()), print_json(merged)) {
            (Some(installed), Some(bundled)) => Ok(
                Some(preview_of(path, installed, bundled)),
            ),
            _ => Err(SetupError::NotJson),
        },
    }
}

/// The preview of two printed settings.
pub fn preview_of(path: &FilePath, installed: String, bundled: String) -> (preview: UpdatePreview)
    ensures
        preview.label@ == crate::bytes::shown(path.spelled()),
        preview.installed@ == installed@.push('\n'),
        preview.bundled@ == bundled@.push('\n'),
{
    let mut installed = installed;
    installed.push('\n');
    let mut bundled = bundled;
    bundled.push('\n');
    UpdatePreview { label: path.text(), installed, bundled }
}

/// Status tracking is set up if the settings switch on a plugin whose key begins with `workmux-status@`, or hold
/// every bundled hook; with some of the hooks it can be updated, and with none it is not set up.
pub proof fn plugins_or_hooks_set_tracking_up(settings: SettingsView, hooks: HookFacts)
    ensures
        ({
            let enabled = settings.enabled_plugins is Some && exists|i: int|
                0 <= i < settings.enabled_plugins->0.len() && "workmux-status@"@.is_prefix_of(
                    (#[trigger] settings.enabled_plugins->0[i]).0,
                ) && settings.enabled_plugins->0[i].1 == Some(true);
            let status = settings_status(settings, hooks);
            &&& status == StatusCheck::Installed <==> enabled || hooks.complete
            &&& status == StatusCheck::UpdateAvailable <==> !enabled && !hooks.complete && hooks.any
            &&& status == StatusCheck::NotInstalled <==> !enabled && !hooks.complete && !hooks.any
        }),
{
    if let Some(plugins) = settings.enabled_plugins {
        if some_enables(plugins) {
            let i = choose|i: int| 0 <= i < plugins.len() && enables_plugin(#[trigger] plugins[i]);
            assert("workmux-status@"@.is_prefix_of(plugins[i].0));
        }
        if exists|i: int|
            0 <= i < plugins.len() && "workmux-status@"@.is_prefix_of((#[trigger] plugins[i]).0)
                && plugins[i].1 == Some(true) {
            let i = choose|i: int|
                0 <= i < plugins.len() && "workmux-status@"@.is_prefix_of((#[trigger] plugins[i]).0)
                    && plugins[i].1 == Some(true);
            assert(enables_plugin(plugins[i]));
        }
    }
}

/// Uninstalling takes the plugins along, keeps a settings file that holds no hooks any more, and reports what goes
/// wrong.
pub proof fn plugins_are_taken_along(request: UninstallRequest, agent: Seq<char>, path: FilePath)
    requires
        request.is_for(agent, path),
    ensures
        request.path == path,
        request.remove_plugins,
        !request.delete_if_no_hooks_remain,
        !request.soft_errors,
        request.file_missing@ == "No "@ + agent + " Code settings.json found"@,
        request.not_found@ == "No workmux hooks found in "@ + agent + " Code settings"@,
{
}

/// The configuration directory of an agent is hidden and named after it in lower case.
pub proof fn directories_are_named_after_agents(agent: Seq<char>, i: int)
    requires
        0 <= i < agent.len(),
    ensures
        dir_name(agent).len() == agent.len() + 1,
        dir_name(agent)[0] == '.',
        dir_name(agent)[i + 1] == crate::text::lower_char(agent[i]),
{
    reveal_strlit(".");
}

/// Settings are read if and only if their text is JSON, and the plugins are those that stand under `enabledPlugins`.
pub proof fn plugins_stand_under_their_name(text: Seq<char>)
    ensures
        settings_of(text) is None <==> json_flags(text, "enabledPlugins"@) is None,
        settings_of(text) matches Some(settings) ==> json_flags(text, "enabledPlugins"@) == Some(
            settings.enabled_plugins,
        ),
{
}

} // verus!
