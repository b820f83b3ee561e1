use workmux::agent_setup::claude::{
    check, check_settings, claude_dir, claude_dir_from_config, detect, install, read_settings,
    settings_path, uninstall, uninstall_at, update_preview, HookFacts, Uninstall,
};
use workmux::agent_setup::extension_file::FileProbe;
use workmux::agent_setup::{SetupError, StatusCheck};
use workmux::paths::FilePath;

const NO_HOOKS: HookFacts = HookFacts {
    complete: false,
    any: false,
};
const SOME_HOOKS: HookFacts = HookFacts {
    complete: false,
    any: true,
};
const ALL_HOOKS: HookFacts = HookFacts {
    complete: true,
    any: true,
};

/// The agents whose hooks stand in `settings.json`.
#[derive(Debug)]
enum Agent {
    Claude,
}

fn agent() -> String {
    format!("{:?}", Agent::Claude)
}

fn dir_name() -> String {
    format!(".{}", agent().to_lowercase())
}

fn status(content: &str, hooks: HookFacts) -> StatusCheck {
    check_settings(&read_settings(content).ok().unwrap(), hooks)
}

fn path(text: &str) -> FilePath {
    FilePath::parse(text)
}

#[test]
fn test_claude_dir_respects_env() {
    let configured = format!("/tmp/workmux-test-{}-cfg", agent().to_lowercase());
    let dir = claude_dir_from_config(
        &agent(),
        path("/home/test"),
        Some(path(&configured)),
    );
    assert_eq!(dir.text(), configured);
}

#[test]
fn test_claude_dir_defaults_to_home() {
    let dir = claude_dir_from_config(&agent(), path("/home/test"), None);
    assert_eq!(dir.text(), format!("/home/test/{}", dir_name()));
}

#[test]
fn claude_dir_needs_a_home() {
    assert!(claude_dir(&agent(), None, Some(path("/cfg"))).is_none());
    let dir = claude_dir(&agent(), Some(path("/home/test")), None);
    assert_eq!(
        settings_path(dir).unwrap().text(),
        format!("/home/test/{}/settings.json", dir_name())
    );
    assert!(settings_path(None).is_none());
}

#[test]
fn test_check_settings_empty() {
    assert!(matches!(status("{}", NO_HOOKS), StatusCheck::NotInstalled));
}

#[test]
fn test_check_settings_plugin_enabled() {
    let settings = r#"{ "enabledPlugins": { "workmux-status@workmux": true } }"#;
    assert!(matches!(status(settings, NO_HOOKS), StatusCheck::Installed));
}

#[test]
fn test_check_settings_plugin_disabled() {
    let settings = r#"{ "enabledPlugins": { "workmux-status@workmux": false } }"#;
    assert!(matches!(
        status(settings, NO_HOOKS),
        StatusCheck::NotInstalled
    ));
}

#[test]
fn test_check_settings_plugin_different_version() {
    let settings = r#"{ "enabledPlugins": { "workmux-status@1.2.3": true } }"#;
    assert!(matches!(status(settings, NO_HOOKS), StatusCheck::Installed));
}

#[test]
fn test_check_settings_other_plugins_only() {
    let settings = r#"{ "enabledPlugins": { "some-other-plugin@1.0": true } }"#;
    assert!(matches!(
        status(settings, NO_HOOKS),
        StatusCheck::NotInstalled
    ));
}

#[test]
fn test_check_settings_status_hooks_without_registration_need_upgrade() {
    let settings = r#"{ "hooks": { "Stop": [{ "hooks": [{
        "type": "command", "command": "workmux set-window-status done" }] }] } }"#;
    assert!(matches!(
        status(settings, SOME_HOOKS),
        StatusCheck::UpdateAvailable
    ));
}

#[test]
fn test_check_settings_incomplete_hooks_need_upgrade() {
    let settings = r#"{ "hooks": {
        "SessionStart": [{ "hooks": [{
            "type": "command", "command": "workmux register-agent" }] }],
        "Stop": [{ "hooks": [{
            "type": "command", "command": "workmux set-window-status done" }] }] } }"#;
    assert!(matches!(
        status(settings, SOME_HOOKS),
        StatusCheck::UpdateAvailable
    ));
}

#[test]
fn complete_hooks_count_as_installed() {
    assert!(matches!(status("{}", ALL_HOOKS), StatusCheck::Installed));
}

#[test]
fn test_check_settings_both_plugin_and_hooks() {
    let settings = r#"{
        "enabledPlugins": { "workmux-status@workmux": true },
        "hooks": { "Stop": [{ "hooks": [{
            "type": "command", "command": "workmux set-window-status done" }] }] } }"#;
    assert!(matches!(
        status(settings, SOME_HOOKS),
        StatusCheck::Installed
    ));
}

#[test]
fn plugins_must_be_an_object_of_flags() {
    let list = r#"{ "enabledPlugins": ["workmux-status@workmux"] }"#;
    assert!(matches!(status(list, NO_HOOKS), StatusCheck::NotInstalled));
    let text = r#"{ "enabledPlugins": { "workmux-status@workmux": "true" } }"#;
    assert!(matches!(status(text, NO_HOOKS), StatusCheck::NotInstalled));
}

#[test]
fn check_reads_the_settings_file() {
    assert_eq!(check(None, ALL_HOOKS), Ok(StatusCheck::NotInstalled));
    assert_eq!(
        check(Some(&FileProbe::Missing), ALL_HOOKS),
        Ok(StatusCheck::NotInstalled)
    );
    assert_eq!(
        check(Some(&FileProbe::Unreadable), NO_HOOKS),
        Err(SetupError::ReadFailed)
    );
    assert_eq!(
        check(Some(&FileProbe::Text("{".to_string())), NO_HOOKS),
        Err(SetupError::NotJson)
    );
    let enabled = r#"{"enabledPlugins":{"workmux-status@x":true}}"#.to_string();
    assert_eq!(
        check(Some(&FileProbe::Text(enabled)), NO_HOOKS),
        Ok(StatusCheck::Installed)
    );
}

#[test]
fn detects_the_config_directory() {
    assert_eq!(
        detect(&agent(), Some(true)),
        Some(format!("found {} config directory", agent()))
    );
    assert_eq!(detect(&agent(), Some(false)), None);
    assert_eq!(detect(&agent(), None), None);
}

#[test]
fn test_uninstall_no_settings_file() {
    let request = uninstall_at(&agent(), path("/home/test/settings.json"));
    let reported = format!("No {} Code settings.json", agent());
    assert!(request.file_missing.contains(&reported));
}

#[test]
fn test_uninstall_no_hooks_present() {
    let request = uninstall_at(&agent(), path("/home/test/settings.json"));
    assert!(request.not_found.contains("No workmux hooks found"));
    assert!(!request.delete_if_no_hooks_remain);
    assert!(request.remove_plugins);
    assert!(!request.soft_errors);
}

#[test]
fn uninstall_without_a_path_does_nothing() {
    match uninstall(&agent(), None) {
        Uninstall::Nothing(report) => assert_eq!(
            report,
            format!(
                "{} Code config dir not found, nothing to uninstall",
                agent()
            )
        ),
        Uninstall::Run(_) => panic!("nothing to run"),
    }
    match uninstall(&agent(), Some(path("/c/settings.json"))) {
        Uninstall::Run(request) => assert_eq!(request.path.text(), "/c/settings.json"),
        Uninstall::Nothing(_) => panic!("something to run"),
    }
}

#[test]
fn install_says_where() {
    let request = install(&agent(), Some(path("/home/test/settings.json")))
        .ok()
        .unwrap();
    assert_eq!(
        request.message,
        "Installed hooks to /home/test/settings.json"
    );
    assert_eq!(
        request.parse_context,
        format!("~/{}/settings.json is not valid JSON", dir_name())
    );
    assert!(matches!(install(&agent(), None), Err(SetupError::NoHome)));
}

#[test]
fn preview_prints_both_settings() {
    let at = path("/c/settings.json");
    let probe = FileProbe::Text(r#"{"a":1}"#.to_string());
    let preview = update_preview(&at, &probe, r#"{"a":1,"b":true}"#)
        .ok()
        .unwrap()
        .unwrap();
    assert_eq!(preview.label, "/c/settings.json");
    assert_eq!(preview.installed, "{\n  \"a\": 1\n}\n");
    assert_eq!(preview.bundled, "{\n  \"a\": 1,\n  \"b\": true\n}\n");
    assert!(matches!(
        update_preview(&at, &FileProbe::Missing, "{}"),
        Ok(None)
    ));
    assert!(matches!(
        update_preview(&at, &FileProbe::Unreadable, "{}"),
        Err(SetupError::ReadFailed)
    ));
    assert!(matches!(
        update_preview(&at, &FileProbe::Text("?".to_string()), "{}"),
        Err(SetupError::NotJson)
    ));
}

#[test]
fn paths_are_shown_as_they_are_spelled() {
    let home = path("/home//test/");
    let dir = claude_dir_from_config(&agent(), home, None);
    let at = settings_path(Some(dir)).unwrap();
    let spelled = format!("/home//test/{}/settings.json", dir_name());
    assert_eq!(at.text(), spelled);
    let probe = FileProbe::Text("{}".to_string());
    let preview = update_preview(&at, &probe, "{}").ok().unwrap().unwrap();
    assert_eq!(preview.label, spelled);
    let request = install(&agent(), Some(at)).ok().unwrap();
    assert_eq!(request.message, format!("Installed hooks to {spelled}"));
    assert_eq!(request.path.text(), spelled);
}
