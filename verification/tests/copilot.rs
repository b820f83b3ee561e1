use std::collections::{HashMap, HashSet};
use workmux::agent_setup::copilot::{
    check, check_at, copilot_dir, detect, hooks_file, hooks_file_at, install, install_at, uninstall,
    uninstall_at, InstallPlan, HOOKS_JSON,
};
use workmux::agent_setup::extension_file::{
    check_installed, install_extension_file, remove_extension_file, FileProbe, FileStep,
    RemoveStage,
};
use workmux::agent_setup::{SetupError, StatusCheck};
use workmux::paths::FilePath;

fn path(text: &str) -> FilePath {
    FilePath::parse(text)
}

/// A file system in memory.
#[derive(Default)]
struct Disk {
    dirs: HashSet<String>,
    files: HashMap<String, String>,
}

impl Disk {
    fn run(&mut self, steps: &[FileStep]) {
        for step in steps {
            match step {
                FileStep::CreateDirs { dir, .. } => {
                    let mut at = String::new();
                    for part in dir.text().split('/').filter(|part| !part.is_empty()) {
                        at = format!("{at}/{part}");
                        self.dirs.insert(at.clone());
                    }
                }
                FileStep::Write { path, content, .. } => {
                    self.files.insert(path.text(), content.clone());
                }
            }
        }
    }

    fn probe(&self, path: &FilePath) -> FileProbe {
        match self.files.get(&path.text()) {
            Some(content) => FileProbe::Text(content.clone()),
            None => FileProbe::Missing,
        }
    }

    fn remove(&mut self, path: &FilePath) -> RemoveStage {
        let file = path.text();
        let parent = path.parent().unwrap().text();
        let mut stage = RemoveStage::CheckExists;
        loop {
            let yes = match stage {
                RemoveStage::CheckExists => self.files.contains_key(&file),
                RemoveStage::RemoveFile => self.files.remove(&file).is_some(),
                RemoveStage::CheckParentEmpty => !self
                    .files
                    .keys()
                    .any(|name| name.starts_with(&format!("{parent}/"))),
                RemoveStage::RemoveParent => self.dirs.remove(&parent),
                _ => return stage,
            };
            stage = remove_extension_file(stage, yes);
        }
    }
}

fn plan(path: &FilePath) -> InstallPlan {
    install_at(path).ok().unwrap()
}

#[test]
fn test_hooks_json_is_valid() {
    let parsed: serde_json::Value =
        serde_json::from_str(HOOKS_JSON).expect("embedded hooks.json is valid JSON");
    assert_eq!(parsed.get("version").and_then(|v| v.as_u64()), Some(1));
    let hooks = parsed.get("hooks").unwrap().as_object().unwrap();
    assert!(hooks.contains_key("userPromptSubmitted"));
    assert!(hooks.contains_key("postToolUse"));
    assert!(hooks.contains_key("agentStop"));
}

#[test]
fn test_hooks_json_contains_workmux_command() {
    assert!(HOOKS_JSON.contains("workmux set-window-status"));
}

#[test]
fn personal_hooks_path_is_under_home() {
    let home = path("/home/tester");
    assert_eq!(
        hooks_file_at(&home).text(),
        home.child(".copilot/hooks/workmux-status.json").text()
    );
    assert_eq!(
        hooks_file_at(&home).text(),
        "/home/tester/.copilot/hooks/workmux-status.json"
    );
}

#[test]
fn check_requires_personal_hook() {
    let mut disk = Disk::default();
    let repository_hook = path("/tmp/repo/.github/hooks/workmux-status/hooks.json");
    disk.files
        .insert(repository_hook.text(), HOOKS_JSON.to_string());

    let personal_hook = hooks_file_at(&path("/tmp"));
    assert!(matches!(
        check_at(&disk.probe(&personal_hook)),
        Ok(StatusCheck::NotInstalled)
    ));
}

#[test]
fn install_and_check_are_idempotent() {
    let mut disk = Disk::default();
    let at = hooks_file_at(&path("/tmp"));

    disk.run(&plan(&at).steps);
    disk.run(&plan(&at).steps);

    assert_eq!(disk.files[&at.text()], HOOKS_JSON);
    assert!(matches!(
        check_at(&disk.probe(&at)),
        Ok(StatusCheck::Installed)
    ));
}

#[test]
fn uninstall_without_personal_hook_is_idempotent() {
    let mut disk = Disk::default();
    let at = hooks_file_at(&path("/tmp"));

    let end = disk.remove(&at);
    let result = uninstall_at(&at, end).unwrap();
    assert!(result.contains("No Copilot personal hooks found"));
}

#[test]
fn uninstall_preserves_other_personal_hooks() {
    let mut disk = Disk::default();
    let at = hooks_file_at(&path("/tmp"));
    disk.run(&plan(&at).steps);
    let other_hook = at.parent().unwrap().child("other.json").text();
    disk.files.insert(other_hook.clone(), "{}".to_string());

    let end = disk.remove(&at);
    let result = uninstall_at(&at, end).unwrap();

    assert!(result.contains("Removed Copilot hooks"));
    assert!(!disk.files.contains_key(&at.text()));
    assert!(disk.files.contains_key(&other_hook));
    assert!(disk.dirs.contains(&at.parent().unwrap().text()));
}

#[test]
fn uninstall_removes_empty_hooks_directory() {
    let mut disk = Disk::default();
    let at = hooks_file_at(&path("/tmp"));
    disk.run(&plan(&at).steps);

    let end = disk.remove(&at);
    uninstall_at(&at, end).unwrap();

    assert!(!disk.files.contains_key(&at.text()));
    assert!(!disk.dirs.contains(&at.parent().unwrap().text()));
    assert!(disk.dirs.contains(&path("/tmp").child(".copilot").text()));
}

#[test]
fn removal_that_fails_is_an_error() {
    let at = hooks_file_at(&path("/tmp"));
    let stage = remove_extension_file(RemoveStage::CheckExists, true);
    assert_eq!(stage, RemoveStage::RemoveFile);
    let end = remove_extension_file(stage, false);
    assert_eq!(end, RemoveStage::Failed);
    assert_eq!(uninstall_at(&at, end), Err(SetupError::RemoveFailed));
    assert_eq!(
        uninstall(None, RemoveStage::Absent).unwrap(),
        "Home directory not found, no Copilot hooks removed"
    );
    assert_eq!(
        uninstall(Some(&path("/h")), RemoveStage::Removed).unwrap(),
        "Removed Copilot hooks from /h/.copilot/hooks/workmux-status.json"
    );
}

#[test]
fn copilot_is_found_by_its_directory() {
    assert_eq!(
        copilot_dir(Some(path("/cfg")), None).unwrap().text(),
        "/cfg"
    );
    assert_eq!(
        copilot_dir(None, Some(&path("/h"))).unwrap().text(),
        "/h/.copilot"
    );
    assert!(copilot_dir(None, None).is_none());
    assert_eq!(detect(Some(true)), Some("found Copilot config directory"));
    assert_eq!(detect(None), None);
    assert!(hooks_file(None).is_none());
}

#[test]
fn copilot_check_reads_the_hooks_file() {
    assert_eq!(check(None), Ok(StatusCheck::NotInstalled));
    assert_eq!(
        check(Some(&FileProbe::Unreadable)),
        Err(SetupError::ReadFailed)
    );
    assert_eq!(
        check(Some(&FileProbe::Text("{}".to_string()))),
        Ok(StatusCheck::NotInstalled)
    );
}

#[test]
fn install_needs_a_parent_and_a_home() {
    assert!(matches!(install_at(&path("/")), Err(SetupError::NoParent)));
    assert!(matches!(install(None), Err(SetupError::NoHome)));
    let made = install(Some(&path("/h"))).ok().unwrap();
    assert_eq!(
        made.message,
        "Installed hooks to /h/.copilot/hooks/workmux-status.json"
    );
    assert_eq!(made.steps.len(), 2);
}

#[test]
fn check_installed_requires_bundled_source() {
    let old = FileProbe::Text("old extension".to_string());
    assert!(matches!(
        check_installed(Some(&old), "current extension"),
        Ok(StatusCheck::NotInstalled)
    ));

    let current = FileProbe::Text("current extension".to_string());
    assert!(matches!(
        check_installed(Some(&current), "current extension"),
        Ok(StatusCheck::Installed)
    ));
}

#[test]
fn check_installed_handles_missing_path() {
    assert!(matches!(
        check_installed(None, "current extension"),
        Ok(StatusCheck::NotInstalled)
    ));
    assert!(matches!(
        check_installed(Some(&FileProbe::Unreadable), "current extension"),
        Err(SetupError::ReadFailed)
    ));
}

#[test]
fn extension_files_are_written_behind_their_directory() {
    let steps = install_extension_file(&path("/a/b.ts"), "source", "mkdir", "write");
    assert_eq!(steps.len(), 2);
    assert!(
        matches!(&steps[0], FileStep::CreateDirs { dir, context } if dir.text() == "/a" && context == "mkdir")
    );
    assert!(
        matches!(&steps[1], FileStep::Write { path, content, context } if path.text() == "/a/b.ts" && content == "source" && context == "write")
    );
}

#[test]
fn hooks_are_installed_where_they_are_spelled_to_be() {
    let home = path("/h//x/.");
    let spelled = "/h//x/./.copilot/hooks/workmux-status.json";
    assert_eq!(hooks_file_at(&home).text(), spelled);
    let made = install(Some(&home)).ok().unwrap();
    assert_eq!(made.message, format!("Installed hooks to {spelled}"));
    assert!(
        matches!(&made.steps[0], FileStep::CreateDirs { dir, context } if dir.text() == "/h//x/./.copilot/hooks" && context == "Failed to create /h//x/./.copilot/hooks")
    );
    assert_eq!(
        uninstall(Some(&home), RemoveStage::Removed).unwrap(),
        format!("Removed Copilot hooks from {spelled}")
    );
}
