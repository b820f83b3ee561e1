use workmux::paths::FilePath;
use workmux::sidebar::config_watcher::{next_version, ConfigWatcher, IDLE_WAIT, RELOAD_DEBOUNCE};
use workmux::sidebar::daemon::{
    git_entries, github_entries, on_signal, AgentListChange, DaemonLoop, Signal,
};
use workmux::sidebar::events::{
    config_event_triggers_reload, git_event_requires_recovery, FsEvent,
};
use workmux::sidebar::git_cache::{
    resolve_git_worktrees_cached, unresolved_paths, GitWorkerPath, ResolvedGitWorktree,
};
use workmux::sidebar::git_dirs::{
    load_ignored_tracked_paths, named_common_dir, resolve_common_git_dir, resolve_git_dir,
    worktree_watch_specs, DotGit, GitLayout,
};
use workmux::sidebar::git_refresh::{reconcile_git_cache, refresh_git_status};
use workmux::sidebar::git_worker::{GitWorker, DEBOUNCE, MIN_REFRESH_INTERVAL};
use workmux::sidebar::github_worker::{
    clear_pr_path_cache, github_fetch_due, group_github_branches, publish_pr_path_cache,
    BranchSummary, GithubAction, GithubEvent, GithubWorker, GithubWorkerPath, PrPathEntry,
};
use workmux::sidebar::ignores::{
    build_gitignore, dominated_by_noise, is_event_ignored, try_event_ignored, IgnoreRules,
    RuleBook,
};
use workmux::sidebar::schedule::{next_audit_path, next_worker_timeout, recovery_ready};
use workmux::sidebar::state::{
    AgentPane, AgentStatus, CheckSummary, GitStatus, PrSummary, SidebarFilterMode,
    SidebarLayoutMode, SidebarSnapshot,
};
use workmux::sidebar::watches::{find_worktrees_for_path, WatchBook};
use workmux::config::SidebarPosition;
use workmux::tables::{KeySet, Table};
use workmux::values::Value;

const SECOND: u64 = 1_000_000_000;
const NOW: u64 = 1000 * SECOND;

fn path(text: &str) -> FilePath {
    FilePath::parse(text)
}

fn texts(paths: &[FilePath]) -> Vec<String> {
    let mut found: Vec<String> = paths.iter().map(|path| path.text()).collect();
    found.sort();
    found
}

fn set(paths: &[&str]) -> KeySet<FilePath> {
    let mut found = KeySet::new();
    for text in paths {
        found.insert(path(text));
    }
    found
}


fn entry(at: &str, is_stale: bool, is_focused: bool) -> GitWorkerPath {
    GitWorkerPath {
        path: path(at),
        is_stale,
        is_focused,
    }
}

fn rescan() -> FsEvent {
    FsEvent {
        needs_rescan: true,
        is_access: false,
        paths: Vec::new(),
    }
}

fn change(paths: &[&str]) -> FsEvent {
    FsEvent {
        needs_rescan: false,
        is_access: false,
        paths: paths.iter().map(|text| path(text)).collect(),
    }
}

fn access(at: &str) -> FsEvent {
    FsEvent {
        needs_rescan: false,
        is_access: true,
        paths: vec![path(at)],
    }
}

#[test]
fn github_fetch_is_throttled_between_intervals() {
    assert!(!github_fetch_due(false, 29 * SECOND));
    assert!(github_fetch_due(false, 30 * SECOND));
    assert!(github_fetch_due(true, 0));
}

#[test]
fn rescan_events_request_recovery() {
    assert!(git_event_requires_recovery(&rescan()));
    assert!(!git_event_requires_recovery(&change(&[])));
}

#[test]
fn recovery_cooldown_coalesces_repeated_failures() {
    let cooldown = 30 * SECOND;
    assert!(recovery_ready(true, NOW - cooldown, cooldown, NOW));
    assert!(!recovery_ready(true, NOW, cooldown, NOW));
    assert!(!recovery_ready(false, NOW - cooldown, cooldown, NOW));
}

#[test]
fn rolling_audit_is_fair_and_skips_incomplete_watches() {
    let paths = vec![path("/one"), path("/two"), path("/three")];
    let mut complete = Table::new();
    complete.insert(path("/one"), true);
    complete.insert(path("/two"), false);
    complete.insert(path("/three"), true);
    let mut cursor = 0;

    let mut next = || next_audit_path(&paths, &complete, &mut cursor).map(|path| path.text());
    assert_eq!(next(), Some("/one".to_string()));
    assert_eq!(next(), Some("/three".to_string()));
    assert_eq!(next(), Some("/one".to_string()));
}

#[test]
fn audits_go_in_rounds() {
    let paths: Vec<FilePath> = ["/a", "/b", "/c", "/d", "/e"].iter().map(|at| path(at)).collect();
    let mut complete = Table::new();
    for at in ["/a", "/c", "/d"] {
        complete.insert(path(at), true);
    }
    let mut cursor = 8;
    let mut turns = Vec::new();
    for _ in 0..9 {
        let next = next_audit_path(&paths, &complete, &mut cursor).unwrap();
        turns.push(next.text());
    }
    assert_eq!(
        turns,
        vec!["/d", "/a", "/c", "/d", "/a", "/c", "/d", "/a", "/c"]
    );
}

#[test]
fn audit_of_nothing_finds_nothing() {
    let mut cursor = 7;
    assert!(next_audit_path(&Vec::new(), &Table::new(), &mut cursor).is_none());
    assert_eq!(cursor, 7);
    let paths = vec![path("/one"), path("/two")];
    assert!(next_audit_path(&paths, &Table::new(), &mut cursor).is_none());
    assert_eq!(cursor, 1);
}

fn rules(root: &str, content: &str) -> Table<FilePath, IgnoreRules> {
    let mut found = Table::new();
    found.insert(
        path(root),
        build_gitignore(&path(root), Some(&content.as_bytes().to_vec())),
    );
    found
}

#[test]
fn ignored_tracked_files_still_trigger_refresh() {
    let root = path("/tmp/repo");
    let gitignores = rules("/tmp/repo", "*.log\n");
    let mut ignored_tracked_paths = Table::new();
    ignored_tracked_paths.insert(
        root.dup(),
        load_ignored_tracked_paths(&root, Some(&b"tracked.log\0".to_vec())),
    );

    assert!(!is_event_ignored(
        &root.child("tracked.log"),
        &root,
        &gitignores,
        &ignored_tracked_paths,
    ));
    assert!(is_event_ignored(
        &root.child("generated.log"),
        &root,
        &gitignores,
        &ignored_tracked_paths,
    ));
}

#[test]
fn directories_and_exceptions_are_ignored_like_git_does() {
    let root = path("/repo");
    let known = Table::new();
    let gitignores = rules(
        "/repo",
        "\u{feff}target/\r\n# comment\n*.tmp\n!keep.tmp\nlast",
    );
    let ignored = |at: &str| is_event_ignored(&path(at), &root, &gitignores, &known);
    assert!(ignored("/repo/target/debug/x"));
    assert!(ignored("/repo/a/b.tmp"));
    assert!(!ignored("/repo/keep.tmp"));
    assert!(ignored("/repo/last"));
    assert!(!ignored("/repo/src/lib.rs"));
    assert!(!ignored("/elsewhere/b.tmp"));
    assert!(!ignored("/repo"));
}

#[test]
fn git_directories_matter_but_for_objects_and_logs() {
    let root = path("/repo");
    let none: Table<FilePath, IgnoreRules> = Table::new();
    let known = Table::new();
    let ignored = |at: &str| is_event_ignored(&path(at), &root, &none, &known);
    assert!(!ignored("/repo/.git"));
    assert!(!ignored("/repo/.git/HEAD"));
    assert!(ignored("/repo/.git/objects/ab/cd"));
    assert!(ignored("/repo/.git/logs/HEAD"));
    assert!(!ignored("/repo/.gitignore"));
    assert!(!ignored("/repo/file"));
}

#[test]
fn rules_end_where_a_file_is_not_text() {
    let root = path("/repo");
    let mut content = b"a\n".to_vec();
    content.extend_from_slice(&[0xff, b'\n']);
    content.extend_from_slice(b"b\n");
    let rules = build_gitignore(&root, Some(&content));
    assert!(rules.ignores(&path("/repo/a")));
    assert!(!rules.ignores(&path("/repo/b")));
    assert!(!build_gitignore(&root, None).ignores(&path("/repo/a")));
}

#[test]
fn rules_are_held_against_paths_as_they_are_spelled() {
    let root = path("/repo");
    let known = Table::new();
    let gitignores = rules("/repo", "*.tmp\n");
    let ignored = |at: &str| try_event_ignored(&path(at), &root, &gitignores, &known);
    assert_eq!(ignored("/repo/a.tmp"), Some(true));
    assert_eq!(ignored("/repo/sub//a.tmp"), Some(true));
    assert_eq!(ignored("/repo/a.rs"), Some(false));
    // Below the root nothing may look absolute.
    assert_eq!(ignored("/repo//a.tmp"), None);
    assert_eq!(ignored("/elsewhere//a.tmp"), Some(false));
    // What lies below a Git directory is decided without the rules.
    assert_eq!(ignored("/repo//.git/objects/x"), Some(true));
    assert_eq!(ignored("/repo//.git//objects/x"), Some(false));

    let rules = build_gitignore(&root, Some(&b"*.tmp\n".to_vec()));
    assert!(rules.can_judge(&path("/repo/a.tmp")));
    assert!(!rules.can_judge(&path("/repo//a.tmp")));
    let none = build_gitignore(&root, Some(&b"# nothing\n".to_vec()));
    assert!(none.can_judge(&path("/repo//a.tmp")));
    assert!(!none.ignores(&path("/repo//a.tmp")));
}

#[test]
fn paths_that_cannot_be_judged_are_not_noted() {
    let mut worker = GitWorker::new(NOW, true);
    let mut found = Table::new();
    found.insert(path("/repo"), Some(path("/repo")));
    worker.accept(vec![entry("/repo", false, false)], &found);
    let layout = GitLayout::Plain { has_refs: false };
    worker.renew_watches(&path("/repo"), &layout, true);
    worker.add_watch(&path("/repo"), &path("/repo"), true);
    worker.set_rules(&path("/repo"), Some(&b"*.log\n".to_vec()), None);
    assert!(!worker.try_note_path(&path("/repo//x.rs"), NOW));
    assert!(worker.collect(NOW + DEBOUNCE, true).is_empty());
    assert!(worker.try_note_path(&path("/repo/x.log"), NOW));
    assert!(worker.collect(NOW + DEBOUNCE, true).is_empty());
    assert!(worker.try_note_path(&path("/repo/x.rs"), NOW));
    assert_eq!(texts(&worker.collect(NOW + DEBOUNCE, true)), vec!["/repo"]);
}

#[test]
fn noise_is_not_handed_on() {
    assert!(dominated_by_noise(&vec![
        path("/r/.git/objects/ab"),
        path("/r/.git/logs/HEAD")
    ]));
    assert!(!dominated_by_noise(&vec![
        path("/r/.git/objects/ab"),
        path("/r/.git/index")
    ]));
    assert!(dominated_by_noise(&Vec::new()));
    // Noise is known by how a path is spelled.
    assert!(!dominated_by_noise(&vec![path("/r/.git//objects/ab")]));
    assert!(dominated_by_noise(&vec![path("/r//.git/objects//ab")]));
}

#[test]
fn listings_are_split_at_zero_bytes() {
    let root = path("/repo");
    let listed = load_ignored_tracked_paths(&root, Some(&b"a/b\0\0c\0\xff\0".to_vec()));
    assert_eq!(listed.len(), 3);
    assert!(listed.contains(&path("/repo/a/b")));
    assert!(listed.contains(&path("/repo/c")));
    assert!(listed.contains(&path("/repo/\u{fffd}")));
    assert!(load_ignored_tracked_paths(&root, None).is_empty());
}

#[test]
fn cache_projects_status_when_agent_path_changes_under_same_root() {
    let root = path("/repo");
    let old_path = root.dup();
    let nested = root.child("nested");
    let mut previous = Table::new();
    previous.insert(
        root.dup(),
        ResolvedGitWorktree {
            agent_paths: vec![old_path.dup()],
            is_stale: true,
            is_focused: false,
        },
    );
    let mut current = Table::new();
    current.insert(
        root,
        ResolvedGitWorktree {
            agent_paths: vec![nested.dup()],
            is_stale: true,
            is_focused: false,
        },
    );
    let status = GitStatus {
        branch: Some("main".to_string()),
        ..GitStatus::default()
    };
    let mut cache = Table::new();
    cache.insert(old_path.dup(), status.dup());

    let (changed, missing) = reconcile_git_cache(&previous, &current, &mut cache);

    assert!(changed);
    assert!(missing.is_empty());
    let mut expected = Table::new();
    expected.insert(nested, status);
    assert!(cache.same(&expected));
    assert!(!cache.contains_key(&old_path));
}

#[test]
fn worktrees_of_which_nothing_is_known_are_missing() {
    let mut current = Table::new();
    current.insert(
        path("/repo"),
        ResolvedGitWorktree {
            agent_paths: vec![path("/repo/a")],
            is_stale: false,
            is_focused: false,
        },
    );
    let mut cache: Table<FilePath, GitStatus> = Table::new();
    let (changed, missing) = reconcile_git_cache(&Table::new(), &current, &mut cache);
    assert!(!changed);
    assert_eq!(texts(&missing), vec!["/repo"]);
    assert!(cache.is_empty());
}

#[test]
fn refreshed_states_are_shared_by_all_agents() {
    let agents = vec![path("/repo"), path("/repo/a")];
    let mut cache = Table::new();
    cache.insert(path("/repo"), GitStatus::default());
    let fresh = GitStatus {
        cached_at: Some(5),
        ..GitStatus::default()
    };
    assert!(refresh_git_status(&agents, &fresh, &mut cache));
    assert_eq!(cache.get(&path("/repo")).unwrap().cached_at, None);
    assert_eq!(cache.get(&path("/repo/a")).unwrap().cached_at, Some(5));
    assert!(!refresh_git_status(&agents, &fresh, &mut cache));
    let dirty = GitStatus {
        is_dirty: true,
        ..GitStatus::default()
    };
    assert!(refresh_git_status(&agents, &dirty, &mut cache));
    assert!(cache.get(&path("/repo")).unwrap().is_dirty);
}

#[test]
fn cached_resolution_updates_relevance_without_repository_discovery() {
    let repo = path("/tmp/link/repo");
    let root = path("/tmp/repo");
    let mut roots = Table::new();
    roots.insert(repo.dup(), Some(root.dup()));
    let entries = vec![GitWorkerPath {
        path: repo.dup(),
        is_stale: false,
        is_focused: true,
    }];
    assert!(unresolved_paths(&entries, &roots).is_empty());

    let resolved = resolve_git_worktrees_cached(&entries, &mut roots, &Table::new());

    assert_eq!(resolved.len(), 1);
    let worktree = resolved.get(&root).unwrap();
    assert_eq!(texts(&worktree.agent_paths), vec![repo.text()]);
    assert!(!worktree.is_stale);
    assert!(worktree.is_focused);
}

#[test]
fn non_repository_agent_path_produces_no_watch_or_refresh_roots() {
    let entries = vec![entry("/tmp/plain", false, false)];
    let mut roots = Table::new();
    assert!(unresolved_paths(&entries, &roots).contains(&path("/tmp/plain")));
    let mut found = Table::new();
    found.insert(path("/tmp/plain"), None);

    let resolved = resolve_git_worktrees_cached(&entries, &mut roots, &found);
    let watch_specs: Vec<_> = (0..resolved.len())
        .flat_map(|at| worktree_watch_specs(resolved.key_at(at), &GitLayout::Absent, true))
        .collect();

    assert!(resolved.is_empty());
    assert!(watch_specs.is_empty());
    assert!(roots.contains_key(&path("/tmp/plain")));
}

#[test]
fn nested_agent_paths_share_the_repository_root() {
    let repo = path("/tmp/repo");
    let nested = repo.child("src/nested");
    let entries = vec![
        entry("/tmp/repo/src/nested", false, true),
        entry("/tmp/repo", true, false),
        entry("/tmp/repo", true, false),
    ];
    let mut found = Table::new();
    found.insert(repo.dup(), Some(repo.dup()));
    found.insert(nested.dup(), Some(repo.dup()));

    let resolved = resolve_git_worktrees_cached(&entries, &mut Table::new(), &found);

    assert_eq!(resolved.len(), 1);
    assert!(resolved.get(&repo).unwrap().same(&ResolvedGitWorktree {
        agent_paths: vec![repo, nested],
        is_stale: false,
        is_focused: true,
    }));
}

#[test]
fn linked_worktree_uses_its_root_and_shared_git_metadata() {
    let linked_root = path("/tmp/linked");
    let content = "gitdir: /tmp/repo/.git/worktrees/linked\n".to_string();
    let git_dir = resolve_git_dir(&linked_root, &DotGit::File(Some(content))).unwrap();
    assert_eq!(git_dir.text(), "/tmp/repo/.git/worktrees/linked");
    let named = named_common_dir(&git_dir, "../..\n");
    assert_eq!(named.text(), "/tmp/repo/.git/worktrees/linked/../..");
    let common_dir = resolve_common_git_dir(Some(named), Some(path("/tmp/repo/.git"))).unwrap();
    let layout = GitLayout::Linked {
        git_dir: Some(git_dir.dup()),
        common: Some((common_dir.dup(), true)),
    };
    let specs = worktree_watch_specs(&linked_root, &layout, true);

    assert!(specs
        .iter()
        .any(|spec| spec.path.same(&git_dir) && !spec.recursive));
    assert!(specs
        .iter()
        .any(|spec| spec.path.same(&common_dir) && !spec.recursive));
    assert!(specs
        .iter()
        .any(|spec| spec.path.same(&common_dir.child("refs")) && spec.recursive));
    assert!(specs
        .iter()
        .any(|spec| spec.path.same(&linked_root) && spec.recursive));
}

#[test]
fn git_directories_are_found_in_each_way() {
    let root = path("/w");
    let found = |dot_git: DotGit| resolve_git_dir(&root, &dot_git).map(|dir| dir.text());
    assert_eq!(found(DotGit::Directory), Some("/w/.git".to_string()));
    assert_eq!(found(DotGit::Absent), None);
    assert_eq!(found(DotGit::File(None)), None);
    assert_eq!(found(DotGit::File(Some("nonsense".to_string()))), None);
    assert_eq!(
        found(DotGit::File(Some("gitdir:  ../g/w \n".to_string()))),
        Some("/w/../g/w".to_string())
    );
    assert!(resolve_common_git_dir(None, Some(path("/x"))).is_none());
    assert_eq!(
        resolve_common_git_dir(Some(path("/x")), None).unwrap().text(),
        "/x"
    );
}

#[test]
fn plain_worktrees_watch_their_git_directory() {
    let root = path("/w");
    let specs = worktree_watch_specs(&root, &GitLayout::Plain { has_refs: true }, false);
    let shown: Vec<(String, bool)> = specs
        .iter()
        .map(|spec| (spec.path.text(), spec.recursive))
        .collect();
    assert_eq!(
        shown,
        vec![
            ("/w/.git".to_string(), false),
            ("/w/.git/refs".to_string(), true)
        ]
    );
    assert!(worktree_watch_specs(&root, &GitLayout::Absent, false).is_empty());
}

#[test]
fn config_reload_triggers_on_mutations_of_config_files() {
    assert!(config_event_triggers_reload(&change(&[
        "/home/u/.config/workmux/config.yaml"
    ])));
    assert!(config_event_triggers_reload(&change(&["/repo/.workmux.yaml"])));
    assert!(config_event_triggers_reload(&change(&[
        "/home/u/.config/workmux/config.yaml.tmp",
        "/home/u/.config/workmux/config.yaml"
    ])));
    assert!(config_event_triggers_reload(&change(&["/repo/.workmux.yml"])));
    assert!(config_event_triggers_reload(&change(&["/x/config.yml"])));
}

#[test]
fn config_reload_ignores_access_events_and_other_files() {
    assert!(!config_event_triggers_reload(&access(
        "/home/u/.config/workmux/config.yaml"
    )));
    assert!(!config_event_triggers_reload(&change(&[
        "/home/u/.config/workmux/other.txt"
    ])));
    assert!(!config_event_triggers_reload(&change(&["/config.yaml/x"])));
}

#[test]
fn config_reload_triggers_on_rescan() {
    assert!(config_event_triggers_reload(&rescan()));
}

fn github_entry(at: &str, branch: &str) -> GithubWorkerPath {
    GithubWorkerPath {
        path: path(at),
        branch: branch.to_string(),
    }
}

fn pr(number: u64) -> PrSummary {
    PrSummary {
        number,
        title: "test".to_string(),
        state: "OPEN".to_string(),
        is_draft: false,
        checks: None,
        check_meta: None,
        url: None,
    }
}

#[test]
fn github_branches_are_grouped_by_common_repository() {
    let first = path("/repo__worktrees/first");
    let second = path("/repo__worktrees/second");
    let other = path("/other");
    let common = path("/repo/.git");
    let other_common = path("/other/.git");
    let entries = vec![
        github_entry("/repo__worktrees/first", "feature-a"),
        github_entry("/repo__worktrees/second", "feature-b"),
        github_entry("/other", "main"),
    ];
    let mut repo_keys = Table::new();
    repo_keys.insert(first.dup(), common.dup());
    repo_keys.insert(second, common.dup());
    repo_keys.insert(other.dup(), other_common.dup());

    let grouped = group_github_branches(&entries, &repo_keys);

    assert_eq!(grouped.len(), 2);
    assert!(grouped.get(&common).unwrap().same(&(
        first,
        vec!["feature-a".to_string(), "feature-b".to_string()]
    )));
    assert!(grouped
        .get(&other_common)
        .unwrap()
        .same(&(other, vec!["main".to_string()])));
}

#[test]
fn clear_pr_path_cache_only_reports_content_changes() {
    let mut cache: Table<FilePath, PrPathEntry> = Table::new();

    assert!(!clear_pr_path_cache(&mut cache));

    cache.insert(
        path("/repo"),
        PrPathEntry {
            branch: "feature".to_string(),
            summary: pr(123),
        },
    );

    assert!(clear_pr_path_cache(&mut cache));
    assert!(cache.is_empty());
    assert!(!clear_pr_path_cache(&mut cache));
}

#[test]
fn pr_path_cache_records_branch() {
    let at = path("/repo");
    let repo_root = path("/repo");
    let entries = vec![github_entry("/repo", "feature")];
    let mut repo_keys = Table::new();
    repo_keys.insert(at.dup(), repo_root.dup());
    let mut branches = Table::new();
    branches.insert("feature".to_string(), pr(123));
    let mut repo_cache = Table::new();
    repo_cache.insert(repo_root, branches);
    let mut path_cache: Table<FilePath, PrPathEntry> = Table::new();

    let dirty = publish_pr_path_cache(&entries, &repo_keys, &repo_cache, &mut path_cache);

    let entry = path_cache.get(&at).unwrap();
    assert_eq!(entry.branch, "feature");
    assert_eq!(entry.summary.number, 123);
    assert!(dirty);
    assert!(!publish_pr_path_cache(
        &entries,
        &repo_keys,
        &repo_cache,
        &mut path_cache
    ));
}

#[test]
fn github_worker_goes_through_a_fetch() {
    let mut worker = GithubWorker::new(NOW, Table::new(), Table::new());
    let mut prs = Table::new();
    let mut checks = Table::new();
    let mut step = |event: GithubEvent, now: u64| worker.step(event, &mut prs, &mut checks, now);
    let (action, changed) = step(GithubEvent::Quiet, NOW);
    assert!(matches!(action, GithubAction::Wait) && !changed);

    let entries = vec![
        github_entry("/b", "main"),
        github_entry("/a", "feature"),
        github_entry("/a", "feature"),
    ];
    let (action, changed) = step(GithubEvent::Entries(entries), NOW);
    assert!(!changed);
    match action {
        GithubAction::FindKeys(paths) => {
            assert_eq!(paths.len(), 2);
            assert!(paths.contains(&path("/a")) && paths.contains(&path("/b")));
        }
        _ => panic!("keys"),
    }
    let mut found = Table::new();
    found.insert(path("/a"), path("/repo/.git"));
    let (action, changed) = step(GithubEvent::Keys(found), NOW);
    assert!(!changed);
    match action {
        GithubAction::Fetch(groups) => {
            assert_eq!(groups.len(), 1);
            let (from, branches) = groups.get(&path("/repo/.git")).unwrap();
            assert_eq!(from.text(), "/a");
            assert_eq!(branches, &vec!["feature".to_string()]);
        }
        _ => panic!("a fetch"),
    }

    let fetched = vec![(
        path("/repo/.git"),
        vec![BranchSummary {
            branch: "feature".to_string(),
            pr: Some(pr(7)),
            checks: Some(CheckSummary {
                state: "Success".to_string(),
                meta: None,
            }),
        }],
    )];
    let (action, changed) = step(GithubEvent::Fetched(fetched), NOW);
    assert!(matches!(action, GithubAction::Wait) && changed);

    let (action, _) = step(GithubEvent::Quiet, NOW + 29 * SECOND);
    assert!(matches!(action, GithubAction::Wait));
    let (action, _) = step(GithubEvent::Quiet, NOW + 30 * SECOND);
    assert!(matches!(action, GithubAction::Fetch(_)));
    let (_, changed) = step(GithubEvent::Fetched(Vec::new()), NOW + 30 * SECOND);
    assert!(!changed);
    assert_eq!(prs.get(&path("/a")).unwrap().summary.number, 7);
    assert_eq!(checks.get(&path("/a")).unwrap().summary.state, "Success");

    let gone = vec![(path("/repo/.git"), Vec::new())];
    let (_, changed) = worker.step(
        GithubEvent::Fetched(gone),
        &mut prs,
        &mut checks,
        NOW + 31 * SECOND,
    );
    assert!(changed && prs.is_empty() && checks.is_empty());
}

#[test]
fn github_worker_clears_what_no_agent_works_on() {
    let mut repo = Table::new();
    repo.insert("main".to_string(), pr(1));
    let mut known = Table::new();
    known.insert(path("/repo/.git"), repo);
    let mut worker = GithubWorker::new(NOW, known, Table::new());
    let mut prs = Table::new();
    let mut checks = Table::new();
    let entries = vec![github_entry("/a", "main")];
    worker.step(GithubEvent::Entries(entries), &mut prs, &mut checks, NOW);
    let mut found = Table::new();
    found.insert(path("/a"), path("/repo/.git"));
    let (_, changed) = worker.step(GithubEvent::Keys(found), &mut prs, &mut checks, NOW);
    assert!(changed);
    assert_eq!(prs.get(&path("/a")).unwrap().summary.number, 1);
    let none = GithubEvent::Entries(Vec::new());
    let (action, changed) = worker.step(none, &mut prs, &mut checks, NOW);
    assert!(matches!(action, GithubAction::Wait) && changed);
    assert!(prs.is_empty());
    let none = GithubEvent::Entries(Vec::new());
    assert!(!worker.step(none, &mut prs, &mut checks, NOW).1);
}

#[test]
fn github_worker_without_repositories_asks_nothing() {
    let mut worker = GithubWorker::new(NOW, Table::new(), Table::new());
    let mut prs = Table::new();
    let mut checks = Table::new();
    let entries = vec![github_entry("/a", "main")];
    worker.step(GithubEvent::Entries(entries), &mut prs, &mut checks, NOW);
    let keys = GithubEvent::Keys(Table::new());
    let (action, changed) = worker.step(keys, &mut prs, &mut checks, NOW);
    assert!(matches!(action, GithubAction::Wait) && !changed);
}

#[test]
fn timeouts_end_when_a_worktree_is_ready() {
    let mut pending = Table::new();
    assert_eq!(next_worker_timeout(&pending, DEBOUNCE, NOW), SECOND);
    pending.insert(path("/a"), NOW);
    assert_eq!(next_worker_timeout(&pending, DEBOUNCE, NOW), DEBOUNCE);
    pending.insert(path("/b"), NOW - 200_000_000);
    assert_eq!(next_worker_timeout(&pending, DEBOUNCE, NOW), 100_000_000);
    pending.insert(path("/c"), NOW - DEBOUNCE);
    assert_eq!(next_worker_timeout(&pending, DEBOUNCE, NOW), 1_000_000);
}

#[test]
fn watches_are_shared_and_released() {
    let mut book = WatchBook::new();
    let (one, two, shared) = (path("/one"), path("/two"), path("/shared"));
    assert!(book.begin_watches(&one, true).is_empty());
    assert!(book.needs_start(&shared));
    assert!(book.add_watch(&one, &shared, true));
    assert!(!book.needs_start(&shared));
    assert!(book.is_complete(&one));
    assert!(book.begin_watches(&two, true).is_empty());
    assert!(book.add_watch(&two, &shared, false));
    assert!(!book.add_watch(&two, &path("/two/.git"), false));
    assert!(!book.is_complete(&two));
    assert_eq!(
        texts(&book.worktrees_for(&path("/shared/refs/heads/x"))),
        vec!["/one", "/two"]
    );
    assert!(book.detach_worktree_watches(&one).is_empty());
    assert!(!book.has_watches(&one));
    assert_eq!(
        texts(&book.worktrees_beyond(&set(&["/one"]))),
        vec!["/two"]
    );
    assert_eq!(texts(&book.begin_watches(&two, false)), vec!["/shared"]);
    assert!(book.needs_start(&shared));
    let empty: Table<FilePath, KeySet<FilePath>> = Table::new();
    assert!(find_worktrees_for_path(&shared, &empty).is_empty());
}

#[test]
fn worktrees_are_named_once_for_each_directory_that_is_watched() {
    let mut watched = Table::new();
    watched.insert(path("/repo"), set(&["/repo"]));
    watched.insert(path("/repo/.git"), set(&["/repo", "/linked"]));
    watched.insert(path("/other"), set(&["/other"]));
    let found = |at: &str| texts(&find_worktrees_for_path(&path(at), &watched));
    assert_eq!(found("/repo/.git//HEAD"), vec!["/linked", "/repo", "/repo"]);
    assert_eq!(found("/repo/file"), vec!["/repo"]);
    assert!(found("/repository").is_empty());
}

#[test]
fn git_worker_goes_through_its_life() {
    let mut worker = GitWorker::new(NOW, true);
    let mut cache = Table::new();
    assert_eq!(worker.timeout(NOW), SECOND);

    // An agent appears.
    let (entries, unresolved) = worker
        .consider(vec![entry("/repo/a", false, false)])
        .unwrap();
    assert_eq!(unresolved.len(), 1);
    let mut found = Table::new();
    found.insert(path("/repo/a"), Some(path("/repo")));
    let accepted = worker.accept(entries, &found);
    assert!(accepted.dropped.is_empty() && accepted.unwatch.is_empty());
    assert_eq!(texts(&accepted.watch), vec!["/repo"]);
    let layout = GitLayout::Plain { has_refs: false };
    let (unwatch, specs) = worker.renew_watches(&path("/repo"), &layout, true);
    assert!(unwatch.is_empty());
    assert_eq!(specs.len(), 2);
    for spec in &specs {
        assert!(worker.needs_start(&spec.path));
        assert!(worker.add_watch(&path("/repo"), &spec.path, true));
        assert!(!worker.needs_start(&spec.path));
    }
    worker.set_rules(&path("/repo"), Some(&b"*.log\n".to_vec()), None);
    assert!(!worker.settle_entries(&accepted.previous, &mut cache, NOW));
    assert!(worker
        .consider(vec![entry("/repo/a", false, false)])
        .is_none());

    // Nothing is known of its worktree, so that it is looked at.
    assert_eq!(texts(&worker.collect(NOW, true)), vec!["/repo"]);
    let agents = worker.begin_refresh(&path("/repo"), NOW).unwrap();
    assert_eq!(texts(&agents), vec!["/repo/a"]);
    let status = GitStatus::default();
    assert!(worker.finish_refresh(&path("/repo"), &agents, &status, &mut cache, NOW));
    assert!(!worker.finish_refresh(&path("/repo"), &agents, &status, &mut cache, NOW));
    assert!(worker.collect(NOW, true).is_empty());

    // Ignored files do not matter, others do, and too early ones are put off.
    worker.note_path(&path("/repo/x.log"), NOW);
    assert!(worker.collect(NOW + SECOND, true).is_empty());
    worker.note_path(&path("/repo/x.rs"), NOW);
    assert!(worker.collect(NOW + DEBOUNCE - 1, true).is_empty());
    assert_eq!(texts(&worker.collect(NOW + DEBOUNCE, true)), vec!["/repo"]);
    assert!(worker
        .begin_refresh(&path("/repo"), NOW + DEBOUNCE)
        .is_none());
    assert!(worker
        .collect(NOW + MIN_REFRESH_INTERVAL - 1, true)
        .is_empty());
    assert_eq!(
        texts(&worker.collect(NOW + MIN_REFRESH_INTERVAL, true)),
        vec!["/repo"]
    );
    assert!(worker
        .begin_refresh(&path("/repo"), NOW + MIN_REFRESH_INTERVAL)
        .is_some());

    // Changed rules are read anew.
    let reloaded = worker.rules_to_reload(&path("/repo/.gitignore"));
    assert!(reloaded.iter().all(|root| root.text() == "/repo"));
    assert!(!reloaded.is_empty());
    assert!(worker.rules_to_reload(&path("/repo/x")).is_empty());

    // Lost events lead to a recovery, and closely following ones to no other.
    assert!(!worker.begin_event(&rescan()));
    assert!(worker.maintain(NOW, true).is_empty());
    assert_eq!(texts(&worker.collect(NOW, true)), vec!["/repo"]);
    assert!(worker.begin_event(&change(&[])));
    worker.begin_refresh(&path("/repo"), NOW + 3 * SECOND);
    worker.note_overflow();
    worker.maintain(NOW + 29 * SECOND, true);
    assert_eq!(worker.timeout(NOW + 29 * SECOND), SECOND);
    worker.maintain(NOW + 30 * SECOND, true);
    assert_eq!(worker.timeout(NOW + 30 * SECOND), 1_000_000);
    worker.begin_refresh(&path("/repo"), NOW + 30 * SECOND);

    // A completely watched worktree is audited in its turn and not polled.
    assert!(worker.maintain(NOW + 40 * SECOND, true).is_empty());
    assert_eq!(worker.timeout(NOW + 40 * SECOND), SECOND);
    assert_eq!(
        texts(&worker.collect(NOW + 40 * SECOND, true)),
        vec!["/repo"]
    );
    worker.begin_refresh(&path("/repo"), NOW + 40 * SECOND);
    assert!(worker.collect(NOW + 44 * SECOND, true).is_empty());

    // Where watching fails everything is polled.
    worker.note_watch_error();
    assert!(worker.maintain(NOW + 72 * SECOND, true).is_empty());
    assert_eq!(
        texts(&worker.collect(NOW + 72 * SECOND, true)),
        vec!["/repo"]
    );

    // The agent goes.
    let (entries, unresolved) = worker.consider(Vec::new()).unwrap();
    assert!(unresolved.is_empty());
    let accepted = worker.accept(entries, &Table::new());
    assert_eq!(texts(&accepted.dropped), vec!["/repo"]);
    assert_eq!(texts(&accepted.unwatch), vec!["/repo", "/repo/.git"]);
    assert!(accepted.watch.is_empty());
    assert!(worker.settle_entries(&accepted.previous, &mut cache, NOW));
    assert!(cache.is_empty());
    assert!(worker.collect(NOW + 90 * SECOND, true).is_empty());
}

#[test]
fn incompletely_watched_worktrees_are_polled_and_watched_anew() {
    let mut worker = GitWorker::new(NOW, true);
    let mut cache = Table::new();
    let mut found = Table::new();
    found.insert(path("/repo"), Some(path("/repo")));
    let accepted = worker.accept(vec![entry("/repo", false, false)], &found);
    let layout = GitLayout::Plain { has_refs: false };
    worker.renew_watches(&path("/repo"), &layout, true);
    assert!(!worker.add_watch(&path("/repo"), &path("/repo/.git"), false));
    worker.settle_entries(&accepted.previous, &mut cache, NOW);
    worker.begin_refresh(&path("/repo"), NOW);
    assert!(worker.maintain(NOW + 4 * SECOND, true).is_empty());
    assert_eq!(
        texts(&worker.maintain(NOW + 5 * SECOND, true)),
        vec!["/repo"]
    );
    assert_eq!(
        texts(&worker.collect(NOW + 5 * SECOND, true)),
        vec!["/repo"]
    );
}

#[test]
fn awakened_worktrees_are_looked_at() {
    let mut worker = GitWorker::new(NOW, false);
    let mut cache = Table::new();
    let mut found = Table::new();
    found.insert(path("/repo"), Some(path("/repo")));
    let accepted = worker.accept(vec![entry("/repo", true, false)], &found);
    assert!(accepted.watch.is_empty() && accepted.dropped.is_empty());
    worker.settle_entries(&accepted.previous, &mut cache, NOW);
    worker.begin_refresh(&path("/repo"), NOW);
    cache.insert(path("/repo"), GitStatus::default());
    let accepted = worker.accept(vec![entry("/repo", true, true)], &found);
    assert!(!worker.settle_entries(&accepted.previous, &mut cache, NOW));
    assert_eq!(texts(&worker.collect(NOW, true)), vec!["/repo"]);
}

#[test]
fn awakened_worktrees_are_looked_at_whatever_is_known() {
    let mut worker = GitWorker::new(NOW, false);
    let mut found = Table::new();
    found.insert(path("/one"), Some(path("/one")));
    found.insert(path("/two"), Some(path("/two")));
    let both = |focused: bool| vec![entry("/one", false, focused), entry("/two", false, false)];
    let accepted = worker.accept(both(false), &found);
    worker.wake(&accepted.previous, NOW);
    assert!(worker.collect(NOW, true).is_empty());
    let accepted = worker.accept(both(true), &found);
    worker.wake(&accepted.previous, NOW);
    assert_eq!(texts(&worker.collect(NOW, true)), vec!["/one"]);
}

#[test]
fn what_is_published_belongs_to_the_agents_at_work() {
    let mut worker = GitWorker::new(NOW, false);
    let mut cache = Table::new();
    let mut found = Table::new();
    found.insert(path("/repo/a"), Some(path("/repo")));
    found.insert(path("/repo/b"), Some(path("/repo")));
    found.insert(path("/other"), Some(path("/other")));
    found.insert(path("/nowhere"), None);
    let entries = vec![
        entry("/nowhere", false, false),
        entry("/other", false, false),
        entry("/repo/a", false, false),
        entry("/repo/b", false, false),
    ];
    let accepted = worker.accept(entries, &found);
    worker.settle_entries(&accepted.previous, &mut cache, NOW);
    let status = GitStatus::default();
    for worktree in worker.collect(NOW, false) {
        let agents = worker.begin_refresh(&worktree, NOW).unwrap();
        assert!(worker.finish_refresh(&worktree, &agents, &status, &mut cache, NOW + SECOND));
    }
    assert_eq!(cache.len(), 3);
    assert!(!cache.contains_key(&path("/nowhere")));

    // The next look begins when the time between two looks has passed since the last one ended.
    let end = NOW + SECOND;
    let soon = end + MIN_REFRESH_INTERVAL - 1;
    assert!(worker.begin_refresh(&path("/repo"), soon).is_none());
    assert!(worker.begin_refresh(&path("/repo"), soon + 1).is_some());

    let accepted = worker.accept(vec![entry("/repo/b", false, false)], &found);
    assert!(worker.settle_entries(&accepted.previous, &mut cache, NOW));
    assert_eq!(cache.len(), 1);
    assert!(cache.contains_key(&path("/repo/b")));
    // Where nothing is said to be new, nothing is.
    assert!(!worker.settle_entries(&accepted.previous, &mut cache, NOW));
    assert_eq!(cache.len(), 1);
}

#[test]
fn worktrees_that_were_not_found_are_looked_for_again() {
    let mut worker = GitWorker::new(NOW, false);
    worker.accept(vec![entry("/x", false, false)], &Table::new());
    let again = || vec![entry("/x", false, false)];
    assert!(worker.consider(again()).is_none());
    worker.retry_negative(NOW + 29 * SECOND);
    assert!(worker.consider(again()).is_none());
    worker.retry_negative(NOW + 30 * SECOND);
    let (_, unresolved) = worker.consider(again()).unwrap();
    assert_eq!(unresolved.len(), 1);
}

#[test]
fn rule_books_keep_the_rules_of_each_worktree() {
    let mut book = RuleBook::new();
    book.set(
        &path("/a"),
        Some(&b"x\n".to_vec()),
        Some(&b"sub/x\0".to_vec()),
    );
    assert_eq!(book.ignores(&path("/a/x"), &path("/a")), Some(true));
    assert_eq!(book.ignores(&path("/a/sub/x"), &path("/a")), Some(false));
    assert_eq!(book.ignores(&path("/b/x"), &path("/b")), Some(false));
    assert_eq!(book.ignores(&path("/a//x"), &path("/a")), None);
    assert_eq!(book.ignores(&path("/a/sub//x"), &path("/a")), Some(false));
    book.forget(&path("/a"));
    assert_eq!(book.ignores(&path("/a/x"), &path("/a")), Some(false));
}

#[test]
fn config_watcher_reconciles_directories() {
    let mut watcher = ConfigWatcher::new();
    let global = ConfigWatcher::global_dir(Some(&path("/home/u/.config/workmux/config.yaml")));
    watcher.set_global(global.unwrap(), true);
    let first = set(&["/a", "/b", "/home/u/.config/workmux"]);
    let (unwatch, watch) = watcher.reconcile(&first);
    assert!(unwatch.is_empty());
    assert_eq!(texts(&watch), vec!["/a", "/b"]);
    watcher.add_dir(path("/a"), true);
    watcher.add_dir(path("/b"), false);
    let (unwatch, watch) = watcher.reconcile(&first);
    assert!(unwatch.is_empty());
    assert_eq!(texts(&watch), vec!["/b"]);
    let (unwatch, watch) = watcher.reconcile(&set(&["/c"]));
    assert_eq!(texts(&unwatch), vec!["/a"]);
    assert_eq!(texts(&watch), vec!["/c"]);
}

#[test]
fn config_reloads_are_debounced_from_the_first_event() {
    let mut watcher = ConfigWatcher::new();
    assert_eq!(watcher.wait_time(NOW), IDLE_WAIT);
    assert!(!watcher.note(Some(&access("/x/config.yaml")), false, NOW));
    assert_eq!(watcher.wait_time(NOW), IDLE_WAIT);
    assert!(!watcher.note(Some(&change(&["/x/config.yaml"])), false, NOW));
    assert_eq!(watcher.wait_time(NOW), RELOAD_DEBOUNCE);
    assert!(!watcher.note(None, true, NOW + 100_000_000));
    assert_eq!(watcher.wait_time(NOW + 100_000_000), 100_000_000);
    assert!(!watcher.note(None, false, NOW + RELOAD_DEBOUNCE - 1));
    assert!(watcher.note(None, false, NOW + RELOAD_DEBOUNCE));
    assert!(!watcher.note(None, false, NOW + RELOAD_DEBOUNCE));
    assert_eq!(next_version(4), 5);
    assert_eq!(next_version(u64::MAX), 0);
}

fn agent(pane_id: &str, at: &str) -> AgentPane {
    AgentPane {
        session: "s".to_string(),
        window_name: String::new(),
        pane_id: pane_id.to_string(),
        window_id: "@1".to_string(),
        window_index: None,
        path: path(at),
        pane_title: None,
        status: Some(AgentStatus::Working),
        status_ts: None,
        activity_ts: None,
        updated_ts: None,
        window_cmd: None,
        agent_command: None,
        agent_kind: None,
    }
}

fn snapshot(agents: Vec<AgentPane>) -> SidebarSnapshot {
    SidebarSnapshot {
        position: SidebarPosition::Left,
        layout_mode: SidebarLayoutMode::Tiles,
        filter_mode: SidebarFilterMode::All,
        active_windows: KeySet::new(),
        active_pane_ids: KeySet::new(),
        window_pane_counts: Table::new(),
        git_statuses: Table::new(),
        pr_statuses: Table::new(),
        check_statuses: Table::new(),
        interrupted_pane_ids: KeySet::new(),
        sleeping_pane_ids: KeySet::new(),
        agents,
        config_version: 0,
    }
}

#[test]
fn workers_are_told_of_agents() {
    let mut shown = snapshot(vec![agent("%1", "/a"), agent("%2", "/b"), agent("%3", "/c")]);
    shown.agents[1].window_id = "@2".to_string();
    shown.agents[2].window_id = String::new();
    shown
        .active_windows
        .insert(("s".to_string(), "@1".to_string()));
    shown.active_windows.insert(("s".to_string(), String::new()));
    shown.active_pane_ids.insert("%2".to_string());
    shown.git_statuses.insert(
        path("/a"),
        GitStatus {
            branch: Some("main".to_string()),
            ..GitStatus::default()
        },
    );
    shown.git_statuses.insert(path("/b"), GitStatus::default());
    let entries = git_entries(&shown, &vec![Some(0), Some(400), None], 4000);
    let flags: Vec<(bool, bool)> = entries
        .iter()
        .map(|entry| (entry.is_stale, entry.is_focused))
        .collect();
    assert_eq!(flags, vec![(true, true), (false, true), (false, false)]);
    let branches = github_entries(&shown);
    assert_eq!(branches.len(), 1);
    assert_eq!(branches[0].branch, "main");
    assert_eq!(branches[0].path.text(), "/a");
}

#[test]
fn rounds_are_debounced_and_come_in_time() {
    let mut daemon = DaemonLoop::new(NOW);
    assert!(!daemon.begin(true, NOW + 49_000_000));
    assert_eq!(daemon.wait(NOW + 49_000_000), 1_000_000);
    assert!(daemon.begin(false, NOW + 50_000_000));
    assert_eq!(daemon.wait(NOW + 50_000_000), 2 * SECOND);
    assert!(!daemon.begin(false, NOW + 2 * SECOND));
    assert!(daemon.begin(false, NOW + 2 * SECOND + 50_000_000));
}

#[test]
fn daemon_ends_without_clients() {
    let mut daemon = DaemonLoop::new(NOW);
    assert!(!daemon.note_clients(0, NOW + 10 * SECOND));
    assert!(!daemon.note_clients(1, NOW + 11 * SECOND));
    assert!(!daemon.note_clients(0, NOW + 21 * SECOND));
    assert!(daemon.note_clients(0, NOW + 21 * SECOND + 1));
    assert!(!daemon.take_health_log(NOW + 59 * SECOND));
    assert!(daemon.take_health_log(NOW + 60 * SECOND));
    assert!(!daemon.take_health_log(NOW + 61 * SECOND));
    assert!(!daemon.heartbeat_due(NOW + 9 * SECOND));
    assert!(daemon.heartbeat_due(NOW + 10 * SECOND));
    daemon.note_runtime_write(NOW + 10 * SECOND);
    assert!(!daemon.heartbeat_due(NOW + 11 * SECOND));
}

#[test]
fn daemon_follows_projects_and_agents() {
    let mut daemon = DaemonLoop::new(NOW);
    let agents = vec![agent("%1", "/a/x"), agent("%2", "/b")];
    assert_eq!(daemon.unknown_projects(&agents).len(), 2);
    let mut found = Table::new();
    found.insert(path("/a/x"), path("/a"));
    let dirs = daemon.take_projects(&agents, &found).unwrap();
    assert_eq!(dirs.len(), 1);
    assert!(dirs.contains(&path("/a")));
    assert_eq!(daemon.unknown_projects(&agents).len(), 1);
    assert!(daemon.take_projects(&agents, &Table::new()).is_none());
    assert!(daemon.take_projects(&Vec::new(), &found).unwrap().is_empty());

    match daemon.take_agent_list(&agents) {
        Some(AgentListChange::Show(list)) => assert_eq!(list, "%1 %2"),
        _ => panic!("a list"),
    }
    assert!(daemon.take_agent_list(&agents).is_none());
    assert!(matches!(
        daemon.take_agent_list(&Vec::new()),
        Some(AgentListChange::Clear)
    ));
}

#[test]
fn signals_end_or_refresh_the_daemon() {
    let end = on_signal(Signal::Terminate);
    assert!(end.terminate && end.wake && end.stop && !end.dirty);
    let refresh = on_signal(Signal::User);
    assert!(refresh.dirty && refresh.wake && !refresh.terminate && !refresh.stop);
    let other = on_signal(Signal::Other);
    assert!(!other.dirty && !other.wake && !other.terminate && !other.stop);
}
