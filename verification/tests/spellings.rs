use workmux::order::sorted_unique;
use workmux::paths::FilePath;
use workmux::sidebar::config_watcher::ConfigWatcher;
use workmux::sidebar::events::{config_event_triggers_reload, FsEvent};
use workmux::sidebar::git_cache::{resolve_git_worktrees_cached, GitWorkerPath};
use workmux::sidebar::git_dirs::{load_ignored_tracked_paths, worktree_watch_specs, GitLayout};
use workmux::sidebar::git_refresh::{reconcile_git_cache, refresh_git_status};
use workmux::sidebar::git_worker::GitWorker;
use workmux::sidebar::github_worker::{
    group_github_branches, GithubAction, GithubEvent, GithubWorker, GithubWorkerPath,
};
use workmux::sidebar::ignores::RuleBook;
use workmux::sidebar::state::GitStatus;
use workmux::sidebar::watches::WatchBook;
use workmux::tables::{KeySet, Table};
use workmux::values::Value;

const NOW: u64 = 1_000_000_000_000;

fn path(text: &str) -> FilePath {
    FilePath::parse(text)
}

fn raw(bytes: &[u8]) -> FilePath {
    FilePath::from_bytes(bytes.to_vec())
}

fn spelled(paths: &[FilePath]) -> Vec<Vec<u8>> {
    let mut found: Vec<Vec<u8>> = paths.iter().map(|path| path.spelling().to_vec()).collect();
    found.sort();
    found
}

fn entry(at: &FilePath) -> GitWorkerPath {
    GitWorkerPath {
        path: at.dup(),
        is_stale: false,
        is_focused: false,
    }
}

#[test]
fn tables_keep_the_key_that_came_first() {
    let mut table = Table::new();
    table.insert(path("/a//b"), 1u64);
    table.insert(path("/a/b"), 2);
    assert_eq!(table.len(), 1);
    assert_eq!(table.key_at(0).text(), "/a//b");
    assert_eq!(*table.get(&path("/a/./b")).unwrap(), 2);
    let (key, value) = table.remove_entry(&path("/a/b/")).unwrap();
    assert_eq!((key.text().as_str(), value), ("/a//b", 2));
    assert!(table.is_empty() && table.remove_entry(&key).is_none());

    let mut set = KeySet::new();
    set.insert(path("/a//b"));
    set.insert(path("/a/b"));
    assert_eq!(set.len(), 1);
    assert_eq!(set.get(&path("/a/b")).unwrap().text(), "/a//b");
    assert!(set.get(&path("/a")).is_none());
}

#[test]
fn the_first_of_equal_paths_stays() {
    let paths = vec![path("/b"), path("/a//x"), path("/a/x"), path("/b/")];
    let kept: Vec<String> = sorted_unique(paths).iter().map(|path| path.text()).collect();
    assert_eq!(kept, vec!["/a//x", "/b"]);
}

#[test]
fn watches_are_spelled_from_their_worktree() {
    let root = raw(b"/w//\xff");
    let layout = GitLayout::Plain { has_refs: true };
    let specs = worktree_watch_specs(&root, &layout, true);
    let shown: Vec<(&[u8], bool)> = specs
        .iter()
        .map(|spec| (spec.path.spelling(), spec.recursive))
        .collect();
    let named: Vec<(&[u8], bool)> = vec![
        (b"/w//\xff", true),
        (b"/w//\xff/.git", false),
        (b"/w//\xff/.git/refs", true),
    ];
    assert_eq!(shown.len(), named.len());
    assert!(named.iter().all(|spec| shown.contains(spec)));

    let layout = GitLayout::Linked {
        git_dir: Some(path("/g//w")),
        common: Some((path("/g/./c"), true)),
    };
    let specs = worktree_watch_specs(&root, &layout, false);
    let paths: Vec<FilePath> = specs.iter().map(|spec| spec.path.dup()).collect();
    assert_eq!(
        spelled(&paths),
        vec![b"/g/./c".to_vec(), b"/g/./c/refs".to_vec(), b"/g//w".to_vec()]
    );
}

#[test]
fn resolved_worktrees_keep_the_first_spelling() {
    let mut found = Table::new();
    found.insert(path("/r//a"), Some(path("/r//")));
    found.insert(path("/r/b"), Some(path("/r/.")));
    let entries = vec![entry(&path("/r//a")), entry(&path("/r/b"))];
    let resolved = resolve_git_worktrees_cached(&entries, &mut Table::new(), &found);
    assert_eq!(resolved.len(), 1);
    assert_eq!(resolved.key_at(0).text(), "/r//");
    assert_eq!(
        spelled(&resolved.value_at(0).agent_paths),
        vec![b"/r//a".to_vec(), b"/r/b".to_vec()]
    );
}

#[test]
fn git_workers_hand_out_paths_as_they_got_them() {
    let agent = raw(b"/repo//\xffa");
    let mut worker = GitWorker::new(NOW, true);
    let mut cache = Table::new();
    let (entries, unresolved) = worker.consider(vec![entry(&agent)]).unwrap();
    assert_eq!(unresolved.at(0).spelling(), agent.spelling());
    let mut found = Table::new();
    found.insert(agent.dup(), Some(path("//repo")));
    let accepted = worker.accept(entries, &found);
    assert_eq!(spelled(&accepted.watch), vec![b"//repo".to_vec()]);
    let layout = GitLayout::Plain { has_refs: false };
    let (_, specs) = worker.renew_watches(&accepted.watch[0], &layout, true);
    let watched: Vec<FilePath> = specs.iter().map(|spec| spec.path.dup()).collect();
    assert_eq!(
        spelled(&watched),
        vec![b"//repo".to_vec(), b"//repo/.git".to_vec()]
    );
    for dir in &watched {
        worker.add_watch(&accepted.watch[0], dir, true);
    }
    worker.settle_entries(&accepted.previous, &mut cache, NOW);
    assert_eq!(spelled(&worker.collect(NOW, true)), vec![b"//repo".to_vec()]);
    let agents = worker.begin_refresh(&path("/repo"), NOW).unwrap();
    assert_eq!(spelled(&agents), vec![agent.spelling().to_vec()]);
    let reloaded = worker.rules_to_reload(&path("/repo/.gitignore"));
    assert_eq!(spelled(&reloaded), vec![b"//repo".to_vec()]);

    let (entries, _) = worker.consider(Vec::new()).unwrap();
    let accepted = worker.accept(entries, &Table::new());
    assert_eq!(spelled(&accepted.dropped), vec![b"//repo".to_vec()]);
    assert_eq!(
        spelled(&accepted.unwatch),
        vec![b"//repo".to_vec(), b"//repo/.git".to_vec()]
    );
}

#[test]
fn missing_worktrees_are_named_as_they_were_found() {
    let mut found = Table::new();
    found.insert(path("/r//a"), Some(path("/r//")));
    let entries = vec![entry(&path("/r//a"))];
    let resolved = resolve_git_worktrees_cached(&entries, &mut Table::new(), &found);
    let mut cache: Table<FilePath, GitStatus> = Table::new();
    let (_, missing) = reconcile_git_cache(&Table::new(), &resolved, &mut cache);
    assert_eq!(spelled(&missing), vec![b"/r//".to_vec()]);
}

#[test]
fn watch_books_keep_spellings() {
    let mut book = WatchBook::new();
    let (one, dir) = (path("/one//x"), path("/shared//d"));
    book.begin_watches(&one, true);
    book.add_watch(&one, &dir, true);
    assert_eq!(
        spelled(&book.worktrees_for(&path("/shared/d/refs"))),
        vec![b"/one//x".to_vec()]
    );
    assert_eq!(
        spelled(&book.detach_worktree_watches(&path("/one/x"))),
        vec![b"/shared//d".to_vec()]
    );
}

#[test]
fn github_workers_hand_out_paths_as_they_got_them() {
    let work = |at: &str, branch: &str| GithubWorkerPath {
        path: path(at),
        branch: branch.to_string(),
    };
    let mut keys = Table::new();
    keys.insert(path("/a"), path("/repo//.git"));
    keys.insert(path("/b"), path("/repo/.git"));
    let groups = group_github_branches(&vec![work("/a/", "x"), work("/b", "y")], &keys);
    assert_eq!(groups.len(), 1);
    assert_eq!(groups.key_at(0).text(), "/repo//.git");
    assert_eq!(groups.value_at(0).0.text(), "/a/");

    let mut worker = GithubWorker::new(NOW, Table::new(), Table::new());
    let mut prs = Table::new();
    let mut checks = Table::new();
    let entries = GithubEvent::Entries(vec![work("/a//b", "x"), work("/a/b", "x")]);
    match worker.step(entries, &mut prs, &mut checks, NOW).0 {
        GithubAction::FindKeys(paths) => assert_eq!(paths.at(0).text(), "/a//b"),
        _ => panic!("keys"),
    }
    let mut found = Table::new();
    found.insert(path("/a/b"), path("/g/./c"));
    let event = GithubEvent::Keys(found);
    match worker.step(event, &mut prs, &mut checks, NOW).0 {
        GithubAction::Fetch(groups) => {
            assert_eq!(groups.key_at(0).text(), "/g/./c");
            assert_eq!(groups.value_at(0).0.text(), "/a//b");
        }
        _ => panic!("a fetch"),
    }
}

#[test]
fn config_directories_keep_their_spelling() {
    let mut watcher = ConfigWatcher::new();
    watcher.set_global(path("/global"), true);
    let mut wanted = KeySet::new();
    wanted.insert(raw(b"/a//\xfe"));
    let (_, watch) = watcher.reconcile(&wanted);
    assert_eq!(spelled(&watch), vec![b"/a//\xfe".to_vec()]);
    watcher.add_dir(watch[0].dup(), true);
    let (unwatch, _) = watcher.reconcile(&KeySet::new());
    assert_eq!(spelled(&unwatch), vec![b"/a//\xfe".to_vec()]);
}

#[test]
fn listings_are_shown_before_they_are_joined() {
    let listed = load_ignored_tracked_paths(&path("/w//x"), Some(&b"a//b\0\xff\0".to_vec()));
    assert_eq!(listed.len(), 2);
    assert_eq!(listed.get(&path("/w/x/a/b")).unwrap().text(), "/w//x/a//b");
    assert!(listed.contains(&path("/w/x/\u{fffd}")));
    assert!(!listed.contains(&raw(b"/w/x/\xff")));
}

#[test]
fn statuses_are_published_under_the_first_spelling() {
    let mut cache = Table::new();
    let status = GitStatus::default();
    assert!(refresh_git_status(&vec![path("/a//b")], &status, &mut cache));
    assert!(!refresh_git_status(&vec![path("/a/b")], &status, &mut cache));
    assert_eq!(cache.key_at(0).text(), "/a//b");
}

#[test]
fn names_that_are_no_text_are_no_config_files() {
    let event = |name: &[u8]| FsEvent {
        needs_rescan: false,
        is_access: false,
        paths: vec![raw(name)],
    };
    assert!(config_event_triggers_reload(&event(b"/\xff/config.yaml")));
    assert!(!config_event_triggers_reload(&event(b"/x/config.yaml\xff")));
}

#[test]
fn files_that_are_no_text_are_judged_by_what_is_shown_of_them() {
    let root = path("/a");
    let mut book = RuleBook::new();
    book.set(&root, Some(&b"*.log\n".to_vec()), None);
    assert_eq!(book.ignores(&raw(b"/a/\xff.log"), &root), Some(true));
    assert_eq!(book.ignores(&raw(b"/a/\xff.rs"), &root), Some(false));
    assert_eq!(book.ignores(&raw(b"/a/.git/objects/\xff"), &root), Some(true));
    assert_eq!(book.ignores(&raw(b"/a/.git/\xff"), &root), Some(false));
}
