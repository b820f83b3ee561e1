//! The worker that keeps pull requests and checks up to date.
//!
//! The worker decides; its host asks Git and GitHub and reports what came of it. Times are in
//! nanoseconds.
use vstd::prelude::*;

use super::clock::{earlier, elapsed};
use super::state::{CheckSummary, CheckSummaryView, PrSummary, PrSummaryView};
use crate::order::{sorted_unique, Ranked};
use crate::paths::{FilePath, PathView};
use crate::tables::{KeySet, Table};
use crate::values::Value;

verus! {

/// How far apart two looks at GitHub are at least, unless other branches are worked on.
pub const GITHUB_FETCH_INTERVAL: u64 = 30_000_000_000;

/// Whether GitHub is to be asked.
pub open spec fn fetch_due(branch_set_changed: bool, elapsed: u64) -> bool {
    branch_set_changed || elapsed >= GITHUB_FETCH_INTERVAL
}

/// Whether GitHub is to be asked.
pub fn github_fetch_due(branch_set_changed: bool, elapsed: u64) -> (due: bool)
    ensures
        due == fetch_due(branch_set_changed, elapsed),
{
    branch_set_changed || elapsed >= GITHUB_FETCH_INTERVAL
}

/// A directory in which an agent works, and the branch there.
pub struct GithubWorkerPath {
    pub path: FilePath,
    pub branch: String,
}

/// A directory in which an agent works, and the branch there.
#[verifier::ext_equal]
pub struct GithubWorkerPathView {
    pub path: PathView,
    pub branch: Seq<char>,
}

impl DeepView for GithubWorkerPath {
    type V = GithubWorkerPathView;

    open spec fn deep_view(&self) -> GithubWorkerPathView {
        GithubWorkerPathView {
            path: self.path.deep_view(),
            branch: self.branch.deep_view(),
        }
    }
}

impl Value for GithubWorkerPath {
    fn dup(&self) -> (copy: Self) {
        GithubWorkerPath {
            path: self.path.dup(),
            branch: self.branch.dup(),
        }
    }

    fn same(&self, other: &Self) -> (equal: bool) {
        self.path.same(&other.path)
            && self.branch.same(&other.branch)
    }
}

impl Ranked for GithubWorkerPath {
    open spec fn rank(view: GithubWorkerPathView) -> Seq<u32> {
        crate::order::path_rank(view.path).push(0u32) + crate::order::char_ranks(view.branch)
    }

    fn sort_key(&self) -> (key: Vec<u32>) {
        let mut key = self.path.sort_key();
        key.push(0);
        crate::order::push_chars(&mut key, self.branch.as_str());
        key
    }
}

/// What is known of a directory in which an agent works.
pub struct PathEntry<S: Value> {
    pub branch: String,
    pub summary: S,
}

/// What is known of a directory in which an agent works.
pub struct PathEntryView<S> {
    pub branch: Seq<char>,
    pub summary: S,
}

impl<S: Value> DeepView for PathEntry<S> {
    type V = PathEntryView<S::V>;

    open spec fn deep_view(&self) -> PathEntryView<S::V> {
        PathEntryView { branch: self.branch.deep_view(), summary: self.summary.deep_view() }
    }
}

impl<S: Value> Value for PathEntry<S> {
    fn dup(&self) -> (copy: Self) {
        PathEntry { branch: self.branch.dup(), summary: self.summary.dup() }
    }

    fn same(&self, other: &Self) -> (equal: bool) {
        self.branch.same(&other.branch) && self.summary.same(&other.summary)
    }
}

/// The pull request of the branch in a directory.
pub type PrPathEntry = PathEntry<PrSummary>;

/// The checks of the branch in a directory.
pub type CheckPathEntry = PathEntry<CheckSummary>;

/// Whether an entry belongs to a repository.
pub open spec fn entry_of(
    entry: GithubWorkerPathView,
    repo_keys: Map<PathView, PathView>,
    repo: PathView,
) -> bool {
    repo_keys.contains_key(entry.path) && repo_keys[entry.path] == repo
}

/// Whether some entry belongs to a repository.
pub open spec fn has_entry(
    entries: Seq<GithubWorkerPathView>,
    repo_keys: Map<PathView, PathView>,
    repo: PathView,
) -> bool {
    exists|i: int| 0 <= i < entries.len() && entry_of(#[trigger] entries[i], repo_keys, repo)
}

/// Whether a branch of a repository is worked on.
pub open spec fn has_branch(
    entries: Seq<GithubWorkerPathView>,
    repo_keys: Map<PathView, PathView>,
    repo: PathView,
    branch: Seq<char>,
) -> bool {
    exists|i: int|
        0 <= i < entries.len() && entry_of(#[trigger] entries[i], repo_keys, repo)
            && entries[i].branch == branch
}

/// Whether a directory is that of the first entry of a repository.
pub open spec fn is_first_path(
    entries: Seq<GithubWorkerPathView>,
    repo_keys: Map<PathView, PathView>,
    repo: PathView,
    path: PathView,
) -> bool {
    exists|i: int|
        0 <= i < entries.len() && entry_of(#[trigger] entries[i], repo_keys, repo)
            && entries[i].path == path && forall|j: int|
            0 <= j < i ==> !entry_of(#[trigger] entries[j], repo_keys, repo)
}

/// Whether a group stands for a repository: the directory to ask from, and the branches in any
/// order, with repetitions or without.
pub open spec fn gathers(
    group: (PathView, Seq<Seq<char>>),
    entries: Seq<GithubWorkerPathView>,
    repo_keys: Map<PathView, PathView>,
    repo: PathView,
) -> bool {
    &&& is_first_path(entries, repo_keys, repo, group.0)
    &&& forall|branch: Seq<char>| #[trigger]
        group.1.contains(branch) == has_branch(entries, repo_keys, repo, branch)
}

/// Whether groups stand for the repositories that entries belong to, and for no others.
pub open spec fn gathers_all(
    groups: Map<PathView, (PathView, Seq<Seq<char>>)>,
    entries: Seq<GithubWorkerPathView>,
    repo_keys: Map<PathView, PathView>,
) -> bool {
    forall|repo: PathView|
        #![trigger groups.contains_key(repo)]
        #![trigger has_entry(entries, repo_keys, repo)]
        groups.contains_key(repo) == has_entry(entries, repo_keys, repo) && (groups.contains_key(
            repo,
        ) ==> gathers(groups[repo], entries, repo_keys, repo))
}

/// Whether branches are in order and without repetition.
pub open spec fn in_order(groups: Map<PathView, (PathView, Seq<Seq<char>>)>) -> bool {
    forall|repo: PathView| #[trigger]
        groups.contains_key(repo) ==> crate::order::ascending::<String>(groups[repo].1)
            && groups[repo].1.no_duplicates()
}

proof fn lemma_gathers_next(
    group: Option<(PathView, Seq<Seq<char>>)>,
    entries: Seq<GithubWorkerPathView>,
    repo_keys: Map<PathView, PathView>,
    repo: PathView,
    i: int,
)
    requires
        0 <= i < entries.len(),
        group is Some == has_entry(entries.take(i), repo_keys, repo),
        group is Some ==> gathers(group->0, entries.take(i), repo_keys, repo),
        entry_of(entries[i], repo_keys, repo),
    ensures
        has_entry(entries.take(i + 1), repo_keys, repo),
        gathers(
            match group {
                Some(group) => (group.0, group.1.push(entries[i].branch)),
                None => (entries[i].path, seq![entries[i].branch]),
            },
            entries.take(i + 1),
            repo_keys,
            repo,
        ),
{
    let short = entries.take(i);
    let long = entries.take(i + 1);
    let entry = entries[i];
    assert(long[i] == entry);
    assert forall|j: int| 0 <= j < i implies #[trigger] long[j] == short[j] by {}
    assert(entry_of(long[i], repo_keys, repo));
    assert forall|branch: Seq<char>| #[trigger] has_branch(long, repo_keys, repo, branch) == (
    has_branch(short, repo_keys, repo, branch) || branch == entry.branch) by {
        if has_branch(short, repo_keys, repo, branch) {
            let j = choose|j: int|
                0 <= j < short.len() && entry_of(#[trigger] short[j], repo_keys, repo)
                    && short[j].branch == branch;
            assert(entry_of(long[j], repo_keys, repo));
        }
        if has_branch(long, repo_keys, repo, branch) {
            let j = choose|j: int|
                0 <= j < long.len() && entry_of(#[trigger] long[j], repo_keys, repo)
                    && long[j].branch == branch;
            if j < i {
                assert(entry_of(short[j], repo_keys, repo));
            }
        }
        assert(entry_of(long[i], repo_keys, repo));
    }
    match group {
        Some(group) => {
            let branches = group.1.push(entry.branch);
            let j = choose|j: int|
                0 <= j < short.len() && entry_of(#[trigger] short[j], repo_keys, repo)
                    && short[j].path == group.0 && forall|k: int|
                    0 <= k < j ==> !entry_of(#[trigger] short[k], repo_keys, repo);
            assert(entry_of(long[j], repo_keys, repo));
            assert forall|k: int| 0 <= k < j implies !entry_of(
                #[trigger] long[k],
                repo_keys,
                repo,
            ) by {
                assert(!entry_of(short[k], repo_keys, repo));
            }
            assert(is_first_path(long, repo_keys, repo, group.0));
            assert forall|branch: Seq<char>| #[trigger] branches.contains(branch) == has_branch(
                long,
                repo_keys,
                repo,
                branch,
            ) by {
                assert(group.1.contains(branch) == has_branch(short, repo_keys, repo, branch));
                assert(branches[group.1.len() as int] == entry.branch);
                if group.1.contains(branch) {
                    let n = choose|n: int| 0 <= n < group.1.len() && group.1[n] == branch;
                    assert(branches[n] == branch);
                }
                if branches.contains(branch) && branch != entry.branch {
                    let n = choose|n: int| 0 <= n < branches.len() && branches[n] == branch;
                    assert(group.1[n] == branch);
                }
            }
        },
        None => {
            let branches = seq![entry.branch];
            assert forall|k: int| 0 <= k < i implies !entry_of(
                #[trigger] long[k],
                repo_keys,
                repo,
            ) by {
                if entry_of(long[k], repo_keys, repo) {
                    assert(entry_of(short[k], repo_keys, repo));
                }
            }
            assert(is_first_path(long, repo_keys, repo, entry.path));
            assert forall|branch: Seq<char>| #[trigger] branches.contains(branch) == has_branch(
                long,
                repo_keys,
                repo,
                branch,
            ) by {
                assert(branches[0] == entry.branch);
                if has_branch(short, repo_keys, repo, branch) {
                    let j = choose|j: int|
                        0 <= j < short.len() && entry_of(#[trigger] short[j], repo_keys, repo)
                            && short[j].branch == branch;
                    assert(entry_of(short[j], repo_keys, repo));
                }
            }
        },
    }
}

proof fn lemma_gathers_other(
    entries: Seq<GithubWorkerPathView>,
    repo_keys: Map<PathView, PathView>,
    repo: PathView,
    i: int,
)
    requires
        0 <= i < entries.len(),
        !entry_of(entries[i], repo_keys, repo),
    ensures
        has_entry(entries.take(i + 1), repo_keys, repo) == has_entry(
            entries.take(i),
            repo_keys,
            repo,
        ),
        forall|group: (PathView, Seq<Seq<char>>)|
            gathers(group, entries.take(i), repo_keys, repo) ==> #[trigger] gathers(
                group,
                entries.take(i + 1),
                repo_keys,
                repo,
            ),
{
    let short = entries.take(i);
    let long = entries.take(i + 1);
    assert(long[i] == entries[i]);
    assert forall|j: int| 0 <= j < i implies #[trigger] long[j] == short[j] by {}
    if has_entry(short, repo_keys, repo) {
        let j = choose|j: int| 0 <= j < short.len() && entry_of(#[trigger] short[j], repo_keys, repo);
        assert(entry_of(long[j], repo_keys, repo));
    }
    if has_entry(long, repo_keys, repo) {
        let j = choose|j: int| 0 <= j < long.len() && entry_of(#[trigger] long[j], repo_keys, repo);
        assert(entry_of(short[j], repo_keys, repo));
    }
    assert forall|branch: Seq<char>| #[trigger] has_branch(long, repo_keys, repo, branch)
        == has_branch(short, repo_keys, repo, branch) by {
        if has_branch(short, repo_keys, repo, branch) {
            let j = choose|j: int|
                0 <= j < short.len() && entry_of(#[trigger] short[j], repo_keys, repo)
                    && short[j].branch == branch;
            assert(entry_of(long[j], repo_keys, repo));
        }
        if has_branch(long, repo_keys, repo, branch) {
            let j = choose|j: int|
                0 <= j < long.len() && entry_of(#[trigger] long[j], repo_keys, repo)
                    && long[j].branch == branch;
            assert(entry_of(short[j], repo_keys, repo));
        }
    }
    assert forall|group: (PathView, Seq<Seq<char>>)|
        gathers(group, short, repo_keys, repo) implies #[trigger] gathers(
        group,
        long,
        repo_keys,
        repo,
    ) by {
        let j = choose|j: int|
            0 <= j < short.len() && entry_of(#[trigger] short[j], repo_keys, repo)
                && short[j].path == group.0 && forall|k: int|
                0 <= k < j ==> !entry_of(#[trigger] short[k], repo_keys, repo);
        assert(entry_of(long[j], repo_keys, repo));
        assert forall|k: int| 0 <= k < j implies !entry_of(#[trigger] long[k], repo_keys, repo) by {
            assert(!entry_of(short[k], repo_keys, repo));
        }
        assert(is_first_path(long, repo_keys, repo, group.0));
        assert forall|branch: Seq<char>| #[trigger] group.1.contains(branch) == has_branch(
            long,
            repo_keys,
            repo,
            branch,
        ) by {
            assert(has_branch(long, repo_keys, repo, branch) == has_branch(
                short,
                repo_keys,
                repo,
                branch,
            ));
        }
    }
}

/// How the directories of entries are spelled.
pub open spec fn entry_spellings(entries: Seq<GithubWorkerPath>) -> Set<Seq<u8>> {
    Set::new(
        |name: Seq<u8>|
            exists|i: int| 0 <= i < entries.len() && (#[trigger] entries[i]).path.spelled() == name,
    )
}

/// How the directories of groups are spelled.
pub open spec fn query_spellings(groups: Set<(FilePath, Vec<String>)>) -> Set<Seq<u8>> {
    Set::new(
        |name: Seq<u8>|
            exists|group: (FilePath, Vec<String>)| #[trigger]
                groups.contains(group) && group.0.spelled() == name,
    )
}

/// Groups branches by the repository that they belong to, each with the first directory of that
/// repository to ask from.
pub fn group_github_branches(
    entries: &Vec<GithubWorkerPath>,
    repo_keys: &Table<FilePath, FilePath>,
) -> (groups: Table<FilePath, (FilePath, Vec<String>)>)
    ensures
        gathers_all(groups.deep_view(), entries.deep_view(), repo_keys.deep_view()),
        in_order(groups.deep_view()),
        query_spellings(groups.values()) <= entry_spellings(entries@),
        crate::paths::spellings(groups.keys()) <= crate::paths::spellings(repo_keys.values()),
{
    let ghost all = entries.deep_view();
    let ghost keys = repo_keys.deep_view();
    let mut groups: Table<FilePath, (FilePath, Vec<String>)> = Table::new();
    for i in 0..entries.len()
        invariant
            all == entries.deep_view(),
            keys == repo_keys.deep_view(),
            gathers_all(groups.deep_view(), all.take(i as int), keys),
            query_spellings(groups.values()) <= entry_spellings(entries@),
            crate::paths::spellings(groups.keys()) <= crate::paths::spellings(repo_keys.values()),
    {
        assert(entry_spellings(entries@).contains(entries@[i as int].path.spelled()));
        let entry = &entries[i];
        let ghost view = all[i as int];
        assert(view == entry.deep_view());
        match repo_keys.get(&entry.path) {
            Some(repo) => {
                let ghost at = repo.deep_view();
                let ghost held = groups.deep_view();
                let ghost known = if held.contains_key(at) {
                    Some(held[at])
                } else {
                    None
                };
                let (repo, (path, mut branches)) = match groups.remove_entry(repo) {
                    Some(group) => group,
                    None => (repo.dup(), (entry.path.dup(), Vec::new())),
                };
                assert(entry_spellings(entries@).contains(path.spelled()));
                let ghost listed = branches.deep_view();
                branches.push(entry.branch.dup());
                assert(branches.deep_view() =~= listed.push(view.branch));
                assert(known is None ==> branches.deep_view() =~= seq![view.branch]);
                let ghost group = (path.deep_view(), branches.deep_view());
                groups.insert(repo, (path, branches));
                proof {
                    let now = groups.deep_view();
                    assert(now =~= held.insert(at, group));
                    assert(held.contains_key(at) == has_entry(all.take(i as int), keys, at));
                    lemma_gathers_next(known, all, keys, at, i as int);
                    assert forall|r: PathView|
                        #![trigger now.contains_key(r)]
                        #![trigger has_entry(all.take(i + 1), keys, r)]
                        now.contains_key(r) == has_entry(all.take(i + 1), keys, r) && (
                        now.contains_key(r) ==> gathers(now[r], all.take(i + 1), keys, r)) by {
                        if r != at {
                            assert(!entry_of(view, keys, r));
                            lemma_gathers_other(all, keys, r, i as int);
                            assert(held.contains_key(r) == has_entry(all.take(i as int), keys, r));
                        }
                    }
                }
            },
            None => {
                proof {
                    let now = groups.deep_view();
                    assert forall|r: PathView|
                        #![trigger now.contains_key(r)]
                        #![trigger has_entry(all.take(i + 1), keys, r)]
                        now.contains_key(r) == has_entry(all.take(i + 1), keys, r) && (
                        now.contains_key(r) ==> gathers(now[r], all.take(i + 1), keys, r)) by {
                        assert(!entry_of(view, keys, r));
                        lemma_gathers_other(all, keys, r, i as int);
                    }
                }
            },
        }
    }
    assert(all.take(all.len() as int) =~= all);
    sort_branches(&groups)
}

fn sort_branches(groups: &Table<FilePath, (FilePath, Vec<String>)>) -> (result: Table<
    FilePath,
    (FilePath, Vec<String>),
>)
    ensures
        in_order(result.deep_view()),
        forall|entries: Seq<GithubWorkerPathView>, keys: Map<PathView, PathView>|
            gathers_all(groups.deep_view(), entries, keys) ==> #[trigger] gathers_all(
                result.deep_view(),
                entries,
                keys,
            ),
        query_spellings(result.values()) <= query_spellings(groups.values()),
        crate::paths::spellings(result.keys()) <= crate::paths::spellings(groups.keys()),
{
    let mut result: Table<FilePath, (FilePath, Vec<String>)> = Table::new();
    let ghost pairs = groups.pairs();
    let ghost all = groups.deep_view();
    let count: usize = groups.len();
    for i in 0..count
        invariant
            count == pairs.len(),
            pairs == groups.pairs(),
            all == groups.deep_view(),
            crate::tables::distinct_keys(pairs),
            forall|repo: PathView| #[trigger]
                result.deep_view().contains_key(repo) ==> {
                    let after = result.deep_view()[repo];
                    &&& all.contains_key(repo)
                    &&& after.0 == all[repo].0
                    &&& crate::order::ascending::<String>(after.1)
                    &&& after.1.no_duplicates()
                    &&& after.1.to_set() == all[repo].1.to_set()
                },
            forall|j: int|
                0 <= j < i ==> result.deep_view().contains_key((#[trigger] pairs[j]).0),
            query_spellings(result.values()) <= query_spellings(groups.values()),
            crate::paths::spellings(result.keys()) <= crate::paths::spellings(groups.keys()),
    {
        let repo = groups.key_at(i);
        let group = groups.value_at(i);
        result.insert(repo.dup(), (group.0.dup(), sorted_unique(group.1.dup())));
    }
    proof {
        let after = result.deep_view();
        assert forall|repo: PathView| all.contains_key(repo) implies #[trigger] after.contains_key(
            repo,
        ) by {
            let j = choose|j: int| 0 <= j < pairs.len() && (#[trigger] pairs[j]).0 == repo;
            assert(after.contains_key(pairs[j].0));
        }
        assert forall|entries: Seq<GithubWorkerPathView>, keys: Map<PathView, PathView>|
            gathers_all(all, entries, keys) implies #[trigger] gathers_all(
            after,
            entries,
            keys,
        ) by {
            assert forall|repo: PathView|
                #![trigger after.contains_key(repo)]
                #![trigger has_entry(entries, keys, repo)]
                after.contains_key(repo) == has_entry(entries, keys, repo) && (after.contains_key(
                    repo,
                ) ==> gathers(after[repo], entries, keys, repo)) by {
                assert(after.contains_key(repo) == all.contains_key(repo));
                if after.contains_key(repo) {
                    assert(gathers(all[repo], entries, keys, repo));
                    assert forall|branch: Seq<char>| #[trigger] after[repo].1.contains(branch)
                        == has_branch(entries, keys, repo, branch) by {
                        assert(after[repo].1.to_set().contains(branch)
                            == all[repo].1.to_set().contains(branch));
                        assert(all[repo].1.contains(branch) == has_branch(
                            entries,
                            keys,
                            repo,
                            branch,
                        ));
                    }
                }
            }
        }
    }
    result
}

/// Forgets what is known of directories, and says whether anything was.
pub fn clear_path_cache<S: Value>(path_cache: &mut Table<FilePath, PathEntry<S>>) -> (changed: bool)
    ensures
        changed == (old(path_cache).deep_view() != Map::<PathView, PathEntryView<S::V>>::empty()),
        final(path_cache).deep_view() == Map::<PathView, PathEntryView<S::V>>::empty(),
        final(path_cache).keys() == Set::<FilePath>::empty(),
{
    let changed = !path_cache.is_empty();
    path_cache.clear();
    changed
}

/// Forgets the pull requests of directories, and says whether any was known.
pub fn clear_pr_path_cache(path_cache: &mut Table<FilePath, PrPathEntry>) -> (changed: bool)
    ensures
        changed == (old(path_cache).deep_view() != Map::<
            PathView,
            PathEntryView<PrSummaryView>,
        >::empty()),
        final(path_cache).deep_view() == Map::<PathView, PathEntryView<PrSummaryView>>::empty(),
        final(path_cache).keys() == Set::<FilePath>::empty(),
{
    clear_path_cache(path_cache)
}

/// Forgets the checks of directories, and says whether any were known.
pub fn clear_check_path_cache(path_cache: &mut Table<FilePath, CheckPathEntry>) -> (changed: bool)
    ensures
        changed == (old(path_cache).deep_view() != Map::<
            PathView,
            PathEntryView<CheckSummaryView>,
        >::empty()),
        final(path_cache).deep_view() == Map::<PathView, PathEntryView<CheckSummaryView>>::empty(),
        final(path_cache).keys() == Set::<FilePath>::empty(),
{
    clear_path_cache(path_cache)
}

/// What is known of the branch of an entry.
pub open spec fn summary_of<S>(
    entry: GithubWorkerPathView,
    repo_keys: Map<PathView, PathView>,
    repos: Map<PathView, Map<Seq<char>, S>>,
) -> Option<S> {
    if repo_keys.contains_key(entry.path) && repos.contains_key(repo_keys[entry.path])
        && repos[repo_keys[entry.path]].contains_key(entry.branch) {
        Some(repos[repo_keys[entry.path]][entry.branch])
    } else {
        None
    }
}

/// What is known of the directories of entries. Of several entries of a directory the last one
/// counts of which something is known.
pub open spec fn known_paths<S>(
    entries: Seq<GithubWorkerPathView>,
    repo_keys: Map<PathView, PathView>,
    repos: Map<PathView, Map<Seq<char>, S>>,
) -> Map<PathView, PathEntryView<S>>
    decreases entries.len(),
{
    if entries.len() == 0 {
        Map::empty()
    } else {
        let before = known_paths(entries.drop_last(), repo_keys, repos);
        let last = entries.last();
        match summary_of(last, repo_keys, repos) {
            Some(summary) => before.insert(
                last.path,
                PathEntryView { branch: last.branch, summary },
            ),
            None => before,
        }
    }
}

/// Publishes what is known of the directories of entries, and says whether that is anything new.
pub fn publish_path_cache<S: Value>(
    entries: &Vec<GithubWorkerPath>,
    repo_keys: &Table<FilePath, FilePath>,
    repo_cache: &Table<FilePath, Table<String, S>>,
    path_cache: &mut Table<FilePath, PathEntry<S>>,
) -> (changed: bool)
    ensures
        final(path_cache).deep_view() == known_paths(
            entries.deep_view(),
            repo_keys.deep_view(),
            repo_cache.deep_view(),
        ),
        changed == (old(path_cache).deep_view() != final(path_cache).deep_view()),
        crate::paths::spellings(final(path_cache).keys()) <= crate::paths::spellings(
            old(path_cache).keys(),
        ).union(entry_spellings(entries@)),
{
    let ghost all = entries.deep_view();
    let ghost keys = repo_keys.deep_view();
    let ghost repos = repo_cache.deep_view();
    let mut next: Table<FilePath, PathEntry<S>> = Table::new();
    assert(all.take(0) =~= Seq::<GithubWorkerPathView>::empty());
    for i in 0..entries.len()
        invariant
            all == entries.deep_view(),
            keys == repo_keys.deep_view(),
            repos == repo_cache.deep_view(),
            next.deep_view() == known_paths(all.take(i as int), keys, repos),
            crate::paths::spellings(next.keys()) <= entry_spellings(entries@),
    {
        assert(entry_spellings(entries@).contains(entries@[i as int].path.spelled()));
        let entry = &entries[i];
        assert(all.take(i + 1).drop_last() =~= all.take(i as int));
        assert(all.take(i + 1).last() == entry.deep_view());
        if let Some(repo) = repo_keys.get(&entry.path) {
            if let Some(summaries) = repo_cache.get(repo) {
                if let Some(summary) = summaries.get(&entry.branch) {
                    next.insert(
                        entry.path.dup(),
                        PathEntry { branch: entry.branch.dup(), summary: summary.dup() },
                    );
                }
            }
        }
    }
    assert(all.take(all.len() as int) =~= all);
    if path_cache.same(&next) {
        false
    } else {
        *path_cache = next;
        true
    }
}

/// Publishes the pull requests of the directories of entries, and says whether that is anything
/// new.
pub fn publish_pr_path_cache(
    entries: &Vec<GithubWorkerPath>,
    repo_keys: &Table<FilePath, FilePath>,
    repo_cache: &Table<FilePath, Table<String, PrSummary>>,
    path_cache: &mut Table<FilePath, PrPathEntry>,
) -> (changed: bool)
    ensures
        final(path_cache).deep_view() == known_paths(
            entries.deep_view(),
            repo_keys.deep_view(),
            repo_cache.deep_view(),
        ),
        changed == (old(path_cache).deep_view() != final(path_cache).deep_view()),
        crate::paths::spellings(final(path_cache).keys()) <= crate::paths::spellings(
            old(path_cache).keys(),
        ).union(entry_spellings(entries@)),
{
    publish_path_cache(entries, repo_keys, repo_cache, path_cache)
}

/// Publishes the checks of the directories of entries, and says whether that is anything new.
pub fn publish_check_path_cache(
    entries: &Vec<GithubWorkerPath>,
    repo_keys: &Table<FilePath, FilePath>,
    repo_cache: &Table<FilePath, Table<String, CheckSummary>>,
    path_cache: &mut Table<FilePath, CheckPathEntry>,
) -> (changed: bool)
    ensures
        final(path_cache).deep_view() == known_paths(
            entries.deep_view(),
            repo_keys.deep_view(),
            repo_cache.deep_view(),
        ),
        changed == (old(path_cache).deep_view() != final(path_cache).deep_view()),
        crate::paths::spellings(final(path_cache).keys()) <= crate::paths::spellings(
            old(path_cache).keys(),
        ).union(entry_spellings(entries@)),
{
    publish_path_cache(entries, repo_keys, repo_cache, path_cache)
}

/// What is published of a directory is what is known of a branch that is worked on there.
pub proof fn published_branches_are_worked_on<S>(
    entries: Seq<GithubWorkerPathView>,
    repo_keys: Map<PathView, PathView>,
    repos: Map<PathView, Map<Seq<char>, S>>,
    path: PathView,
)
    requires
        known_paths(entries, repo_keys, repos).contains_key(path),
    ensures
        ({
            let known = known_paths(entries, repo_keys, repos)[path];
            exists|i: int|
                0 <= i < entries.len() && (#[trigger] entries[i]).path == path && entries[i].branch
                    == known.branch && summary_of(entries[i], repo_keys, repos) == Some(
                    known.summary,
                )
        }),
    decreases entries.len(),
{
    let before = entries.drop_last();
    let last = entries.last();
    if summary_of(last, repo_keys, repos) is Some && last.path == path {
        assert(entries[entries.len() - 1] == last);
    } else {
        published_branches_are_worked_on(before, repo_keys, repos, path);
        let known = known_paths(before, repo_keys, repos)[path];
        let i = choose|i: int|
            0 <= i < before.len() && (#[trigger] before[i]).path == path && before[i].branch
                == known.branch && summary_of(before[i], repo_keys, repos) == Some(known.summary);
        assert(entries[i] == before[i]);
    }
}

/// What GitHub says of a branch.
pub struct BranchSummary {
    pub branch: String,
    pub pr: Option<PrSummary>,
    pub checks: Option<CheckSummary>,
}

/// What GitHub says of a branch.
#[verifier::ext_equal]
pub struct BranchSummaryView {
    pub branch: Seq<char>,
    pub pr: Option<PrSummaryView>,
    pub checks: Option<CheckSummaryView>,
}

impl DeepView for BranchSummary {
    type V = BranchSummaryView;

    open spec fn deep_view(&self) -> BranchSummaryView {
        BranchSummaryView {
            branch: self.branch.deep_view(),
            pr: self.pr.deep_view(),
            checks: self.checks.deep_view(),
        }
    }
}

impl Value for BranchSummary {
    fn dup(&self) -> (copy: Self) {
        BranchSummary {
            branch: self.branch.dup(),
            pr: self.pr.dup(),
            checks: self.checks.dup(),
        }
    }

    fn same(&self, other: &Self) -> (equal: bool) {
        self.branch.same(&other.branch)
            && self.pr.same(&other.pr)
            && self.checks.same(&other.checks)
    }
}

/// The pull requests that GitHub knows of, by branch.
pub open spec fn prs_by_branch(summaries: Seq<BranchSummaryView>) -> Map<
    Seq<char>,
    PrSummaryView,
>
    decreases summaries.len(),
{
    if summaries.len() == 0 {
        Map::empty()
    } else {
        let before = prs_by_branch(summaries.drop_last());
        match summaries.last().pr {
            Some(found) => before.insert(summaries.last().branch, found),
            None => before,
        }
    }
}

/// Collects the pull requests that GitHub knows of, by branch.
pub fn collect_prs(summaries: &Vec<BranchSummary>) -> (found: Table<String, PrSummary>)
    ensures
        found.deep_view() == prs_by_branch(summaries.deep_view()),
{
    let ghost all = summaries.deep_view();
    let mut found: Table<String, PrSummary> = Table::new();
    assert(all.take(0) =~= Seq::<BranchSummaryView>::empty());
    for i in 0..summaries.len()
        invariant
            all == summaries.deep_view(),
            found.deep_view() == prs_by_branch(all.take(i as int)),
    {
        assert(all.take(i + 1).drop_last() =~= all.take(i as int));
        assert(all.take(i + 1).last() == summaries@[i as int].deep_view());
        if let Some(summary) = &summaries[i].pr {
            found.insert(summaries[i].branch.dup(), summary.dup());
        }
    }
    assert(all.take(all.len() as int) =~= all);
    found
}

/// What is known of the pull requests of repositories, once some were asked for. Of a repository without
/// any nothing is kept.
pub open spec fn merged_prs(
    repos: Map<PathView, Map<Seq<char>, PrSummaryView>>,
    fetched: Seq<(PathView, Seq<BranchSummaryView>)>,
) -> Map<PathView, Map<Seq<char>, PrSummaryView>>
    decreases fetched.len(),
{
    if fetched.len() == 0 {
        repos
    } else {
        let before = merged_prs(repos, fetched.drop_last());
        let found = prs_by_branch(fetched.last().1);
        if found == Map::<Seq<char>, PrSummaryView>::empty() {
            before.remove(fetched.last().0)
        } else {
            before.insert(fetched.last().0, found)
        }
    }
}

fn merge_prs(
    repos: &mut Table<FilePath, Table<String, PrSummary>>,
    fetched: &Vec<(FilePath, Vec<BranchSummary>)>,
)
    ensures
        final(repos).deep_view() == merged_prs(old(repos).deep_view(), fetched.deep_view()),
{
    let ghost before = repos.deep_view();
    let ghost all = fetched.deep_view();
    assert(all.take(0) =~= Seq::empty());
    for i in 0..fetched.len()
        invariant
            all == fetched.deep_view(),
            repos.deep_view() == merged_prs(before, all.take(i as int)),
    {
        assert(all.take(i + 1).drop_last() =~= all.take(i as int));
        assert(all.take(i + 1).last() == fetched@[i as int].deep_view());
        let found = collect_prs(&fetched[i].1);
        if found.is_empty() {
            let _ = repos.remove(&fetched[i].0);
        } else {
            repos.insert(fetched[i].0.dup(), found);
        }
    }
    assert(all.take(all.len() as int) =~= all);
}

/// The checks that GitHub knows of, by branch.
pub open spec fn checks_by_branch(summaries: Seq<BranchSummaryView>) -> Map<
    Seq<char>,
    CheckSummaryView,
>
    decreases summaries.len(),
{
    if summaries.len() == 0 {
        Map::empty()
    } else {
        let before = checks_by_branch(summaries.drop_last());
        match summaries.last().checks {
            Some(found) => before.insert(summaries.last().branch, found),
            None => before,
        }
    }
}

/// Collects the checks that GitHub knows of, by branch.
pub fn collect_checks(summaries: &Vec<BranchSummary>) -> (found: Table<String, CheckSummary>)
    ensures
        found.deep_view() == checks_by_branch(summaries.deep_view()),
{
    let ghost all = summaries.deep_view();
    let mut found: Table<String, CheckSummary> = Table::new();
    assert(all.take(0) =~= Seq::<BranchSummaryView>::empty());
    for i in 0..summaries.len()
        invariant
            all == summaries.deep_view(),
            found.deep_view() == checks_by_branch(all.take(i as int)),
    {
        assert(all.take(i + 1).drop_last() =~= all.take(i as int));
        assert(all.take(i + 1).last() == summaries@[i as int].deep_view());
        if let Some(summary) = &summaries[i].checks {
            found.insert(summaries[i].branch.dup(), summary.dup());
        }
    }
    assert(all.take(all.len() as int) =~= all);
    found
}

/// What is known of the checks of repositories, once some were asked for. Of a repository without
/// any nothing is kept.
pub open spec fn merged_checks(
    repos: Map<PathView, Map<Seq<char>, CheckSummaryView>>,
    fetched: Seq<(PathView, Seq<BranchSummaryView>)>,
) -> Map<PathView, Map<Seq<char>, CheckSummaryView>>
    decreases fetched.len(),
{
    if fetched.len() == 0 {
        repos
    } else {
        let before = merged_checks(repos, fetched.drop_last());
        let found = checks_by_branch(fetched.last().1);
        if found == Map::<Seq<char>, CheckSummaryView>::empty() {
            before.remove(fetched.last().0)
        } else {
            before.insert(fetched.last().0, found)
        }
    }
}

fn merge_checks(
    repos: &mut Table<FilePath, Table<String, CheckSummary>>,
    fetched: &Vec<(FilePath, Vec<BranchSummary>)>,
)
    ensures
        final(repos).deep_view() == merged_checks(old(repos).deep_view(), fetched.deep_view()),
{
    let ghost before = repos.deep_view();
    let ghost all = fetched.deep_view();
    assert(all.take(0) =~= Seq::empty());
    for i in 0..fetched.len()
        invariant
            all == fetched.deep_view(),
            repos.deep_view() == merged_checks(before, all.take(i as int)),
    {
        assert(all.take(i + 1).drop_last() =~= all.take(i as int));
        assert(all.take(i + 1).last() == fetched@[i as int].deep_view());
        let found = collect_checks(&fetched[i].1);
        if found.is_empty() {
            let _ = repos.remove(&fetched[i].0);
        } else {
            repos.insert(fetched[i].0.dup(), found);
        }
    }
    assert(all.take(all.len() as int) =~= all);
}

/// The worker.
pub struct GithubWorker {
    active_entries: Vec<GithubWorkerPath>,
    repo_keys: Table<FilePath, FilePath>,
    last_key: Vec<GithubWorkerPath>,
    last_fetch: u64,
    prs: Table<FilePath, Table<String, PrSummary>>,
    checks: Table<FilePath, Table<String, CheckSummary>>,
}

/// The worker.
#[verifier::ext_equal]
pub struct GithubWorkerView {
    /// The directories in which agents work, in order and without repetition.
    pub active_entries: Seq<GithubWorkerPathView>,
    /// The repositories that directories belong to.
    pub repo_keys: Map<PathView, PathView>,
    /// The directories for which GitHub was last asked.
    pub last_key: Seq<GithubWorkerPathView>,
    /// When GitHub was last asked.
    pub last_fetch: u64,
    pub prs: Map<PathView, Map<Seq<char>, PrSummaryView>>,
    pub checks: Map<PathView, Map<Seq<char>, CheckSummaryView>>,
}

impl DeepView for GithubWorker {
    type V = GithubWorkerView;

    closed spec fn deep_view(&self) -> GithubWorkerView {
        GithubWorkerView {
            active_entries: self.active_entries.deep_view(),
            repo_keys: self.repo_keys.deep_view(),
            last_key: self.last_key.deep_view(),
            last_fetch: self.last_fetch,
            prs: self.prs.deep_view(),
            checks: self.checks.deep_view(),
        }
    }
}

/// The directories of entries.
pub open spec fn directories(entries: Seq<GithubWorkerPathView>) -> Set<PathView> {
    Set::new(
        |path: PathView|
            exists|i: int| 0 <= i < entries.len() && (#[trigger] entries[i]).path == path,
    )
}

/// The repository of a directory: as it is known, else as it was found.
pub open spec fn repo_of(
    keys: Map<PathView, PathView>,
    found: Map<PathView, PathView>,
    path: PathView,
) -> PathView {
    if keys.contains_key(path) {
        keys[path]
    } else {
        found[path]
    }
}

impl GithubWorkerView {
    /// A worker as it begins, with what was known before.
    pub open spec fn fresh(
        now: u64,
        prs: Map<PathView, Map<Seq<char>, PrSummaryView>>,
        checks: Map<PathView, Map<Seq<char>, CheckSummaryView>>,
    ) -> GithubWorkerView {
        GithubWorkerView {
            active_entries: Seq::empty(),
            repo_keys: Map::empty(),
            last_key: Seq::empty(),
            last_fetch: super::clock::before(now, GITHUB_FETCH_INTERVAL),
            prs,
            checks,
        }
    }

    /// The repositories of the directories, with those that were found.
    pub open spec fn rekeyed(self, found: Map<PathView, PathView>) -> Map<PathView, PathView> {
        Map::new(
            |path: PathView|
                directories(self.active_entries).contains(path) && (self.repo_keys.contains_key(
                    path,
                ) || found.contains_key(path)),
            |path: PathView| repo_of(self.repo_keys, found, path),
        )
    }

    /// Whether GitHub is to be asked.
    pub open spec fn is_due(self, now: u64) -> bool {
        fetch_due(self.active_entries != self.last_key, super::clock::passed(now, self.last_fetch))
    }

    /// Whether some directory belongs to a repository.
    pub open spec fn has_repos(self) -> bool {
        exists|repo: PathView| has_entry(self.active_entries, self.repo_keys, repo)
    }

    /// Whether these are the directories whose repository is not known.
    pub open spec fn lacks(self, paths: Set<PathView>) -> bool {
        forall|path: PathView| #[trigger]
            paths.contains(path) == (directories(self.active_entries).contains(path)
                && !self.repo_keys.contains_key(path))
    }

    /// With other directories.
    pub open spec fn moved_to(
        self,
        after: GithubWorkerView,
        entries: Seq<GithubWorkerPathView>,
    ) -> bool {
        &&& after == (GithubWorkerView { active_entries: after.active_entries, ..self })
        &&& crate::order::ascending::<GithubWorkerPath>(after.active_entries)
        &&& after.active_entries.no_duplicates()
        &&& after.active_entries.to_set() == entries.to_set()
    }

    /// Behind the decision whether to ask GitHub: where it is time and no directory belongs to a
    /// repository, nothing is asked until the directories change.
    pub open spec fn planned(self, now: u64) -> GithubWorkerView {
        if self.is_due(now) && !self.has_repos() {
            GithubWorkerView { last_key: self.active_entries, ..self }
        } else {
            self
        }
    }

    /// Whether this is what GitHub is to be asked for, if anything.
    pub open spec fn asks(
        self,
        now: u64,
        groups: Option<Map<PathView, (PathView, Seq<Seq<char>>)>>,
    ) -> bool {
        &&& groups is Some == (self.is_due(now) && self.has_repos())
        &&& groups matches Some(groups) ==> gathers_all(
            groups,
            self.active_entries,
            self.repo_keys,
        ) && in_order(groups)
    }

    /// What is to be published of pull requests.
    pub open spec fn shown_prs(self) -> Map<PathView, PathEntryView<PrSummaryView>> {
        known_paths(self.active_entries, self.repo_keys, self.prs)
    }

    /// What is to be published of checks.
    pub open spec fn shown_checks(self) -> Map<PathView, PathEntryView<CheckSummaryView>> {
        known_paths(self.active_entries, self.repo_keys, self.checks)
    }

    /// With what GitHub said.
    pub open spec fn informed(
        self,
        fetched: Seq<(PathView, Seq<BranchSummaryView>)>,
        now: u64,
    ) -> GithubWorkerView {
        GithubWorkerView {
            prs: merged_prs(self.prs, fetched),
            checks: merged_checks(self.checks, fetched),
            last_key: self.active_entries,
            last_fetch: now,
            ..self
        }
    }
}

/// What the worker learns.
pub enum GithubEvent {
    /// The directories in which agents work, and their branches.
    Entries(Vec<GithubWorkerPath>),
    /// For a while there was nothing else.
    Quiet,
    /// The repositories of directories, as far as they were found.
    Keys(Table<FilePath, FilePath>),
    /// What GitHub said of the branches of repositories, as far as it answered.
    Fetched(Vec<(FilePath, Vec<BranchSummary>)>),
}

/// What the host of the worker does next.
pub enum GithubAction {
    /// Wait for directories.
    Wait,
    /// Find the repositories of these directories.
    FindKeys(KeySet<FilePath>),
    /// Ask GitHub: for each repository from a directory for branches.
    Fetch(Table<FilePath, (FilePath, Vec<String>)>),
}

impl GithubAction {
    /// Whether no other spellings are given out than these of directories and of repositories.
    pub open spec fn hands_out(self, dirs: Set<Seq<u8>>, repos: Set<Seq<u8>>) -> bool {
        match self {
            GithubAction::Wait => true,
            GithubAction::FindKeys(paths) => crate::paths::spellings(paths.members()) <= dirs,
            GithubAction::Fetch(groups) => query_spellings(groups.values()) <= dirs
                && crate::paths::spellings(groups.keys()) <= repos,
        }
    }

    /// Whether it has GitHub asked, if it is time, and waits otherwise.
    pub open spec fn goes_on_from(self, worker: GithubWorkerView, now: u64) -> bool {
        match self {
            GithubAction::Wait => worker.asks(now, None),
            GithubAction::FindKeys(_) => false,
            GithubAction::Fetch(groups) => worker.asks(now, Some(groups.deep_view())),
        }
    }
}

/// The worker and what is published.
#[verifier::ext_equal]
pub struct GithubState {
    pub worker: GithubWorkerView,
    pub prs: Map<PathView, PathEntryView<PrSummaryView>>,
    pub checks: Map<PathView, PathEntryView<CheckSummaryView>>,
}

impl GithubState {
    /// Whether the same is published as before.
    pub open spec fn publishes_as(self, before: GithubState) -> bool {
        self.prs == before.prs && self.checks == before.checks
    }

    /// Whether just that is published which is known of the directories in which agents work.
    pub open spec fn publishes_what_is_known(self) -> bool {
        self.prs == self.worker.shown_prs() && self.checks == self.worker.shown_checks()
    }

    /// Whether an event leads from here to there, and to this action.
    pub open spec fn steps(
        self,
        event: GithubEvent,
        now: u64,
        action: GithubAction,
        after: GithubState,
    ) -> bool {
        match event {
            GithubEvent::Entries(entries) => {
                &&& self.worker.moved_to(after.worker, entries.deep_view())
                &&& if entries@.len() == 0 {
                    &&& action is Wait
                    &&& after.prs == Map::<PathView, PathEntryView<PrSummaryView>>::empty()
                    &&& after.checks == Map::<PathView, PathEntryView<CheckSummaryView>>::empty()
                } else {
                    &&& action matches GithubAction::FindKeys(paths)
                    &&& after.worker.lacks(paths.deep_view())
                    &&& after.publishes_as(self)
                }
            },
            GithubEvent::Quiet => {
                &&& after.publishes_as(self)
                &&& if self.worker.active_entries.len() == 0 {
                    &&& action is Wait
                    &&& after.worker == self.worker
                } else {
                    &&& action.goes_on_from(self.worker, now)
                    &&& after.worker == self.worker.planned(now)
                }
            },
            GithubEvent::Keys(found) => {
                let keyed = GithubWorkerView {
                    repo_keys: self.worker.rekeyed(found.deep_view()),
                    ..self.worker
                };
                &&& action.goes_on_from(keyed, now)
                &&& after.worker == keyed.planned(now)
                &&& after.publishes_what_is_known()
            },
            GithubEvent::Fetched(fetched) => {
                &&& action is Wait
                &&& after.worker == self.worker.informed(fetched.deep_view(), now)
                &&& if fetched@.len() > 0 {
                    after.publishes_what_is_known()
                } else {
                    after.publishes_as(self)
                }
            },
        }
    }
}

impl GithubWorker {
    /// How the directories are spelled in which agents work.
    pub closed spec fn dir_spellings(&self) -> Set<Seq<u8>> {
        entry_spellings(self.active_entries@)
    }

    /// How the repositories are spelled that are known.
    pub closed spec fn repo_spellings(&self) -> Set<Seq<u8>> {
        crate::paths::spellings(self.repo_keys.values())
    }

    /// A worker that begins now, with what was known before.
    pub fn new(
        now: u64,
        prs: Table<FilePath, Table<String, PrSummary>>,
        checks: Table<FilePath, Table<String, CheckSummary>>,
    ) -> (worker: Self)
        ensures
            worker.dir_spellings() == Set::<Seq<u8>>::empty(),
            worker.repo_spellings() == Set::<Seq<u8>>::empty(),
            worker.deep_view() == GithubWorkerView::fresh(
                now,
                prs.deep_view(),
                checks.deep_view(),
            ),
    {
        let worker = GithubWorker {
            active_entries: Vec::new(),
            repo_keys: Table::new(),
            last_key: Vec::new(),
            last_fetch: earlier(now, GITHUB_FETCH_INTERVAL),
            prs,
            checks,
        };
        assert(worker.active_entries.deep_view() =~= Seq::<GithubWorkerPathView>::empty());
        assert(worker.last_key.deep_view() =~= Seq::<GithubWorkerPathView>::empty());
        assert(worker.dir_spellings() =~= Set::<Seq<u8>>::empty());
        assert(worker.repo_spellings() =~= Set::<Seq<u8>>::empty());
        worker
    }

    /// Takes the directories in which agents work.
    fn receive(&mut self, entries: Vec<GithubWorkerPath>)
        ensures
            final(self).dir_spellings() <= entry_spellings(entries@),
            final(self).repo_spellings() == old(self).repo_spellings(),
            old(self).deep_view().moved_to(final(self).deep_view(), entries.deep_view()),
    {
        let ghost given = entries@;
        self.active_entries = sorted_unique(entries);
        assert forall|i: int| 0 <= i < self.active_entries@.len() implies entry_spellings(
            given,
        ).contains((#[trigger] self.active_entries@[i]).path.spelled()) by {
            assert(crate::order::is_first(given, self.active_entries@[i]));
        }
    }

    /// Whether no agent works anywhere.
    fn is_idle(&self) -> (idle: bool)
        ensures
            idle == (self.deep_view().active_entries.len() == 0),
    {
        self.active_entries.len() == 0
    }

    /// Forgets what was published, and says whether anything was.
    fn clear(
        &self,
        pr_paths: &mut Table<FilePath, PrPathEntry>,
        check_paths: &mut Table<FilePath, CheckPathEntry>,
    ) -> (changed: bool)
        ensures
            final(pr_paths).keys() == Set::<FilePath>::empty(),
            final(check_paths).keys() == Set::<FilePath>::empty(),
            final(pr_paths).deep_view() == Map::<PathView, PathEntryView<PrSummaryView>>::empty(),
            final(check_paths).deep_view() == Map::<
                PathView,
                PathEntryView<CheckSummaryView>,
            >::empty(),
            changed == (final(pr_paths).deep_view() != old(pr_paths).deep_view()
                || final(check_paths).deep_view() != old(check_paths).deep_view()),
    {
        let prs = clear_pr_path_cache(pr_paths);
        let checks = clear_check_path_cache(check_paths);
        prs || checks
    }

    /// The directories whose repository the host has to find.
    fn unkeyed(&self) -> (paths: KeySet<FilePath>)
        ensures
            crate::paths::spellings(paths.members()) <= self.dir_spellings(),
            self.deep_view().lacks(paths.deep_view()),
    {
        let mut paths: KeySet<FilePath> = KeySet::new();
        let ghost all = self.active_entries.deep_view();
        let ghost keys = self.repo_keys.deep_view();
        for i in 0..self.active_entries.len()
            invariant
                all == self.active_entries.deep_view(),
                keys == self.repo_keys.deep_view(),
                forall|path: PathView| #[trigger]
                    paths.deep_view().contains(path) ==> directories(all).contains(path)
                        && !keys.contains_key(path),
                forall|j: int|
                    0 <= j < i && !keys.contains_key((#[trigger] all[j]).path)
                        ==> paths.deep_view().contains(all[j].path),
                crate::paths::spellings(paths.members()) <= self.dir_spellings(),
        {
            assert(self.dir_spellings().contains(self.active_entries@[i as int].path.spelled()));
            assert(all[i as int] == self.active_entries@[i as int].deep_view());
            if !self.repo_keys.contains_key(&self.active_entries[i].path) {
                assert(directories(all).contains(all[i as int].path));
                paths.insert(self.active_entries[i].path.dup());
            }
        }
        assert forall|path: PathView|
            directories(all).contains(path) && !keys.contains_key(path) implies
            #[trigger] paths.deep_view().contains(path) by {
            let j = choose|j: int| 0 <= j < all.len() && (#[trigger] all[j]).path == path;
            assert(paths.deep_view().contains(all[j].path));
        }
        paths
    }

    /// Takes the repositories that the host found, and forgets those of directories in which no
    /// agent works any more.
    fn rekey(&mut self, found: &Table<FilePath, FilePath>)
        ensures
            final(self).dir_spellings() == old(self).dir_spellings(),
            final(self).repo_spellings() <= old(self).repo_spellings().union(
                crate::paths::spellings(found.values()),
            ),
            final(self).deep_view() == (GithubWorkerView {
                repo_keys: old(self).deep_view().rekeyed(found.deep_view()),
                ..old(self).deep_view()
            }),
    {
        let ghost before = self.deep_view();
        let ghost all = before.active_entries;
        let ghost wanted = before.rekeyed(found.deep_view());
        let ghost names = self.repo_spellings().union(crate::paths::spellings(found.values()));
        let mut keys: Table<FilePath, FilePath> = Table::new();
        for i in 0..self.active_entries.len()
            invariant
                all == self.active_entries.deep_view(),
                before == self.deep_view(),
                all == before.active_entries,
                wanted == before.rekeyed(found.deep_view()),
                forall|path: PathView| #[trigger]
                    keys.deep_view().contains_key(path) ==> wanted.contains_key(path)
                        && keys.deep_view()[path] == wanted[path],
                forall|j: int|
                    0 <= j < i && wanted.contains_key((#[trigger] all[j]).path)
                        ==> keys.deep_view().contains_key(all[j].path),
                names == self.repo_spellings().union(crate::paths::spellings(found.values())),
                crate::paths::spellings(keys.values()) <= names,
        {
            let path = &self.active_entries[i].path;
            assert(all[i as int] == self.active_entries@[i as int].deep_view());
            assert(directories(all).contains(all[i as int].path));
            let key = match self.repo_keys.get(path) {
                Some(key) => Some(key.dup()),
                None => match found.get(path) {
                    Some(key) => Some(key.dup()),
                    None => None,
                },
            };
            assert(key matches Some(key) ==> names.contains(key.spelled()));
            if let Some(key) = key {
                keys.insert(path.dup(), key);
            }
        }
        self.repo_keys = keys;
        proof {
            let now = self.repo_keys.deep_view();
            assert forall|path: PathView| wanted.contains_key(path) implies
                #[trigger] now.contains_key(path) by {
                let j = choose|j: int| 0 <= j < all.len() && (#[trigger] all[j]).path == path;
                assert(now.contains_key(all[j].path));
            }
            assert(now =~= wanted);
        }
    }

    /// Publishes what is known of the directories in which agents work, and says whether that is
    /// anything new.
    fn publish(
        &self,
        pr_paths: &mut Table<FilePath, PrPathEntry>,
        check_paths: &mut Table<FilePath, CheckPathEntry>,
    ) -> (changed: bool)
        ensures
            crate::paths::spellings(final(pr_paths).keys()) <= crate::paths::spellings(
                old(pr_paths).keys(),
            ).union(self.dir_spellings()),
            crate::paths::spellings(final(check_paths).keys()) <= crate::paths::spellings(
                old(check_paths).keys(),
            ).union(self.dir_spellings()),
            final(pr_paths).deep_view() == self.deep_view().shown_prs(),
            final(check_paths).deep_view() == self.deep_view().shown_checks(),
            changed == (final(pr_paths).deep_view() != old(pr_paths).deep_view()
                || final(check_paths).deep_view() != old(check_paths).deep_view()),
    {
        let prs = publish_pr_path_cache(
            &self.active_entries,
            &self.repo_keys,
            &self.prs,
            pr_paths,
        );
        let checks = publish_check_path_cache(
            &self.active_entries,
            &self.repo_keys,
            &self.checks,
            check_paths,
        );
        prs || checks
    }

    /// What GitHub is to be asked for, if it is time: for each repository a directory to ask from
    /// and the branches. Where no directory belongs to a repository, nothing is asked until the
    /// directories change.
    fn plan(&mut self, now: u64) -> (groups: Option<Table<FilePath, (FilePath, Vec<String>)>>)
        ensures
            final(self).dir_spellings() == old(self).dir_spellings(),
            final(self).repo_spellings() == old(self).repo_spellings(),
            groups matches Some(groups) ==> query_spellings(groups.values())
                <= old(self).dir_spellings() && crate::paths::spellings(groups.keys())
                <= old(self).repo_spellings(),
            old(self).deep_view().asks(now, groups.deep_view()),
            final(self).deep_view() == old(self).deep_view().planned(now),
    {
        let ghost before = self.deep_view();
        let changed = !self.active_entries.same(&self.last_key);
        if !github_fetch_due(changed, elapsed(now, self.last_fetch)) {
            return None;
        }
        let groups = group_github_branches(&self.active_entries, &self.repo_keys);
        if groups.is_empty() {
            proof {
                if before.has_repos() {
                    let repo = choose|repo: PathView|
                        has_entry(before.active_entries, before.repo_keys, repo);
                    assert(groups.deep_view().contains_key(repo));
                }
            }
            self.last_key = self.active_entries.dup();
            return None;
        }
        proof {
            if forall|repo: PathView| !groups.deep_view().contains_key(repo) {
                assert(groups.deep_view() =~= Map::empty());
            }
            let one = choose|repo: PathView| groups.deep_view().contains_key(repo);
            assert(has_entry(before.active_entries, before.repo_keys, one));
        }
        Some(groups)
    }

    /// Takes what GitHub said of repositories, and publishes it. Says whether that is anything
    /// new.
    fn absorb(
        &mut self,
        fetched: &Vec<(FilePath, Vec<BranchSummary>)>,
        pr_paths: &mut Table<FilePath, PrPathEntry>,
        check_paths: &mut Table<FilePath, CheckPathEntry>,
        now: u64,
    ) -> (changed: bool)
        ensures
            crate::paths::spellings(final(pr_paths).keys()) <= crate::paths::spellings(
                old(pr_paths).keys(),
            ).union(old(self).dir_spellings()),
            crate::paths::spellings(final(check_paths).keys()) <= crate::paths::spellings(
                old(check_paths).keys(),
            ).union(old(self).dir_spellings()),
            final(self).dir_spellings() == old(self).dir_spellings(),
            final(self).repo_spellings() == old(self).repo_spellings(),
            final(self).deep_view() == old(self).deep_view().informed(fetched.deep_view(), now),
            final(pr_paths).deep_view() == (if fetched@.len() > 0 {
                final(self).deep_view().shown_prs()
            } else {
                old(pr_paths).deep_view()
            }),
            final(check_paths).deep_view() == (if fetched@.len() > 0 {
                final(self).deep_view().shown_checks()
            } else {
                old(check_paths).deep_view()
            }),
            changed == (final(pr_paths).deep_view() != old(pr_paths).deep_view()
                || final(check_paths).deep_view() != old(check_paths).deep_view()),
    {
        merge_prs(&mut self.prs, fetched);
        merge_checks(&mut self.checks, fetched);
        self.last_key = self.active_entries.dup();
        self.last_fetch = now;
        if fetched.len() > 0 {
            self.publish(pr_paths, check_paths)
        } else {
            false
        }
    }

    /// Takes an event. Says what the host does next, and whether the sidebar shows anything new.
    pub fn step(
        &mut self,
        event: GithubEvent,
        pr_paths: &mut Table<FilePath, PrPathEntry>,
        check_paths: &mut Table<FilePath, CheckPathEntry>,
        now: u64,
    ) -> (result: (GithubAction, bool))
        ensures
            crate::paths::spellings(final(pr_paths).keys()) <= crate::paths::spellings(
                old(pr_paths).keys(),
            ).union(final(self).dir_spellings()),
            crate::paths::spellings(final(check_paths).keys()) <= crate::paths::spellings(
                old(check_paths).keys(),
            ).union(final(self).dir_spellings()),
            result.0.hands_out(final(self).dir_spellings(), final(self).repo_spellings()),
            match event {
                GithubEvent::Entries(entries) => {
                    &&& final(self).dir_spellings() <= entry_spellings(entries@)
                    &&& final(self).repo_spellings() == old(self).repo_spellings()
                },
                GithubEvent::Keys(found) => {
                    &&& final(self).dir_spellings() == old(self).dir_spellings()
                    &&& final(self).repo_spellings() <= old(self).repo_spellings().union(
                        crate::paths::spellings(found.values()),
                    )
                },
                _ => {
                    &&& final(self).dir_spellings() == old(self).dir_spellings()
                    &&& final(self).repo_spellings() == old(self).repo_spellings()
                },
            },
            ({
                let before = GithubState {
                    worker: old(self).deep_view(),
                    prs: old(pr_paths).deep_view(),
                    checks: old(check_paths).deep_view(),
                };
                let after = GithubState {
                    worker: final(self).deep_view(),
                    prs: final(pr_paths).deep_view(),
                    checks: final(check_paths).deep_view(),
                };
                &&& before.steps(event, now, result.0, after)
                &&& result.1 == !after.publishes_as(before)
            }),
    {
        match event {
            GithubEvent::Entries(entries) => {
                let ghost all = entries.deep_view();
                self.receive(entries);
                let ghost kept = self.deep_view().active_entries;
                proof {
                    if all.len() > 0 {
                        assert(all.to_set().contains(all[0]));
                        assert(kept.to_set().contains(all[0]));
                    }
                    if kept.len() > 0 {
                        assert(kept.to_set().contains(kept[0]));
                        assert(all.to_set().contains(kept[0]));
                    }
                }
                if self.is_idle() {
                    let changed = self.clear(pr_paths, check_paths);
                    (GithubAction::Wait, changed)
                } else {
                    (GithubAction::FindKeys(self.unkeyed()), false)
                }
            },
            GithubEvent::Quiet => if self.is_idle() {
                (GithubAction::Wait, false)
            } else {
                (self.go_on(now), false)
            },
            GithubEvent::Keys(found) => {
                self.rekey(&found);
                let changed = self.publish(pr_paths, check_paths);
                (self.go_on(now), changed)
            },
            GithubEvent::Fetched(fetched) => {
                let changed = self.absorb(&fetched, pr_paths, check_paths, now);
                (GithubAction::Wait, changed)
            },
        }
    }

    fn go_on(&mut self, now: u64) -> (action: GithubAction)
        ensures
            final(self).dir_spellings() == old(self).dir_spellings(),
            final(self).repo_spellings() == old(self).repo_spellings(),
            action.hands_out(old(self).dir_spellings(), old(self).repo_spellings()),
            action.goes_on_from(old(self).deep_view(), now),
            final(self).deep_view() == old(self).deep_view().planned(now),
    {
        match self.plan(now) {
            Some(groups) => GithubAction::Fetch(groups),
            None => GithubAction::Wait,
        }
    }
}

/// While the same branches are worked on, GitHub is asked at most once in each interval.
pub proof fn fetches_are_throttled(worker: GithubWorkerView, now: u64)
    requires
        worker.active_entries == worker.last_key,
        now < worker.last_fetch + GITHUB_FETCH_INTERVAL,
    ensures
        !worker.is_due(now),
{
}

/// A branch has a pull request if and only if GitHub told of one, and then the one that it told of last.
pub proof fn every_pull_request_is_kept(summaries: Seq<BranchSummaryView>, branch: Seq<char>, i: int)
    ensures
        prs_by_branch(summaries).contains_key(branch) <==> exists|k: int|
            0 <= k < summaries.len() && (#[trigger] summaries[k]).branch == branch
                && summaries[k].pr is Some,
        0 <= i < summaries.len() && summaries[i].branch == branch && summaries[i].pr is Some && (
        forall|k: int|
            i < k < summaries.len() && (#[trigger] summaries[k]).branch == branch
                ==> summaries[k].pr is None) ==> prs_by_branch(summaries).contains_key(branch)
            && summaries[i].pr == Some(prs_by_branch(summaries)[branch]),
    decreases summaries.len(),
{
    if summaries.len() > 0 {
        let before = summaries.drop_last();
        let n = summaries.len() - 1;
        assert(summaries[n] == summaries.last());
        assert forall|k: int| 0 <= k < n implies #[trigger] before[k] == summaries[k] by {}
        every_pull_request_is_kept(before, branch, i);
        if prs_by_branch(before).contains_key(branch) {
            let k = choose|k: int|
                0 <= k < before.len() && (#[trigger] before[k]).branch == branch && before[k].pr
                    is Some;
            assert(summaries[k].branch == branch);
        }
        if exists|k: int|
            0 <= k < summaries.len() && (#[trigger] summaries[k]).branch == branch
                && summaries[k].pr is Some {
            let k = choose|k: int|
                0 <= k < summaries.len() && (#[trigger] summaries[k]).branch == branch
                    && summaries[k].pr is Some;
            if k < n {
                assert(before[k].branch == branch);
            }
        }
        if 0 <= i < n {
            assert(before[i] == summaries[i]);
            assert forall|k: int|
                i < k < before.len() && (forall|m: int|
                    i < m < summaries.len() && (#[trigger] summaries[m]).branch == branch
                        ==> summaries[m].pr is None) && (#[trigger] before[k]).branch
                    == branch implies before[k].pr is None by {
                assert(summaries[k].branch == branch);
            }
        }
    }
}

/// What GitHub tells of the pull requests of a repository takes the place of what was known of it, a
/// repository without any is forgotten, and those that it does not tell of stay as they are.
pub proof fn told_pull_requests_take_their_place(
    repos: Map<PathView, Map<Seq<char>, PrSummaryView>>,
    fetched: Seq<(PathView, Seq<BranchSummaryView>)>,
    repo: PathView,
    i: int,
)
    ensures
        (forall|k: int| 0 <= k < fetched.len() ==> (#[trigger] fetched[k]).0 != repo) ==> (
        merged_prs(repos, fetched).contains_key(repo) == repos.contains_key(repo) && (
        repos.contains_key(repo) ==> merged_prs(repos, fetched)[repo] == repos[repo])),
        0 <= i < fetched.len() && fetched[i].0 == repo && (forall|k: int|
            i < k < fetched.len() ==> (#[trigger] fetched[k]).0 != repo) ==> (if exists|m: int|
            0 <= m < fetched[i].1.len() && (#[trigger] fetched[i].1[m]).pr is Some {
            &&& merged_prs(repos, fetched).contains_key(repo)
            &&& merged_prs(repos, fetched)[repo] == prs_by_branch(fetched[i].1)
        } else {
            !merged_prs(repos, fetched).contains_key(repo)
        }),
    decreases fetched.len(),
{
    if fetched.len() > 0 {
        let before = fetched.drop_last();
        let n = fetched.len() - 1;
        assert(fetched[n] == fetched.last());
        assert forall|k: int| 0 <= k < n implies #[trigger] before[k] == fetched[k] by {}
        told_pull_requests_take_their_place(repos, before, repo, i);
        if 0 <= i < n && forall|k: int|
            i < k < fetched.len() ==> (#[trigger] fetched[k]).0 != repo {
            assert(fetched[n].0 != repo);
            assert(before[i] == fetched[i]);
            assert forall|k: int| i < k < before.len() implies (#[trigger] before[k]).0 != repo by {
                assert(fetched[k].0 != repo);
            }
        }
        if forall|k: int| 0 <= k < fetched.len() ==> (#[trigger] fetched[k]).0 != repo {
            assert(fetched[n].0 != repo);
            assert forall|k: int| 0 <= k < before.len() implies (#[trigger] before[k]).0 != repo by {
                assert(fetched[k].0 != repo);
            }
        }
        if i == n {
            let told = fetched[i].1;
            let found = prs_by_branch(told);
            if exists|m: int| 0 <= m < told.len() && (#[trigger] told[m]).pr is Some {
                let m = choose|m: int| 0 <= m < told.len() && (#[trigger] told[m]).pr is Some;
                every_pull_request_is_kept(told, told[m].branch, m);
                assert(found.contains_key(told[m].branch));
            } else {
                assert(found =~= Map::empty()) by {
                    assert forall|branch: Seq<char>| !#[trigger] found.contains_key(branch) by {
                        every_pull_request_is_kept(told, branch, 0);
                    }
                }
            }
        }
    }
}

/// A branch has a check summary if and only if GitHub told of one, and then the one that it told of last.
pub proof fn every_check_is_kept(summaries: Seq<BranchSummaryView>, branch: Seq<char>, i: int)
    ensures
        checks_by_branch(summaries).contains_key(branch) <==> exists|k: int|
            0 <= k < summaries.len() && (#[trigger] summaries[k]).branch == branch
                && summaries[k].checks is Some,
        0 <= i < summaries.len() && summaries[i].branch == branch && summaries[i].checks is Some && (
        forall|k: int|
            i < k < summaries.len() && (#[trigger] summaries[k]).branch == branch
                ==> summaries[k].checks is None) ==> checks_by_branch(summaries).contains_key(branch)
            && summaries[i].checks == Some(checks_by_branch(summaries)[branch]),
    decreases summaries.len(),
{
    if summaries.len() > 0 {
        let before = summaries.drop_last();
        let n = summaries.len() - 1;
        assert(summaries[n] == summaries.last());
        assert forall|k: int| 0 <= k < n implies #[trigger] before[k] == summaries[k] by {}
        every_check_is_kept(before, branch, i);
        if checks_by_branch(before).contains_key(branch) {
            let k = choose|k: int|
                0 <= k < before.len() && (#[trigger] before[k]).branch == branch && before[k].checks
                    is Some;
            assert(summaries[k].branch == branch);
        }
        if exists|k: int|
            0 <= k < summaries.len() && (#[trigger] summaries[k]).branch == branch
                && summaries[k].checks is Some {
            let k = choose|k: int|
                0 <= k < summaries.len() && (#[trigger] summaries[k]).branch == branch
                    && summaries[k].checks is Some;
            if k < n {
                assert(before[k].branch == branch);
            }
        }
        if 0 <= i < n {
            assert(before[i] == summaries[i]);
            assert forall|k: int|
                i < k < before.len() && (forall|m: int|
                    i < m < summaries.len() && (#[trigger] summaries[m]).branch == branch
                        ==> summaries[m].checks is None) && (#[trigger] before[k]).branch
                    == branch implies before[k].checks is None by {
                assert(summaries[k].branch == branch);
            }
        }
    }
}

/// What GitHub tells of the checks of a repository takes the place of what was known of it, a
/// repository without any is forgotten, and those that it does not tell of stay as they are.
pub proof fn told_checks_take_their_place(
    repos: Map<PathView, Map<Seq<char>, CheckSummaryView>>,
    fetched: Seq<(PathView, Seq<BranchSummaryView>)>,
    repo: PathView,
    i: int,
)
    ensures
        (forall|k: int| 0 <= k < fetched.len() ==> (#[trigger] fetched[k]).0 != repo) ==> (
        merged_checks(repos, fetched).contains_key(repo) == repos.contains_key(repo) && (
        repos.contains_key(repo) ==> merged_checks(repos, fetched)[repo] == repos[repo])),
        0 <= i < fetched.len() && fetched[i].0 == repo && (forall|k: int|
            i < k < fetched.len() ==> (#[trigger] fetched[k]).0 != repo) ==> (if exists|m: int|
            0 <= m < fetched[i].1.len() && (#[trigger] fetched[i].1[m]).checks is Some {
            &&& merged_checks(repos, fetched).contains_key(repo)
            &&& merged_checks(repos, fetched)[repo] == checks_by_branch(fetched[i].1)
        } else {
            !merged_checks(repos, fetched).contains_key(repo)
        }),
    decreases fetched.len(),
{
    if fetched.len() > 0 {
        let before = fetched.drop_last();
        let n = fetched.len() - 1;
        assert(fetched[n] == fetched.last());
        assert forall|k: int| 0 <= k < n implies #[trigger] before[k] == fetched[k] by {}
        told_checks_take_their_place(repos, before, repo, i);
        if 0 <= i < n && forall|k: int|
            i < k < fetched.len() ==> (#[trigger] fetched[k]).0 != repo {
            assert(fetched[n].0 != repo);
            assert(before[i] == fetched[i]);
            assert forall|k: int| i < k < before.len() implies (#[trigger] before[k]).0 != repo by {
                assert(fetched[k].0 != repo);
            }
        }
        if forall|k: int| 0 <= k < fetched.len() ==> (#[trigger] fetched[k]).0 != repo {
            assert(fetched[n].0 != repo);
            assert forall|k: int| 0 <= k < before.len() implies (#[trigger] before[k]).0 != repo by {
                assert(fetched[k].0 != repo);
            }
        }
        if i == n {
            let told = fetched[i].1;
            let found = checks_by_branch(told);
            if exists|m: int| 0 <= m < told.len() && (#[trigger] told[m]).checks is Some {
                let m = choose|m: int| 0 <= m < told.len() && (#[trigger] told[m]).checks is Some;
                every_check_is_kept(told, told[m].branch, m);
                assert(found.contains_key(told[m].branch));
            } else {
                assert(found =~= Map::empty()) by {
                    assert forall|branch: Seq<char>| !#[trigger] found.contains_key(branch) by {
                        every_check_is_kept(told, branch, 0);
                    }
                }
            }
        }
    }
}

/// What is known of a branch is published for the directory where it is worked on, if nothing is known
/// of a later entry of that directory; and of a directory without such an entry nothing is published.
pub proof fn known_branches_are_published<S>(
    entries: Seq<GithubWorkerPathView>,
    repo_keys: Map<PathView, PathView>,
    repos: Map<PathView, Map<Seq<char>, S>>,
    path: PathView,
    i: int,
)
    ensures
        known_paths(entries, repo_keys, repos).contains_key(path) <==> exists|k: int|
            0 <= k < entries.len() && (#[trigger] entries[k]).path == path && is_told(
                entries[k],
                repo_keys,
                repos,
            ),
        0 <= i < entries.len() && entries[i].path == path && is_told(entries[i], repo_keys, repos)
            && (forall|k: int|
            i < k < entries.len() && (#[trigger] entries[k]).path == path ==> !is_told(
                entries[k],
                repo_keys,
                repos,
            )) ==> known_paths(entries, repo_keys, repos)[path] == (PathEntryView {
            branch: entries[i].branch,
            summary: repos[repo_keys[path]][entries[i].branch],
        }),
    decreases entries.len(),
{
    if entries.len() > 0 {
        let before = entries.drop_last();
        let n = entries.len() - 1;
        assert(entries[n] == entries.last());
        assert forall|k: int| 0 <= k < n implies #[trigger] before[k] == entries[k] by {}
        known_branches_are_published(before, repo_keys, repos, path, i);
        if known_paths(before, repo_keys, repos).contains_key(path) {
            let k = choose|k: int|
                0 <= k < before.len() && (#[trigger] before[k]).path == path && is_told(
                    before[k],
                    repo_keys,
                    repos,
                );
            assert(entries[k].path == path);
        }
        if exists|k: int|
            0 <= k < entries.len() && (#[trigger] entries[k]).path == path && is_told(
                entries[k],
                repo_keys,
                repos,
            ) {
            let k = choose|k: int|
                0 <= k < entries.len() && (#[trigger] entries[k]).path == path && is_told(
                    entries[k],
                    repo_keys,
                    repos,
                );
            if k < n {
                assert(before[k].path == path);
            }
        }
        if 0 <= i < n && (forall|k: int|
            i < k < entries.len() && (#[trigger] entries[k]).path == path ==> !is_told(
                entries[k],
                repo_keys,
                repos,
            )) {
            assert(before[i] == entries[i]);
            assert(entries[n].path == path ==> !is_told(entries[n], repo_keys, repos));
            assert forall|k: int| i < k < before.len() && (#[trigger] before[k]).path
                == path implies !is_told(before[k], repo_keys, repos) by {
                assert(entries[k].path == path);
            }
        }
    }
}

/// Whether something is known of the branch of an entry: the repository of its directory is known, and
/// something of this branch of it.
pub open spec fn is_told<S>(
    entry: GithubWorkerPathView,
    repo_keys: Map<PathView, PathView>,
    repos: Map<PathView, Map<Seq<char>, S>>,
) -> bool {
    &&& repo_keys.contains_key(entry.path)
    &&& repos.contains_key(repo_keys[entry.path])
    &&& repos[repo_keys[entry.path]].contains_key(entry.branch)
}

/// A pull request that GitHub tells of is shown at once for the directory of an agent that works on its
/// branch.
pub proof fn told_pull_requests_are_shown(
    before: GithubState,
    fetched: Vec<(FilePath, Vec<BranchSummary>)>,
    now: u64,
    action: GithubAction,
    after: GithubState,
    e: int,
    f: int,
    b: int,
)
    requires
        before.steps(GithubEvent::Fetched(fetched), now, action, after),
        ({
            let entries = before.worker.active_entries;
            let told = fetched.deep_view();
            &&& 0 <= e < entries.len()
            &&& forall|k: int|
                0 <= k < entries.len() && k != e ==> (#[trigger] entries[k]).path
                    != entries[e].path
            &&& before.worker.repo_keys.contains_key(entries[e].path)
            &&& 0 <= f < told.len()
            &&& told[f].0 == before.worker.repo_keys[entries[e].path]
            &&& forall|k: int| f < k < told.len() ==> (#[trigger] told[k]).0 != told[f].0
            &&& 0 <= b < told[f].1.len()
            &&& told[f].1[b].branch == entries[e].branch
            &&& told[f].1[b].pr is Some
            &&& forall|k: int|
                b < k < told[f].1.len() && (#[trigger] told[f].1[k]).branch == entries[e].branch
                    ==> told[f].1[k].pr is None
        }),
    ensures
        ({
            let entry = before.worker.active_entries[e];
            &&& after.prs.contains_key(entry.path)
            &&& after.prs[entry.path].branch == entry.branch
            &&& fetched.deep_view()[f].1[b].pr == Some(after.prs[entry.path].summary)
        }),
{
    let entries = before.worker.active_entries;
    let told = fetched.deep_view();
    let repo = told[f].0;
    every_pull_request_is_kept(told[f].1, entries[e].branch, b);
    told_pull_requests_take_their_place(before.worker.prs, told, repo, f);
    assert(told[f].1[b].pr is Some);
    assert(told.len() == fetched@.len());
    known_branches_are_published(
        entries,
        before.worker.repo_keys,
        after.worker.prs,
        entries[e].path,
        e,
    );
    assert(is_told(entries[e], before.worker.repo_keys, after.worker.prs));
    assert(entries[e].path == entries[e].path);
}

/// A summary of checks that GitHub tells of is shown at once for the directory of an agent that works on their
/// branch.
pub proof fn told_checks_are_shown(
    before: GithubState,
    fetched: Vec<(FilePath, Vec<BranchSummary>)>,
    now: u64,
    action: GithubAction,
    after: GithubState,
    e: int,
    f: int,
    b: int,
)
    requires
        before.steps(GithubEvent::Fetched(fetched), now, action, after),
        ({
            let entries = before.worker.active_entries;
            let told = fetched.deep_view();
            &&& 0 <= e < entries.len()
            &&& forall|k: int|
                0 <= k < entries.len() && k != e ==> (#[trigger] entries[k]).path
                    != entries[e].path
            &&& before.worker.repo_keys.contains_key(entries[e].path)
            &&& 0 <= f < told.len()
            &&& told[f].0 == before.worker.repo_keys[entries[e].path]
            &&& forall|k: int| f < k < told.len() ==> (#[trigger] told[k]).0 != told[f].0
            &&& 0 <= b < told[f].1.len()
            &&& told[f].1[b].branch == entries[e].branch
            &&& told[f].1[b].checks is Some
            &&& forall|k: int|
                b < k < told[f].1.len() && (#[trigger] told[f].1[k]).branch == entries[e].branch
                    ==> told[f].1[k].checks is None
        }),
    ensures
        ({
            let entry = before.worker.active_entries[e];
            &&& after.checks.contains_key(entry.path)
            &&& after.checks[entry.path].branch == entry.branch
            &&& fetched.deep_view()[f].1[b].checks == Some(after.checks[entry.path].summary)
        }),
{
    let entries = before.worker.active_entries;
    let told = fetched.deep_view();
    let repo = told[f].0;
    every_check_is_kept(told[f].1, entries[e].branch, b);
    told_checks_take_their_place(before.worker.checks, told, repo, f);
    assert(told[f].1[b].checks is Some);
    assert(told.len() == fetched@.len());
    known_branches_are_published(
        entries,
        before.worker.repo_keys,
        after.worker.checks,
        entries[e].path,
        e,
    );
    assert(is_told(entries[e], before.worker.repo_keys, after.worker.checks));
    assert(entries[e].path == entries[e].path);
}

/// GitHub is asked for every branch that is worked on in a directory whose repository is known, and for
/// no other.
pub proof fn worked_on_branches_are_asked_for(
    groups: Map<PathView, (PathView, Seq<Seq<char>>)>,
    entries: Seq<GithubWorkerPathView>,
    repo_keys: Map<PathView, PathView>,
    repo: PathView,
    branch: Seq<char>,
)
    requires
        gathers_all(groups, entries, repo_keys),
    ensures
        groups.contains_key(repo) && groups[repo].1.contains(branch) <==> exists|i: int|
            0 <= i < entries.len() && (#[trigger] entries[i]).branch == branch
                && repo_keys.contains_key(entries[i].path) && repo_keys[entries[i].path] == repo,
        groups.contains_key(repo) ==> exists|i: int|
            0 <= i < entries.len() && (#[trigger] entries[i]).path == groups[repo].0
                && repo_keys.contains_key(entries[i].path) && repo_keys[entries[i].path] == repo,
{
    assert(groups.contains_key(repo) == has_entry(entries, repo_keys, repo));
    if groups.contains_key(repo) {
        assert(gathers(groups[repo], entries, repo_keys, repo));
        let i = choose|i: int|
            0 <= i < entries.len() && entry_of(#[trigger] entries[i], repo_keys, repo)
                && entries[i].path == groups[repo].0 && forall|j: int|
                0 <= j < i ==> !entry_of(#[trigger] entries[j], repo_keys, repo);
        assert(entries[i].path == groups[repo].0);
        if groups[repo].1.contains(branch) {
            assert(has_branch(entries, repo_keys, repo, branch));
            let k = choose|k: int|
                0 <= k < entries.len() && entry_of(#[trigger] entries[k], repo_keys, repo)
                    && entries[k].branch == branch;
            assert(entries[k].branch == branch);
        }
    }
    if exists|i: int|
        0 <= i < entries.len() && (#[trigger] entries[i]).branch == branch
            && repo_keys.contains_key(entries[i].path) && repo_keys[entries[i].path] == repo {
        let i = choose|i: int|
            0 <= i < entries.len() && (#[trigger] entries[i]).branch == branch
                && repo_keys.contains_key(entries[i].path) && repo_keys[entries[i].path] == repo;
        assert(entry_of(entries[i], repo_keys, repo));
        assert(has_branch(entries, repo_keys, repo, branch));
        assert(groups[repo].1.contains(branch));
    }
}

/// GitHub is asked as soon as other branches are worked on, and else every thirty seconds.
pub proof fn requests_come_in_time(worker: GithubWorkerView, now: u64)
    requires
        now >= worker.last_fetch,
    ensures
        worker.active_entries != worker.last_key ==> worker.is_due(now),
        worker.active_entries == worker.last_key ==> (worker.is_due(now) <==> now
            - worker.last_fetch >= 30_000_000_000),
{
}

/// A directory keeps the repository that is known of it, gets the one that was found else, and has none
/// where none was found.
pub proof fn found_repositories_are_kept(
    worker: GithubWorkerView,
    found: Map<PathView, PathView>,
    i: int,
)
    requires
        0 <= i < worker.active_entries.len(),
    ensures
        ({
            let path = worker.active_entries[i].path;
            let keys = worker.rekeyed(found);
            &&& worker.repo_keys.contains_key(path) ==> keys.contains_pair(
                path,
                worker.repo_keys[path],
            )
            &&& !worker.repo_keys.contains_key(path) && found.contains_key(path)
                ==> keys.contains_pair(path, found[path])
            &&& !worker.repo_keys.contains_key(path) && !found.contains_key(path)
                ==> !keys.contains_key(path)
        }),
{
    let path = worker.active_entries[i].path;
    assert(directories(worker.active_entries).contains(path));
}

/// Where it is time, GitHub is asked, and for every branch that is worked on in a directory whose repository is known;
/// where it is not, or no repository is known, it is not asked.
pub proof fn due_requests_are_made(
    worker: GithubWorkerView,
    now: u64,
    groups: Option<Map<PathView, (PathView, Seq<Seq<char>>)>>,
    i: int,
)
    requires
        worker.asks(now, groups),
        now >= worker.last_fetch,
        0 <= i < worker.active_entries.len(),
        worker.repo_keys.contains_key(worker.active_entries[i].path),
    ensures
        ({
            let entry = worker.active_entries[i];
            let repo = worker.repo_keys[entry.path];
            let due = worker.active_entries != worker.last_key || now - worker.last_fetch
                >= 30_000_000_000;
            &&& groups is Some <==> due
            &&& groups matches Some(groups) ==> groups.contains_key(repo)
                && groups[repo].1.contains(entry.branch)
        }),
{
    let entry = worker.active_entries[i];
    let repo = worker.repo_keys[entry.path];
    requests_come_in_time(worker, now);
    assert(entry_of(worker.active_entries[i], worker.repo_keys, repo));
    assert(has_entry(worker.active_entries, worker.repo_keys, repo));
    assert(worker.has_repos());
    if let Some(groups) = groups {
        worked_on_branches_are_asked_for(
            groups,
            worker.active_entries,
            worker.repo_keys,
            repo,
            entry.branch,
        );
    }
}

/// Without any directory of a repository GitHub is not asked, and not before the directories change.
pub proof fn nothing_is_asked_without_repositories(
    worker: GithubWorkerView,
    now: u64,
    groups: Option<Map<PathView, (PathView, Seq<Seq<char>>)>>,
)
    requires
        worker.asks(now, groups),
        forall|i: int|
            0 <= i < worker.active_entries.len() ==> !worker.repo_keys.contains_key(
                (#[trigger] worker.active_entries[i]).path,
            ),
    ensures
        groups is None,
        worker.is_due(now) ==> worker.planned(now) == (GithubWorkerView {
            last_key: worker.active_entries,
            ..worker
        }),
        !worker.is_due(now) ==> worker.planned(now) == worker,
{
    if worker.has_repos() {
        let repo = choose|repo: PathView|
            has_entry(worker.active_entries, worker.repo_keys, repo);
        let i = choose|i: int|
            0 <= i < worker.active_entries.len() && entry_of(
                #[trigger] worker.active_entries[i],
                worker.repo_keys,
                repo,
            );
        assert(worker.repo_keys.contains_key(worker.active_entries[i].path));
    }
}

/// Once GitHub has answered, it is asked again in thirty seconds, or as soon as other branches are worked on.
pub proof fn answers_begin_a_pause(
    worker: GithubWorkerView,
    fetched: Seq<(PathView, Seq<BranchSummaryView>)>,
    now: u64,
    then: u64,
)
    requires
        now <= then,
    ensures
        worker.informed(fetched, now).is_due(then) <==> then - now >= 30_000_000_000,
        worker.informed(fetched, now).active_entries == worker.active_entries,
        worker.informed(fetched, now).repo_keys == worker.repo_keys,
{
}

/// Once the repositories of directories are found, what is known of the branches there is shown.
pub proof fn known_summaries_are_shown(
    before: GithubState,
    found: Table<FilePath, FilePath>,
    now: u64,
    action: GithubAction,
    after: GithubState,
    i: int,
)
    requires
        before.steps(GithubEvent::Keys(found), now, action, after),
        0 <= i < before.worker.active_entries.len(),
        forall|k: int|
            0 <= k < before.worker.active_entries.len() && k != i ==> (
            #[trigger] before.worker.active_entries[k]).path != before.worker.active_entries[i].path,
    ensures
        ({
            let entry = before.worker.active_entries[i];
            let keys = before.worker.rekeyed(found.deep_view());
            &&& is_told(entry, keys, before.worker.prs) <==> after.prs.contains_key(entry.path)
            &&& is_told(entry, keys, before.worker.prs) ==> after.prs[entry.path] == (PathEntryView {
                branch: entry.branch,
                summary: before.worker.prs[keys[entry.path]][entry.branch],
            })
            &&& is_told(entry, keys, before.worker.checks) <==> after.checks.contains_key(entry.path)
            &&& is_told(entry, keys, before.worker.checks) ==> after.checks[entry.path] == (
            PathEntryView {
                branch: entry.branch,
                summary: before.worker.checks[keys[entry.path]][entry.branch],
            })
        }),
{
    let entries = before.worker.active_entries;
    let keys = before.worker.rekeyed(found.deep_view());
    known_branches_are_published(entries, keys, before.worker.prs, entries[i].path, i);
    known_branches_are_published(entries, keys, before.worker.checks, entries[i].path, i);
    assert(after.worker.active_entries == entries);
    assert(after.worker.repo_keys == keys);
    assert(entries[i].path == entries[i].path);
}

/// A worker begins with what was known before and asks GitHub as soon as it knows of a branch.
pub proof fn workers_begin_with_what_was_known(
    now: u64,
    prs: Map<PathView, Map<Seq<char>, PrSummaryView>>,
    checks: Map<PathView, Map<Seq<char>, CheckSummaryView>>,
    entries: Seq<GithubWorkerPathView>,
)
    requires
        entries.len() > 0,
    ensures
        ({
            let worker = GithubWorkerView::fresh(now, prs, checks);
            &&& worker.prs == prs
            &&& worker.checks == checks
            &&& worker.active_entries.len() == 0
            &&& (GithubWorkerView { active_entries: entries, ..worker }).is_due(now)
        }),
{
}

/// The repositories that have to be found are those of the directories in which agents work and of which none is known.
pub proof fn unknown_repositories_are_sought(
    worker: GithubWorkerView,
    paths: Set<PathView>,
    path: PathView,
)
    requires
        worker.lacks(paths),
    ensures
        paths.contains(path) <==> !worker.repo_keys.contains_key(path) && exists|i: int|
            0 <= i < worker.active_entries.len() && (#[trigger] worker.active_entries[i]).path
                == path,
{
    assert(paths.contains(path) == (directories(worker.active_entries).contains(path)
        && !worker.repo_keys.contains_key(path)));
}

/// Other directories are taken up as they are told, each once, and nothing of what is known is lost by that.
pub proof fn told_directories_are_taken_up(
    worker: GithubWorkerView,
    after: GithubWorkerView,
    entries: Seq<GithubWorkerPathView>,
    entry: GithubWorkerPathView,
)
    requires
        worker.moved_to(after, entries),
    ensures
        after.active_entries.contains(entry) <==> entries.contains(entry),
        after.active_entries.no_duplicates(),
        after.prs == worker.prs,
        after.checks == worker.checks,
        after.repo_keys == worker.repo_keys,
        after.last_key == worker.last_key,
        after.last_fetch == worker.last_fetch,
{
    assert(after.active_entries.to_set().contains(entry) == entries.to_set().contains(entry));
}

/// Waiting changes nothing of what is known, and a request that is to be made stays to be made until it is answered.
pub proof fn waiting_loses_nothing(worker: GithubWorkerView, now: u64)
    ensures
        worker.has_repos() || !worker.is_due(now) ==> worker.planned(now) == worker,
        !worker.has_repos() && worker.is_due(now) ==> worker.planned(now).last_key
            == worker.active_entries,
        worker.planned(now).active_entries == worker.active_entries,
        worker.planned(now).prs == worker.prs,
        worker.planned(now).checks == worker.checks,
        worker.planned(now).repo_keys == worker.repo_keys,
        worker.planned(now).last_fetch == worker.last_fetch,
{
}

/// Where nothing happens, a worker that knows of no agent waits, and another one has GitHub asked if and only if it is
/// time and a repository is known.
pub proof fn quiet_workers_ask_in_time(
    state: GithubState,
    now: u64,
    action: GithubAction,
    after: GithubState,
)
    requires
        state.steps(GithubEvent::Quiet, now, action, after),
    ensures
        state.worker.active_entries.len() == 0 ==> action is Wait && after.worker == state.worker,
        state.worker.active_entries.len() > 0 ==> (action is Fetch <==> state.worker.is_due(now)
            && state.worker.has_repos()),
        action !is FindKeys,
        after.prs == state.prs,
        after.checks == state.checks,
{
}

/// Where agents are told, their repositories are sought; where none is left, nothing is shown any more.
pub proof fn told_agents_have_repositories_sought(
    state: GithubState,
    entries: Vec<GithubWorkerPath>,
    now: u64,
    action: GithubAction,
    after: GithubState,
    path: PathView,
)
    requires
        state.steps(GithubEvent::Entries(entries), now, action, after),
    ensures
        entries@.len() == 0 ==> action is Wait && !after.prs.contains_key(path)
            && !after.checks.contains_key(path),
        entries@.len() > 0 ==> action is FindKeys && after.prs == state.prs && after.checks
            == state.checks,
{
}

} // verus!
