//! The Git states of agents and the worktrees they work in.
use vstd::prelude::*;

use crate::order::{listed, sorted_unique, Ranked};
use crate::paths::{copy_paths, FilePath, PathView};
use crate::tables::{KeySet, Table};
use crate::values::Value;

verus! {

/// A directory in which an agent works.
pub struct GitWorkerPath {
    pub path: FilePath,
    /// Whether nothing has happened there for long.
    pub is_stale: bool,
    /// Whether the user looks at it.
    pub is_focused: bool,
}

/// A directory in which an agent works.
#[verifier::ext_equal]
pub struct GitWorkerPathView {
    pub path: PathView,
    pub is_stale: bool,
    pub is_focused: bool,
}

impl DeepView for GitWorkerPath {
    type V = GitWorkerPathView;

    open spec fn deep_view(&self) -> GitWorkerPathView {
        GitWorkerPathView {
            path: self.path.deep_view(),
            is_stale: self.is_stale.deep_view(),
            is_focused: self.is_focused.deep_view(),
        }
    }
}

impl Value for GitWorkerPath {
    fn dup(&self) -> (copy: Self) {
        GitWorkerPath {
            path: self.path.dup(),
            is_stale: self.is_stale.dup(),
            is_focused: self.is_focused.dup(),
        }
    }

    fn same(&self, other: &Self) -> (equal: bool) {
        self.path.same(&other.path)
            && self.is_stale.same(&other.is_stale)
            && self.is_focused.same(&other.is_focused)
    }
}

fn push_flag(key: &mut Vec<u32>, flag: bool)
    ensures
        final(key)@ == old(key)@.push(flag_rank(flag)),
{
    key.push(
        if flag {
            1
        } else {
            0
        },
    );
}

/// The rank of a flag.
pub open spec fn flag_rank(flag: bool) -> u32 {
    if flag {
        1
    } else {
        0
    }
}

impl Ranked for GitWorkerPath {
    open spec fn rank(view: GitWorkerPathView) -> Seq<u32> {
        crate::order::path_rank(view.path) + seq![
            0u32,
            flag_rank(view.is_stale),
            flag_rank(view.is_focused),
        ]
    }

    fn sort_key(&self) -> (key: Vec<u32>) {
        let mut key = self.path.sort_key();
        key.push(0);
        push_flag(&mut key, self.is_stale);
        push_flag(&mut key, self.is_focused);
        assert(key@ =~= Self::rank(self.deep_view()));
        key
    }
}

/// A worktree in which agents work.
pub struct ResolvedGitWorktree {
    /// The directories in which they work.
    pub agent_paths: Vec<FilePath>,
    /// Whether nothing has happened in any of them for long.
    pub is_stale: bool,
    /// Whether the user looks at one of them.
    pub is_focused: bool,
}

/// A worktree in which agents work.
#[verifier::ext_equal]
pub struct ResolvedGitWorktreeView {
    pub agent_paths: Seq<PathView>,
    pub is_stale: bool,
    pub is_focused: bool,
}

impl DeepView for ResolvedGitWorktree {
    type V = ResolvedGitWorktreeView;

    open spec fn deep_view(&self) -> ResolvedGitWorktreeView {
        ResolvedGitWorktreeView {
            agent_paths: self.agent_paths.deep_view(),
            is_stale: self.is_stale.deep_view(),
            is_focused: self.is_focused.deep_view(),
        }
    }
}

impl Value for ResolvedGitWorktree {
    fn dup(&self) -> (copy: Self) {
        ResolvedGitWorktree {
            agent_paths: self.agent_paths.dup(),
            is_stale: self.is_stale.dup(),
            is_focused: self.is_focused.dup(),
        }
    }

    fn same(&self, other: &Self) -> (equal: bool) {
        self.agent_paths.same(&other.agent_paths)
            && self.is_stale.same(&other.is_stale)
            && self.is_focused.same(&other.is_focused)
    }
}

/// The paths of entries.
pub open spec fn entry_paths(entries: Seq<GitWorkerPathView>) -> Set<PathView> {
    Set::new(
        |path: PathView|
            exists|i: int| 0 <= i < entries.len() && (#[trigger] entries[i]).path == path,
    )
}

fn paths_of_entries(entries: &Vec<GitWorkerPath>) -> (paths: KeySet<FilePath>)
    ensures
        paths.deep_view() == entry_paths(entries.deep_view()),
{
    let mut paths: KeySet<FilePath> = KeySet::new();
    let ghost all = entries.deep_view();
    assert(entry_paths(all.take(0)) =~= Set::<PathView>::empty());
    for i in 0..entries.len()
        invariant
            all == entries.deep_view(),
            paths.deep_view() == entry_paths(all.take(i as int)),
    {
        paths.insert(entries[i].path.dup());
        proof {
            lemma_entry_paths_next(all, i as int);
        }
    }
    assert(all.take(all.len() as int) =~= all);
    paths
}

proof fn lemma_entry_paths_next(all: Seq<GitWorkerPathView>, i: int)
    requires
        0 <= i < all.len(),
    ensures
        entry_paths(all.take(i + 1)) == entry_paths(all.take(i)).insert(all[i].path),
{
    let before = all.take(i);
    let after = all.take(i + 1);
    assert forall|path: PathView| #[trigger] entry_paths(after).contains(path) == (entry_paths(
        before,
    ).contains(path) || path == all[i].path) by {
        if entry_paths(before).contains(path) {
            let j = choose|j: int| 0 <= j < before.len() && (#[trigger] before[j]).path == path;
            assert(after[j].path == path);
        }
        if entry_paths(after).contains(path) {
            let j = choose|j: int| 0 <= j < after.len() && (#[trigger] after[j]).path == path;
            if j < i {
                assert(before[j].path == path);
            }
        }
        assert(after[i] == all[i]);
    }
    assert(entry_paths(after) =~= entry_paths(before).insert(all[i].path));
}

/// The worktree that an agent works in, if it works in one: as it is known, else as it was found.
pub open spec fn known_root(
    roots: Map<PathView, Option<PathView>>,
    found: Map<PathView, Option<PathView>>,
    path: PathView,
) -> Option<PathView> {
    if roots.contains_key(path) {
        roots[path]
    } else if found.contains_key(path) {
        found[path]
    } else {
        None
    }
}

/// The worktree that each agent works in, if it works in one.
pub open spec fn known_roots(
    entries: Seq<GitWorkerPathView>,
    roots: Map<PathView, Option<PathView>>,
    found: Map<PathView, Option<PathView>>,
) -> Map<PathView, Option<PathView>> {
    Map::new(
        |path: PathView| entry_paths(entries).contains(path),
        |path: PathView| known_root(roots, found, path),
    )
}

/// Whether an entry belongs to a worktree.
pub open spec fn entry_in(
    entry: GitWorkerPathView,
    roots: Map<PathView, Option<PathView>>,
    root: PathView,
) -> bool {
    roots[entry.path] == Some(root)
}

/// Whether an agent works in a worktree.
pub open spec fn works_in(
    entries: Seq<GitWorkerPathView>,
    roots: Map<PathView, Option<PathView>>,
    root: PathView,
    path: PathView,
) -> bool {
    exists|i: int|
        0 <= i < entries.len() && entry_in(#[trigger] entries[i], roots, root) && entries[i].path
            == path
}

/// Whether some agent works in a worktree.
pub open spec fn is_used(
    entries: Seq<GitWorkerPathView>,
    roots: Map<PathView, Option<PathView>>,
    root: PathView,
) -> bool {
    exists|i: int| 0 <= i < entries.len() && entry_in(#[trigger] entries[i], roots, root)
}

/// Whether every entry of a worktree is stale.
pub open spec fn all_stale(
    entries: Seq<GitWorkerPathView>,
    roots: Map<PathView, Option<PathView>>,
    root: PathView,
) -> bool {
    forall|i: int|
        0 <= i < entries.len() && entry_in(#[trigger] entries[i], roots, root)
            ==> entries[i].is_stale
}

/// Whether some entry of a worktree is focused.
pub open spec fn some_focused(
    entries: Seq<GitWorkerPathView>,
    roots: Map<PathView, Option<PathView>>,
    root: PathView,
) -> bool {
    exists|i: int|
        0 <= i < entries.len() && entry_in(#[trigger] entries[i], roots, root)
            && entries[i].is_focused
}

/// Whether a worktree is described as the entries say: its agents without repetition, stale if all
/// of them are, focused if one of them is.
pub open spec fn describes(
    worktree: ResolvedGitWorktreeView,
    entries: Seq<GitWorkerPathView>,
    roots: Map<PathView, Option<PathView>>,
    root: PathView,
) -> bool {
    &&& worktree.agent_paths.no_duplicates()
    &&& forall|path: PathView| #[trigger]
        worktree.agent_paths.contains(path) == works_in(entries, roots, root, path)
    &&& worktree.is_stale == all_stale(entries, roots, root)
    &&& worktree.is_focused == some_focused(entries, roots, root)
}

/// Whether worktrees are described as the entries say, and no others.
pub open spec fn describes_all(
    worktrees: Map<PathView, ResolvedGitWorktreeView>,
    entries: Seq<GitWorkerPathView>,
    roots: Map<PathView, Option<PathView>>,
) -> bool {
    forall|root: PathView|
        #![trigger worktrees.contains_key(root)]
        #![trigger is_used(entries, roots, root)]
        worktrees.contains_key(root) == is_used(entries, roots, root) && (worktrees.contains_key(
            root,
        ) ==> describes(worktrees[root], entries, roots, root))
}

/// How the directories of entries are spelled.
pub open spec fn entry_spellings(entries: Seq<GitWorkerPath>) -> Set<Seq<u8>> {
    Set::new(
        |name: Seq<u8>|
            exists|i: int| 0 <= i < entries.len() && (#[trigger] entries[i]).path.spelled() == name,
    )
}

/// How worktrees are spelled that agents work in.
pub open spec fn root_spellings(roots: Set<Option<FilePath>>) -> Set<Seq<u8>> {
    Set::new(
        |name: Seq<u8>|
            exists|root: Option<FilePath>| #[trigger]
                roots.contains(root) && root is Some && root->0.spelled() == name,
    )
}

/// How the agents in worktrees are spelled.
pub open spec fn agent_spellings(worktrees: Set<ResolvedGitWorktree>) -> Set<Seq<u8>> {
    Set::new(
        |name: Seq<u8>|
            exists|worktree: ResolvedGitWorktree| #[trigger]
                worktrees.contains(worktree) && crate::paths::spellings_of(
                    worktree.agent_paths@,
                ).contains(name),
    )
}

/// The agents whose worktree is not known yet, each once.
pub fn unresolved_paths(
    entries: &Vec<GitWorkerPath>,
    roots_by_agent: &Table<FilePath, Option<FilePath>>,
) -> (paths: KeySet<FilePath>)
    ensures
        forall|path: PathView| #[trigger]
            paths.deep_view().contains(path) == (entry_paths(entries.deep_view()).contains(path)
                && !roots_by_agent.deep_view().contains_key(path)),
        crate::paths::spellings(paths.members()) <= entry_spellings(entries@),
{
    let mut paths: KeySet<FilePath> = KeySet::new();
    let ghost all = entries.deep_view();
    let ghost known = roots_by_agent.deep_view();
    for i in 0..entries.len()
        invariant
            all == entries.deep_view(),
            known == roots_by_agent.deep_view(),
            forall|path: PathView| #[trigger]
                paths.deep_view().contains(path) == (entry_paths(all.take(i as int)).contains(path)
                    && !known.contains_key(path)),
            crate::paths::spellings(paths.members()) <= entry_spellings(entries@),
    {
        if !roots_by_agent.contains_key(&entries[i].path) {
            paths.insert(entries[i].path.dup());
        }
        proof {
            lemma_entry_paths_next(all, i as int);
            assert(all[i as int].path == entries@[i as int].path.deep_view());
        }
    }
    assert(all.take(all.len() as int) =~= all);
    paths
}

proof fn lemma_describes_next(
    worktree: Option<ResolvedGitWorktreeView>,
    entries: Seq<GitWorkerPathView>,
    roots: Map<PathView, Option<PathView>>,
    root: PathView,
    i: int,
    after: ResolvedGitWorktreeView,
)
    requires
        0 <= i < entries.len(),
        worktree is Some == is_used(entries.take(i), roots, root),
        worktree is Some ==> describes(worktree->0, entries.take(i), roots, root),
        entry_in(entries[i], roots, root),
        after.agent_paths == ({
            let before = if worktree is Some {
                worktree->0.agent_paths
            } else {
                Seq::empty()
            };
            if before.contains(entries[i].path) {
                before
            } else {
                before.push(entries[i].path)
            }
        }),
        after.is_stale == (entries[i].is_stale && (worktree is Some ==> worktree->0.is_stale)),
        after.is_focused == (entries[i].is_focused || (worktree is Some
            && worktree->0.is_focused)),
    ensures
        is_used(entries.take(i + 1), roots, root),
        describes(after, entries.take(i + 1), roots, root),
{
    let short = entries.take(i);
    let long = entries.take(i + 1);
    let entry = entries[i];
    assert(long[i] == entry);
    assert forall|j: int| 0 <= j < i implies #[trigger] long[j] == short[j] by {}
    let before = if worktree is Some {
        worktree->0.agent_paths
    } else {
        Seq::empty()
    };
    assert forall|path: PathView| #[trigger] works_in(long, roots, root, path) == (works_in(
        short,
        roots,
        root,
        path,
    ) || path == entry.path) by {
        if works_in(short, roots, root, path) {
            let j = choose|j: int|
                0 <= j < short.len() && entry_in(#[trigger] short[j], roots, root)
                    && short[j].path == path;
            assert(entry_in(long[j], roots, root));
        }
        if works_in(long, roots, root, path) {
            let j = choose|j: int|
                0 <= j < long.len() && entry_in(#[trigger] long[j], roots, root) && long[j].path
                    == path;
            if j < i {
                assert(entry_in(short[j], roots, root));
            }
        }
        assert(entry_in(long[i], roots, root));
    }
    assert(is_used(long, roots, root)) by {
        assert(entry_in(long[i], roots, root));
    }
    assert(all_stale(long, roots, root) == (all_stale(short, roots, root) && entry.is_stale)) by {
        if all_stale(long, roots, root) {
            assert forall|j: int|
                0 <= j < short.len() && entry_in(#[trigger] short[j], roots, root) implies
                short[j].is_stale by {
                assert(entry_in(long[j], roots, root));
            }
            assert(entry_in(long[i], roots, root));
        }
        if all_stale(short, roots, root) && entry.is_stale {
            assert forall|j: int|
                0 <= j < long.len() && entry_in(#[trigger] long[j], roots, root) implies
                long[j].is_stale by {
                if j < i {
                    assert(entry_in(short[j], roots, root));
                }
            }
        }
    }
    assert(some_focused(long, roots, root) == (some_focused(short, roots, root)
        || entry.is_focused)) by {
        if some_focused(short, roots, root) {
            let j = choose|j: int|
                0 <= j < short.len() && entry_in(#[trigger] short[j], roots, root)
                    && short[j].is_focused;
            assert(entry_in(long[j], roots, root));
        }
        if some_focused(long, roots, root) {
            let j = choose|j: int|
                0 <= j < long.len() && entry_in(#[trigger] long[j], roots, root)
                    && long[j].is_focused;
            if j < i {
                assert(entry_in(short[j], roots, root));
            }
        }
        assert(entry_in(long[i], roots, root));
    }
    if worktree is None {
        assert forall|path: PathView| !works_in(short, roots, root, path) by {
            if works_in(short, roots, root, path) {
                let j = choose|j: int|
                    0 <= j < short.len() && entry_in(#[trigger] short[j], roots, root)
                        && short[j].path == path;
                assert(entry_in(short[j], roots, root));
            }
        }
        assert(all_stale(short, roots, root)) by {
            assert forall|j: int|
                0 <= j < short.len() && entry_in(#[trigger] short[j], roots, root) implies
                short[j].is_stale by {
                assert(is_used(short, roots, root));
            }
        }
        assert(!some_focused(short, roots, root)) by {
            if some_focused(short, roots, root) {
                let j = choose|j: int|
                    0 <= j < short.len() && entry_in(#[trigger] short[j], roots, root)
                        && short[j].is_focused;
                assert(entry_in(short[j], roots, root));
            }
        }
        assert(forall|path: PathView| !before.contains(path));
    }
    assert forall|path: PathView| #[trigger] after.agent_paths.contains(path) == works_in(
        long,
        roots,
        root,
        path,
    ) by {
        assert(before.contains(path) == works_in(short, roots, root, path));
        if !before.contains(entry.path) {
            let pushed = before.push(entry.path);
            assert(pushed[before.len() as int] == entry.path);
            if before.contains(path) {
                let n = choose|n: int| 0 <= n < before.len() && before[n] == path;
                assert(pushed[n] == path);
            }
            if pushed.contains(path) && path != entry.path {
                let n = choose|n: int| 0 <= n < pushed.len() && pushed[n] == path;
                assert(before[n] == path);
            }
        }
    }
}

proof fn lemma_describes_other(
    entries: Seq<GitWorkerPathView>,
    roots: Map<PathView, Option<PathView>>,
    root: PathView,
    i: int,
)
    requires
        0 <= i < entries.len(),
        !entry_in(entries[i], roots, root),
    ensures
        is_used(entries.take(i + 1), roots, root) == is_used(entries.take(i), roots, root),
        forall|worktree: ResolvedGitWorktreeView|
            describes(worktree, entries.take(i), roots, root) ==> #[trigger] describes(
                worktree,
                entries.take(i + 1),
                roots,
                root,
            ),
{
    let short = entries.take(i);
    let long = entries.take(i + 1);
    assert(long[i] == entries[i]);
    assert forall|j: int| 0 <= j < i implies #[trigger] long[j] == short[j] by {}
    assert(is_used(long, roots, root) == is_used(short, roots, root)) by {
        if is_used(short, roots, root) {
            let j = choose|j: int| 0 <= j < short.len() && entry_in(#[trigger] short[j], roots, root);
            assert(entry_in(long[j], roots, root));
        }
        if is_used(long, roots, root) {
            let j = choose|j: int| 0 <= j < long.len() && entry_in(#[trigger] long[j], roots, root);
            assert(entry_in(short[j], roots, root));
        }
    }
    assert forall|path: PathView| #[trigger] works_in(long, roots, root, path) == works_in(
        short,
        roots,
        root,
        path,
    ) by {
        if works_in(short, roots, root, path) {
            let j = choose|j: int|
                0 <= j < short.len() && entry_in(#[trigger] short[j], roots, root)
                    && short[j].path == path;
            assert(entry_in(long[j], roots, root));
        }
        if works_in(long, roots, root, path) {
            let j = choose|j: int|
                0 <= j < long.len() && entry_in(#[trigger] long[j], roots, root) && long[j].path
                    == path;
            assert(entry_in(short[j], roots, root));
        }
    }
    assert(all_stale(long, roots, root) == all_stale(short, roots, root)) by {
        if all_stale(long, roots, root) {
            assert forall|j: int|
                0 <= j < short.len() && entry_in(#[trigger] short[j], roots, root) implies
                short[j].is_stale by {
                assert(entry_in(long[j], roots, root));
            }
        }
        if all_stale(short, roots, root) {
            assert forall|j: int|
                0 <= j < long.len() && entry_in(#[trigger] long[j], roots, root) implies
                long[j].is_stale by {
                assert(entry_in(short[j], roots, root));
            }
        }
    }
    assert(some_focused(long, roots, root) == some_focused(short, roots, root)) by {
        if some_focused(short, roots, root) {
            let j = choose|j: int|
                0 <= j < short.len() && entry_in(#[trigger] short[j], roots, root)
                    && short[j].is_focused;
            assert(entry_in(long[j], roots, root));
        }
        if some_focused(long, roots, root) {
            let j = choose|j: int|
                0 <= j < long.len() && entry_in(#[trigger] long[j], roots, root)
                    && long[j].is_focused;
            assert(entry_in(short[j], roots, root));
        }
    }
    assert forall|worktree: ResolvedGitWorktreeView|
        describes(worktree, short, roots, root) implies #[trigger] describes(
        worktree,
        long,
        roots,
        root,
    ) by {
        assert forall|path: PathView| #[trigger] worktree.agent_paths.contains(path) == works_in(
            long,
            roots,
            root,
            path,
        ) by {
            assert(works_in(long, roots, root, path) == works_in(short, roots, root, path));
        }
    }
}

/// Groups agents by the worktrees in which they work, and remembers which these are. What is
/// neither known nor among what was found is in no worktree.
pub fn resolve_git_worktrees_cached(
    entries: &Vec<GitWorkerPath>,
    roots_by_agent: &mut Table<FilePath, Option<FilePath>>,
    found: &Table<FilePath, Option<FilePath>>,
) -> (worktrees: Table<FilePath, ResolvedGitWorktree>)
    ensures
        final(roots_by_agent).deep_view() == known_roots(
            entries.deep_view(),
            old(roots_by_agent).deep_view(),
            found.deep_view(),
        ),
        describes_all(
            worktrees.deep_view(),
            entries.deep_view(),
            final(roots_by_agent).deep_view(),
        ),
        forall|root: PathView| #[trigger]
            worktrees.deep_view().contains_key(root) ==> crate::order::ascending::<FilePath>(
                worktrees.deep_view()[root].agent_paths,
            ),
        root_spellings(final(roots_by_agent).values()) <= root_spellings(
            old(roots_by_agent).values(),
        ).union(root_spellings(found.values())),
        crate::paths::spellings(worktrees.keys()) <= root_spellings(
            old(roots_by_agent).values(),
        ).union(root_spellings(found.values())),
        agent_spellings(worktrees.values()) <= entry_spellings(entries@),
{
    let ghost names = root_spellings(roots_by_agent.values()).union(
        root_spellings(found.values()),
    );
    let ghost before = roots_by_agent.deep_view();
    let ghost all = entries.deep_view();
    let ghost roots = known_roots(all, before, found.deep_view());
    let active = paths_of_entries(entries);
    let _ = roots_by_agent.retain_keys(&active);
    let mut worktrees: Table<FilePath, ResolvedGitWorktree> = Table::new();
    proof {
        assert forall|root: PathView|
            #![trigger worktrees.deep_view().contains_key(root)]
            #![trigger is_used(all.take(0), roots, root)]
            !worktrees.deep_view().contains_key(root) && !is_used(all.take(0), roots, root) by {}
    }
    for i in 0..entries.len()
        invariant
            all == entries.deep_view(),
            roots == known_roots(all, before, found.deep_view()),
            active.deep_view() == entry_paths(all),
            forall|path: PathView| #[trigger]
                roots_by_agent.deep_view().contains_key(path) ==> roots.contains_key(path)
                    && roots_by_agent.deep_view()[path] == roots[path],
            forall|path: PathView| #[trigger]
                before.contains_key(path) && entry_paths(all).contains(path)
                    ==> roots_by_agent.deep_view().contains_key(path),
            forall|j: int|
                0 <= j < i ==> roots_by_agent.deep_view().contains_key(
                    (#[trigger] all[j]).path,
                ),
            describes_all(worktrees.deep_view(), all.take(i as int), roots),
            root_spellings(found.values()) <= names,
            root_spellings(roots_by_agent.values()) <= names,
            crate::paths::spellings(worktrees.keys()) <= names,
            agent_spellings(worktrees.values()) <= entry_spellings(entries@),
    {
        let entry = &entries[i];
        let ghost view = all[i as int];
        assert(view == entry.deep_view());
        assert(entry_paths(all).contains(view.path)) by {
            assert(all[i as int].path == view.path);
        }
        if !roots_by_agent.contains_key(&entry.path) {
            let root = match found.get(&entry.path) {
                Some(Some(root)) => Some(root.dup()),
                _ => None,
            };
            assert(!before.contains_key(view.path));
            roots_by_agent.insert(entry.path.dup(), root);
        }
        proof {
            assert(roots.contains_key(view.path));
        }
        let root = match roots_by_agent.get(&entry.path) {
            Some(Some(root)) => Some(root.dup()),
            _ => None,
        };
        assert(root matches Some(root) ==> names.contains(root.spelled()));
        assert(root.deep_view() == roots[view.path]);
        match root {
            None => {
                proof {
                    assert forall|r: PathView|
                        #![trigger worktrees.deep_view().contains_key(r)]
                        #![trigger is_used(all.take(i + 1), roots, r)]
                        worktrees.deep_view().contains_key(r) == is_used(all.take(i + 1), roots, r)
                            && (worktrees.deep_view().contains_key(r) ==> describes(
                            worktrees.deep_view()[r],
                            all.take(i + 1),
                            roots,
                            r,
                        )) by {
                        assert(!entry_in(view, roots, r));
                        lemma_describes_other(all, roots, r, i as int);
                    }
                }
            },
            Some(root) => {
                let ghost at = root.deep_view();
                let ghost held = worktrees.deep_view();
                let ghost known = if held.contains_key(at) {
                    Some(held[at])
                } else {
                    None
                };
                let (root, mut worktree) = match worktrees.remove_entry(&root) {
                    Some(entry) => entry,
                    None => (
                        root,
                        ResolvedGitWorktree {
                            agent_paths: Vec::new(),
                            is_stale: true,
                            is_focused: false,
                        },
                    ),
                };
                let ghost paths = worktree.agent_paths.deep_view();
                assert(known is None ==> paths =~= Seq::<PathView>::empty());
                if !listed(&worktree.agent_paths, &entry.path) {
                    worktree.agent_paths.push(entry.path.dup());
                    assert(worktree.agent_paths.deep_view() =~= paths.push(view.path));
                }
                worktree.is_stale = worktree.is_stale && entry.is_stale;
                worktree.is_focused = worktree.is_focused || entry.is_focused;
                let ghost after = worktree.deep_view();
                proof {
                    assert(entry_in(view, roots, at));
                    assert(held.contains_key(at) == is_used(all.take(i as int), roots, at));
                    lemma_describes_next(known, all, roots, at, i as int, after);
                }
                worktrees.insert(root, worktree);
                proof {
                    let now = worktrees.deep_view();
                    assert(now =~= held.insert(at, after));
                    assert forall|r: PathView|
                        #![trigger now.contains_key(r)]
                        #![trigger is_used(all.take(i + 1), roots, r)]
                        now.contains_key(r) == is_used(all.take(i + 1), roots, r) && (
                        now.contains_key(r) ==> describes(now[r], all.take(i + 1), roots, r)) by {
                        if r != at {
                            assert(!entry_in(view, roots, r));
                            lemma_describes_other(all, roots, r, i as int);
                            assert(held.contains_key(r) == is_used(all.take(i as int), roots, r));
                        }
                    }
                }
            },
        }
    }
    assert(all.take(all.len() as int) =~= all);
    proof {
        assert forall|path: PathView| roots.contains_key(path) implies
            #[trigger] roots_by_agent.deep_view().contains_key(path) by {
            let j = choose|j: int| 0 <= j < all.len() && (#[trigger] all[j]).path == path;
            assert(roots_by_agent.deep_view().contains_key(all[j].path));
        }
        assert(roots_by_agent.deep_view() =~= roots);
    }
    sort_agents(&worktrees)
}

/// The worktrees with their agents in order.
fn sort_agents(worktrees: &Table<FilePath, ResolvedGitWorktree>) -> (sorted_worktrees: Table<
    FilePath,
    ResolvedGitWorktree,
>)
    ensures
        sorted_worktrees.deep_view().dom() == worktrees.deep_view().dom(),
        forall|root: PathView| #[trigger]
            sorted_worktrees.deep_view().contains_key(root) ==> {
                let after = sorted_worktrees.deep_view()[root];
                let before = worktrees.deep_view()[root];
                &&& crate::order::ascending::<FilePath>(after.agent_paths)
                &&& after.agent_paths.no_duplicates()
                &&& after.agent_paths.to_set() == before.agent_paths.to_set()
                &&& after.is_stale == before.is_stale
                &&& after.is_focused == before.is_focused
            },
        forall|entries: Seq<GitWorkerPathView>, roots: Map<PathView, Option<PathView>>|
            describes_all(worktrees.deep_view(), entries, roots) ==> #[trigger] describes_all(
                sorted_worktrees.deep_view(),
                entries,
                roots,
            ),
        crate::paths::spellings(sorted_worktrees.keys()) <= crate::paths::spellings(
            worktrees.keys(),
        ),
        agent_spellings(sorted_worktrees.values()) <= agent_spellings(worktrees.values()),
{
    let mut result: Table<FilePath, ResolvedGitWorktree> = Table::new();
    let ghost pairs = worktrees.pairs();
    let ghost all = worktrees.deep_view();
    let count: usize = worktrees.len();
    for i in 0..count
        invariant
            count == pairs.len(),
            pairs == worktrees.pairs(),
            all == worktrees.deep_view(),
            crate::tables::distinct_keys(pairs),
            forall|root: PathView| #[trigger]
                result.deep_view().contains_key(root) ==> {
                    let after = result.deep_view()[root];
                    let before = all[root];
                    &&& all.contains_key(root)
                    &&& crate::order::ascending::<FilePath>(after.agent_paths)
                    &&& after.agent_paths.no_duplicates()
                    &&& after.agent_paths.to_set() == before.agent_paths.to_set()
                    &&& after.is_stale == before.is_stale
                    &&& after.is_focused == before.is_focused
                },
            forall|j: int|
                0 <= j < i ==> result.deep_view().contains_key((#[trigger] pairs[j]).0),
            crate::paths::spellings(result.keys()) <= crate::paths::spellings(worktrees.keys()),
            agent_spellings(result.values()) <= agent_spellings(worktrees.values()),
    {
        let root = worktrees.key_at(i);
        let worktree = worktrees.value_at(i);
        let agent_paths = sorted_unique(copy_paths(&worktree.agent_paths));
        result.insert(
            root.dup(),
            ResolvedGitWorktree {
                agent_paths,
                is_stale: worktree.is_stale,
                is_focused: worktree.is_focused,
            },
        );
    }
    proof {
        let after = result.deep_view();
        assert forall|root: PathView| all.contains_key(root) implies #[trigger] after.contains_key(
            root,
        ) by {
            let j = choose|j: int| 0 <= j < pairs.len() && (#[trigger] pairs[j]).0 == root;
            assert(after.contains_key(pairs[j].0));
        }
        assert(after.dom() =~= all.dom());
        assert forall|entries: Seq<GitWorkerPathView>, roots: Map<PathView, Option<PathView>>|
            describes_all(all, entries, roots) implies #[trigger] describes_all(
            after,
            entries,
            roots,
        ) by {
            assert forall|root: PathView|
                #![trigger after.contains_key(root)]
                #![trigger is_used(entries, roots, root)]
                after.contains_key(root) == is_used(entries, roots, root) && (after.contains_key(
                    root,
                ) ==> describes(after[root], entries, roots, root)) by {
                assert(after.contains_key(root) == all.contains_key(root));
                if after.contains_key(root) {
                    assert(describes(all[root], entries, roots, root));
                    assert forall|path: PathView| #[trigger]
                        after[root].agent_paths.contains(path) == works_in(
                        entries,
                        roots,
                        root,
                        path,
                    ) by {
                        assert(after[root].agent_paths.to_set().contains(path)
                            == all[root].agent_paths.to_set().contains(path));
                        assert(all[root].agent_paths.contains(path) == works_in(
                            entries,
                            roots,
                            root,
                            path,
                        ));
                    }
                }
            }
        }
    }
    result
}

/// The worktree of an agent is the one that is known of it, or else the one that was found; an agent of
/// which neither is there works in none.
pub proof fn roots_are_found_once(
    entries: Seq<GitWorkerPathView>,
    roots: Map<PathView, Option<PathView>>,
    found: Map<PathView, Option<PathView>>,
    path: PathView,
)
    ensures
        ({
            let known = known_roots(entries, roots, found);
            let works = exists|i: int| 0 <= i < entries.len() && (#[trigger] entries[i]).path == path;
            &&& known.contains_key(path) <==> works
            &&& works && roots.contains_key(path) ==> known[path] == roots[path]
            &&& works && !roots.contains_key(path) && found.contains_key(path) ==> known[path]
                == found[path]
            &&& works && !roots.contains_key(path) && !found.contains_key(path) ==> known[path]
                is None
        }),
{
}

/// Every agent that works in a worktree is among the agents of that worktree, which is stale only if this
/// agent is and focused if it is.
pub proof fn agents_belong_to_their_worktree(
    worktrees: Map<PathView, ResolvedGitWorktreeView>,
    entries: Seq<GitWorkerPathView>,
    roots: Map<PathView, Option<PathView>>,
    root: PathView,
    i: int,
)
    requires
        describes_all(worktrees, entries, roots),
        0 <= i < entries.len(),
        roots[entries[i].path] == Some(root),
    ensures
        worktrees.contains_key(root),
        worktrees[root].agent_paths.contains(entries[i].path),
        worktrees[root].is_stale ==> entries[i].is_stale,
        entries[i].is_focused ==> worktrees[root].is_focused,
{
    assert(entry_in(entries[i], roots, root));
    assert(is_used(entries, roots, root));
    assert(works_in(entries, roots, root, entries[i].path));
}

/// A worktree has no agents but those that work there, each once; it is there only for them, is not stale
/// only for one that is not, and focused only for one that is.
pub proof fn worktrees_are_there_for_agents(
    worktrees: Map<PathView, ResolvedGitWorktreeView>,
    entries: Seq<GitWorkerPathView>,
    roots: Map<PathView, Option<PathView>>,
    root: PathView,
    k: int,
)
    requires
        describes_all(worktrees, entries, roots),
        worktrees.contains_key(root),
    ensures
        worktrees[root].agent_paths.no_duplicates(),
        0 <= k < worktrees[root].agent_paths.len() ==> exists|i: int|
            0 <= i < entries.len() && roots[(#[trigger] entries[i]).path] == Some(root)
                && entries[i].path == worktrees[root].agent_paths[k],
        exists|i: int|
            0 <= i < entries.len() && roots[(#[trigger] entries[i]).path] == Some(root),
        !worktrees[root].is_stale ==> exists|i: int|
            0 <= i < entries.len() && roots[(#[trigger] entries[i]).path] == Some(root)
                && !entries[i].is_stale,
        worktrees[root].is_focused ==> exists|i: int|
            0 <= i < entries.len() && roots[(#[trigger] entries[i]).path] == Some(root)
                && entries[i].is_focused,
{
    assert(is_used(entries, roots, root));
    let i = choose|i: int| 0 <= i < entries.len() && entry_in(#[trigger] entries[i], roots, root);
    assert(roots[entries[i].path] == Some(root));
    if 0 <= k < worktrees[root].agent_paths.len() {
        let path = worktrees[root].agent_paths[k];
        assert(worktrees[root].agent_paths.contains(path));
        assert(works_in(entries, roots, root, path));
    }
}

} // verus!
