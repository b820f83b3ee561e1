//! How the Git states of agents are kept up to date.
use vstd::prelude::*;

use super::comparison::git_status_semantically_equal;
use super::git_cache::{ResolvedGitWorktree, ResolvedGitWorktreeView};
use super::state::{GitStatus, GitStatusView};
use crate::paths::{FilePath, PathView};
use crate::tables::{KeySet, Table};
use crate::values::Value;

verus! {

/// Whether the sidebar would show another state of an agent than the one that is known.
pub open spec fn is_outdated(
    cache: Map<PathView, GitStatusView>,
    path: PathView,
    status: GitStatusView,
) -> bool {
    !(cache.contains_key(path) && cache[path].lasting() == status.lasting())
}

/// The state of an agent, once that of its worktree was found out.
pub open spec fn renewed_status(
    cache: Map<PathView, GitStatusView>,
    paths: Seq<PathView>,
    status: GitStatusView,
    path: PathView,
) -> GitStatusView {
    if paths.contains(path) && is_outdated(cache, path, status) {
        status
    } else {
        cache[path]
    }
}

/// The states of agents, once that of the worktree of some of them was found out.
pub open spec fn renewed_statuses(
    cache: Map<PathView, GitStatusView>,
    paths: Seq<PathView>,
    status: GitStatusView,
) -> Map<PathView, GitStatusView> {
    Map::new(
        |path: PathView| cache.contains_key(path) || paths.contains(path),
        |path: PathView| renewed_status(cache, paths, status, path),
    )
}

/// Publishes the state of a worktree for all agents in it, and says whether the sidebar would show
/// anything new. A state that shows nothing new is not published.
pub fn refresh_git_status(
    agent_paths: &Vec<FilePath>,
    new_status: &GitStatus,
    cache: &mut Table<FilePath, GitStatus>,
) -> (changed: bool)
    ensures
        final(cache).deep_view() == renewed_statuses(
            old(cache).deep_view(),
            agent_paths.deep_view(),
            new_status.deep_view(),
        ),
        changed == exists|i: int|
            0 <= i < agent_paths@.len() && is_outdated(
                old(cache).deep_view(),
                #[trigger] agent_paths.deep_view()[i],
                new_status.deep_view(),
            ),
        crate::paths::spellings(final(cache).keys()) <= crate::paths::spellings(
            old(cache).keys(),
        ).union(crate::paths::spellings_of(agent_paths@)),
{
    let ghost names = crate::paths::spellings(cache.keys()).union(
        crate::paths::spellings_of(agent_paths@),
    );
    let ghost before = cache.deep_view();
    let ghost paths = agent_paths.deep_view();
    let ghost status = new_status.deep_view();
    let mut changed = false;
    assert(before =~= renewed_statuses(before, paths.take(0), status));
    for i in 0..agent_paths.len()
        invariant
            paths == agent_paths.deep_view(),
            status == new_status.deep_view(),
            cache.deep_view() == renewed_statuses(before, paths.take(i as int), status),
            changed ==> exists|j: int|
                0 <= j < paths.len() && is_outdated(before, #[trigger] paths[j], status),
            !changed ==> forall|j: int|
                0 <= j < i ==> !is_outdated(before, #[trigger] paths[j], status),
            crate::paths::spellings_of(agent_paths@) <= names,
            crate::paths::spellings(cache.keys()) <= names,
    {
        assert(names.contains(agent_paths@[i as int].spelled()));
        let ghost held = cache.deep_view();
        let ghost path = paths[i as int];
        proof {
            crate::lists::lemma_take_next(paths, i as int);
        }
        let current = match cache.get(&agent_paths[i]) {
            Some(old_status) => git_status_semantically_equal(old_status, new_status),
            None => false,
        };
        if !current {
            assert(is_outdated(before, paths[i as int], status));
            cache.insert(agent_paths[i].dup(), new_status.dup());
            changed = true;
        }
        assert(cache.deep_view() =~= renewed_statuses(before, paths.take(i + 1), status));
    }
    assert(paths.take(paths.len() as int) =~= paths);
    changed
}

/// The first state that is known of some agents.
pub open spec fn first_known(
    cache: Map<PathView, GitStatusView>,
    paths: Seq<PathView>,
) -> Option<GitStatusView>
    decreases paths.len(),
{
    if paths.len() == 0 {
        None
    } else {
        match first_known(cache, paths.drop_last()) {
            Some(status) => Some(status),
            None => if cache.contains_key(paths.last()) {
                Some(cache[paths.last()])
            } else {
                None
            },
        }
    }
}

proof fn lemma_first_known_prefix(
    cache: Map<PathView, GitStatusView>,
    paths: Seq<PathView>,
    n: int,
)
    requires
        0 <= n <= paths.len(),
        first_known(cache, paths.take(n)) is Some,
    ensures
        first_known(cache, paths) == first_known(cache, paths.take(n)),
    decreases paths.len(),
{
    if n == paths.len() {
        assert(paths.take(n) =~= paths);
    } else {
        assert(paths.drop_last().take(n) =~= paths.take(n));
        lemma_first_known_prefix(cache, paths.drop_last(), n);
    }
}

proof fn lemma_first_known_none(cache: Map<PathView, GitStatusView>, paths: Seq<PathView>)
    ensures
        first_known(cache, paths) is None <==> forall|i: int|
            0 <= i < paths.len() ==> !cache.contains_key(#[trigger] paths[i]),
    decreases paths.len(),
{
    if paths.len() > 0 {
        let before = paths.drop_last();
        lemma_first_known_none(cache, before);
        if first_known(cache, paths) is None {
            assert forall|i: int| 0 <= i < paths.len() implies !cache.contains_key(
                #[trigger] paths[i],
            ) by {
                if i < before.len() {
                    assert(!cache.contains_key(before[i]));
                }
            }
        } else if first_known(cache, before) is Some {
            let i = choose|i: int|
                0 <= i < before.len() && cache.contains_key(#[trigger] before[i]);
            assert(cache.contains_key(paths[i]));
        } else {
            assert(cache.contains_key(paths[paths.len() - 1]));
        }
    }
}

fn find_known(cache: &Table<FilePath, GitStatus>, paths: &Vec<FilePath>) -> (found: Option<
    GitStatus,
>)
    ensures
        found.deep_view() == first_known(cache.deep_view(), paths.deep_view()),
{
    let ghost all = paths.deep_view();
    for i in 0..paths.len()
        invariant
            all == paths.deep_view(),
            first_known(cache.deep_view(), all.take(i as int)) is None,
    {
        assert(all.take(i + 1).drop_last() =~= all.take(i as int));
        assert(all.take(i + 1).last() == all[i as int]);
        if let Some(status) = cache.get(&paths[i]) {
            proof {
                lemma_first_known_prefix(cache.deep_view(), all, i + 1);
            }
            return Some(status.dup());
        }
    }
    assert(all.take(all.len() as int) =~= all);
    None
}

/// The agents of worktrees.
pub open spec fn agents_of(worktrees: Map<PathView, ResolvedGitWorktreeView>) -> Set<PathView> {
    Set::new(
        |path: PathView|
            exists|root: PathView| #[trigger]
                worktrees.contains_key(root) && worktrees[root].agent_paths.contains(path),
    )
}

/// The state of a worktree by what was known of the agents that worked there.
pub open spec fn inherited(
    previous: Map<PathView, ResolvedGitWorktreeView>,
    cache: Map<PathView, GitStatusView>,
    root: PathView,
) -> Option<GitStatusView> {
    if previous.contains_key(root) {
        first_known(cache, previous[root].agent_paths)
    } else {
        None
    }
}

/// The states of agents, with that of their worktree for those whose state is not known.
pub open spec fn filled(
    cache: Map<PathView, GitStatusView>,
    paths: Seq<PathView>,
    status: GitStatusView,
) -> Map<PathView, GitStatusView> {
    cache.union_prefer_right(
        Map::new(
            |path: PathView| paths.contains(path) && !cache.contains_key(path),
            |path: PathView| status,
        ),
    )
}

/// Whether the state of every one of some agents is known.
pub open spec fn all_known(cache: Map<PathView, GitStatusView>, paths: Seq<PathView>) -> bool {
    forall|i: int| 0 <= i < paths.len() ==> cache.contains_key(#[trigger] paths[i])
}

/// What is known behind a reconciliation.
pub struct Reconciled {
    pub cache: Map<PathView, GitStatusView>,
    pub changed: bool,
    /// The worktrees of which nothing is known.
    pub missing: Seq<PathView>,
}

/// What is known once one more worktree was looked at.
pub open spec fn reconcile_one(
    previous: Map<PathView, ResolvedGitWorktreeView>,
    before: Map<PathView, GitStatusView>,
    at: Reconciled,
    root: PathView,
    worktree: ResolvedGitWorktreeView,
) -> Reconciled {
    let status = match inherited(previous, before, root) {
        Some(status) => Some(status),
        None => first_known(at.cache, worktree.agent_paths),
    };
    match status {
        Some(status) => Reconciled {
            cache: filled(at.cache, worktree.agent_paths, status),
            changed: at.changed || !all_known(at.cache, worktree.agent_paths),
            missing: at.missing,
        },
        None => Reconciled { missing: at.missing.push(root), ..at },
    }
}

/// What is known once some worktrees were looked at. Of agents that do not work any more nothing is
/// kept.
pub open spec fn reconcile_all(
    previous: Map<PathView, ResolvedGitWorktreeView>,
    active: Set<PathView>,
    before: Map<PathView, GitStatusView>,
    worktrees: Seq<(PathView, ResolvedGitWorktreeView)>,
) -> Reconciled
    decreases worktrees.len(),
{
    if worktrees.len() == 0 {
        Reconciled {
            cache: before.restrict(active),
            changed: !(before.dom() <= active),
            missing: Seq::empty(),
        }
    } else {
        reconcile_one(
            previous,
            before,
            reconcile_all(previous, active, before, worktrees.drop_last()),
            worktrees.last().0,
            worktrees.last().1,
        )
    }
}

fn collect_agents(worktrees: &Table<FilePath, ResolvedGitWorktree>) -> (agents: KeySet<FilePath>)
    ensures
        agents.deep_view() == agents_of(worktrees.deep_view()),
{
    let mut agents: KeySet<FilePath> = KeySet::new();
    let ghost pairs = worktrees.pairs();
    let ghost all = worktrees.deep_view();
    let count: usize = worktrees.len();
    for i in 0..count
        invariant
            count == pairs.len(),
            pairs == worktrees.pairs(),
            all == worktrees.deep_view(),
            crate::tables::distinct_keys(pairs),
            forall|path: PathView| #[trigger]
                agents.deep_view().contains(path) ==> agents_of(all).contains(path),
            forall|j: int, n: int|
                0 <= j < i && 0 <= n < (#[trigger] pairs[j]).1.agent_paths.len()
                    ==> agents.deep_view().contains(#[trigger] pairs[j].1.agent_paths[n]),
    {
        let paths = &worktrees.value_at(i).agent_paths;
        let ghost list = pairs[i as int].1.agent_paths;
        assert(list == paths.deep_view());
        proof {
            crate::tables::lemma_pair_found(pairs, i as int);
        }
        for k in 0..paths.len()
            invariant
                0 <= i < pairs.len(),
                all == worktrees.deep_view(),
                list == paths.deep_view(),
                list == pairs[i as int].1.agent_paths,
                all.contains_pair(pairs[i as int].0, pairs[i as int].1),
                forall|path: PathView| #[trigger]
                    agents.deep_view().contains(path) ==> agents_of(all).contains(path),
                forall|j: int, n: int|
                    0 <= j < i && 0 <= n < (#[trigger] pairs[j]).1.agent_paths.len()
                        ==> agents.deep_view().contains(#[trigger] pairs[j].1.agent_paths[n]),
                forall|n: int| 0 <= n < k ==> agents.deep_view().contains(#[trigger] list[n]),
        {
            proof {
                assert(list[k as int] == paths@[k as int].deep_view());
                assert(list.contains(list[k as int]));
                assert(all.contains_key(pairs[i as int].0));
            }
            agents.insert(paths[k].dup());
        }
    }
    proof {
        assert forall|path: PathView| agents_of(all).contains(path) implies
            #[trigger] agents.deep_view().contains(path) by {
            let root = choose|root: PathView| #[trigger]
                all.contains_key(root) && all[root].agent_paths.contains(path);
            let j = choose|j: int| 0 <= j < pairs.len() && (#[trigger] pairs[j]).0 == root;
            crate::tables::lemma_pair_found(pairs, j);
            let list = all[root].agent_paths;
            let n = choose|n: int| 0 <= n < list.len() && list[n] == path;
            assert(agents.deep_view().contains(pairs[j].1.agent_paths[n]));
        }
        assert(agents.deep_view() =~= agents_of(all));
    }
    agents
}

fn fill(
    cache: &mut Table<FilePath, GitStatus>,
    paths: &Vec<FilePath>,
    status: &GitStatus,
) -> (changed: bool)
    ensures
        final(cache).deep_view() == filled(
            old(cache).deep_view(),
            paths.deep_view(),
            status.deep_view(),
        ),
        changed == !all_known(old(cache).deep_view(), paths.deep_view()),
        crate::paths::spellings(final(cache).keys()) <= crate::paths::spellings(
            old(cache).keys(),
        ).union(crate::paths::spellings_of(paths@)),
{
    let ghost names = crate::paths::spellings(cache.keys()).union(
        crate::paths::spellings_of(paths@),
    );
    let ghost before = cache.deep_view();
    let ghost all = paths.deep_view();
    let mut changed = false;
    assert(before =~= filled(before, all.take(0), status.deep_view()));
    for i in 0..paths.len()
        invariant
            all == paths.deep_view(),
            cache.deep_view() == filled(before, all.take(i as int), status.deep_view()),
            changed ==> !all_known(before, all),
            !changed ==> forall|j: int| 0 <= j < i ==> before.contains_key(#[trigger] all[j]),
            crate::paths::spellings_of(paths@) <= names,
            crate::paths::spellings(cache.keys()) <= names,
    {
        assert(names.contains(paths@[i as int].spelled()));
        proof {
            crate::lists::lemma_take_next(all, i as int);
        }
        if !cache.contains_key(&paths[i]) {
            assert(!before.contains_key(all[i as int]));
            cache.insert(paths[i].dup(), status.dup());
            changed = true;
        } else {
            proof {
                if !changed && !before.contains_key(all[i as int]) {
                    let short = all.take(i as int);
                    let n = choose|n: int| 0 <= n < short.len() && short[n] == all[i as int];
                    assert(before.contains_key(all[n]));
                }
            }
        }
        assert(cache.deep_view() =~= filled(before, all.take(i + 1), status.deep_view()));
    }
    assert(all.take(all.len() as int) =~= all);
    changed
}

/// Carries what is known of agents over to the agents that work now: those that work in the same
/// worktree share its state. Says whether the sidebar shows anything new, and of which worktrees
/// nothing is known.
pub fn reconcile_git_cache(
    previous: &Table<FilePath, ResolvedGitWorktree>,
    current: &Table<FilePath, ResolvedGitWorktree>,
    cache: &mut Table<FilePath, GitStatus>,
) -> (result: (bool, Vec<FilePath>))
    ensures
        ({
            let known = reconcile_all(
                previous.deep_view(),
                agents_of(current.deep_view()),
                old(cache).deep_view(),
                current.pairs(),
            );
            &&& final(cache).deep_view() == known.cache
            &&& result.0 == known.changed
            &&& result.1.deep_view() == known.missing
            &&& crate::tables::distinct_keys(current.pairs())
        }),
        crate::paths::spellings_of(result.1@) <= crate::paths::spellings(current.keys()),
        crate::paths::spellings(final(cache).keys()) <= crate::paths::spellings(
            old(cache).keys(),
        ).union(super::git_cache::agent_spellings(current.values())),
{
    let ghost names = crate::paths::spellings(cache.keys()).union(
        super::git_cache::agent_spellings(current.values()),
    );
    let ghost before = cache.deep_view();
    let ghost prior = previous.deep_view();
    let ghost pairs = current.pairs();
    let ghost agents = agents_of(current.deep_view());
    let active = collect_agents(current);
    let kept = cache.dup();
    let mut changed = cache.retain_keys(&active);
    let mut missing: Vec<FilePath> = Vec::new();
    let count: usize = current.len();
    assert(missing.deep_view() =~= Seq::<PathView>::empty());
    assert(pairs.take(0) =~= Seq::empty());
    for i in 0..count
        invariant
            count == pairs.len(),
            pairs == current.pairs(),
            prior == previous.deep_view(),
            kept.deep_view() == before,
            ({
                let known = reconcile_all(prior, agents, before, pairs.take(i as int));
                &&& cache.deep_view() == known.cache
                &&& changed == known.changed
                &&& missing.deep_view() == known.missing
            }),
            crate::paths::spellings_of(missing@) <= crate::paths::spellings(current.keys()),
            super::git_cache::agent_spellings(current.values()) <= names,
            crate::paths::spellings(cache.keys()) <= names,
    {
        let root = current.key_at(i);
        let worktree = current.value_at(i);
        let ghost held = missing.deep_view();
        proof {
            assert(pairs.take(i + 1).drop_last() =~= pairs.take(i as int));
            assert(pairs.take(i + 1).last() == pairs[i as int]);
        }
        let earlier = match previous.get(root) {
            Some(old_worktree) => find_known(&kept, &old_worktree.agent_paths),
            None => None,
        };
        assert(earlier.deep_view() == inherited(prior, before, root.deep_view()));
        let status = match earlier {
            Some(status) => Some(status),
            None => find_known(cache, &worktree.agent_paths),
        };
        match status {
            Some(status) => {
                let filled_any = fill(cache, &worktree.agent_paths, &status);
                changed = changed || filled_any;
            },
            None => {
                let ghost earlier_missing = missing@;
                missing.push(root.dup());
                assert(missing.deep_view() =~= held.push(root.deep_view()));
                proof {
                    crate::paths::lemma_spelling_pushed(earlier_missing, missing@);
                }
            },
        }
    }
    assert(pairs.take(pairs.len() as int) =~= pairs);
    (changed, missing)
}

/// Behind a reconciliation only agents that work now have a state.
pub proof fn only_active_agents_are_kept(
    previous: Map<PathView, ResolvedGitWorktreeView>,
    active: Set<PathView>,
    before: Map<PathView, GitStatusView>,
    worktrees: Seq<(PathView, ResolvedGitWorktreeView)>,
)
    requires
        forall|i: int, path: PathView|
            0 <= i < worktrees.len() && (#[trigger] worktrees[i]).1.agent_paths.contains(path)
                ==> #[trigger] active.contains(path),
    ensures
        reconcile_all(previous, active, before, worktrees).cache.dom() <= active,
    decreases worktrees.len(),
{
    if worktrees.len() > 0 {
        let shorter = worktrees.drop_last();
        assert forall|i: int, path: PathView|
            0 <= i < shorter.len() && (#[trigger] shorter[i]).1.agent_paths.contains(path) implies
            #[trigger] active.contains(path) by {
            assert(shorter[i] == worktrees[i]);
        }
        only_active_agents_are_kept(previous, active, before, shorter);
        let last = worktrees[worktrees.len() - 1];
        assert(worktrees.last() == last);
        assert forall|path: PathView| last.1.agent_paths.contains(path) implies active.contains(
            path,
        ) by {}
    }
}

/// Where a reconciliation changes nothing, what is known stays as it was.
pub proof fn unchanged_means_the_same(
    previous: Map<PathView, ResolvedGitWorktreeView>,
    active: Set<PathView>,
    before: Map<PathView, GitStatusView>,
    worktrees: Seq<(PathView, ResolvedGitWorktreeView)>,
)
    requires
        !reconcile_all(previous, active, before, worktrees).changed,
    ensures
        reconcile_all(previous, active, before, worktrees).cache == before,
    decreases worktrees.len(),
{
    if worktrees.len() == 0 {
        assert(before.restrict(active) =~= before);
    } else {
        unchanged_means_the_same(previous, active, before, worktrees.drop_last());
        let at = reconcile_all(previous, active, before, worktrees.drop_last());
        let after = reconcile_all(previous, active, before, worktrees);
        let paths = worktrees.last().1.agent_paths;
        if all_known(at.cache, paths) {
            assert forall|path: PathView| paths.contains(path) implies
                #[trigger] at.cache.contains_key(path) by {
                let i = choose|i: int| 0 <= i < paths.len() && paths[i] == path;
                assert(at.cache.contains_key(paths[i]));
            }
        }
        assert(after.cache =~= before);
    }
}

proof fn lemma_known_stays(
    previous: Map<PathView, ResolvedGitWorktreeView>,
    active: Set<PathView>,
    before: Map<PathView, GitStatusView>,
    worktrees: Seq<(PathView, ResolvedGitWorktreeView)>,
    n: int,
    path: PathView,
)
    requires
        0 <= n <= worktrees.len(),
        reconcile_all(previous, active, before, worktrees.take(n)).cache.contains_key(path),
    ensures
        ({
            let early = reconcile_all(previous, active, before, worktrees.take(n)).cache;
            let late = reconcile_all(previous, active, before, worktrees).cache;
            late.contains_key(path) && late[path] == early[path]
        }),
    decreases worktrees.len(),
{
    if n == worktrees.len() {
        assert(worktrees.take(n) =~= worktrees);
    } else {
        assert(worktrees.drop_last().take(n) =~= worktrees.take(n));
        lemma_known_stays(previous, active, before, worktrees.drop_last(), n, path);
    }
}

/// What was known of an agent that works now stays as it was.
pub proof fn known_agents_keep_their_state(
    previous: Map<PathView, ResolvedGitWorktreeView>,
    active: Set<PathView>,
    before: Map<PathView, GitStatusView>,
    worktrees: Seq<(PathView, ResolvedGitWorktreeView)>,
    path: PathView,
)
    requires
        before.contains_key(path),
        active.contains(path),
    ensures
        ({
            let after = reconcile_all(previous, active, before, worktrees).cache;
            after.contains_key(path) && after[path] == before[path]
        }),
{
    assert(worktrees.take(0) =~= Seq::empty());
    lemma_known_stays(previous, active, before, worktrees, 0, path);
}

/// Each agent has a state behind a reconciliation, unless nothing is known of its worktree.
pub proof fn agents_share_the_state_of_their_worktree(
    previous: Map<PathView, ResolvedGitWorktreeView>,
    active: Set<PathView>,
    before: Map<PathView, GitStatusView>,
    worktrees: Seq<(PathView, ResolvedGitWorktreeView)>,
    i: int,
    path: PathView,
)
    requires
        0 <= i < worktrees.len(),
        worktrees[i].1.agent_paths.contains(path),
    ensures
        ({
            let after = reconcile_all(previous, active, before, worktrees);
            after.cache.contains_key(path) || after.missing.contains(worktrees[i].0)
        }),
    decreases worktrees.len(),
{
    let shorter = worktrees.drop_last();
    let at = reconcile_all(previous, active, before, shorter);
    let after = reconcile_all(previous, active, before, worktrees);
    if i < shorter.len() {
        agents_share_the_state_of_their_worktree(previous, active, before, shorter, i, path);
        assert(shorter[i] == worktrees[i]);
        if !at.cache.contains_key(path) {
            let n = choose|n: int| 0 <= n < at.missing.len() && at.missing[n] == worktrees[i].0;
            assert(after.missing[n] == worktrees[i].0);
        }
    } else {
        assert(worktrees.last() == worktrees[i]);
        if after.missing.len() > at.missing.len() {
            assert(after.missing[at.missing.len() as int] == worktrees[i].0);
        }
    }
}

/// Behind a look at a worktree, each of its agents has a state that looks as the one that was found; all
/// other agents have the state that they had.
pub proof fn looks_are_published(
    cache: Map<PathView, GitStatusView>,
    paths: Seq<PathView>,
    status: GitStatusView,
    path: PathView,
)
    ensures
        ({
            let after = renewed_statuses(cache, paths, status);
            &&& paths.contains(path) ==> after.contains_key(path) && after[path].lasting()
                == status.lasting()
            &&& !paths.contains(path) ==> after.contains_key(path) == cache.contains_key(path)
            &&& !paths.contains(path) && cache.contains_key(path) ==> after[path] == cache[path]
        }),
{
}

/// The state of a worktree is that of the first agent there of which one is known.
pub proof fn first_known_agent_counts(
    cache: Map<PathView, GitStatusView>,
    paths: Seq<PathView>,
    i: int,
)
    ensures
        0 <= i < paths.len() && cache.contains_key(paths[i]) && (forall|j: int|
            0 <= j < i ==> !cache.contains_key(#[trigger] paths[j])) ==> first_known(cache, paths)
            == Some(cache[paths[i]]),
        (forall|j: int| 0 <= j < paths.len() ==> !cache.contains_key(#[trigger] paths[j]))
            ==> first_known(cache, paths) is None,
{
    lemma_first_known_none(cache, paths);
    if 0 <= i < paths.len() && cache.contains_key(paths[i]) && (forall|j: int|
        0 <= j < i ==> !cache.contains_key(#[trigger] paths[j])) {
        let head = paths.take(i + 1);
        lemma_first_known_none(cache, paths.take(i));
        assert forall|j: int| 0 <= j < i implies !cache.contains_key(
            #[trigger] paths.take(i)[j],
        ) by {
            assert(paths.take(i)[j] == paths[j]);
        }
        assert(head.drop_last() =~= paths.take(i));
        assert(head.last() == paths[i]);
        lemma_first_known_prefix(cache, paths, i + 1);
    }
}

proof fn lemma_cache_grows_by_agents(
    previous: Map<PathView, ResolvedGitWorktreeView>,
    active: Set<PathView>,
    before: Map<PathView, GitStatusView>,
    worktrees: Seq<(PathView, ResolvedGitWorktreeView)>,
    path: PathView,
)
    requires
        !(before.contains_key(path) && active.contains(path)),
        forall|j: int|
            0 <= j < worktrees.len() ==> !(#[trigger] worktrees[j]).1.agent_paths.contains(path),
    ensures
        !reconcile_all(previous, active, before, worktrees).cache.contains_key(path),
    decreases worktrees.len(),
{
    if worktrees.len() > 0 {
        let shorter = worktrees.drop_last();
        assert forall|j: int| 0 <= j < shorter.len() implies !(
        #[trigger] shorter[j]).1.agent_paths.contains(path) by {
            assert(shorter[j] == worktrees[j]);
        }
        lemma_cache_grows_by_agents(previous, active, before, shorter, path);
        assert(worktrees[worktrees.len() - 1] == worktrees.last());
    }
}

/// An agent that begins to work in a worktree has at once the state that was known of the agents that
/// worked there before.
pub proof fn new_agents_inherit(
    previous: Map<PathView, ResolvedGitWorktreeView>,
    active: Set<PathView>,
    before: Map<PathView, GitStatusView>,
    worktrees: Seq<(PathView, ResolvedGitWorktreeView)>,
    i: int,
    k: int,
    path: PathView,
)
    requires
        0 <= i < worktrees.len(),
        previous.contains_key(worktrees[i].0),
        ({
            let earlier = previous[worktrees[i].0].agent_paths;
            &&& 0 <= k < earlier.len()
            &&& before.contains_key(earlier[k])
            &&& forall|j: int| 0 <= j < k ==> !before.contains_key(#[trigger] earlier[j])
        }),
        worktrees[i].1.agent_paths.contains(path),
        !(before.contains_key(path) && active.contains(path)),
        forall|j: int|
            0 <= j < i ==> !(#[trigger] worktrees[j]).1.agent_paths.contains(path),
    ensures
        ({
            let after = reconcile_all(previous, active, before, worktrees).cache;
            &&& after.contains_key(path)
            &&& after[path] == before[previous[worktrees[i].0].agent_paths[k]]
        }),
{
    let head = worktrees.take(i);
    let next = worktrees.take(i + 1);
    assert(next.drop_last() =~= head);
    assert(next.last() == worktrees[i]);
    assert forall|j: int| 0 <= j < head.len() implies !(
    #[trigger] head[j]).1.agent_paths.contains(path) by {
        assert(head[j] == worktrees[j]);
    }
    lemma_cache_grows_by_agents(previous, active, before, head, path);
    first_known_agent_counts(before, previous[worktrees[i].0].agent_paths, k);
    lemma_known_stays(previous, active, before, worktrees, i + 1, path);
}

/// A worktree is missing only if it is listed and nothing was known of the agents that worked there.
pub proof fn missing_worktrees_are_unknown(
    previous: Map<PathView, ResolvedGitWorktreeView>,
    active: Set<PathView>,
    before: Map<PathView, GitStatusView>,
    worktrees: Seq<(PathView, ResolvedGitWorktreeView)>,
    root: PathView,
)
    requires
        reconcile_all(previous, active, before, worktrees).missing.contains(root),
    ensures
        exists|i: int| 0 <= i < worktrees.len() && (#[trigger] worktrees[i]).0 == root,
        previous.contains_key(root) ==> forall|k: int|
            0 <= k < previous[root].agent_paths.len() ==> !before.contains_key(
                #[trigger] previous[root].agent_paths[k],
            ),
    decreases worktrees.len(),
{
    if worktrees.len() > 0 {
        let shorter = worktrees.drop_last();
        let at = reconcile_all(previous, active, before, shorter);
        let after = reconcile_all(previous, active, before, worktrees);
        let n = choose|n: int| 0 <= n < after.missing.len() && after.missing[n] == root;
        if n < at.missing.len() {
            assert(at.missing[n] == root);
            missing_worktrees_are_unknown(previous, active, before, shorter, root);
            let i = choose|i: int| 0 <= i < shorter.len() && (#[trigger] shorter[i]).0 == root;
            assert(worktrees[i].0 == root);
        } else {
            assert(worktrees[worktrees.len() - 1].0 == root);
            if previous.contains_key(root) {
                lemma_first_known_none(before, previous[root].agent_paths);
            }
        }
    }
}

proof fn lemma_new_agent_is_news(
    previous: Map<PathView, ResolvedGitWorktreeView>,
    active: Set<PathView>,
    before: Map<PathView, GitStatusView>,
    worktrees: Seq<(PathView, ResolvedGitWorktreeView)>,
)
    requires
        reconcile_all(previous, active, before, worktrees).changed,
        before.dom() <= active,
    ensures
        exists|path: PathView| #[trigger]
            reconcile_all(previous, active, before, worktrees).cache.contains_key(path)
                && !before.contains_key(path),
    decreases worktrees.len(),
{
    if worktrees.len() > 0 {
        let shorter = worktrees.drop_last();
        let at = reconcile_all(previous, active, before, shorter);
        let after = reconcile_all(previous, active, before, worktrees);
        if at.changed {
            lemma_new_agent_is_news(previous, active, before, shorter);
            let path = choose|path: PathView| #[trigger]
                at.cache.contains_key(path) && !before.contains_key(path);
            assert(after.cache.contains_key(path));
        } else {
            unchanged_means_the_same(previous, active, before, shorter);
            let paths = worktrees.last().1.agent_paths;
            let k = choose|k: int| 0 <= k < paths.len() && !at.cache.contains_key(
                #[trigger] paths[k],
            );
            assert(paths.contains(paths[k]));
            assert(after.cache.contains_key(paths[k]));
        }
    }
}

/// A reconciliation says that something changed if and only if what is known of agents is not the same any
/// more.
pub proof fn changes_are_told(
    previous: Map<PathView, ResolvedGitWorktreeView>,
    active: Set<PathView>,
    before: Map<PathView, GitStatusView>,
    worktrees: Seq<(PathView, ResolvedGitWorktreeView)>,
)
    requires
        forall|i: int, path: PathView|
            0 <= i < worktrees.len() && (#[trigger] worktrees[i]).1.agent_paths.contains(path)
                ==> #[trigger] active.contains(path),
    ensures
        reconcile_all(previous, active, before, worktrees).changed <==> reconcile_all(
            previous,
            active,
            before,
            worktrees,
        ).cache != before,
{
    let after = reconcile_all(previous, active, before, worktrees);
    if after.changed {
        only_active_agents_are_kept(previous, active, before, worktrees);
        if before.dom() <= active {
            lemma_new_agent_is_news(previous, active, before, worktrees);
        } else {
            let path = choose|path: PathView| #[trigger]
                before.dom().contains(path) && !active.contains(path);
            assert(!after.cache.dom().contains(path));
        }
    } else {
        unchanged_means_the_same(previous, active, before, worktrees);
    }
}

/// A look at a worktree is news if and only if the sidebar shows another state of some agent behind it.
pub proof fn news_show(
    cache: Map<PathView, GitStatusView>,
    paths: Seq<PathView>,
    status: GitStatusView,
)
    ensures
        (exists|i: int| 0 <= i < paths.len() && is_outdated(cache, #[trigger] paths[i], status)) <==>
            super::comparison::lasting_map(renewed_statuses(cache, paths, status))
            != super::comparison::lasting_map(cache),
{
    let after = renewed_statuses(cache, paths, status);
    let now = super::comparison::lasting_map(after);
    let then = super::comparison::lasting_map(cache);
    if exists|i: int| 0 <= i < paths.len() && is_outdated(cache, #[trigger] paths[i], status) {
        let i = choose|i: int| 0 <= i < paths.len() && is_outdated(cache, #[trigger] paths[i], status);
        assert(paths.contains(paths[i]));
        assert(now.contains_key(paths[i]));
        assert(now[paths[i]] == status.lasting());
        if then.contains_key(paths[i]) {
            assert(then[paths[i]] == cache[paths[i]].lasting());
        }
    } else {
        assert forall|path: PathView| now.contains_key(path) == #[trigger] then.contains_key(path)
            && (then.contains_key(path) ==> now[path] == then[path]) by {
            if paths.contains(path) {
                let i = choose|i: int| 0 <= i < paths.len() && paths[i] == path;
                assert(!is_outdated(cache, paths[i], status));
            }
        }
        assert(now =~= then);
    }
}

/// An agent counts as working if and only if it works in one of the worktrees.
pub proof fn agents_work_in_worktrees(
    worktrees: Map<PathView, ResolvedGitWorktreeView>,
    root: PathView,
    others: Map<PathView, ResolvedGitWorktreeView>,
    path: PathView,
)
    requires
        !others.contains_key(root),
        worktrees.contains_key(root),
        worktrees == others.insert(root, worktrees[root]),
    ensures
        !agents_of(Map::<PathView, ResolvedGitWorktreeView>::empty()).contains(path),
        agents_of(worktrees).contains(path) <==> agents_of(others).contains(path)
            || worktrees[root].agent_paths.contains(path),
{
    if agents_of(others).contains(path) {
        let other = choose|other: PathView| #[trigger]
            others.contains_key(other) && others[other].agent_paths.contains(path);
        assert(worktrees.contains_key(other) && worktrees[other] == others[other]);
    }
    if agents_of(worktrees).contains(path) {
        let other = choose|other: PathView| #[trigger]
            worktrees.contains_key(other) && worktrees[other].agent_paths.contains(path);
        if other != root {
            assert(others.contains_key(other) && others[other] == worktrees[other]);
        }
    }
}

} // verus!
