//! What holds of a whole run of the worker that keeps the Git states of agents up to date.
use vstd::prelude::*;

use super::git_cache::{GitWorkerPathView, ResolvedGitWorktreeView};
use super::git_worker::{GitWorkerView, MIN_REFRESH_INTERVAL};
use super::ignores::RuleBookView;
use super::state::GitStatusView;
use super::watches::WatchBookView;
use crate::paths::PathView;

verus! {

/// A look at a worktree.
pub struct Look {
    pub begun: u64,
    pub ended: u64,
}

/// Where a run has come to.
#[verifier::ext_equal]
pub struct GitRun {
    pub worker: GitWorkerView,
    /// The states of agents that are published.
    pub published: Map<PathView, GitStatusView>,
    /// The agents that were taken up last.
    pub agents: Seq<GitWorkerPathView>,
    /// Whether what is published was carried over to them.
    pub settled: bool,
    /// The looks at each worktree since it was last forgotten, one after the other.
    pub looks: Map<PathView, Seq<Look>>,
    /// Whether the worker said of its last move that the sidebar shows anything new.
    pub told: bool,
}

/// A move of the worker, with what its host says.
pub enum GitMove {
    /// An event at a path is noted.
    Note { path: Seq<u8>, now: u64 },
    /// Ignore rules are taken.
    Rules { rules: RuleBookView },
    /// Watches are begun, added or taken back.
    Watch { watches: WatchBookView },
    /// The watcher fails.
    Fail,
    /// Events are lost.
    Lose,
    /// Worktrees that were not found are forgotten, if it is time.
    Retry { now: u64 },
    /// Other agents are taken up.
    Take {
        entries: Seq<GitWorkerPathView>,
        found: Map<PathView, Option<PathView>>,
        placed: GitWorkerView,
        dropped: Seq<PathView>,
    },
    /// What is published is carried over to them.
    Settle {
        previous: Map<PathView, ResolvedGitWorktreeView>,
        walk: Seq<(PathView, ResolvedGitWorktreeView)>,
        now: u64,
    },
    /// Nothing can be carried over to them, for what is published is out of reach.
    Wake { previous: Map<PathView, ResolvedGitWorktreeView>, now: u64 },
    /// Worktrees are recovered and polled, if it is time.
    Maintain { now: u64, watches_files: bool },
    /// A worktree is audited, if it is time.
    Audit { now: u64, watches_files: bool },
    /// A worktree is taken to be looked at, and is not.
    Pass { worktree: PathView, now: u64 },
    /// A worktree is looked at, and its state published unless that is out of reach.
    Look { worktree: PathView, look: Look, status: Option<GitStatusView> },
}

impl GitRun {
    /// A run as it begins.
    pub open spec fn fresh(now: u64, has_watcher: bool) -> GitRun {
        GitRun {
            worker: GitWorkerView::fresh(now, has_watcher),
            published: Map::empty(),
            agents: Seq::empty(),
            settled: true,
            looks: Map::empty(),
            told: false,
        }
    }

    /// The run with another worker, of which nothing new is said.
    pub open spec fn with(self, worker: GitWorkerView) -> GitRun {
        GitRun { worker, told: false, ..self }
    }

    /// The looks at a worktree since it was last forgotten.
    pub open spec fn looks_at(self, worktree: PathView) -> Seq<Look> {
        if self.looks.contains_key(worktree) {
            self.looks[worktree]
        } else {
            Seq::empty()
        }
    }

    /// Whether a move leads to another place of the run.
    pub open spec fn moves(self, step: GitMove, after: GitRun) -> bool {
        let worker = self.worker;
        match step {
            GitMove::Note { path, now } => worker.can_note(path) && after == self.with(
                worker.noted(path, now),
            ),
            GitMove::Rules { rules } => after == self.with(GitWorkerView { rules, ..worker }),
            GitMove::Watch { watches } => after == self.with(GitWorkerView { watches, ..worker }),
            GitMove::Fail => after == self.with(
                GitWorkerView { watcher_degraded: true, recovery_due: true, ..worker },
            ),
            GitMove::Lose => after == self.with(GitWorkerView { recovery_due: true, ..worker }),
            GitMove::Retry { now } => after == self.with(worker.retried(now)),
            GitMove::Take { entries, found, placed, dropped } => {
                &&& worker.moved_to(placed, entries, found)
                &&& forall|worktree: PathView| #[trigger]
                    dropped.contains(worktree) == placed.is_left(worktree)
                &&& after == (GitRun {
                    agents: entries,
                    settled: false,
                    looks: self.looks.remove_keys(dropped.to_set()),
                    ..self.with(placed.dropped_all(dropped))
                })
            },
            GitMove::Settle { previous, walk, now } => {
                let known = super::git_refresh::reconcile_all(
                    previous,
                    super::git_refresh::agents_of(worker.resolved),
                    self.published,
                    walk,
                );
                &&& crate::tables::distinct_keys(walk)
                &&& crate::tables::pairs_map(walk) == worker.resolved
                &&& after == (GitRun {
                    published: known.cache,
                    settled: true,
                    told: known.changed,
                    ..self.with(worker.settled(previous, known.missing, now))
                })
            },
            GitMove::Wake { previous, now } => after == self.with(worker.woken(previous, now)),
            GitMove::Maintain { now, watches_files } => after == self.with(
                worker.recovered(now).polled(now, watches_files),
            ),
            GitMove::Audit { now, watches_files } => after == self.with(
                worker.audited(now, watches_files),
            ),
            GitMove::Pass { worktree, now } => {
                &&& worker.too_soon(worktree, now) || !worker.resolved.contains_key(worktree)
                &&& after == self.with(worker.taken(worktree, now))
            },
            GitMove::Look { worktree, look, status } => {
                let agents = worker.resolved[worktree].agent_paths;
                &&& !worker.too_soon(worktree, look.begun)
                &&& worker.resolved.contains_key(worktree)
                &&& look.begun <= look.ended
                &&& status is Some ==> self.settled
                &&& after == (GitRun {
                    published: match status {
                        Some(status) => super::git_refresh::renewed_statuses(
                            self.published,
                            agents,
                            status,
                        ),
                        None => self.published,
                    },
                    looks: self.looks.insert(worktree, self.looks_at(worktree).push(look)),
                    told: match status {
                        Some(status) => exists|i: int|
                            0 <= i < agents.len() && super::git_refresh::is_outdated(
                                self.published,
                                #[trigger] agents[i],
                                status,
                            ),
                        None => true,
                    },
                    ..self.with(worker.taken(worktree, look.begun).looked_at(worktree, look.ended))
                })
            },
        }
    }
}

/// Whether these are the places of a run, from its beginning on, with the moves between them.
pub open spec fn is_git_run(
    places: Seq<GitRun>,
    steps: Seq<GitMove>,
    now: u64,
    has_watcher: bool,
) -> bool {
    &&& places.len() == steps.len() + 1
    &&& places[0] == GitRun::fresh(now, has_watcher)
    &&& forall|i: int| 0 <= i < steps.len() ==> places[i].moves(#[trigger] steps[i], places[i + 1])
}

/// Whether looks are as far apart as they have to be.
pub open spec fn spaced(looks: Seq<Look>) -> bool {
    forall|i: int, j: int|
        0 <= i < j < looks.len() ==> (#[trigger] looks[i]).ended + MIN_REFRESH_INTERVAL <= (
        #[trigger] looks[j]).begun
}

/// Whether two publications look the same to the sidebar.
pub open spec fn shows_the_same(
    before: Map<PathView, GitStatusView>,
    after: Map<PathView, GitStatusView>,
) -> bool {
    &&& before.dom() == after.dom()
    &&& forall|path: PathView| #[trigger]
        after.contains_key(path) ==> after[path].lasting() == before[path].lasting()
}

/// What holds of the looks at a worktree.
spec fn looks_stand(run: GitRun, worktree: PathView) -> bool {
    let looks = run.looks[worktree];
    &&& looks.len() > 0
    &&& run.worker.last_refreshed.contains_pair(worktree, looks.last().ended)
    &&& spaced(looks)
    &&& forall|i: int|
        0 <= i < looks.len() ==> (#[trigger] looks[i]).begun <= looks[i].ended
}

spec fn run_stands(run: GitRun) -> bool {
    &&& run.settled ==> run.published.dom() <= super::git_refresh::agents_of(run.worker.resolved)
    &&& super::git_refresh::agents_of(run.worker.resolved) <= super::git_cache::entry_paths(
        run.agents,
    )
    &&& forall|worktree: PathView| #[trigger]
        run.looks.contains_key(worktree) ==> looks_stand(run, worktree)
}

proof fn lemma_drops_forget(
    worker: GitWorkerView,
    dropped: Seq<PathView>,
    worktree: PathView,
)
    requires
        !dropped.contains(worktree),
    ensures
        worker.dropped_all(dropped).last_refreshed.contains_key(worktree)
            == worker.last_refreshed.contains_key(worktree),
        worker.dropped_all(dropped).last_refreshed[worktree] == worker.last_refreshed[worktree],
    decreases dropped.len(),
{
    if dropped.len() > 0 {
        let shorter = dropped.drop_last();
        assert(dropped[dropped.len() - 1] != worktree);
        assert forall|i: int| 0 <= i < shorter.len() implies shorter[i] != worktree by {
            assert(dropped[i] != worktree);
        }
        lemma_drops_forget(worker, shorter, worktree);
    }
}

proof fn lemma_take_stands(before: GitRun, step: GitMove, after: GitRun)
    requires
        run_stands(before),
        step is Take,
        before.moves(step, after),
    ensures
        run_stands(after),
{
    if let GitMove::Take { entries, found, placed, dropped } = step {
        super::git_worker::lemma_drops_keep_places(placed, dropped);
        let agents = super::git_refresh::agents_of(after.worker.resolved);
        assert forall|path: PathView| #[trigger] agents.contains(path) implies
            super::git_cache::entry_paths(entries).contains(path) by {
            let root = choose|root: PathView| #[trigger]
                after.worker.resolved.contains_key(root)
                    && after.worker.resolved[root].agent_paths.contains(path);
            assert(super::git_cache::works_in(
                entries,
                placed.roots_by_agent,
                root,
                path,
            ));
        }
        assert forall|worktree: PathView| #[trigger] after.looks.contains_key(worktree) implies
            looks_stand(after, worktree) by {
            assert(before.looks.contains_key(worktree));
            assert(!dropped.to_set().contains(worktree));
            lemma_drops_forget(placed, dropped, worktree);
        }
    }
}

proof fn lemma_settle_stands(before: GitRun, step: GitMove, after: GitRun)
    requires
        run_stands(before),
        step is Settle,
        before.moves(step, after),
    ensures
        run_stands(after),
{
    if let GitMove::Settle { previous, walk, now } = step {
        let active = super::git_refresh::agents_of(before.worker.resolved);
        assert forall|i: int, path: PathView|
            0 <= i < walk.len() && (#[trigger] walk[i]).1.agent_paths.contains(path) implies
            #[trigger] active.contains(path) by {
            crate::tables::lemma_pair_found(walk, i);
            assert(before.worker.resolved.contains_key(walk[i].0));
        }
        super::git_refresh::only_active_agents_are_kept(previous, active, before.published, walk);
        assert forall|worktree: PathView| #[trigger] after.looks.contains_key(worktree) implies
            looks_stand(after, worktree) by {
            assert(before.looks.contains_key(worktree));
        }
    }
}

proof fn lemma_look_stands(before: GitRun, step: GitMove, after: GitRun)
    requires
        run_stands(before),
        step is Look,
        before.moves(step, after),
    ensures
        run_stands(after),
{
    if let GitMove::Look { worktree, look, status } = step {
        let agents = before.worker.resolved[worktree].agent_paths;
        let active = super::git_refresh::agents_of(before.worker.resolved);
        assert forall|path: PathView| agents.contains(path) implies #[trigger] active.contains(
            path,
        ) by {
            assert(before.worker.resolved.contains_key(worktree));
        }
        assert forall|other: PathView| #[trigger] after.looks.contains_key(other) implies
            looks_stand(after, other) by {
            if other != worktree {
                assert(before.looks.contains_key(other));
            } else {
                let earlier = before.looks_at(worktree);
                let looks = after.looks[worktree];
                assert(looks == earlier.push(look));
                if before.looks.contains_key(worktree) {
                    assert(looks_stand(before, worktree));
                    let n = earlier.len() - 1;
                    assert(earlier[n].ended + MIN_REFRESH_INTERVAL <= look.begun);
                    assert forall|i: int, j: int| 0 <= i < j < looks.len() implies (
                    #[trigger] looks[i]).ended + MIN_REFRESH_INTERVAL <= (#[trigger] looks[j]).begun
                        by {
                        assert(looks[i] == earlier[i]);
                        if j < earlier.len() {
                            assert(looks[j] == earlier[j]);
                        } else if i < n {
                            assert(earlier[i].ended + MIN_REFRESH_INTERVAL <= earlier[n].begun);
                        }
                    }
                    assert forall|i: int| 0 <= i < looks.len() implies (#[trigger] looks[i]).begun
                        <= looks[i].ended by {
                        if i < earlier.len() {
                            assert(looks[i] == earlier[i]);
                        }
                    }
                }
            }
        }
    }
}

proof fn lemma_move_stands(before: GitRun, step: GitMove, after: GitRun)
    requires
        run_stands(before),
        before.moves(step, after),
    ensures
        run_stands(after),
{
    if step is Take {
        lemma_take_stands(before, step, after);
    } else if step is Settle {
        lemma_settle_stands(before, step, after);
    } else if step is Look {
        lemma_look_stands(before, step, after);
    } else {
        assert(after.worker.resolved == before.worker.resolved);
        assert(after.worker.last_refreshed == before.worker.last_refreshed);
        assert forall|worktree: PathView| #[trigger] after.looks.contains_key(worktree) implies
            looks_stand(after, worktree) by {
            assert(before.looks.contains_key(worktree));
        }
    }
}

proof fn lemma_run_stands(
    places: Seq<GitRun>,
    steps: Seq<GitMove>,
    now: u64,
    has_watcher: bool,
    n: int,
)
    requires
        is_git_run(places, steps, now, has_watcher),
        0 <= n < places.len(),
    ensures
        run_stands(places[n]),
    decreases n,
{
    if n > 0 {
        lemma_run_stands(places, steps, now, has_watcher, n - 1);
        assert(places[n - 1].moves(steps[n - 1], places[n - 1 + 1]));
        lemma_move_stands(places[n - 1], steps[n - 1], places[n]);
    }
}

/// Wherever a run has come to, what is published belongs to agents that were taken up last and
/// whose worktree was found, but for the moment between taking up other agents and carrying over
/// to them what is published.
pub proof fn published_states_belong_to_agents(
    places: Seq<GitRun>,
    steps: Seq<GitMove>,
    now: u64,
    has_watcher: bool,
    n: int,
    path: PathView,
)
    requires
        is_git_run(places, steps, now, has_watcher),
        0 <= n < places.len(),
        places[n].settled,
        places[n].published.contains_key(path),
    ensures
        super::git_refresh::agents_of(places[n].worker.resolved).contains(path),
        super::git_cache::entry_paths(places[n].agents).contains(path),
{
    lemma_run_stands(places, steps, now, has_watcher, n);
}

/// Wherever a run has come to, a worktree was looked at again only when the time between two looks
/// had passed since the last look ended, for as long as it is not forgotten.
pub proof fn looks_are_spaced(
    places: Seq<GitRun>,
    steps: Seq<GitMove>,
    now: u64,
    has_watcher: bool,
    n: int,
    worktree: PathView,
)
    requires
        is_git_run(places, steps, now, has_watcher),
        0 <= n < places.len(),
    ensures
        spaced(places[n].looks_at(worktree)),
{
    lemma_run_stands(places, steps, now, has_watcher, n);
    if places[n].looks.contains_key(worktree) {
        assert(looks_stand(places[n], worktree));
    }
}

/// Whatever the worker does, the sidebar is told where what is published looks different to it.
pub proof fn nothing_new_goes_untold(before: GitRun, step: GitMove, after: GitRun)
    requires
        before.moves(step, after),
        !shows_the_same(before.published, after.published),
    ensures
        after.told,
{
    if !after.told {
        match step {
            GitMove::Settle { previous, walk, now } => {
                super::git_refresh::unchanged_means_the_same(
                    previous,
                    super::git_refresh::agents_of(before.worker.resolved),
                    before.published,
                    walk,
                );
            },
            GitMove::Look { worktree, look, status } => {
                let agents = before.worker.resolved[worktree].agent_paths;
                let status = status->0;
                assert forall|path: PathView| agents.contains(path) implies !(
                #[trigger] super::git_refresh::is_outdated(before.published, path, status)) by {
                    let i = choose|i: int| 0 <= i < agents.len() && agents[i] == path;
                    assert(!super::git_refresh::is_outdated(before.published, agents[i], status));
                }
                assert(after.published.dom() =~= before.published.dom());
            },
            _ => {
                assert(after.published == before.published);
            },
        }
        assert(shows_the_same(before.published, after.published));
    }
}

} // verus!
