//! The worker that keeps the Git states of agents up to date.
//!
//! The worker decides; its host watches directories, reads files and runs Git, and reports what
//! came of it. Times are in nanoseconds.
use vstd::prelude::*;

use super::clock::{earlier, elapsed, later, MILLISECOND, SECOND};
use super::events::{git_event_requires_recovery, FsEvent};
use super::git_cache::{
    resolve_git_worktrees_cached, unresolved_paths, GitWorkerPath, GitWorkerPathView,
    ResolvedGitWorktree, ResolvedGitWorktreeView,
};
use super::git_dirs::{worktree_watch_specs, GitLayout, WorktreeWatchSpec};
use super::git_refresh::{reconcile_git_cache, refresh_git_status};
use super::ignores::{RuleBook, RuleBookView};
use super::schedule::{mark, mark_all, next_worker_timeout, recovery_ready, reset_all};
use super::state::{GitStatus, GitStatusView};
use super::watches::{WatchBook, WatchBookView};
use crate::bytes::spell_text;
use crate::order::sorted;
use crate::order::sorted_unique;
use crate::paths::{copy_paths, FilePath, PathView};
use crate::tables::{KeySet, Table};
use crate::values::Value;

verus! {

/// How long a worktree waits behind an event for more of them.
pub const DEBOUNCE: u64 = 300_000_000;

/// How far apart two looks at a worktree are at least.
pub const MIN_REFRESH_INTERVAL: u64 = 2_000_000_000;

/// How far apart two recoveries are at least.
pub const RECOVERY_COOLDOWN: u64 = 30_000_000_000;

/// How far apart two audits are at least.
pub const AUDIT_INTERVAL: u64 = 5_000_000_000;

/// How far apart two attempts are to find worktrees that were not found.
pub const NEGATIVE_RETRY_INTERVAL: u64 = 30_000_000_000;

/// How far apart two polls are where events cannot be relied on.
pub const DEGRADED_POLL_INTERVAL: u64 = 2_000_000_000;

/// How far apart two polls are otherwise.
pub const POLL_INTERVAL: u64 = 5_000_000_000;

/// The worker.
pub struct GitWorker {
    active_entries: Vec<GitWorkerPath>,
    roots_by_agent: Table<FilePath, Option<FilePath>>,
    resolved: Table<FilePath, ResolvedGitWorktree>,
    watches: WatchBook,
    rules: RuleBook,
    pending: Table<FilePath, u64>,
    last_refreshed: Table<FilePath, u64>,
    unique_active: Vec<FilePath>,
    audit_cursor: usize,
    last_maintenance: u64,
    last_audit: u64,
    last_recovery: u64,
    last_negative_retry: u64,
    recovery_due: bool,
    has_watcher: bool,
    watcher_degraded: bool,
}

/// The worker.
#[verifier::ext_equal]
pub struct GitWorkerView {
    /// The agents, in order.
    pub active_entries: Seq<GitWorkerPathView>,
    /// The worktree that each agent works in, if it works in one.
    pub roots_by_agent: Map<PathView, Option<PathView>>,
    /// The worktrees in which agents work.
    pub resolved: Map<PathView, ResolvedGitWorktreeView>,
    pub watches: WatchBookView,
    pub rules: RuleBookView,
    /// The worktrees that wait to be looked at, and since when.
    pub pending: Map<PathView, u64>,
    /// When worktrees were last looked at.
    pub last_refreshed: Map<PathView, u64>,
    /// The worktrees in which agents work, in order.
    pub unique_active: Seq<PathView>,
    pub audit_cursor: usize,
    pub last_maintenance: u64,
    pub last_audit: u64,
    pub last_recovery: u64,
    pub last_negative_retry: u64,
    /// Whether everything must be looked at again.
    pub recovery_due: bool,
    pub has_watcher: bool,
    /// Whether the watcher has failed, so that it cannot be relied on.
    pub watcher_degraded: bool,
}

impl DeepView for GitWorker {
    type V = GitWorkerView;

    closed spec fn deep_view(&self) -> GitWorkerView {
        GitWorkerView {
            active_entries: self.active_entries.deep_view(),
            roots_by_agent: self.roots_by_agent.deep_view(),
            resolved: self.resolved.deep_view(),
            watches: self.watches.deep_view(),
            rules: self.rules.deep_view(),
            pending: self.pending.deep_view(),
            last_refreshed: self.last_refreshed.deep_view(),
            unique_active: self.unique_active.deep_view(),
            audit_cursor: self.audit_cursor,
            last_maintenance: self.last_maintenance,
            last_audit: self.last_audit,
            last_recovery: self.last_recovery,
            last_negative_retry: self.last_negative_retry,
            recovery_due: self.recovery_due,
            has_watcher: self.has_watcher,
            watcher_degraded: self.watcher_degraded,
        }
    }
}

/// The worktrees to which an event at a path matters.
pub open spec fn concerned(
    watches: WatchBookView,
    rules: RuleBookView,
    path: Seq<u8>,
) -> Set<PathView> {
    Set::new(
        |worktree: PathView|
            super::watches::affected(
                crate::paths::path_of(path),
                watches.by_path,
                worktree,
            ) && !rules.ignores(
                path,
                worktree,
            ),
    )
}

/// The worktrees in which agents began to work again or to be looked at.
pub open spec fn awakened(
    previous: Map<PathView, ResolvedGitWorktreeView>,
    current: Map<PathView, ResolvedGitWorktreeView>,
) -> Set<PathView> {
    Set::new(
        |root: PathView|
            previous.contains_key(root) && current.contains_key(root) && ((previous[root].is_stale
                && !current[root].is_stale) || (!previous[root].is_focused
                && current[root].is_focused)),
    )
}

impl GitWorkerView {
    /// A worker as it begins.
    pub open spec fn fresh(now: u64, has_watcher: bool) -> GitWorkerView {
        GitWorkerView {
            active_entries: Seq::empty(),
            roots_by_agent: Map::empty(),
            resolved: Map::empty(),
            watches: WatchBookView::nothing(),
            rules: RuleBookView::nothing(),
            pending: Map::empty(),
            last_refreshed: Map::empty(),
            unique_active: Seq::empty(),
            audit_cursor: 0,
            last_maintenance: now,
            last_audit: now,
            last_recovery: super::clock::before(now, RECOVERY_COOLDOWN),
            last_negative_retry: now,
            recovery_due: false,
            has_watcher,
            watcher_degraded: !has_watcher,
        }
    }

    /// Whether an event at a path can be noted: the rules of each worktree that it touches can be
    /// held against the path where they decide on it.
    pub open spec fn can_note(self, path: Seq<u8>) -> bool {
        forall|worktree: PathView| #[trigger]
            super::watches::affected(
                crate::paths::path_of(path),
                self.watches.by_path,
                worktree,
            ) ==> self.rules.can_judge(path, worktree)
    }

    /// Behind an event at a path.
    pub open spec fn noted(self, path: Seq<u8>, now: u64) -> GitWorkerView {
        GitWorkerView {
            pending: super::schedule::marked(
                self.pending,
                concerned(self.watches, self.rules, path),
                now,
            ),
            ..self
        }
    }

    /// Whether the time has come to find worktrees again that were not found.
    pub open spec fn retries(self, now: u64) -> bool {
        super::clock::passed(now, self.last_negative_retry) >= NEGATIVE_RETRY_INTERVAL
    }

    /// The agents whose worktree is known.
    pub open spec fn housed(self) -> Set<PathView> {
        Set::new(
            |path: PathView|
                self.roots_by_agent.contains_key(path) && self.roots_by_agent[path] is Some,
        )
    }

    /// Whether some agent's worktree was not found.
    pub open spec fn some_homeless(self) -> bool {
        exists|path: PathView| #[trigger]
            self.roots_by_agent.contains_key(path) && self.roots_by_agent[path] is None
    }

    /// With what was not found forgotten, if the time has come.
    pub open spec fn retried(self, now: u64) -> GitWorkerView {
        if !self.retries(now) {
            self
        } else if self.some_homeless() {
            GitWorkerView {
                last_negative_retry: now,
                roots_by_agent: self.roots_by_agent.restrict(self.housed()),
                active_entries: Seq::empty(),
                ..self
            }
        } else {
            GitWorkerView { last_negative_retry: now, ..self }
        }
    }

    /// Without anything about a worktree in which no agent works any more.
    pub open spec fn dropped(self, worktree: PathView) -> GitWorkerView {
        GitWorkerView {
            watches: self.watches.detached(worktree).forgotten(worktree),
            rules: self.rules.without(worktree),
            pending: self.pending.remove(worktree),
            last_refreshed: self.last_refreshed.remove(worktree),
            ..self
        }
    }

    /// Without anything about some worktrees, one after the other.
    pub open spec fn dropped_all(self, worktrees: Seq<PathView>) -> GitWorkerView
        decreases worktrees.len(),
    {
        if worktrees.len() == 0 {
            self
        } else {
            self.dropped_all(worktrees.drop_last()).dropped(worktrees.last())
        }
    }

    /// The directories that are then not watched any more, in order.
    pub open spec fn released_all(self, worktrees: Seq<PathView>) -> Seq<PathView>
        decreases worktrees.len(),
    {
        if worktrees.len() == 0 {
            Seq::empty()
        } else {
            let before = self.dropped_all(worktrees.drop_last()).watches;
            self.released_all(worktrees.drop_last()) + super::watches::released(
                before.by_path,
                before.paths_of(worktrees.last()),
                worktrees.last(),
            )
        }
    }

    /// Whether a worktree is watched although no agent works in it.
    pub open spec fn is_left(self, worktree: PathView) -> bool {
        self.has_watcher && self.watches.by_worktree.contains_key(worktree)
            && !self.unique_active.contains(worktree)
    }

    /// The worktrees with agents for which nothing is watched, in order.
    pub open spec fn unwatched(self) -> Seq<PathView> {
        if self.has_watcher {
            self.unique_active.filter(
                |path: PathView| !self.watches.by_worktree.contains_key(path),
            )
        } else {
            Seq::empty()
        }
    }

    /// Whether these are the agents whose worktree is not known.
    pub open spec fn lacks(self, entries: Seq<GitWorkerPathView>, paths: Set<PathView>) -> bool {
        forall|path: PathView| #[trigger]
            paths.contains(path) == (super::git_cache::entry_paths(entries).contains(path)
                && !self.roots_by_agent.contains_key(path))
    }

    /// Whether a worker is this one with other agents, of which the host found these worktrees.
    pub open spec fn moved_to(
        self,
        after: GitWorkerView,
        entries: Seq<GitWorkerPathView>,
        found: Map<PathView, Option<PathView>>,
    ) -> bool {
        &&& after == (GitWorkerView {
            active_entries: entries,
            roots_by_agent: super::git_cache::known_roots(entries, self.roots_by_agent, found),
            resolved: after.resolved,
            unique_active: after.unique_active,
            ..self
        })
        &&& super::git_cache::describes_all(
            after.resolved,
            after.active_entries,
            after.roots_by_agent,
        )
        &&& forall|root: PathView| #[trigger]
            after.resolved.contains_key(root) ==> crate::order::ascending::<FilePath>(
                after.resolved[root].agent_paths,
            )
        &&& crate::order::ascending::<FilePath>(after.unique_active)
        &&& after.unique_active.no_duplicates()
        &&& after.unique_active.to_set() == after.resolved.dom()
    }

    /// This worker with the agents and worktrees of another.
    pub open spec fn placed_as(self, after: GitWorkerView) -> GitWorkerView {
        GitWorkerView {
            active_entries: after.active_entries,
            roots_by_agent: after.roots_by_agent,
            resolved: after.resolved,
            unique_active: after.unique_active,
            ..self
        }
    }

    /// With everything looked at again, if that is due and the last time is long enough past.
    pub open spec fn recovered(self, now: u64) -> GitWorkerView {
        if self.recovery_due && super::clock::passed(now, self.last_recovery)
            >= RECOVERY_COOLDOWN {
            GitWorkerView {
                recovery_due: false,
                last_recovery: now,
                pending: super::schedule::marked(
                    self.pending,
                    self.unique_active.to_set(),
                    super::clock::before(now, DEBOUNCE),
                ),
                ..self
            }
        } else {
            self
        }
    }

    /// How far apart two polls are.
    pub open spec fn poll_interval(self) -> u64 {
        if self.watcher_degraded || !self.has_watcher {
            DEGRADED_POLL_INTERVAL
        } else {
            POLL_INTERVAL
        }
    }

    /// Whether all worktrees are polled, and not only those that are not watched completely.
    pub open spec fn polls_all(self, watches_files: bool) -> bool {
        !self.has_watcher || !watches_files || self.watcher_degraded
    }

    /// Whether it is time to poll.
    pub open spec fn polls(self, now: u64) -> bool {
        super::clock::passed(now, self.last_maintenance) >= self.poll_interval()
    }

    /// The worktrees that are not watched completely, in order.
    pub open spec fn incomplete(self) -> Seq<PathView> {
        self.unique_active.filter(|path: PathView| !self.watches.is_complete(path))
    }

    /// The worktrees whose watches are to be begun anew, if it is time to poll.
    pub open spec fn rewatched(self, now: u64, watches_files: bool) -> Seq<PathView> {
        if self.polls(now) && !self.polls_all(watches_files) {
            self.incomplete()
        } else {
            Seq::empty()
        }
    }

    /// With worktrees polled, if it is time.
    pub open spec fn polled(self, now: u64, watches_files: bool) -> GitWorkerView {
        if self.polls(now) {
            let which = if self.polls_all(watches_files) {
                self.unique_active
            } else {
                self.incomplete()
            };
            GitWorkerView {
                last_maintenance: now,
                pending: super::schedule::marked(
                    self.pending,
                    which.to_set(),
                    super::clock::before(now, DEBOUNCE),
                ),
                ..self
            }
        } else {
            self
        }
    }

    /// Whether it is time to audit a worktree.
    pub open spec fn audits_now(self, now: u64, watches_files: bool) -> bool {
        !self.polls_all(watches_files) && super::clock::passed(now, self.last_audit)
            >= AUDIT_INTERVAL && self.unique_active.len() > 0
    }

    /// With the next worktree audited, if it is time.
    pub open spec fn audited(self, now: u64, watches_files: bool) -> GitWorkerView {
        if self.audits_now(now, watches_files) {
            let complete = super::schedule::completeness(
                self.unique_active,
                self.watches.complete,
            );
            let count = self.unique_active.len() as int;
            let which = match super::schedule::next_place(
                complete,
                self.audit_cursor as int % count,
                0,
            ) {
                Some(at) => set![self.unique_active[at]],
                None => Set::empty(),
            };
            GitWorkerView {
                last_audit: now,
                audit_cursor: super::schedule::next_cursor(
                    complete,
                    self.audit_cursor as int,
                ) as usize,
                pending: super::schedule::marked(
                    self.pending,
                    which,
                    super::clock::before(now, DEBOUNCE),
                ),
                ..self
            }
        } else {
            self
        }
    }

    /// Whether a worktree has waited long enough to be looked at.
    pub open spec fn is_ready(self, worktree: PathView, now: u64) -> bool {
        self.pending.contains_key(worktree) && super::clock::passed(now, self.pending[worktree])
            >= DEBOUNCE
    }

    /// Whether a worktree was looked at too short a time ago.
    pub open spec fn too_soon(self, worktree: PathView, now: u64) -> bool {
        self.last_refreshed.contains_key(worktree) && super::clock::passed(
            now,
            self.last_refreshed[worktree],
        ) < MIN_REFRESH_INTERVAL
    }

    /// With a worktree taken to be looked at, or put off if it was looked at too short a time ago.
    pub open spec fn taken(self, worktree: PathView, now: u64) -> GitWorkerView {
        if self.too_soon(worktree, now) {
            GitWorkerView {
                pending: self.pending.insert(
                    worktree,
                    super::clock::before(
                        super::clock::after(self.last_refreshed[worktree], MIN_REFRESH_INTERVAL),
                        DEBOUNCE,
                    ),
                ),
                ..self
            }
        } else {
            GitWorkerView { pending: self.pending.remove(worktree), ..self }
        }
    }

    /// Behind a look at a worktree.
    pub open spec fn looked_at(self, worktree: PathView, now: u64) -> GitWorkerView {
        GitWorkerView { last_refreshed: self.last_refreshed.insert(worktree, now), ..self }
    }

    /// With the worktrees looked at in which work began again.
    pub open spec fn woken(
        self,
        previous: Map<PathView, ResolvedGitWorktreeView>,
        now: u64,
    ) -> GitWorkerView {
        GitWorkerView {
            pending: super::schedule::reset(
                self.pending,
                awakened(previous, self.resolved),
                super::clock::before(now, DEBOUNCE),
            ),
            ..self
        }
    }

    /// With the worktrees looked at of which nothing is known, and those in which work began again.
    pub open spec fn settled(
        self,
        previous: Map<PathView, ResolvedGitWorktreeView>,
        missing: Seq<PathView>,
        now: u64,
    ) -> GitWorkerView {
        GitWorkerView {
            pending: super::schedule::reset(
                self.pending,
                missing.to_set(),
                super::clock::before(now, DEBOUNCE),
            ),
            ..self
        }.woken(previous, now)
    }
}

/// What follows from other agents.
pub struct Accepted {
    /// The worktrees as they were before.
    pub previous: Table<FilePath, ResolvedGitWorktree>,
    /// The worktrees that are forgotten.
    pub dropped: Vec<FilePath>,
    /// The directories that are not watched any more.
    pub unwatch: Vec<FilePath>,
    /// The worktrees whose watches are to be set up, in order.
    pub watch: Vec<FilePath>,
}

/// How the paths are spelled that a worker holds: each as it was when it was handed to the worker.
#[verifier::ext_equal]
pub struct GitSpellings {
    pub worktrees: Set<Seq<u8>>,
    pub agents: Set<Seq<u8>>,
    /// Directories that are watched.
    pub dirs: Set<Seq<u8>>,
}

impl GitSpellings {
    /// Without any path.
    pub open spec fn nothing() -> GitSpellings {
        GitSpellings { worktrees: Set::empty(), agents: Set::empty(), dirs: Set::empty() }
    }

    /// Whether there is no other spelling than among these.
    pub open spec fn within(self, other: GitSpellings) -> bool {
        &&& self.worktrees <= other.worktrees
        &&& self.agents <= other.agents
        &&& self.dirs <= other.dirs
    }

    /// With more spellings of worktrees.
    pub open spec fn with_worktrees(self, names: Set<Seq<u8>>) -> GitSpellings {
        GitSpellings { worktrees: self.worktrees.union(names), ..self }
    }

    /// With more spellings of agents.
    pub open spec fn with_agents(self, names: Set<Seq<u8>>) -> GitSpellings {
        GitSpellings { agents: self.agents.union(names), ..self }
    }

    /// With more spellings of directories that are watched.
    pub open spec fn with_dirs(self, names: Set<Seq<u8>>) -> GitSpellings {
        GitSpellings { dirs: self.dirs.union(names), ..self }
    }
}

impl GitWorker {
    /// How the paths are spelled that the worker holds.
    pub closed spec fn spellings(&self) -> GitSpellings {
        GitSpellings {
            worktrees: super::git_cache::root_spellings(self.roots_by_agent.values()).union(
                crate::paths::spellings(self.resolved.keys()),
            ).union(crate::paths::spellings(self.pending.keys())).union(
                crate::paths::spellings_of(self.unique_active@),
            ).union(self.watches.worktree_spellings()),
            agents: super::git_cache::entry_spellings(self.active_entries@).union(
                super::git_cache::agent_spellings(self.resolved.values()),
            ),
            dirs: self.watches.dir_spellings(),
        }
    }

    /// A worker that begins now.
    pub fn new(now: u64, has_watcher: bool) -> (worker: Self)
        ensures
            worker.spellings() == GitSpellings::nothing(),
            worker.deep_view() == GitWorkerView::fresh(now, has_watcher),
    {
        let worker = GitWorker {
            active_entries: Vec::new(),
            roots_by_agent: Table::new(),
            resolved: Table::new(),
            watches: WatchBook::new(),
            rules: RuleBook::new(),
            pending: Table::new(),
            last_refreshed: Table::new(),
            unique_active: Vec::new(),
            audit_cursor: 0,
            last_maintenance: now,
            last_audit: now,
            last_recovery: earlier(now, RECOVERY_COOLDOWN),
            last_negative_retry: now,
            recovery_due: false,
            has_watcher,
            watcher_degraded: !has_watcher,
        };
        assert(worker.deep_view() =~= GitWorkerView::fresh(now, has_watcher));
        assert(worker.spellings() =~= GitSpellings::nothing());
        worker
    }

    /// The worktrees in which agents work, in the order in which they are walked.
    pub closed spec fn walk(&self) -> Seq<(PathView, ResolvedGitWorktreeView)> {
        self.resolved.pairs()
    }

    /// How long the host may wait for events.
    pub fn timeout(&self, now: u64) -> (time: u64)
        ensures
            super::schedule::ends_in_time(self.deep_view().pending, DEBOUNCE, now, time),
    {
        next_worker_timeout(&self.pending, DEBOUNCE, now)
    }

    /// The worktrees whose ignore rules an event at a path changes. The host reads these rules
    /// anew before it notes the path.
    pub fn rules_to_reload(&self, path: &FilePath) -> (worktrees: Vec<FilePath>)
        ensures
            crate::paths::spellings_of(worktrees@) <= self.spellings().worktrees,
            if path.deep_view().file_name() == Some(crate::bytes::utf8(".gitignore"@)) {
                super::watches::names_affected(
                    worktrees.deep_view(),
                    path.deep_view(),
                    self.deep_view().watches.by_path,
                )
            } else {
                worktrees@.len() == 0
            },
    {
        let is_rules = match path.file_name() {
            Some(name) => spell_text(name, ".gitignore"),
            None => false,
        };
        if is_rules {
            self.watches.worktrees_for(path)
        } else {
            let none: Vec<FilePath> = Vec::new();
            assert(none.deep_view() =~= Seq::<PathView>::empty());
            none
        }
    }

    /// Takes the ignore rules of a worktree.
    pub fn set_rules(
        &mut self,
        worktree: &FilePath,
        content: Option<&Vec<u8>>,
        listing: Option<&Vec<u8>>,
    )
        ensures
            final(self).spellings() == old(self).spellings(),
            final(self).deep_view() == (GitWorkerView {
                rules: old(self).deep_view().rules.with(
                    worktree.spelled(),
                    match content {
                        Some(bytes) => Some(bytes@),
                        None => None,
                    },
                    match listing {
                        Some(bytes) => Some(bytes@),
                        None => None,
                    },
                ),
                ..old(self).deep_view()
            }),
    {
        self.rules.set(worktree, content, listing);
    }

    /// Notes an event at a path, if it can be noted, and says whether it could.
    pub fn try_note_path(&mut self, path: &FilePath, now: u64) -> (noted: bool)
        ensures
            final(self).spellings().within(old(self).spellings()),
            noted == old(self).deep_view().can_note(path.spelled()),
            final(self).deep_view() == (if noted {
                old(self).deep_view().noted(path.spelled(), now)
            } else {
                old(self).deep_view()
            }),
    {
        proof {
            crate::paths::spelling_spells_path(path);
        }
        let ghost view = path.spelled();
        let worktrees = self.watches.worktrees_for(path);
        let ghost list = worktrees.deep_view();
        for i in 0..worktrees.len()
            invariant
                list == worktrees.deep_view(),
                view == path.spelled(),
                path.deep_view() == crate::paths::path_of(view),
                self.deep_view() == old(self).deep_view(),
                forall|worktree: PathView| #[trigger]
                    list.contains(worktree) == super::watches::affected(
                        path.deep_view(),
                        self.deep_view().watches.by_path,
                        worktree,
                    ),
                forall|j: int| 0 <= j < i ==> self.deep_view().rules.can_judge(
                    view,
                    #[trigger] list[j],
                ),
        {
            if self.rules.ignores(path, &worktrees[i]).is_none() {
                assert(list.contains(list[i as int]));
                assert(!self.deep_view().rules.can_judge(view, list[i as int]));
                return false;
            }
        }
        assert forall|worktree: PathView| #[trigger]
            super::watches::affected(
                crate::paths::path_of(view),
                self.deep_view().watches.by_path,
                worktree,
            ) implies self.deep_view().rules.can_judge(view, worktree) by {
            assert(list.contains(worktree));
            let j = choose|j: int| 0 <= j < list.len() && list[j] == worktree;
            assert(self.deep_view().rules.can_judge(view, list[j]));
        }
        self.note_path(path, now);
        true
    }

    /// Notes an event at a path: the worktrees to which it matters wait from now on.
    pub fn note_path(&mut self, path: &FilePath, now: u64)
        requires
            old(self).deep_view().can_note(path.spelled()),
        ensures
            final(self).spellings().within(old(self).spellings()),
            final(self).deep_view() == old(self).deep_view().noted(path.spelled(), now),
    {
        let ghost start = self.deep_view();
        let ghost view = path.spelled();
        proof {
            crate::paths::spelling_spells_path(path);
        }
        let worktrees = self.watches.worktrees_for(path);
        let ghost list = worktrees.deep_view();
        assert forall|j: int| 0 <= j < list.len() implies start.rules.can_judge(
            view,
            #[trigger] list[j],
        ) by {
            assert(list.contains(list[j]));
            assert(super::watches::affected(
                crate::paths::path_of(view),
                start.watches.by_path,
                list[j],
            ));
        }
        let ghost names = self.spellings();
        let ghost mut done: Set<PathView> = Set::empty();
        assert(start.pending =~= super::schedule::marked(start.pending, done, now));
        for i in 0..worktrees.len()
            invariant
                list == worktrees.deep_view(),
                view == path.spelled(),
                forall|j: int| 0 <= j < list.len() ==> start.rules.can_judge(
                    view,
                    #[trigger] list[j],
                ),
                self.deep_view() == (GitWorkerView {
                    pending: super::schedule::marked(start.pending, done, now),
                    ..start
                }),
                forall|worktree: PathView| #[trigger]
                    done.contains(worktree) ==> list.contains(worktree) && !start.rules.ignores(
                        view,
                        worktree,
                    ),
                forall|j: int|
                    0 <= j < i && !start.rules.ignores(view, #[trigger] list[j]) ==> done.contains(
                        list[j],
                    ),
                crate::paths::spellings_of(worktrees@) <= names.worktrees,
                self.spellings().within(names),
        {
            assert(crate::paths::spellings_of(worktrees@).contains(
                worktrees@[i as int].spelled(),
            ));
            let ghost worktree = list[i as int];
            assert(list.contains(worktree));
            if let Some(false) = self.rules.ignores(path, &worktrees[i]) {
                mark(&mut self.pending, &worktrees[i], now);
                proof {
                    assert(self.pending.deep_view() =~= super::schedule::marked(
                        start.pending,
                        done.insert(worktree),
                        now,
                    ));
                    done = done.insert(worktree);
                }
            }
        }
        proof {
            assert forall|worktree: PathView| #[trigger] done.contains(worktree) == concerned(
                start.watches,
                start.rules,
                view,
            ).contains(worktree) by {
                if list.contains(worktree) && !start.rules.ignores(view, worktree) {
                    let j = choose|j: int| 0 <= j < list.len() && list[j] == worktree;
                    assert(done.contains(list[j]));
                }
                assert(list.contains(worktree) == super::watches::affected(
                    crate::paths::path_of(view),
                    start.watches.by_path,
                    worktree,
                ));
            }
            assert(done =~= concerned(start.watches, start.rules, view));
        }
    }

    /// Whether the paths of an event are to be noted. If events were lost, everything must be
    /// looked at again instead.
    pub fn begin_event(&mut self, event: &FsEvent) -> (note_paths: bool)
        ensures
            final(self).spellings() == old(self).spellings(),
            note_paths == !event.needs_rescan,
            final(self).deep_view() == (GitWorkerView {
                recovery_due: old(self).deep_view().recovery_due || event.needs_rescan,
                ..old(self).deep_view()
            }),
    {
        if git_event_requires_recovery(event) {
            self.recovery_due = true;
            false
        } else {
            true
        }
    }

    /// Notes that the watcher failed.
    pub fn note_watch_error(&mut self)
        ensures
            final(self).spellings() == old(self).spellings(),
            final(self).deep_view() == (GitWorkerView {
                watcher_degraded: true,
                recovery_due: true,
                ..old(self).deep_view()
            }),
    {
        self.watcher_degraded = true;
        self.recovery_due = true;
    }

    /// Notes that events came faster than they were taken.
    pub fn note_overflow(&mut self)
        ensures
            final(self).spellings() == old(self).spellings(),
            final(self).deep_view() == (GitWorkerView {
                recovery_due: true,
                ..old(self).deep_view()
            }),
    {
        self.recovery_due = true;
    }

    /// Forgets the worktrees that were not found, if it is time to find them again.
    pub fn retry_negative(&mut self, now: u64)
        ensures
            final(self).spellings().within(old(self).spellings()),
            final(self).deep_view() == old(self).deep_view().retried(now),
    {
        if elapsed(now, self.last_negative_retry) < NEGATIVE_RETRY_INTERVAL {
            return ;
        }
        let ghost start = self.deep_view();
        self.last_negative_retry = now;
        let mut housed: KeySet<FilePath> = KeySet::new();
        let mut homeless = false;
        let count: usize = self.roots_by_agent.len();
        let ghost pairs = self.roots_by_agent.pairs();
        let ghost roots = self.roots_by_agent.deep_view();
        for i in 0..count
            invariant
                count == pairs.len(),
                pairs == self.roots_by_agent.pairs(),
                roots == self.roots_by_agent.deep_view(),
                roots == start.roots_by_agent,
                crate::tables::distinct_keys(pairs),
                self.deep_view() == (GitWorkerView { last_negative_retry: now, ..start }),
                homeless ==> start.some_homeless(),
                !homeless ==> forall|j: int| 0 <= j < i ==> (#[trigger] pairs[j]).1 is Some,
                forall|path: PathView| #[trigger]
                    housed.deep_view().contains(path) ==> start.housed().contains(path),
                forall|j: int|
                    0 <= j < i && (#[trigger] pairs[j]).1 is Some ==> housed.deep_view().contains(
                        pairs[j].0,
                    ),
        {
            proof {
                crate::tables::lemma_pair_found(pairs, i as int);
                assert(roots.contains_key(pairs[i as int].0));
            }
            match self.roots_by_agent.value_at(i) {
                Some(_) => {
                    housed.insert(self.roots_by_agent.key_at(i).dup());
                },
                None => {
                    homeless = true;
                },
            }
        }
        proof {
            assert forall|path: PathView| #[trigger] housed.deep_view().contains(path)
                == start.housed().contains(path) by {
                if start.housed().contains(path) {
                    let j = choose|j: int| 0 <= j < pairs.len() && (#[trigger] pairs[j]).0 == path;
                    crate::tables::lemma_pair_found(pairs, j);
                    assert(housed.deep_view().contains(pairs[j].0));
                }
            }
            assert(housed.deep_view() =~= start.housed());
            if !homeless && start.some_homeless() {
                let path = choose|path: PathView| #[trigger]
                    roots.contains_key(path) && roots[path] is None;
                let j = choose|j: int| 0 <= j < pairs.len() && (#[trigger] pairs[j]).0 == path;
                crate::tables::lemma_pair_found(pairs, j);
            }
        }
        if homeless {
            let _ = self.roots_by_agent.retain_keys(&housed);
            self.active_entries = Vec::new();
            assert(self.active_entries.deep_view() =~= Seq::<GitWorkerPathView>::empty());
        }
        assert(self.deep_view() =~= start.retried(now));
    }

    fn wants(&self, entries: &Vec<GitWorkerPath>) -> (yes: bool)
        ensures
            yes == (entries.deep_view() != self.deep_view().active_entries),
    {
        !entries.same(&self.active_entries)
    }

    fn unresolved(&self, entries: &Vec<GitWorkerPath>) -> (paths: KeySet<FilePath>)
        ensures
            crate::paths::spellings(paths.members()) <= super::git_cache::entry_spellings(
                entries@,
            ),
            self.deep_view().lacks(entries.deep_view(), paths.deep_view()),
    {
        unresolved_paths(entries, &self.roots_by_agent)
    }

    /// Compares agents with those that are known. If they differ, puts them in order and says whose
    /// worktree the host has to find.
    pub fn consider(&self, latest: Vec<GitWorkerPath>) -> (wanted: Option<
        (Vec<GitWorkerPath>, KeySet<FilePath>),
    >)
        ensures
            match wanted {
                Some((entries, paths)) => {
                    &&& crate::order::ascending::<GitWorkerPath>(entries.deep_view())
                    &&& entries.deep_view().to_multiset() == latest.deep_view().to_multiset()
                    &&& entries@.to_multiset() == latest@.to_multiset()
                    &&& crate::paths::spellings(paths.members())
                        <= super::git_cache::entry_spellings(entries@)
                    &&& entries.deep_view() != self.deep_view().active_entries
                    &&& self.deep_view().lacks(entries.deep_view(), paths.deep_view())
                },
                None => {
                    &&& crate::order::ascending::<GitWorkerPath>(self.deep_view().active_entries)
                    &&& self.deep_view().active_entries.to_multiset()
                        == latest.deep_view().to_multiset()
                },
            },
    {
        let entries = sorted(latest);
        if !self.wants(&entries) {
            return None;
        }
        let paths = self.unresolved(&entries);
        Some((entries, paths))
    }

    /// Takes agents in order, with the worktrees that the host found. Worktrees in which no agent
    /// works any more are forgotten.
    pub fn accept(
        &mut self,
        entries: Vec<GitWorkerPath>,
        found: &Table<FilePath, Option<FilePath>>,
    ) -> (accepted: Accepted)
        ensures
            ({
                let names = old(self).spellings().with_worktrees(
                    super::git_cache::root_spellings(found.values()),
                ).with_agents(super::git_cache::entry_spellings(entries@));
                &&& final(self).spellings().within(names)
                &&& crate::paths::spellings_of(accepted.dropped@) <= names.worktrees
                &&& crate::paths::spellings_of(accepted.watch@) <= names.worktrees
                &&& crate::paths::spellings_of(accepted.unwatch@) <= names.dirs
            }),
            ({
                let before = old(self).deep_view();
                let after = final(self).deep_view();
                let placed = before.placed_as(after);
                &&& before.moved_to(placed, entries.deep_view(), found.deep_view())
                &&& accepted.previous.deep_view() == before.resolved
                &&& forall|worktree: PathView| #[trigger]
                    accepted.dropped.deep_view().contains(worktree) == placed.is_left(worktree)
                &&& accepted.dropped.deep_view().no_duplicates()
                &&& after == placed.dropped_all(accepted.dropped.deep_view())
                &&& accepted.unwatch.deep_view() == placed.released_all(
                    accepted.dropped.deep_view(),
                )
                &&& accepted.watch.deep_view() == after.unwatched()
            }),
    {
        let ghost before = self.deep_view();
        let ghost names = self.spellings().with_worktrees(
            super::git_cache::root_spellings(found.values()),
        ).with_agents(super::git_cache::entry_spellings(entries@));
        let previous = self.accept_entries(entries, found);
        let ghost placed = self.deep_view();
        let dropped = self.dropped_worktrees();
        let ghost left = dropped.deep_view();
        let mut unwatch: Vec<FilePath> = Vec::new();
        assert(unwatch.deep_view() =~= Seq::<PathView>::empty());
        assert(left.take(0) =~= Seq::<PathView>::empty());
        for i in 0..dropped.len()
            invariant
                left == dropped.deep_view(),
                self.deep_view() == placed.dropped_all(left.take(i as int)),
                unwatch.deep_view() == placed.released_all(left.take(i as int)),
                self.spellings().within(names),
                crate::paths::spellings_of(unwatch@) <= names.dirs,
        {
            let ghost earlier = unwatch@;
            let ghost longer = left.take(i + 1);
            assert(longer.drop_last() =~= left.take(i as int));
            assert(longer.last() == dropped@[i as int].deep_view());
            let ghost held = unwatch.deep_view();
            let mut released = self.drop_worktree(&dropped[i]);
            let ghost more = released.deep_view();
            let ghost taken = released@;
            unwatch.append(&mut released);
            proof {
                crate::paths::lemma_spellings_joined(earlier, taken);
                assert(unwatch@ =~= earlier + taken);
            }
            assert(unwatch.deep_view() =~= held + more);
        }
        assert(left.take(left.len() as int) =~= left);
        proof {
            lemma_drops_keep_places(placed, left);
            assert(before.placed_as(self.deep_view()) =~= placed);
        }
        let watch = self.unwatched_worktrees();
        Accepted { previous, dropped, unwatch, watch }
    }

    fn accept_entries(
        &mut self,
        entries: Vec<GitWorkerPath>,
        found: &Table<FilePath, Option<FilePath>>,
    ) -> (previous: Table<FilePath, ResolvedGitWorktree>)
        ensures
            final(self).spellings().within(
                old(self).spellings().with_worktrees(
                    super::git_cache::root_spellings(found.values()),
                ).with_agents(super::git_cache::entry_spellings(entries@)),
            ),
            previous.deep_view() == old(self).deep_view().resolved,
            old(self).deep_view().moved_to(
                final(self).deep_view(),
                entries.deep_view(),
                found.deep_view(),
            ),
    {
        let ghost before = self.deep_view();
        self.active_entries = entries;
        let resolved = resolve_git_worktrees_cached(
            &self.active_entries,
            &mut self.roots_by_agent,
            found,
        );
        let keys = keys_of(&resolved);
        let ghost roots = keys@;
        let mut previous = resolved;
        std::mem::swap(&mut previous, &mut self.resolved);
        self.unique_active = sorted_unique(keys);
        assert forall|i: int| 0 <= i < self.unique_active@.len() implies
            crate::paths::spellings_of(roots).contains(
            (#[trigger] self.unique_active@[i]).spelled(),
        ) by {
            assert(crate::order::is_first(roots, self.unique_active@[i]));
        }
        previous
    }

    fn dropped_worktrees(&self) -> (worktrees: Vec<FilePath>)
        ensures
            crate::paths::spellings_of(worktrees@) <= self.spellings().worktrees,
            forall|worktree: PathView| #[trigger]
                worktrees.deep_view().contains(worktree) == self.deep_view().is_left(worktree),
            worktrees.deep_view().no_duplicates(),
    {
        if !self.has_watcher {
            let none: Vec<FilePath> = Vec::new();
            assert(none.deep_view() =~= Seq::<PathView>::empty());
            return none;
        }
        let mut wanted: KeySet<FilePath> = KeySet::new();
        let ghost all = self.unique_active.deep_view();
        assert(all.take(0).to_set() =~= Set::<PathView>::empty());
        for i in 0..self.unique_active.len()
            invariant
                all == self.unique_active.deep_view(),
                wanted.deep_view() == all.take(i as int).to_set(),
        {
            wanted.insert(self.unique_active[i].dup());
            proof {
                super::schedule::lemma_take_set(all, i as int);
            }
        }
        assert(all.take(all.len() as int) =~= all);
        let found = self.watches.worktrees_beyond(&wanted);
        assert forall|worktree: PathView| #[trigger]
            found.deep_view().contains(worktree) == self.deep_view().is_left(worktree) by {
            assert(wanted.deep_view().contains(worktree) == all.contains(worktree));
        }
        found
    }

    fn drop_worktree(&mut self, worktree: &FilePath) -> (unwatch: Vec<FilePath>)
        ensures
            final(self).spellings().within(old(self).spellings()),
            crate::paths::spellings_of(unwatch@) <= old(self).spellings().dirs,
            final(self).deep_view() == old(self).deep_view().dropped(worktree.deep_view()),
            unwatch.deep_view() == super::watches::released(
                old(self).deep_view().watches.by_path,
                old(self).deep_view().watches.paths_of(worktree.deep_view()),
                worktree.deep_view(),
            ),
    {
        let unwatch = self.watches.detach_worktree_watches(worktree);
        self.watches.forget(worktree);
        self.rules.forget(worktree);
        let _ = self.pending.remove(worktree);
        let _ = self.last_refreshed.remove(worktree);
        unwatch
    }

    fn unwatched_worktrees(&self) -> (worktrees: Vec<FilePath>)
        ensures
            crate::paths::spellings_of(worktrees@) <= self.spellings().worktrees,
            worktrees.deep_view() == self.deep_view().unwatched(),
    {
        let mut worktrees: Vec<FilePath> = Vec::new();
        assert(worktrees.deep_view() =~= Seq::<PathView>::empty());
        if !self.has_watcher {
            return worktrees;
        }
        let ghost all = self.unique_active.deep_view();
        let ghost keep = |path: PathView|
            !self.deep_view().watches.by_worktree.contains_key(path);
        proof {
            crate::lists::lemma_filter_ends(all, keep);
        }
        for i in 0..self.unique_active.len()
            invariant
                all == self.unique_active.deep_view(),
                keep == (|path: PathView|
                    !self.deep_view().watches.by_worktree.contains_key(path)),
                worktrees.deep_view() == all.take(i as int).filter(keep),
                crate::paths::spellings_of(worktrees@) <= crate::paths::spellings_of(
                    self.unique_active@,
                ),
        {
            let ghost held = worktrees.deep_view();
            let ghost earlier = worktrees@;
            assert(crate::paths::spellings_of(self.unique_active@).contains(
                self.unique_active@[i as int].spelled(),
            ));
            proof {
                crate::lists::lemma_filter_next(all, keep, i as int);
            }
            if !self.watches.has_watches(&self.unique_active[i]) {
                worktrees.push(self.unique_active[i].dup());
                assert(worktrees.deep_view() =~= held.push(all[i as int]));
                proof {
                    crate::paths::lemma_spelling_pushed(earlier, worktrees@);
                }
            }
        }
        worktrees
    }

    /// Begins the watches of a worktree anew. Lists the directories that are not watched any more
    /// for now, and those that are to be watched.
    pub fn renew_watches(
        &mut self,
        worktree: &FilePath,
        layout: &GitLayout,
        watches_files: bool,
    ) -> (watches: (Vec<FilePath>, Vec<WorktreeWatchSpec>))
        ensures
            final(self).spellings().within(
                old(self).spellings().with_worktrees(set![worktree.spelled()]),
            ),
            crate::paths::spellings_of(watches.0@) <= old(self).spellings().dirs,
            ({
                let before = old(self).deep_view();
                let root = worktree.deep_view();
                let wanted = super::git_dirs::watches_of(
                    worktree.spelled(),
                    *layout,
                    watches_files,
                );
                &&& final(self).deep_view() == (GitWorkerView {
                    watches: before.watches.renewed(root, wanted.len() > 0),
                    ..before
                })
                &&& watches.0.deep_view() == super::watches::released(
                    before.watches.by_path,
                    before.watches.paths_of(root),
                    root,
                )
                &&& watches.1.deep_view() == wanted
            }),
    {
        let specs = worktree_watch_specs(worktree, layout, watches_files);
        assert(specs@.len() == specs.deep_view().len());
        let unwatch = self.watches.begin_watches(worktree, specs.len() > 0);
        (unwatch, specs)
    }

    /// Whether the host has to start watching a directory.
    pub fn needs_start(&self, path: &FilePath) -> (yes: bool)
        ensures
            yes == !self.deep_view().watches.by_path.contains_key(path.deep_view()),
    {
        self.watches.needs_start(path)
    }

    /// Watches a directory for a worktree whose watches were begun; `started` says whether the
    /// host has started watching it.
    pub fn add_watch(&mut self, worktree: &FilePath, path: &FilePath, started: bool) -> (watched:
        bool)
        requires
            old(self).deep_view().watches.by_worktree.contains_key(worktree.deep_view()),
        ensures
            final(self).spellings().within(
                old(self).spellings().with_worktrees(set![worktree.spelled()]).with_dirs(
                    set![path.spelled()],
                ),
            ),
            final(self).deep_view() == (GitWorkerView {
                watches: old(self).deep_view().watches.added(
                    worktree.deep_view(),
                    path.deep_view(),
                    started,
                ),
                ..old(self).deep_view()
            }),
            watched == (old(self).deep_view().watches.by_path.contains_key(path.deep_view())
                || started),
    {
        self.watches.add_watch(worktree, path, started)
    }

    /// Carries what is known of agents over to those that work now, and has the worktrees looked
    /// at of which nothing is known or in which work began again. Says whether the sidebar shows
    /// anything new.
    pub fn settle_entries(
        &mut self,
        previous: &Table<FilePath, ResolvedGitWorktree>,
        cache: &mut Table<FilePath, GitStatus>,
        now: u64,
    ) -> (changed: bool)
        ensures
            final(self).spellings().within(old(self).spellings()),
            crate::paths::spellings(final(cache).keys()) <= crate::paths::spellings(
                old(cache).keys(),
            ).union(old(self).spellings().agents),
            ({
                let before = old(self).deep_view();
                let known = super::git_refresh::reconcile_all(
                    previous.deep_view(),
                    super::git_refresh::agents_of(before.resolved),
                    old(cache).deep_view(),
                    old(self).walk(),
                );
                &&& crate::tables::distinct_keys(old(self).walk())
                &&& crate::tables::pairs_map(old(self).walk()) == before.resolved
                &&& final(cache).deep_view() == known.cache
                &&& changed == known.changed
                &&& final(self).deep_view() == before.settled(
                    previous.deep_view(),
                    known.missing,
                    now,
                )
            }),
    {
        let (changed, missing) = reconcile_git_cache(previous, &self.resolved, cache);
        reset_all(&mut self.pending, &missing, earlier(now, DEBOUNCE));
        self.wake(previous, now);
        changed
    }

    /// Has the worktrees looked at in which work began again. The host calls this where what is
    /// known of agents is out of its reach.
    pub fn wake(&mut self, previous: &Table<FilePath, ResolvedGitWorktree>, now: u64)
        ensures
            final(self).spellings().within(old(self).spellings()),
            final(self).deep_view() == old(self).deep_view().woken(previous.deep_view(), now),
    {
        let woken = self.find_awakened(previous);
        assert(woken.deep_view().to_set() =~= awakened(
            previous.deep_view(),
            self.deep_view().resolved,
        ));
        reset_all(&mut self.pending, &woken, earlier(now, DEBOUNCE));
    }

    fn find_awakened(&self, previous: &Table<FilePath, ResolvedGitWorktree>) -> (found: Vec<
        FilePath,
    >)
        ensures
            crate::paths::spellings_of(found@) <= crate::paths::spellings(self.resolved.keys()),
            forall|root: PathView| #[trigger]
                found.deep_view().contains(root) == awakened(
                    previous.deep_view(),
                    self.deep_view().resolved,
                ).contains(root),
    {
        let mut found: Vec<FilePath> = Vec::new();
        let ghost pairs = self.resolved.pairs();
        let ghost current = self.resolved.deep_view();
        let ghost wanted = awakened(previous.deep_view(), current);
        let count: usize = self.resolved.len();
        for i in 0..count
            invariant
                count == pairs.len(),
                pairs == self.resolved.pairs(),
                current == self.resolved.deep_view(),
                wanted == awakened(previous.deep_view(), current),
                crate::tables::distinct_keys(pairs),
                forall|root: PathView| #[trigger]
                    found.deep_view().contains(root) ==> wanted.contains(root),
                forall|j: int|
                    0 <= j < i && wanted.contains((#[trigger] pairs[j]).0)
                        ==> found.deep_view().contains(pairs[j].0),
                crate::paths::spellings_of(found@) <= crate::paths::spellings(
                    self.resolved.keys(),
                ),
        {
            let ghost earlier = found@;
            let root = self.resolved.key_at(i);
            let worktree = self.resolved.value_at(i);
            let ghost held = found.deep_view();
            proof {
                crate::tables::lemma_pair_found(pairs, i as int);
            }
            let woke = match previous.get(root) {
                Some(old_worktree) => (old_worktree.is_stale && !worktree.is_stale) || (
                !old_worktree.is_focused && worktree.is_focused),
                None => false,
            };
            assert(woke == wanted.contains(pairs[i as int].0));
            if woke {
                found.push(root.dup());
                proof {
                    crate::paths::lemma_spelling_pushed(earlier, found@);
                    let now = found.deep_view();
                    assert(now =~= held.push(pairs[i as int].0));
                    assert forall|r: PathView| #[trigger] now.contains(r) implies wanted.contains(
                        r,
                    ) by {
                        let n = choose|n: int| 0 <= n < now.len() && now[n] == r;
                        if n < held.len() {
                            assert(held.contains(held[n]));
                        }
                    }
                    assert forall|j: int|
                        0 <= j < i + 1 && wanted.contains((#[trigger] pairs[j]).0) implies
                        now.contains(pairs[j].0) by {
                        if j < i {
                            let n = choose|n: int| 0 <= n < held.len() && held[n] == pairs[j].0;
                            assert(now[n] == pairs[j].0);
                        } else {
                            assert(now[held.len() as int] == pairs[j].0);
                        }
                    }
                }
            }
        }
        proof {
            assert forall|root: PathView| wanted.contains(root) implies
                #[trigger] found.deep_view().contains(root) by {
                let j = choose|j: int| 0 <= j < pairs.len() && (#[trigger] pairs[j]).0 == root;
                assert(found.deep_view().contains(pairs[j].0));
            }
        }
        found
    }

    /// Recovers and polls, each if it is time, and lists the worktrees whose watches are to be
    /// begun anew. `watches_files` says whether the files of worktrees are watched on this
    /// platform.
    pub fn maintain(&mut self, now: u64, watches_files: bool) -> (rewatch: Vec<FilePath>)
        ensures
            final(self).spellings().within(old(self).spellings()),
            crate::paths::spellings_of(rewatch@) <= old(self).spellings().worktrees,
            final(self).deep_view() == old(self).deep_view().recovered(now).polled(
                now,
                watches_files,
            ),
            rewatch.deep_view() == old(self).deep_view().rewatched(now, watches_files),
    {
        self.recover(now);
        self.poll(now, watches_files)
    }

    /// Audits the next worktree, if it is time, and lists the worktrees that have waited long
    /// enough to be looked at.
    pub fn collect(&mut self, now: u64, watches_files: bool) -> (worktrees: Vec<FilePath>)
        ensures
            final(self).spellings().within(old(self).spellings()),
            crate::paths::spellings_of(worktrees@) <= old(self).spellings().worktrees,
            final(self).deep_view() == old(self).deep_view().audited(now, watches_files),
            forall|worktree: PathView| #[trigger]
                worktrees.deep_view().contains(worktree) == final(self).deep_view().is_ready(
                    worktree,
                    now,
                ),
            worktrees.deep_view().no_duplicates(),
    {
        self.audit(now, watches_files);
        self.ready(now)
    }

    fn recover(&mut self, now: u64)
        ensures
            final(self).spellings().within(old(self).spellings()),
            final(self).deep_view() == old(self).deep_view().recovered(now),
    {
        if recovery_ready(self.recovery_due, self.last_recovery, RECOVERY_COOLDOWN, now) {
            self.recovery_due = false;
            self.last_recovery = now;
            mark_all(&mut self.pending, &self.unique_active, earlier(now, DEBOUNCE));
        }
    }

    fn poll(&mut self, now: u64, watches_files: bool) -> (rewatch: Vec<FilePath>)
        ensures
            final(self).spellings().within(old(self).spellings()),
            crate::paths::spellings_of(rewatch@) <= old(self).spellings().worktrees,
            final(self).deep_view() == old(self).deep_view().polled(now, watches_files),
            rewatch.deep_view() == old(self).deep_view().rewatched(now, watches_files),
    {
        let interval: u64 = if self.watcher_degraded || !self.has_watcher {
            DEGRADED_POLL_INTERVAL
        } else {
            POLL_INTERVAL
        };
        let mut rewatch: Vec<FilePath> = Vec::new();
        assert(rewatch.deep_view() =~= Seq::<PathView>::empty());
        if elapsed(now, self.last_maintenance) < interval {
            return rewatch;
        }
        if !self.has_watcher || !watches_files || self.watcher_degraded {
            self.last_maintenance = now;
            mark_all(&mut self.pending, &self.unique_active, earlier(now, DEBOUNCE));
            return rewatch;
        }
        rewatch = self.find_incomplete();
        self.last_maintenance = now;
        mark_all(&mut self.pending, &rewatch, earlier(now, DEBOUNCE));
        rewatch
    }

    fn find_incomplete(&self) -> (found: Vec<FilePath>)
        ensures
            crate::paths::spellings_of(found@) <= crate::paths::spellings_of(self.unique_active@),
            found.deep_view() == self.deep_view().incomplete(),
    {
        let mut found: Vec<FilePath> = Vec::new();
        let ghost all = self.unique_active.deep_view();
        let ghost keep = |path: PathView| !self.deep_view().watches.is_complete(path);
        proof {
            crate::lists::lemma_filter_ends(all, keep);
        }
        assert(found.deep_view() =~= Seq::<PathView>::empty());
        for i in 0..self.unique_active.len()
            invariant
                all == self.unique_active.deep_view(),
                keep == (|path: PathView| !self.deep_view().watches.is_complete(path)),
                found.deep_view() == all.take(i as int).filter(keep),
                crate::paths::spellings_of(found@) <= crate::paths::spellings_of(
                    self.unique_active@,
                ),
        {
            let ghost held = found.deep_view();
            let ghost earlier = found@;
            assert(crate::paths::spellings_of(self.unique_active@).contains(
                self.unique_active@[i as int].spelled(),
            ));
            proof {
                crate::lists::lemma_filter_next(all, keep, i as int);
            }
            if !self.watches.is_complete(&self.unique_active[i]) {
                found.push(self.unique_active[i].dup());
                assert(found.deep_view() =~= held.push(all[i as int]));
                proof {
                    crate::paths::lemma_spelling_pushed(earlier, found@);
                }
            }
        }
        found
    }

    fn audit(&mut self, now: u64, watches_files: bool)
        ensures
            final(self).spellings().within(old(self).spellings()),
            final(self).deep_view() == old(self).deep_view().audited(now, watches_files),
    {
        let ghost before = self.deep_view();
        if !self.has_watcher || !watches_files || self.watcher_degraded || elapsed(
            now,
            self.last_audit,
        ) < AUDIT_INTERVAL || self.unique_active.len() == 0 {
            return ;
        }
        self.last_audit = now;
        match self.watches.next_audit(&self.unique_active, &mut self.audit_cursor) {
            Some(path) => {
                mark(&mut self.pending, &path, earlier(now, DEBOUNCE));
            },
            None => {
                assert(before.pending =~= super::schedule::marked(
                    before.pending,
                    Set::empty(),
                    super::clock::before(now, DEBOUNCE),
                ));
            },
        }
        assert(self.deep_view() =~= before.audited(now, watches_files));
    }

    fn ready(&self, now: u64) -> (worktrees: Vec<FilePath>)
        ensures
            crate::paths::spellings_of(worktrees@) <= crate::paths::spellings(self.pending.keys()),
            forall|worktree: PathView| #[trigger]
                worktrees.deep_view().contains(worktree) == self.deep_view().is_ready(worktree, now),
            worktrees.deep_view().no_duplicates(),
    {
        let mut found: Vec<FilePath> = Vec::new();
        let ghost pairs = self.pending.pairs();
        let ghost pending = self.pending.deep_view();
        let count: usize = self.pending.len();
        for i in 0..count
            invariant
                count == pairs.len(),
                pairs == self.pending.pairs(),
                pending == self.pending.deep_view(),
                crate::tables::distinct_keys(pairs),
                found.deep_view().no_duplicates(),
                forall|n: int|
                    0 <= n < found.deep_view().len() ==> waited_among(
                        pairs,
                        i as int,
                        now,
                        #[trigger] found.deep_view()[n],
                    ),
                forall|j: int|
                    0 <= j < i && super::clock::passed(now, (#[trigger] pairs[j]).1) >= DEBOUNCE
                        ==> found.deep_view().contains(pairs[j].0),
                crate::paths::spellings_of(found@) <= crate::paths::spellings(
                    self.pending.keys(),
                ),
        {
            let ghost held = found.deep_view();
            let ghost earlier = found@;
            if elapsed(now, *self.pending.value_at(i)) >= DEBOUNCE {
                found.push(self.pending.key_at(i).dup());
                proof {
                    crate::paths::lemma_spelling_pushed(earlier, found@);
                    let now_found = found.deep_view();
                    assert(now_found =~= held.push(pairs[i as int].0));
                    assert forall|n: int| 0 <= n < now_found.len() implies waited_among(
                        pairs,
                        i + 1,
                        now,
                        #[trigger] now_found[n],
                    ) by {
                        if n < held.len() {
                            assert(waited_among(pairs, i as int, now, held[n]));
                        } else {
                            assert(pairs[i as int].0 == now_found[n]);
                        }
                    }
                    assert forall|n: int, m: int|
                        0 <= n < now_found.len() && 0 <= m < now_found.len() && n != m implies
                        now_found[n] != now_found[m] by {
                        if n == held.len() {
                            assert(waited_among(pairs, i as int, now, held[m]));
                        } else if m == held.len() {
                            assert(waited_among(pairs, i as int, now, held[n]));
                        } else {
                            assert(held[n] == now_found[n] && held[m] == now_found[m]);
                        }
                    }
                    assert forall|j: int|
                        0 <= j < i + 1 && super::clock::passed(now, (#[trigger] pairs[j]).1)
                            >= DEBOUNCE implies now_found.contains(pairs[j].0) by {
                        if j < i {
                            let n = choose|n: int| 0 <= n < held.len() && held[n] == pairs[j].0;
                            assert(now_found[n] == pairs[j].0);
                        } else {
                            assert(now_found[held.len() as int] == pairs[j].0);
                        }
                    }
                }
            }
        }
        proof {
            assert forall|worktree: PathView| #[trigger] found.deep_view().contains(worktree)
                == self.deep_view().is_ready(worktree, now) by {
                if found.deep_view().contains(worktree) {
                    let n = choose|n: int|
                        0 <= n < found.deep_view().len() && found.deep_view()[n] == worktree;
                    assert(found.deep_view()[n] == worktree);
                    assert(waited_among(pairs, count as int, now, found.deep_view()[n]));
                    let j = choose|j: int|
                        0 <= j < pairs.len() && (#[trigger] pairs[j]).0 == worktree
                            && super::clock::passed(now, pairs[j].1) >= DEBOUNCE;
                    crate::tables::lemma_pair_found(pairs, j);
                }
                if self.deep_view().is_ready(worktree, now) {
                    let j = choose|j: int|
                        0 <= j < pairs.len() && (#[trigger] pairs[j]).0 == worktree;
                    crate::tables::lemma_pair_found(pairs, j);
                }
            }
        }
        found
    }

    /// Takes a worktree to be looked at, and gives the agents in it. One that was looked at too
    /// short a time ago is put off, and one in which no agent works is not looked at.
    pub fn begin_refresh(&mut self, worktree: &FilePath, now: u64) -> (agents: Option<
        Vec<FilePath>,
    >)
        ensures
            final(self).spellings().within(
                old(self).spellings().with_worktrees(set![worktree.spelled()]),
            ),
            agents matches Some(agents) ==> crate::paths::spellings_of(agents@)
                <= old(self).spellings().agents,
            final(self).deep_view() == old(self).deep_view().taken(worktree.deep_view(), now),
            ({
                let before = old(self).deep_view();
                let root = worktree.deep_view();
                agents.deep_view() == (if !before.too_soon(root, now)
                    && before.resolved.contains_key(root) {
                    Some(before.resolved[root].agent_paths)
                } else {
                    None
                })
            }),
    {
        if let Some(last) = self.last_refreshed.get(worktree) {
            let last: u64 = *last;
            if elapsed(now, last) < MIN_REFRESH_INTERVAL {
                let event_at: u64 = earlier(later(last, MIN_REFRESH_INTERVAL), DEBOUNCE);
                self.pending.insert(worktree.dup(), event_at);
                return None;
            }
        }
        let _ = self.pending.remove(worktree);
        match self.resolved.get(worktree) {
            Some(found) => Some(copy_paths(&found.agent_paths)),
            None => None,
        }
    }

    /// Takes the state of a worktree that was looked at, for the agents in it. Says whether the
    /// sidebar shows anything new.
    pub fn finish_refresh(
        &mut self,
        worktree: &FilePath,
        agents: &Vec<FilePath>,
        status: &GitStatus,
        cache: &mut Table<FilePath, GitStatus>,
        now: u64,
    ) -> (changed: bool)
        ensures
            final(self).spellings() == old(self).spellings(),
            crate::paths::spellings(final(cache).keys()) <= crate::paths::spellings(
                old(cache).keys(),
            ).union(crate::paths::spellings_of(agents@)),
            final(self).deep_view() == old(self).deep_view().looked_at(worktree.deep_view(), now),
            final(cache).deep_view() == super::git_refresh::renewed_statuses(
                old(cache).deep_view(),
                agents.deep_view(),
                status.deep_view(),
            ),
            changed == exists|i: int|
                0 <= i < agents@.len() && super::git_refresh::is_outdated(
                    old(cache).deep_view(),
                    #[trigger] agents.deep_view()[i],
                    status.deep_view(),
                ),
    {
        self.last_refreshed.insert(worktree.dup(), now);
        refresh_git_status(agents, status, cache)
    }
}

pub(crate) proof fn lemma_drops_keep_places(worker: GitWorkerView, worktrees: Seq<PathView>)
    ensures
        ({
            let after = worker.dropped_all(worktrees);
            &&& after.active_entries == worker.active_entries
            &&& after.roots_by_agent == worker.roots_by_agent
            &&& after.resolved == worker.resolved
            &&& after.unique_active == worker.unique_active
        }),
    decreases worktrees.len(),
{
    if worktrees.len() > 0 {
        lemma_drops_keep_places(worker, worktrees.drop_last());
    }
}

proof fn lemma_dropped_are_gone(worker: GitWorkerView, worktrees: Seq<PathView>, worktree: PathView)
    ensures
        worker.dropped_all(worktrees).watches.by_worktree.contains_key(worktree) == (
        worker.watches.by_worktree.contains_key(worktree) && !worktrees.contains(worktree)),
        worktrees.contains(worktree) ==> !worker.dropped_all(worktrees).pending.contains_key(
            worktree,
        ),
    decreases worktrees.len(),
{
    if worktrees.len() > 0 {
        let shorter = worktrees.drop_last();
        lemma_dropped_are_gone(worker, shorter, worktree);
        assert(worktrees =~= shorter.push(worktrees.last()));
        assert(worktrees.contains(worktree) == (shorter.contains(worktree) || worktrees.last()
            == worktree)) by {
            if worktrees.last() == worktree {
                assert(worktrees[worktrees.len() - 1] == worktree);
            }
            if shorter.contains(worktree) {
                let i = choose|i: int| 0 <= i < shorter.len() && shorter[i] == worktree;
                assert(worktrees[i] == worktree);
            }
            if worktrees.contains(worktree) && worktrees.last() != worktree {
                let i = choose|i: int| 0 <= i < worktrees.len() && worktrees[i] == worktree;
                assert(shorter[i] == worktree);
            }
        }
    }
}

/// Once other agents are taken up, every worktree that is watched has an agent, and none without
/// one waits that was watched.
pub proof fn only_worktrees_with_agents_stay_watched(
    worker: GitWorkerView,
    left: Seq<PathView>,
    worktree: PathView,
)
    requires
        worker.has_watcher,
        forall|other: PathView| #[trigger] left.contains(other) == worker.is_left(other),
    ensures
        worker.dropped_all(left).watches.by_worktree.contains_key(worktree) == (
        worker.watches.by_worktree.contains_key(worktree) && worker.unique_active.contains(
            worktree,
        )),
        worker.is_left(worktree) ==> !worker.dropped_all(left).pending.contains_key(worktree),
{
    lemma_dropped_are_gone(worker, left, worktree);
    assert(left.contains(worktree) == worker.is_left(worktree));
}

/// Whether a worktree stands among the first pairs and has waited long enough.
spec fn waited_among(pairs: Seq<(PathView, u64)>, n: int, now: u64, worktree: PathView) -> bool {
    exists|j: int|
        0 <= j < n && (#[trigger] pairs[j]).0 == worktree && super::clock::passed(now, pairs[j].1)
            >= DEBOUNCE
}

fn keys_of(worktrees: &Table<FilePath, ResolvedGitWorktree>) -> (keys: Vec<FilePath>)
    ensures
        keys.deep_view().to_set() == worktrees.deep_view().dom(),
        crate::paths::spellings_of(keys@) <= crate::paths::spellings(worktrees.keys()),
{
    let mut keys: Vec<FilePath> = Vec::new();
    let ghost pairs = worktrees.pairs();
    let count: usize = worktrees.len();
    for i in 0..count
        invariant
            count == pairs.len(),
            pairs == worktrees.pairs(),
            crate::tables::distinct_keys(pairs),
            keys.deep_view() == pairs.take(i as int).map_values(
                |pair: (PathView, ResolvedGitWorktreeView)| pair.0,
            ),
            crate::paths::spellings_of(keys@) <= crate::paths::spellings(worktrees.keys()),
    {
        let ghost held = keys.deep_view();
        let ghost earlier = keys@;
        keys.push(worktrees.key_at(i).dup());
        proof {
            crate::paths::lemma_spelling_pushed(earlier, keys@);
        }
        assert(keys.deep_view() =~= held.push(pairs[i as int].0));
        assert(keys.deep_view() =~= pairs.take(i + 1).map_values(
            |pair: (PathView, ResolvedGitWorktreeView)| pair.0,
        ));
    }
    proof {
        let list = keys.deep_view();
        assert forall|key: PathView| #[trigger] list.to_set().contains(key)
            == worktrees.deep_view().dom().contains(key) by {
            if list.contains(key) {
                let n = choose|n: int| 0 <= n < list.len() && list[n] == key;
                assert(pairs[n].0 == key);
            }
            if worktrees.deep_view().contains_key(key) {
                let j = choose|j: int| 0 <= j < pairs.len() && (#[trigger] pairs[j]).0 == key;
                assert(list[j] == key);
            }
        }
        assert(list.to_set() =~= worktrees.deep_view().dom());
    }
    keys
}

/// A worktree that is put off is ready as soon as the time between two looks has passed.
pub proof fn put_off_worktrees_come_back(worker: GitWorkerView, worktree: PathView, now: u64, then: u64)
    requires
        worker.too_soon(worktree, now),
        then >= worker.last_refreshed[worktree] + MIN_REFRESH_INTERVAL,
    ensures
        worker.taken(worktree, now).is_ready(worktree, then),
        !worker.taken(worktree, now).too_soon(worktree, then),
{
}

/// A recovery looks at every worktree that agents work in, without waiting any longer.
pub proof fn recovery_reaches_every_worktree(worker: GitWorkerView, now: u64, worktree: PathView)
    requires
        worker.recovery_due,
        now >= worker.last_recovery + RECOVERY_COOLDOWN,
        now >= DEBOUNCE,
        worker.unique_active.contains(worktree),
        !worker.pending.contains_key(worktree),
    ensures
        worker.recovered(now).is_ready(worktree, now),
{
}

/// Failures that follow each other closely lead to one recovery.
pub proof fn recoveries_are_spaced(worker: GitWorkerView, now: u64, then: u64)
    requires
        worker.recovery_due,
        super::clock::passed(now, worker.last_recovery) >= RECOVERY_COOLDOWN,
        now <= then < now + RECOVERY_COOLDOWN,
    ensures
        ({
            let again = GitWorkerView { recovery_due: true, ..worker.recovered(now) };
            again.recovered(then) == again
        }),
{
}

/// An event below a directory that is watched for a worktree, which the rules of that worktree do not ignore,
/// has the worktree wait from then on, unless it waits already; other worktrees wait as they did.
pub proof fn events_have_worktrees_wait(
    worker: GitWorkerView,
    path: Seq<u8>,
    now: u64,
    worktree: PathView,
)
    ensures
        ({
            let after = worker.noted(path, now);
            let concerned = exists|dir: PathView| #[trigger]
                worker.watches.by_path.contains_key(dir) && crate::paths::path_of(
                    path,
                ).starts_with(dir) && worker.watches.by_path[dir].contains(worktree)
                    && !super::ignores::event_ignored(
                    path,
                    worktree,
                    worker.rules.rules,
                    worker.rules.known,
                );
            &&& after == (GitWorkerView { pending: after.pending, ..worker })
            &&& worker.pending.contains_key(worktree) ==> after.pending.contains_pair(
                worktree,
                worker.pending[worktree],
            )
            &&& !worker.pending.contains_key(worktree) && concerned ==> after.pending.contains_pair(
                worktree,
                now,
            )
            &&& !worker.pending.contains_key(worktree) && !concerned
                ==> !after.pending.contains_key(worktree)
        }),
{
}

/// A worktree is looked at once it has waited for three tenths of a second.
pub proof fn worktrees_wait_for_more_events(worker: GitWorkerView, worktree: PathView, now: u64)
    ensures
        worker.is_ready(worktree, now) <==> worker.pending.contains_key(worktree) && now
            - worker.pending[worktree] >= 300_000_000,
{
}

/// A worktree that was looked at less than two seconds ago is put off until that time is over; any other one
/// that is taken to be looked at does not wait any more. The other worktrees wait as they did.
pub proof fn looks_are_two_seconds_apart(
    worker: GitWorkerView,
    worktree: PathView,
    now: u64,
    other: PathView,
)
    requires
        worker.last_refreshed.contains_key(worktree) ==> worker.last_refreshed[worktree]
            + 2_000_000_000 <= u64::MAX,
    ensures
        ({
            let after = worker.taken(worktree, now);
            let last = worker.last_refreshed[worktree];
            let soon = worker.last_refreshed.contains_key(worktree) && now < last + 2_000_000_000;
            &&& worker.too_soon(worktree, now) <==> soon
            &&& after == (GitWorkerView { pending: after.pending, ..worker })
            &&& soon ==> after.pending.contains_pair(worktree, (last + 1_700_000_000) as u64)
            &&& !soon ==> !after.pending.contains_key(worktree)
            &&& other != worktree ==> after.pending.contains_key(other)
                == worker.pending.contains_key(other)
            &&& other != worktree && worker.pending.contains_key(other) ==> after.pending[other]
                == worker.pending[other]
        }),
{
}

/// Behind a look its time is remembered of the worktree that was looked at, and nothing else changes.
pub proof fn looks_are_remembered(
    worker: GitWorkerView,
    worktree: PathView,
    now: u64,
    other: PathView,
)
    ensures
        ({
            let after = worker.looked_at(worktree, now);
            &&& after.last_refreshed.contains_pair(worktree, now)
            &&& other != worktree ==> after.last_refreshed.contains_key(other)
                == worker.last_refreshed.contains_key(other)
            &&& other != worktree && worker.last_refreshed.contains_key(other)
                ==> after.last_refreshed[other] == worker.last_refreshed[other]
            &&& after == (GitWorkerView { last_refreshed: after.last_refreshed, ..worker })
        }),
{
}

/// Where events were lost, every worktree with agents is to be looked at again, at once unless it waits
/// already; but not within thirty seconds of the last time, and not where none were lost.
pub proof fn lost_events_are_made_good(worker: GitWorkerView, now: u64, worktree: PathView)
    requires
        now >= 300_000_000,
        now >= worker.last_recovery,
    ensures
        ({
            let after = worker.recovered(now);
            let due = worker.recovery_due && now - worker.last_recovery >= 30_000_000_000;
            &&& !due ==> after == worker
            &&& due ==> !after.recovery_due && after.last_recovery == now
            &&& due && worker.unique_active.contains(worktree) ==> after.pending.contains_key(
                worktree,
            )
            &&& due && worker.unique_active.contains(worktree) && !worker.pending.contains_key(
                worktree,
            ) ==> after.is_ready(worktree, now)
        }),
{
}

/// Where events cannot be relied on, every worktree with agents is polled every two seconds, or every five
/// where only its files are not watched; and else those that are not watched completely every five seconds,
/// which are then watched anew.
pub proof fn unwatched_worktrees_are_polled(
    worker: GitWorkerView,
    now: u64,
    watches_files: bool,
    worktree: PathView,
)
    requires
        now >= 300_000_000,
        now >= worker.last_maintenance,
        worker.unique_active.contains(worktree),
    ensures
        ({
            let after = worker.polled(now, watches_files);
            let rewatched = worker.rewatched(now, watches_files);
            let broken = worker.watcher_degraded || !worker.has_watcher;
            let pause = if broken {
                2_000_000_000int
            } else {
                5_000_000_000
            };
            let due = now - worker.last_maintenance >= pause;
            let complete = worker.watches.complete.contains_key(worktree)
                && worker.watches.complete[worktree];
            &&& !due ==> after == worker && rewatched.len() == 0
            &&& due ==> after.last_maintenance == now
            &&& due && (broken || !watches_files || !complete) ==> after.pending.contains_key(
                worktree,
            ) && (!worker.pending.contains_key(worktree) ==> after.is_ready(worktree, now))
            &&& due && !broken && watches_files && complete ==> after.pending.contains_key(worktree)
                == worker.pending.contains_key(worktree)
            &&& rewatched.contains(worktree) <==> due && !broken && watches_files && !complete
        }),
{
    let keep = |path: PathView| !worker.watches.is_complete(path);
    let list = worker.incomplete();
    let i = choose|i: int| 0 <= i < worker.unique_active.len() && worker.unique_active[i] == worktree;
    if keep(worktree) {
        crate::lists::lemma_kept_stays(worker.unique_active, keep, i);
    }
    if list.contains(worktree) {
        let n = choose|n: int| 0 <= n < list.len() && list[n] == worktree;
        crate::lists::lemma_kept_was_there(worker.unique_active, keep, n);
    }
}

/// Worktrees that are watched completely are audited in turn, one every five seconds, for as long as events can
/// be relied on.
pub proof fn watched_worktrees_are_audited(worker: GitWorkerView, now: u64, watches_files: bool)
    requires
        now >= 300_000_000,
        now >= worker.last_audit,
    ensures
        ({
            let after = worker.audited(now, watches_files);
            let relies = worker.has_watcher && !worker.watcher_degraded && watches_files;
            let due = relies && now - worker.last_audit >= 5_000_000_000
                && worker.unique_active.len() > 0;
            &&& !due ==> after == worker
            &&& due ==> after.last_audit == now
            &&& due && (exists|i: int|
                0 <= i < worker.unique_active.len() && worker.watches.is_complete(
                    #[trigger] worker.unique_active[i],
                )) ==> exists|i: int|
                0 <= i < worker.unique_active.len() && worker.watches.is_complete(
                    #[trigger] worker.unique_active[i],
                ) && after.pending.contains_key(worker.unique_active[i]) && (
                !worker.pending.contains_key(worker.unique_active[i]) ==> after.is_ready(
                    worker.unique_active[i],
                    now,
                ))
        }),
{
    let active = worker.unique_active;
    if worker.audits_now(now, watches_files) && exists|i: int|
        0 <= i < active.len() && worker.watches.is_complete(#[trigger] active[i]) {
        let complete = super::schedule::completeness(active, worker.watches.complete);
        let count = active.len() as int;
        let start = worker.audit_cursor as int % count;
        vstd::arithmetic::div_mod::lemma_mod_bound(worker.audit_cursor as int, count);
        let i = choose|i: int| 0 <= i < active.len() && worker.watches.is_complete(
            #[trigger] active[i],
        );
        assert(complete[i]);
        super::schedule::audits_take_the_nearest(complete, start, 0);
        let turn = if i >= start {
            i - start
        } else {
            i - start + count
        };
        assert(super::schedule::place_at(complete, start, turn) == i) by {
            if i >= start {
                vstd::arithmetic::div_mod::lemma_small_mod(i as nat, count as nat);
            } else {
                vstd::arithmetic::div_mod::lemma_mod_add_multiples_vanish(i, count);
                vstd::arithmetic::div_mod::lemma_small_mod(i as nat, count as nat);
            }
        }
        let at = super::schedule::next_place(complete, start, 0)->0;
        let found = choose|turn: int|
            0 <= turn < complete.len() && at == #[trigger] super::schedule::place_at(
                complete,
                start,
                turn,
            ) && complete[at] && forall|earlier: int|
                0 <= earlier < turn ==> !complete[#[trigger] super::schedule::place_at(
                    complete,
                    start,
                    earlier,
                )];
        vstd::arithmetic::div_mod::lemma_mod_bound(start + found, count);
        assert(worker.watches.is_complete(active[at]));
    }
}

/// Worktrees that were not found are looked for again every thirty seconds: those that were found stay known.
pub proof fn lost_worktrees_are_sought_again(worker: GitWorkerView, now: u64, path: PathView)
    requires
        now >= worker.last_negative_retry,
        worker.roots_by_agent.contains_key(path),
    ensures
        ({
            let after = worker.retried(now);
            let due = now - worker.last_negative_retry >= 30_000_000_000;
            &&& !due ==> after == worker
            &&& due ==> after.last_negative_retry == now
            &&& worker.roots_by_agent[path] is Some ==> after.roots_by_agent.contains_pair(
                path,
                worker.roots_by_agent[path],
            )
            &&& due && worker.roots_by_agent[path] is None ==> !after.roots_by_agent.contains_key(
                path,
            ) && after.active_entries.len() == 0
        }),
{
}

/// A worktree is looked at at once when nothing is known of it, when an agent in it that was idle works again,
/// or when the user turns to it; others wait as they did.
pub proof fn news_are_looked_at_once(
    worker: GitWorkerView,
    previous: Map<PathView, ResolvedGitWorktreeView>,
    missing: Seq<PathView>,
    now: u64,
    worktree: PathView,
)
    requires
        now >= 300_000_000,
    ensures
        ({
            let after = worker.settled(previous, missing, now);
            let known = previous.contains_key(worktree) && worker.resolved.contains_key(worktree);
            let resumes = known && previous[worktree].is_stale && !worker.resolved[worktree].is_stale;
            let turned_to = known && !previous[worktree].is_focused
                && worker.resolved[worktree].is_focused;
            &&& missing.contains(worktree) || resumes || turned_to ==> after.is_ready(worktree, now)
            &&& !missing.contains(worktree) && !resumes && !turned_to
                ==> after.pending.contains_key(worktree) == worker.pending.contains_key(worktree)
            &&& !missing.contains(worktree) && !resumes && !turned_to
                && worker.pending.contains_key(worktree) ==> after.pending[worktree]
                == worker.pending[worktree]
            &&& after == (GitWorkerView { pending: after.pending, ..worker })
        }),
{
}

/// Where directories can be watched, every worktree with agents for which nothing is watched yet is to be
/// watched, and no other.
pub proof fn new_worktrees_are_watched(worker: GitWorkerView, worktree: PathView)
    ensures
        worker.unwatched().contains(worktree) <==> worker.has_watcher && worker.unique_active.contains(
            worktree,
        ) && !worker.watches.by_worktree.contains_key(worktree),
{
    let keep = |path: PathView| !worker.watches.by_worktree.contains_key(path);
    let list = worker.unique_active.filter(keep);
    if worker.unique_active.contains(worktree) && keep(worktree) {
        let i = choose|i: int|
            0 <= i < worker.unique_active.len() && worker.unique_active[i] == worktree;
        crate::lists::lemma_kept_stays(worker.unique_active, keep, i);
    }
    if list.contains(worktree) {
        let n = choose|n: int| 0 <= n < list.len() && list[n] == worktree;
        crate::lists::lemma_kept_was_there(worker.unique_active, keep, n);
    }
}

/// Of a worktree that is dropped nothing is left: it does not wait, when it was looked at is forgotten, and so are its
/// rules. The worktrees that are not dropped keep all of these.
pub proof fn dropped_worktrees_leave_nothing(
    worker: GitWorkerView,
    worktrees: Seq<PathView>,
    worktree: PathView,
)
    ensures
        ({
            let after = worker.dropped_all(worktrees);
            let gone = worktrees.contains(worktree);
            &&& after.pending.contains_key(worktree) == (worker.pending.contains_key(worktree)
                && !gone)
            &&& !gone && worker.pending.contains_key(worktree) ==> after.pending[worktree]
                == worker.pending[worktree]
            &&& after.last_refreshed.contains_key(worktree) == (worker.last_refreshed.contains_key(
                worktree,
            ) && !gone)
            &&& !gone && worker.last_refreshed.contains_key(worktree)
                ==> after.last_refreshed[worktree] == worker.last_refreshed[worktree]
            &&& after.rules.rules.contains_key(worktree) == (worker.rules.rules.contains_key(worktree)
                && !gone)
            &&& !gone && worker.rules.rules.contains_key(worktree) ==> after.rules.rules[worktree]
                == worker.rules.rules[worktree]
            &&& after.rules.known.contains_key(worktree) == (worker.rules.known.contains_key(worktree)
                && !gone)
            &&& !gone && worker.rules.known.contains_key(worktree) ==> after.rules.known[worktree]
                == worker.rules.known[worktree]
        }),
    decreases worktrees.len(),
{
    if worktrees.len() > 0 {
        let shorter = worktrees.drop_last();
        dropped_worktrees_leave_nothing(worker, shorter, worktree);
        assert(worktrees.contains(worktree) == (shorter.contains(worktree) || worktrees.last()
            == worktree)) by {
            if worktrees.last() == worktree {
                assert(worktrees[worktrees.len() - 1] == worktree);
            }
            if shorter.contains(worktree) {
                let i = choose|i: int| 0 <= i < shorter.len() && shorter[i] == worktree;
                assert(worktrees[i] == worktree);
            }
            if worktrees.contains(worktree) && worktrees.last() != worktree {
                let i = choose|i: int| 0 <= i < worktrees.len() && worktrees[i] == worktree;
                assert(shorter[i] == worktree);
            }
        }
    }
}

/// A worker begins with nothing that waits and nothing that is known; events can be relied on if there is a watcher,
/// and events that are lost at once are made good for at once.
pub proof fn workers_begin_with_nothing(now: u64, has_watcher: bool, path: PathView)
    requires
        now >= 30_000_000_000,
    ensures
        ({
            let worker = GitWorkerView::fresh(now, has_watcher);
            let lost = GitWorkerView { recovery_due: true, ..worker };
            &&& !worker.pending.contains_key(path)
            &&& !worker.resolved.contains_key(path)
            &&& !worker.roots_by_agent.contains_key(path)
            &&& !worker.last_refreshed.contains_key(path)
            &&& !super::watches::affected(path, worker.watches.by_path, path)
            &&& !worker.recovery_due
            &&& worker.has_watcher == has_watcher
            &&& worker.watcher_degraded == !has_watcher
            &&& lost.recovered(now).last_recovery == now
            &&& worker.polled(now, true) == worker
        }),
{
}

/// Once worktrees are dropped, just those directories are given up that were watched and are watched for no other
/// worktree.
pub proof fn given_up_directories_serve_no_one(
    worker: GitWorkerView,
    worktrees: Seq<PathView>,
    path: PathView,
)
    requires
        super::watches::all_needed(worker.watches.by_path),
    ensures
        super::watches::all_needed(worker.dropped_all(worktrees).watches.by_path),
        worker.dropped_all(worktrees).watches.by_path.contains_key(path)
            ==> worker.watches.by_path.contains_key(path),
        worker.released_all(worktrees).contains(path) <==> worker.watches.by_path.contains_key(path)
            && !worker.dropped_all(worktrees).watches.by_path.contains_key(path),
    decreases worktrees.len(),
{
    if worktrees.len() > 0 {
        let shorter = worktrees.drop_last();
        let last = worktrees.last();
        given_up_directories_serve_no_one(worker, shorter, path);
        let book = worker.dropped_all(shorter).watches;
        let paths = book.paths_of(last);
        super::watches::lemma_released(book.by_path, paths, last, path);
        super::watches::lemma_unwatched_all(book.by_path, paths, last, path, last);
        let earlier = worker.released_all(shorter);
        let more = super::watches::released(book.by_path, paths, last);
        assert(worker.released_all(worktrees) == earlier + more);
        assert((earlier + more).contains(path) == (earlier.contains(path) || more.contains(path)))
            by {
            if earlier.contains(path) {
                let i = choose|i: int| 0 <= i < earlier.len() && earlier[i] == path;
                assert((earlier + more)[i] == path);
            }
            if more.contains(path) {
                let i = choose|i: int| 0 <= i < more.len() && more[i] == path;
                assert((earlier + more)[earlier.len() + i] == path);
            }
        }
    }
}

/// The worktrees that have to be found are those of the agents of which none is known yet.
pub proof fn unknown_worktrees_are_sought(
    worker: GitWorkerView,
    entries: Seq<GitWorkerPathView>,
    paths: Set<PathView>,
    path: PathView,
)
    requires
        worker.lacks(entries, paths),
    ensures
        paths.contains(path) <==> !worker.roots_by_agent.contains_key(path) && exists|i: int|
            0 <= i < entries.len() && (#[trigger] entries[i]).path == path,
{
    assert(paths.contains(path) == (super::git_cache::entry_paths(entries).contains(path)
        && !worker.roots_by_agent.contains_key(path)));
}

/// Once other agents are taken up, the worktrees that are looked after are those in which an agent works, each once
/// and in order, and nothing is lost of what waits, of what is watched and of when each was looked at.
pub proof fn worktrees_of_agents_are_looked_after(
    worker: GitWorkerView,
    after: GitWorkerView,
    entries: Seq<GitWorkerPathView>,
    found: Map<PathView, Option<PathView>>,
    root: PathView,
)
    requires
        worker.moved_to(after, entries, found),
    ensures
        after.active_entries == entries,
        after.unique_active.contains(root) <==> after.resolved.contains_key(root),
        after.unique_active.no_duplicates(),
        after.pending == worker.pending,
        after.watches == worker.watches,
        after.rules == worker.rules,
        after.last_refreshed == worker.last_refreshed,
        after.recovery_due == worker.recovery_due,
{
    assert(after.unique_active.to_set().contains(root) == after.resolved.dom().contains(root));
}

/// Where every worktree was found, none is sought again, and where some was not, just what was found stays known.
pub proof fn found_worktrees_stay_known(worker: GitWorkerView, now: u64, path: PathView)
    ensures
        worker.roots_by_agent.contains_key(path) && worker.roots_by_agent[path] is Some
            ==> worker.retried(now).roots_by_agent.contains_key(path)
            && worker.retried(now).roots_by_agent[path] == worker.roots_by_agent[path],
        worker.retries(now) && worker.roots_by_agent.contains_key(path)
            && worker.roots_by_agent[path] is None ==> worker.some_homeless()
            && !worker.retried(now).roots_by_agent.contains_key(path),
        (forall|other: PathView| #[trigger]
            worker.roots_by_agent.contains_key(other) ==> worker.roots_by_agent[other] is Some)
            ==> worker.retried(now).roots_by_agent == worker.roots_by_agent && worker.retried(
            now,
        ).active_entries == worker.active_entries,
{
}

} // verus!
