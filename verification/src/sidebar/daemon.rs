//! The daemon's main loop: what is due, what its workers are told, and when it ends.
//!
//! Times are in nanoseconds from a fixed origin, where nothing else is said.
use vstd::prelude::*;

use super::clock::elapsed;
use super::git_cache::{GitWorkerPath, GitWorkerPathView};
use super::github_worker::{GithubWorkerPath, GithubWorkerPathView};
use super::state::{AgentPane, AgentPaneView, SidebarSnapshot, SidebarSnapshotView};
use crate::paths::{FilePath, PathView};
use crate::tables::{KeySet, Table};
use crate::text;
use crate::values::Value;

verus! {

/// How far apart two rounds are at most.
pub const REFRESH_INTERVAL: u64 = 2_000_000_000;

/// How far apart two rounds are at least.
pub const DEBOUNCE_INTERVAL: u64 = 50_000_000;

/// How far apart two stores of the runtime state are at most.
pub const HEARTBEAT_INTERVAL: u64 = 10_000_000_000;

/// How long the daemon stays without clients.
pub const CLIENT_TIMEOUT: u64 = 10_000_000_000;

/// How far apart two signs of life in the log are.
pub const HEALTH_LOG_INTERVAL: u64 = 60_000_000_000;

/// How long nothing may happen until an agent counts as interrupted.
pub const INACTIVITY_TIMEOUT: u64 = 10_000_000_000;

/// How long nothing may happen until an agent counts as stale, in seconds.
pub const STALE_THRESHOLD: u64 = 3600;

/// Whether the user looks at an agent.
pub open spec fn is_focused(agent: AgentPaneView, snapshot: SidebarSnapshotView) -> bool {
    snapshot.active_pane_ids.contains(agent.pane_id) || (agent.window_id.len() > 0
        && snapshot.active_windows.contains((agent.session, agent.window_id)))
}

/// Whether an agent last did something too long ago.
pub open spec fn is_stale(activity_ts: Option<u64>, now_ts: u64) -> bool {
    activity_ts matches Some(then) && super::clock::passed(now_ts, then) > STALE_THRESHOLD
}

/// What the Git worker is told of an agent; `activity_ts` says when it last did something, in
/// seconds.
pub open spec fn git_entry(
    agent: AgentPaneView,
    activity_ts: Option<u64>,
    now_ts: u64,
    snapshot: SidebarSnapshotView,
) -> GitWorkerPathView {
    GitWorkerPathView {
        path: agent.path,
        is_stale: is_stale(activity_ts, now_ts),
        is_focused: is_focused(agent, snapshot),
    }
}

/// What the Git worker is told.
pub fn git_entries(snapshot: &SidebarSnapshot, activities: &Vec<Option<u64>>, now_ts: u64) -> (entries:
    Vec<GitWorkerPath>)
    requires
        activities@.len() == snapshot.agents@.len(),
    ensures
        entries@.len() == snapshot.agents@.len(),
        forall|i: int|
            0 <= i < entries@.len() ==> #[trigger] entries.deep_view()[i] == git_entry(
                snapshot.deep_view().agents[i],
                activities@[i],
                now_ts,
                snapshot.deep_view(),
            ),
        forall|i: int|
            0 <= i < entries@.len() ==> (#[trigger] entries@[i]).path.spelled()
                == snapshot.agents@[i].path.spelled(),
{
    let mut entries: Vec<GitWorkerPath> = Vec::new();
    let ghost view = snapshot.deep_view();
    for i in 0..snapshot.agents.len()
        invariant
            view == snapshot.deep_view(),
            activities@.len() == snapshot.agents@.len(),
            entries@.len() == i,
            forall|j: int|
                0 <= j < i ==> #[trigger] entries.deep_view()[j] == git_entry(
                    view.agents[j],
                    activities@[j],
                    now_ts,
                    view,
                ),
            forall|j: int|
                0 <= j < i ==> (#[trigger] entries@[j]).path.spelled()
                    == snapshot.agents@[j].path.spelled(),
    {
        let agent = &snapshot.agents[i];
        assert(view.agents[i as int] == agent.deep_view());
        let stale = match activities[i] {
            Some(then) => elapsed(now_ts, then) > STALE_THRESHOLD,
            None => false,
        };
        let in_window = if agent.window_id.as_str().is_empty() {
            false
        } else {
            snapshot.active_windows.contains(&(agent.session.dup(), agent.window_id.dup()))
        };
        let focused = snapshot.active_pane_ids.contains(&agent.pane_id) || in_window;
        let ghost held = entries.deep_view();
        let entry = GitWorkerPath { path: agent.path.dup(), is_stale: stale, is_focused: focused };
        let ghost entry_view = entry.deep_view();
        entries.push(entry);
        assert(entries.deep_view() =~= held.push(entry_view));
    }
    entries
}

/// What the GitHub worker is told of an agent: nothing where its branch is not known.
pub open spec fn github_entry(agent: AgentPaneView, snapshot: SidebarSnapshotView) -> Option<
    GithubWorkerPathView,
> {
    if snapshot.git_statuses.contains_key(agent.path) {
        match snapshot.git_statuses[agent.path].branch {
            Some(branch) => Some(GithubWorkerPathView { path: agent.path, branch }),
            None => None,
        }
    } else {
        None
    }
}

/// What the GitHub worker is told of agents, in order.
pub open spec fn github_entries_of(
    agents: Seq<AgentPaneView>,
    snapshot: SidebarSnapshotView,
) -> Seq<GithubWorkerPathView>
    decreases agents.len(),
{
    if agents.len() == 0 {
        Seq::empty()
    } else {
        let before = github_entries_of(agents.drop_last(), snapshot);
        match github_entry(agents.last(), snapshot) {
            Some(entry) => before.push(entry),
            None => before,
        }
    }
}

/// How the directories are spelled that the GitHub worker is told of, in order.
pub open spec fn github_spellings(
    agents: Seq<AgentPane>,
    snapshot: SidebarSnapshotView,
) -> Seq<Seq<u8>>
    decreases agents.len(),
{
    if agents.len() == 0 {
        Seq::empty()
    } else {
        let before = github_spellings(agents.drop_last(), snapshot);
        if github_entry(agents.last().deep_view(), snapshot) is Some {
            before.push(agents.last().path.spelled())
        } else {
            before
        }
    }
}

/// What the GitHub worker is told.
pub fn github_entries(snapshot: &SidebarSnapshot) -> (entries: Vec<GithubWorkerPath>)
    ensures
        entries.deep_view() == github_entries_of(
            snapshot.deep_view().agents,
            snapshot.deep_view(),
        ),
        entries@.map_values(|entry: GithubWorkerPath| entry.path.spelled()) == github_spellings(
            snapshot.agents@,
            snapshot.deep_view(),
        ),
{
    let mut entries: Vec<GithubWorkerPath> = Vec::new();
    let ghost spelled = |entry: GithubWorkerPath| entry.path.spelled();
    let ghost view = snapshot.deep_view();
    let ghost all = view.agents;
    assert(all.take(0) =~= Seq::<AgentPaneView>::empty());
    assert(entries.deep_view() =~= Seq::<GithubWorkerPathView>::empty());
    assert(snapshot.agents@.take(0) =~= Seq::<AgentPane>::empty());
    assert(entries@.map_values(spelled) =~= Seq::<Seq<u8>>::empty());
    for i in 0..snapshot.agents.len()
        invariant
            view == snapshot.deep_view(),
            all == snapshot.agents.deep_view(),
            entries.deep_view() == github_entries_of(all.take(i as int), view),
            spelled == (|entry: GithubWorkerPath| entry.path.spelled()),
            entries@.map_values(spelled) == github_spellings(
                snapshot.agents@.take(i as int),
                view,
            ),
    {
        let agent = &snapshot.agents[i];
        let ghost held = entries.deep_view();
        let ghost held_spelled = entries@.map_values(spelled);
        proof {
            let longer = snapshot.agents@.take(i + 1);
            assert(longer.drop_last() =~= snapshot.agents@.take(i as int));
            assert(longer.last() == *agent);
        }
        assert(all.take(i + 1).drop_last() =~= all.take(i as int));
        assert(all.take(i + 1).last() == agent.deep_view());
        if let Some(status) = snapshot.git_statuses.get(&agent.path) {
            if let Some(branch) = &status.branch {
                let entry = GithubWorkerPath { path: agent.path.dup(), branch: branch.dup() };
                let ghost entry_view = entry.deep_view();
                entries.push(entry);
                assert(entries.deep_view() =~= held.push(entry_view));
                assert(entries@.map_values(spelled) =~= held_spelled.push(agent.path.spelled()));
            }
        }
    }
    assert(all.take(all.len() as int) =~= all);
    assert(snapshot.agents@.take(snapshot.agents@.len() as int) =~= snapshot.agents@);
    entries
}

/// The directories in which agents work.
pub open spec fn agent_dirs(agents: Seq<AgentPaneView>) -> Set<PathView> {
    Set::new(
        |path: PathView|
            exists|i: int| 0 <= i < agents.len() && (#[trigger] agents[i]).path == path,
    )
}

/// The directories with the configuration of the projects that agents work on, as they are known.
pub open spec fn config_dirs_of(
    agents: Seq<AgentPaneView>,
    known: Map<PathView, PathView>,
) -> Set<PathView> {
    Set::new(
        |dir: PathView|
            exists|i: int|
                0 <= i < agents.len() && known.contains_key((#[trigger] agents[i]).path)
                    && known[agents[i].path] == dir,
    )
}

/// The names of the panes of agents, with spaces between them.
pub open spec fn joined_ids(agents: Seq<AgentPaneView>) -> Seq<char>
    decreases agents.len(),
{
    if agents.len() == 0 {
        Seq::empty()
    } else if agents.len() == 1 {
        agents[0].pane_id
    } else {
        joined_ids(agents.drop_last()).push(' ') + agents.last().pane_id
    }
}

fn join_ids(agents: &Vec<AgentPane>) -> (list: String)
    ensures
        list@ == joined_ids(agents.deep_view()),
{
    let mut list = String::new();
    let ghost all = agents.deep_view();
    assert(all.take(0) =~= Seq::<AgentPaneView>::empty());
    assert(list@ =~= Seq::<char>::empty());
    for i in 0..agents.len()
        invariant
            all == agents.deep_view(),
            list@ == joined_ids(all.take(i as int)),
    {
        assert(all.take(i + 1).drop_last() =~= all.take(i as int));
        assert(all.take(i + 1).last() == agents@[i as int].deep_view());
        let ghost held = list@;
        if i > 0 {
            list.push(' ');
        }
        list.append(agents[i].pane_id.as_str());
        proof {
            if i == 0 {
                assert(all.take(1)[0] == agents@[0].deep_view());
                assert(list@ =~= agents@[0].pane_id@);
            }
        }
    }
    assert(all.take(all.len() as int) =~= all);
    list
}

/// What the option with the agents is to hold.
pub enum AgentListChange {
    Show(String),
    Clear,
}

/// The state of the main loop.
pub struct DaemonLoop {
    last_refresh: u64,
    last_client_seen: u64,
    last_health_log: u64,
    last_runtime_write: u64,
    dirty_pending: bool,
    last_agent_list: String,
    project_config_cache: Table<FilePath, FilePath>,
    last_config_dirs: KeySet<FilePath>,
}

/// The state of the main loop.
#[verifier::ext_equal]
pub struct DaemonView {
    pub last_refresh: u64,
    pub last_client_seen: u64,
    pub last_health_log: u64,
    pub last_runtime_write: u64,
    /// Whether a round was asked for.
    pub dirty_pending: bool,
    pub last_agent_list: Seq<char>,
    /// The directory with the configuration of the project that is worked on in a directory.
    pub project_config_cache: Map<PathView, PathView>,
    pub last_config_dirs: Set<PathView>,
}

impl DeepView for DaemonLoop {
    type V = DaemonView;

    closed spec fn deep_view(&self) -> DaemonView {
        DaemonView {
            last_refresh: self.last_refresh,
            last_client_seen: self.last_client_seen,
            last_health_log: self.last_health_log,
            last_runtime_write: self.last_runtime_write,
            dirty_pending: self.dirty_pending,
            last_agent_list: self.last_agent_list@,
            project_config_cache: self.project_config_cache.deep_view(),
            last_config_dirs: self.last_config_dirs.deep_view(),
        }
    }
}

impl DaemonView {
    /// Whether a round is due; `dirty` says whether one was asked for just now.
    pub open spec fn is_due(self, dirty: bool, now: u64) -> bool {
        let since = super::clock::passed(now, self.last_refresh);
        ((self.dirty_pending || dirty) && since >= DEBOUNCE_INTERVAL) || since >= REFRESH_INTERVAL
    }

    /// With a round begun, if one is due.
    pub open spec fn begun(self, dirty: bool, now: u64) -> DaemonView {
        if self.is_due(dirty, now) {
            DaemonView { dirty_pending: false, last_refresh: now, ..self }
        } else {
            DaemonView { dirty_pending: self.dirty_pending || dirty, ..self }
        }
    }

    /// How long the loop waits.
    pub open spec fn waits(self, now: u64) -> u64 {
        super::clock::passed(
            if self.dirty_pending {
                DEBOUNCE_INTERVAL
            } else {
                REFRESH_INTERVAL
            },
            super::clock::passed(now, self.last_refresh),
        )
    }

    /// What is known of the projects that agents work on, with what was found.
    pub open spec fn known_projects(
        self,
        agents: Seq<AgentPaneView>,
        found: Map<PathView, PathView>,
    ) -> Map<PathView, PathView> {
        found.union_prefer_right(self.project_config_cache).restrict(agent_dirs(agents))
    }
}

/// How the directories of agents are spelled.
pub open spec fn agent_dir_spellings(agents: Seq<AgentPane>) -> Set<Seq<u8>> {
    Set::new(
        |name: Seq<u8>|
            exists|i: int| 0 <= i < agents.len() && (#[trigger] agents[i]).path.spelled() == name,
    )
}

impl DaemonLoop {
    /// How the directories with configuration are spelled that are known.
    pub closed spec fn dir_spellings(&self) -> Set<Seq<u8>> {
        crate::paths::spellings(self.project_config_cache.values())
    }

    /// A loop that begins now.
    pub fn new(now: u64) -> (daemon: Self)
        ensures
            daemon.dir_spellings() == Set::<Seq<u8>>::empty(),
            daemon.deep_view() == (DaemonView {
                last_refresh: now,
                last_client_seen: now,
                last_health_log: now,
                last_runtime_write: now,
                dirty_pending: false,
                last_agent_list: Seq::empty(),
                project_config_cache: Map::empty(),
                last_config_dirs: Set::empty(),
            }),
    {
        let daemon = DaemonLoop {
            last_refresh: now,
            last_client_seen: now,
            last_health_log: now,
            last_runtime_write: now,
            dirty_pending: false,
            last_agent_list: String::new(),
            project_config_cache: Table::new(),
            last_config_dirs: KeySet::new(),
        };
        assert(daemon.last_agent_list@ =~= Seq::<char>::empty());
        assert(daemon.dir_spellings() =~= Set::<Seq<u8>>::empty());
        daemon
    }

    /// Begins a round, if one is due. Requests for rounds are gathered: however many there are, a
    /// round does not begin sooner behind another than the debounce interval says.
    pub fn begin(&mut self, dirty: bool, now: u64) -> (due: bool)
        ensures
            final(self).dir_spellings() == old(self).dir_spellings(),
            due == old(self).deep_view().is_due(dirty, now),
            final(self).deep_view() == old(self).deep_view().begun(dirty, now),
    {
        if dirty {
            self.dirty_pending = true;
        }
        let since: u64 = elapsed(now, self.last_refresh);
        if (self.dirty_pending && since >= DEBOUNCE_INTERVAL) || since >= REFRESH_INTERVAL {
            self.dirty_pending = false;
            self.last_refresh = now;
            true
        } else {
            false
        }
    }

    /// Whether the runtime state is to be stored though nothing changed.
    pub fn heartbeat_due(&self, now: u64) -> (due: bool)
        ensures
            due == (super::clock::passed(now, self.deep_view().last_runtime_write)
                >= HEARTBEAT_INTERVAL),
            due <==> now >= self.deep_view().last_runtime_write + 10_000_000_000,
    {
        elapsed(now, self.last_runtime_write) >= HEARTBEAT_INTERVAL
    }

    /// Notes that the runtime state was stored.
    pub fn note_runtime_write(&mut self, now: u64)
        ensures
            final(self).dir_spellings() == old(self).dir_spellings(),
            final(self).deep_view() == (DaemonView {
                last_runtime_write: now,
                ..old(self).deep_view()
            }),
    {
        self.last_runtime_write = now;
    }

    /// The directories of agents whose project is not known, so that the host has to find it. What
    /// is not found is looked for again in the next round.
    pub fn unknown_projects(&self, agents: &Vec<AgentPane>) -> (paths: KeySet<FilePath>)
        ensures
            forall|path: PathView| #[trigger]
                paths.deep_view().contains(path) == (agent_dirs(agents.deep_view()).contains(path)
                    && !self.deep_view().project_config_cache.contains_key(path)),
            crate::paths::spellings(paths.members()) <= agent_dir_spellings(agents@),
    {
        let mut paths: KeySet<FilePath> = KeySet::new();
        let ghost all = agents.deep_view();
        let ghost known = self.project_config_cache.deep_view();
        for i in 0..agents.len()
            invariant
                all == agents.deep_view(),
                known == self.project_config_cache.deep_view(),
                forall|path: PathView| #[trigger]
                    paths.deep_view().contains(path) ==> agent_dirs(all).contains(path)
                        && !known.contains_key(path),
                forall|j: int|
                    0 <= j < i && !known.contains_key((#[trigger] all[j]).path)
                        ==> paths.deep_view().contains(all[j].path),
                crate::paths::spellings(paths.members()) <= agent_dir_spellings(agents@),
        {
            assert(all[i as int] == agents@[i as int].deep_view());
            if !self.project_config_cache.contains_key(&agents[i].path) {
                assert(agent_dirs(all).contains(all[i as int].path));
                paths.insert(agents[i].path.dup());
            }
        }
        assert forall|path: PathView|
            agent_dirs(all).contains(path) && !known.contains_key(path) implies
            #[trigger] paths.deep_view().contains(path) by {
            let j = choose|j: int| 0 <= j < all.len() && (#[trigger] all[j]).path == path;
            assert(paths.deep_view().contains(all[j].path));
        }
        paths
    }

    /// Takes the projects that the host found, and gives the directories with configuration that
    /// are to be watched, if these are others than before.
    pub fn take_projects(&mut self, agents: &Vec<AgentPane>, found: &Table<FilePath, FilePath>) -> (dirs:
        Option<KeySet<FilePath>>)
        ensures
            ({
                let before = old(self).deep_view();
                let known = before.known_projects(agents.deep_view(), found.deep_view());
                let wanted = config_dirs_of(agents.deep_view(), known);
                &&& final(self).deep_view() == (DaemonView {
                    project_config_cache: known,
                    last_config_dirs: wanted,
                    ..before
                })
                &&& dirs.deep_view() == (if wanted != before.last_config_dirs {
                    Some(wanted)
                } else {
                    None
                })
            }),
            ({
                let names = old(self).dir_spellings().union(
                    crate::paths::spellings(found.values()),
                );
                &&& final(self).dir_spellings() <= names
                &&& dirs matches Some(dirs) ==> crate::paths::spellings(dirs.members()) <= names
            }),
    {
        let ghost names = self.dir_spellings().union(crate::paths::spellings(found.values()));
        let ghost before = self.deep_view();
        let ghost all = agents.deep_view();
        let ghost known = before.known_projects(all, found.deep_view());
        let ghost wanted = config_dirs_of(all, known);
        let mut cache: Table<FilePath, FilePath> = Table::new();
        let mut dirs: KeySet<FilePath> = KeySet::new();
        for i in 0..agents.len()
            invariant
                before == self.deep_view(),
                all == agents.deep_view(),
                known == before.known_projects(all, found.deep_view()),
                wanted == config_dirs_of(all, known),
                forall|path: PathView| #[trigger]
                    cache.deep_view().contains_key(path) ==> known.contains_key(path)
                        && cache.deep_view()[path] == known[path],
                forall|j: int|
                    0 <= j < i && known.contains_key((#[trigger] all[j]).path)
                        ==> cache.deep_view().contains_key(all[j].path),
                forall|dir: PathView| #[trigger]
                    dirs.deep_view().contains(dir) ==> wanted.contains(dir),
                forall|j: int|
                    0 <= j < i && known.contains_key((#[trigger] all[j]).path)
                        ==> dirs.deep_view().contains(known[all[j].path]),
                names == self.dir_spellings().union(crate::paths::spellings(found.values())),
                crate::paths::spellings(cache.values()) <= names,
                crate::paths::spellings(dirs.members()) <= names,
        {
            let path = &agents[i].path;
            assert(all[i as int] == agents@[i as int].deep_view());
            assert(agent_dirs(all).contains(all[i as int].path));
            let dir = match self.project_config_cache.get(path) {
                Some(dir) => Some(dir.dup()),
                None => match found.get(path) {
                    Some(dir) => Some(dir.dup()),
                    None => None,
                },
            };
            assert(dir matches Some(dir) ==> names.contains(dir.spelled()));
            if let Some(dir) = dir {
                assert(known.contains_key(all[i as int].path));
                assert(wanted.contains(known[all[i as int].path]));
                dirs.insert(dir.dup());
                cache.insert(path.dup(), dir);
            }
        }
        proof {
            assert forall|path: PathView| known.contains_key(path) implies
                #[trigger] cache.deep_view().contains_key(path) by {
                let j = choose|j: int| 0 <= j < all.len() && (#[trigger] all[j]).path == path;
                assert(cache.deep_view().contains_key(all[j].path));
            }
            assert(cache.deep_view() =~= known);
            assert forall|dir: PathView| wanted.contains(dir) implies
                #[trigger] dirs.deep_view().contains(dir) by {
                let j = choose|j: int|
                    0 <= j < all.len() && known.contains_key((#[trigger] all[j]).path)
                        && known[all[j].path] == dir;
                assert(dirs.deep_view().contains(known[all[j].path]));
            }
            assert(dirs.deep_view() =~= wanted);
        }
        self.project_config_cache = cache;
        if dirs.same(&self.last_config_dirs) {
            None
        } else {
            self.last_config_dirs = dirs.dup();
            Some(dirs)
        }
    }

    /// What the option with the agents is to hold, if that is something else than before.
    pub fn take_agent_list(&mut self, agents: &Vec<AgentPane>) -> (change: Option<AgentListChange>)
        ensures
            final(self).dir_spellings() == old(self).dir_spellings(),
            ({
                let before = old(self).deep_view();
                let list = joined_ids(agents.deep_view());
                &&& final(self).deep_view() == (DaemonView { last_agent_list: list, ..before })
                &&& match change {
                    Some(AgentListChange::Show(value)) => list != before.last_agent_list
                        && list.len() > 0 && value@ == list,
                    Some(AgentListChange::Clear) => list != before.last_agent_list && list.len()
                        == 0,
                    None => list == before.last_agent_list,
                }
            }),
    {
        let list = join_ids(agents);
        if text::same_text(list.as_str(), self.last_agent_list.as_str()) {
            return None;
        }
        let change = if list.as_str().is_empty() {
            AgentListChange::Clear
        } else {
            AgentListChange::Show(list.dup())
        };
        self.last_agent_list = list;
        Some(change)
    }

    /// Notes how many clients there are, and says whether the daemon is to end: when there has been
    /// none for too long.
    pub fn note_clients(&mut self, clients: usize, now: u64) -> (exit: bool)
        ensures
            final(self).dir_spellings() == old(self).dir_spellings(),
            exit == (clients == 0 && super::clock::passed(
                now,
                old(self).deep_view().last_client_seen,
            ) > CLIENT_TIMEOUT),
            exit <==> clients == 0 && now > old(self).deep_view().last_client_seen + 10_000_000_000,
            final(self).deep_view() == (if clients > 0 {
                DaemonView { last_client_seen: now, ..old(self).deep_view() }
            } else {
                old(self).deep_view()
            }),
    {
        if clients > 0 {
            self.last_client_seen = now;
            false
        } else {
            elapsed(now, self.last_client_seen) > CLIENT_TIMEOUT
        }
    }

    /// Whether a sign of life is to be logged.
    pub fn take_health_log(&mut self, now: u64) -> (due: bool)
        ensures
            final(self).dir_spellings() == old(self).dir_spellings(),
            due == (super::clock::passed(now, old(self).deep_view().last_health_log)
                >= HEALTH_LOG_INTERVAL),
            due <==> now >= old(self).deep_view().last_health_log + 60_000_000_000,
            final(self).deep_view() == (if due {
                DaemonView { last_health_log: now, ..old(self).deep_view() }
            } else {
                old(self).deep_view()
            }),
    {
        if elapsed(now, self.last_health_log) >= HEALTH_LOG_INTERVAL {
            self.last_health_log = now;
            true
        } else {
            false
        }
    }

    /// How long to wait for something to happen.
    pub fn wait(&self, now: u64) -> (time: u64)
        ensures
            time == self.deep_view().waits(now),
    {
        let interval: u64 = if self.dirty_pending {
            DEBOUNCE_INTERVAL
        } else {
            REFRESH_INTERVAL
        };
        elapsed(interval, elapsed(now, self.last_refresh))
    }
}

/// A signal to the daemon.
#[derive(Debug, Clone, Copy, PartialEq, Eq, Structural)]
pub enum Signal {
    /// To end.
    Terminate,
    /// To refresh.
    User,
    Other,
}

/// What a signal leads to.
#[derive(Debug, Clone, Copy, PartialEq, Eq, Structural)]
pub struct SignalEffect {
    /// The daemon is to end.
    pub terminate: bool,
    /// A round is asked for.
    pub dirty: bool,
    /// The main loop is to be woken.
    pub wake: bool,
    /// No more signals are waited for.
    pub stop: bool,
}

/// What a signal leads to.
pub fn on_signal(signal: Signal) -> (effect: SignalEffect)
    ensures
        effect == (SignalEffect {
            terminate: signal == Signal::Terminate,
            dirty: signal == Signal::User,
            wake: signal != Signal::Other,
            stop: signal == Signal::Terminate,
        }),
{
    match signal {
        Signal::Terminate => SignalEffect { terminate: true, dirty: false, wake: true, stop: true },
        Signal::User => SignalEffect { terminate: false, dirty: true, wake: true, stop: false },
        Signal::Other => SignalEffect { terminate: false, dirty: false, wake: false, stop: false },
    }
}

/// However often rounds are asked for, two of them are at least the debounce interval apart.
pub proof fn rounds_are_spaced(daemon: DaemonView, dirty: bool, now: u64, again: bool, then: u64)
    requires
        daemon.is_due(dirty, now),
        now <= then,
        daemon.begun(dirty, now).is_due(again, then),
    ensures
        then >= now + DEBOUNCE_INTERVAL,
{
}

/// A round that was asked for is not forgotten: when the wait is over it is due.
pub proof fn requests_are_served(daemon: DaemonView, now: u64, then: u64)
    requires
        daemon.dirty_pending,
        now >= daemon.last_refresh,
        then >= now + daemon.waits(now),
    ensures
        daemon.is_due(false, then),
{
}

/// Without any request a round comes when the wait is over.
pub proof fn rounds_come_by_themselves(daemon: DaemonView, now: u64, then: u64)
    requires
        !daemon.dirty_pending,
        now >= daemon.last_refresh,
        then >= now + daemon.waits(now),
    ensures
        daemon.is_due(false, then),
{
}

/// A round is due once two seconds have passed since the last one began, and where one was asked for, now or
/// before, once a twentieth of a second has. A request that comes too early is kept, and a round that begins
/// serves all of them.
pub proof fn rounds_come_when_asked(daemon: DaemonView, dirty: bool, now: u64)
    requires
        now >= daemon.last_refresh,
    ensures
        ({
            let asked = daemon.dirty_pending || dirty;
            let since = now - daemon.last_refresh;
            let due = since >= 2_000_000_000 || (asked && since >= 50_000_000);
            let after = daemon.begun(dirty, now);
            &&& daemon.is_due(dirty, now) <==> due
            &&& due ==> after == (DaemonView { dirty_pending: false, last_refresh: now, ..daemon })
            &&& !due ==> after == (DaemonView { dirty_pending: asked, ..daemon })
        }),
{
}

/// The loop does not wait longer than until the next round is due: two seconds behind the last one, or a
/// twentieth of a second where one was asked for.
pub proof fn waits_end_with_rounds(daemon: DaemonView, now: u64)
    requires
        now >= daemon.last_refresh,
    ensures
        ({
            let pause = if daemon.dirty_pending {
                50_000_000int
            } else {
                2_000_000_000
            };
            let since = now - daemon.last_refresh;
            daemon.waits(now) == (if since < pause {
                pause - since
            } else {
                0
            })
        }),
{
}

/// The Git worker is told of an agent that it is stale if it last did something more than an hour ago, and that
/// the user looks at it if its pane is an active one or its window is an active one of its session.
pub proof fn git_worker_is_told(
    agent: AgentPaneView,
    activity_ts: Option<u64>,
    now_ts: u64,
    snapshot: SidebarSnapshotView,
)
    ensures
        ({
            let entry = git_entry(agent, activity_ts, now_ts, snapshot);
            &&& entry.path == agent.path
            &&& activity_ts is None ==> !entry.is_stale
            &&& activity_ts matches Some(then) ==> (entry.is_stale <==> now_ts > then + 3600)
            &&& snapshot.active_pane_ids.contains(agent.pane_id) ==> entry.is_focused
            &&& !snapshot.active_pane_ids.contains(agent.pane_id) && agent.window_id.len() == 0
                ==> !entry.is_focused
            &&& !snapshot.active_pane_ids.contains(agent.pane_id) && agent.window_id.len() > 0 ==> (
            entry.is_focused <==> snapshot.active_windows.contains(
                (agent.session, agent.window_id),
            ))
        }),
{
}

/// The GitHub worker is told of just those agents whose branch is known, each with that branch and in the order
/// of the agents.
pub proof fn github_worker_is_told(
    agents: Seq<AgentPaneView>,
    agent: AgentPaneView,
    snapshot: SidebarSnapshotView,
)
    ensures
        github_entries_of(Seq::empty(), snapshot) == Seq::<GithubWorkerPathView>::empty(),
        ({
            let known = snapshot.git_statuses.contains_key(agent.path)
                && snapshot.git_statuses[agent.path].branch is Some;
            let before = github_entries_of(agents, snapshot);
            let after = github_entries_of(agents.push(agent), snapshot);
            &&& known ==> after == before.push(
                GithubWorkerPathView {
                    path: agent.path,
                    branch: snapshot.git_statuses[agent.path].branch->0,
                },
            )
            &&& !known ==> after == before
        }),
{
    assert(agents.push(agent).drop_last() =~= agents);
}

/// The project of an agent is the one that is known, or else the one that was found; those of directories where no
/// agent works any more are forgotten. The configurations that are watched are those of these projects.
pub proof fn projects_are_those_of_agents(
    daemon: DaemonView,
    agents: Seq<AgentPaneView>,
    found: Map<PathView, PathView>,
    path: PathView,
    dir: PathView,
)
    ensures
        ({
            let known = daemon.known_projects(agents, found);
            let works = exists|i: int| 0 <= i < agents.len() && (#[trigger] agents[i]).path == path;
            let cached = daemon.project_config_cache.contains_key(path);
            &&& !works ==> !known.contains_key(path)
            &&& works && cached ==> known.contains_pair(path, daemon.project_config_cache[path])
            &&& works && !cached && found.contains_key(path) ==> known.contains_pair(
                path,
                found[path],
            )
            &&& works && !cached && !found.contains_key(path) ==> !known.contains_key(path)
            &&& known.contains_key(path) ==> config_dirs_of(agents, known).contains(known[path])
            &&& config_dirs_of(agents, known).contains(dir) ==> exists|other: PathView| #[trigger]
                known.contains_key(other) && known[other] == dir
        }),
{
    let known = daemon.known_projects(agents, found);
    if known.contains_key(path) {
        let i = choose|i: int| 0 <= i < agents.len() && (#[trigger] agents[i]).path == path;
        assert(known.contains_key(agents[i].path));
    }
    if config_dirs_of(agents, known).contains(dir) {
        let i = choose|i: int|
            0 <= i < agents.len() && known.contains_key((#[trigger] agents[i]).path)
                && known[agents[i].path] == dir;
        assert(known.contains_key(agents[i].path));
    }
}

/// The list of agents has the names of their panes, in order and with one space between two.
pub proof fn lists_name_all_panes(agents: Seq<AgentPaneView>, agent: AgentPaneView)
    ensures
        joined_ids(Seq::empty()) == Seq::<char>::empty(),
        joined_ids(seq![agent]) == agent.pane_id,
        agents.len() > 0 ==> joined_ids(agents.push(agent)) == joined_ids(agents) + seq![' ']
            + agent.pane_id,
{
    assert(agents.push(agent).drop_last() =~= agents);
    if agents.len() > 0 {
        assert(joined_ids(agents.push(agent)) =~= joined_ids(agents) + seq![' '] + agent.pane_id);
    }
}

} // verus!
