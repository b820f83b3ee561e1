//! One round of the daemon, without any input or output.
use vstd::prelude::*;

use super::github_worker::{CheckPathEntry, PrPathEntry};
use super::inactivity::InactivityTracker;
use super::state::{
    AgentPane, AgentPaneView, AgentStatus, GitStatus, SidebarFilterMode, SidebarLayoutMode,
    SidebarSnapshot, SidebarSnapshotView,
};
use crate::config::SidebarPosition;
use crate::paths::FilePath;
use crate::tables::{KeySet, Table};
use crate::values::Value;

verus! {

/// What was seen of tmux.
pub struct TmuxState {
    pub window_statuses: Table<String, Option<String>>,
    /// Sessions and windows.
    pub active_windows: KeySet<(String, String)>,
    pub pane_window_ids: Table<String, String>,
    pub pane_window_indexes: Table<String, u32>,
    pub active_pane_ids: KeySet<String>,
    pub window_pane_counts: Table<String, usize>,
}

/// What a snapshot is built from besides the agents.
pub struct Scene {
    pub tmux_state: TmuxState,
    pub position: SidebarPosition,
    pub layout_mode: SidebarLayoutMode,
    pub filter_mode: SidebarFilterMode,
    /// The order of the agents, as it is written.
    pub sort: Option<String>,
    pub git_statuses: Table<FilePath, GitStatus>,
    pub pr_statuses: Table<FilePath, PrPathEntry>,
    pub check_statuses: Table<FilePath, CheckPathEntry>,
    pub sleeping_pane_ids: KeySet<String>,
}

/// What was gathered for a round.
pub struct TickInput {
    pub agents: Vec<AgentPane>,
    /// What panes show.
    pub captured_panes: Table<String, String>,
    /// The time, in nanoseconds from a fixed origin.
    pub now: u64,
    /// The time of day, in seconds.
    pub now_ts: u64,
    pub scene: Scene,
}

/// Times to store for an agent that resumed.
pub struct AgentWrite {
    pub pane_id: String,
    pub resumed_ts: u64,
}

/// Times to store for an agent that resumed.
#[verifier::ext_equal]
pub struct AgentWriteView {
    pub pane_id: Seq<char>,
    pub resumed_ts: u64,
}

impl DeepView for AgentWrite {
    type V = AgentWriteView;

    open spec fn deep_view(&self) -> AgentWriteView {
        AgentWriteView { pane_id: self.pane_id@, resumed_ts: self.resumed_ts }
    }
}

/// What is stored for other programs to see.
pub struct RuntimeState {
    pub interrupted_pane_ids: KeySet<String>,
    pub updated_ts: u64,
}

/// What a round came to.
pub struct TickOutput {
    pub snapshot: SidebarSnapshot,
    pub agent_writes: Vec<AgentWrite>,
    pub runtime_write: Option<RuntimeState>,
    /// The panes of the agents that are interrupted now.
    pub next_interrupted: KeySet<String>,
}

/// Whether an agent was interrupted and is not any more.
pub open spec fn is_resumed(
    agent: AgentPaneView,
    last: Set<Seq<char>>,
    interrupted: Set<Seq<char>>,
) -> bool {
    last.contains(agent.pane_id) && !interrupted.contains(agent.pane_id)
}

/// An agent, with its times begun anew if it resumed.
pub open spec fn with_fresh_times(
    agent: AgentPaneView,
    last: Set<Seq<char>>,
    interrupted: Set<Seq<char>>,
    now_ts: u64,
) -> AgentPaneView {
    if is_resumed(agent, last, interrupted) {
        AgentPaneView { status_ts: Some(now_ts), activity_ts: Some(now_ts), ..agent }
    } else {
        agent
    }
}

/// Agents, with the times begun anew of those that resumed.
pub open spec fn with_all_fresh_times(
    agents: Seq<AgentPaneView>,
    last: Set<Seq<char>>,
    interrupted: Set<Seq<char>>,
    now_ts: u64,
) -> Seq<AgentPaneView> {
    agents.map_values(
        |agent: AgentPaneView| with_fresh_times(agent, last, interrupted, now_ts),
    )
}

/// The times to store: those of the agents that resumed, in order.
pub open spec fn writes_of(
    agents: Seq<AgentPaneView>,
    last: Set<Seq<char>>,
    interrupted: Set<Seq<char>>,
    now_ts: u64,
) -> Seq<AgentWriteView>
    decreases agents.len(),
{
    if agents.len() == 0 {
        Seq::empty()
    } else {
        let before = writes_of(agents.drop_last(), last, interrupted, now_ts);
        let agent = agents.last();
        if is_resumed(agent, last, interrupted) {
            before.push(AgentWriteView { pane_id: agent.pane_id, resumed_ts: now_ts })
        } else {
            before
        }
    }
}

/// The value of a key, if it has one.
pub open spec fn lookup<K, V>(map: Map<K, V>, key: K) -> Option<V> {
    if map.contains_key(key) {
        Some(map[key])
    } else {
        None
    }
}

/// Begins the times anew of the agents that resumed.
fn resume_agents(
    agents: Vec<AgentPane>,
    last: &KeySet<String>,
    interrupted: &KeySet<String>,
    now_ts: u64,
) -> (result: (Vec<AgentPane>, Vec<AgentWrite>))
    ensures
        result.0.deep_view() == with_all_fresh_times(
            agents.deep_view(),
            last.deep_view(),
            interrupted.deep_view(),
            now_ts,
        ),
        result.1.deep_view() == writes_of(
            agents.deep_view(),
            last.deep_view(),
            interrupted.deep_view(),
            now_ts,
        ),
{
    let ghost all = agents.deep_view();
    let ghost before = last.deep_view();
    let ghost now = interrupted.deep_view();
    let mut changed: Vec<AgentPane> = Vec::new();
    let mut writes: Vec<AgentWrite> = Vec::new();
    assert(all.take(0) =~= Seq::<AgentPaneView>::empty());
    assert(changed.deep_view() =~= with_all_fresh_times(all.take(0), before, now, now_ts));
    assert(writes.deep_view() =~= Seq::<AgentWriteView>::empty());
    for i in 0..agents.len()
        invariant
            all == agents.deep_view(),
            before == last.deep_view(),
            now == interrupted.deep_view(),
            changed.deep_view() == with_all_fresh_times(all.take(i as int), before, now, now_ts),
            writes.deep_view() == writes_of(all.take(i as int), before, now, now_ts),
    {
        let ghost agent_view = all[i as int];
        let ghost held = changed.deep_view();
        let ghost written = writes.deep_view();
        assert(all.take(i + 1).drop_last() =~= all.take(i as int));
        assert(all.take(i + 1).last() == agent_view);
        let mut agent = agents[i].dup();
        if last.contains(&agent.pane_id) && !interrupted.contains(&agent.pane_id) {
            agent.status_ts = Some(now_ts);
            agent.activity_ts = Some(now_ts);
            writes.push(AgentWrite { pane_id: agent.pane_id.dup(), resumed_ts: now_ts });
            assert(writes.deep_view() =~= written.push(
                AgentWriteView { pane_id: agent_view.pane_id, resumed_ts: now_ts },
            ));
        }
        let ghost new_view = agent.deep_view();
        changed.push(agent);
        assert(new_view == with_fresh_times(agent_view, before, now, now_ts));
        assert(changed.deep_view() =~= held.push(new_view));
        assert(changed.deep_view() =~= with_all_fresh_times(all.take(i + 1), before, now, now_ts));
    }
    assert(all.take(all.len() as int) =~= all);
    (changed, writes)
}

/// Computes a round: finds the interrupted agents, begins the times anew of those that resumed,
/// has the snapshot built from the agents with these times, and says what is to be stored.
/// `build_snapshot` builds the snapshot.
pub fn compute_tick<B: FnOnce(Vec<AgentPane>, Scene) -> SidebarSnapshot>(
    input: TickInput,
    tracker: &mut InactivityTracker,
    last_interrupted: &KeySet<String>,
    heartbeat_due: bool,
    build_snapshot: B,
) -> (output: TickOutput)
    requires
        forall|agents: Vec<AgentPane>| #[trigger]
            call_requires(build_snapshot, (agents, input.scene)),
    ensures
        ({
            let working = super::inactivity::working_panes(input.agents.deep_view());
            let before = old(tracker).deep_view();
            let after = final(tracker).deep_view();
            let interrupted = after.confirmed.dom();
            let last = last_interrupted.deep_view();
            &&& after.timeout == before.timeout
            &&& after.entries.dom() <= working.dom()
            &&& interrupted <= working.dom()
            &&& forall|id: Seq<char>| #[trigger]
                working.contains_key(id) ==> after.pane(id) == super::inactivity::pane_step(
                    before.pane(id),
                    working[id],
                    lookup(input.captured_panes.deep_view(), id),
                    before.timeout,
                    input.now,
                )
            &&& output.next_interrupted.deep_view() == interrupted
            &&& output.agent_writes.deep_view() == writes_of(
                input.agents.deep_view(),
                last,
                interrupted,
                input.now_ts,
            )
            &&& exists|agents: Vec<AgentPane>, built: SidebarSnapshot|
                #![trigger call_ensures(build_snapshot, (agents, input.scene), built)]
                agents.deep_view() == with_all_fresh_times(
                    input.agents.deep_view(),
                    last,
                    interrupted,
                    input.now_ts,
                ) && call_ensures(build_snapshot, (agents, input.scene), built)
                    && output.snapshot.deep_view() == (SidebarSnapshotView {
                    interrupted_pane_ids: interrupted,
                    ..built.deep_view()
                })
            &&& match output.runtime_write {
                Some(runtime) => (interrupted != last || heartbeat_due)
                    && runtime.interrupted_pane_ids.deep_view() == interrupted && runtime.updated_ts
                    == input.now_ts,
                None => interrupted == last && !heartbeat_due,
            }
        }),
{
    let TickInput { agents, captured_panes, now, now_ts, scene } = input;
    let ghost before = tracker.deep_view();
    let ghost working = super::inactivity::working_panes(agents.deep_view());
    let ghost shown = captured_panes.deep_view();
    let captured = &captured_panes;
    let capture = |pane_id: &str| -> (text: Option<String>)
        ensures
            text.deep_view() == lookup(captured.deep_view(), pane_id@),
        {
            let id: String = pane_id.to_owned();
            match captured.get(&id) {
                Some(text) => Some(text.dup()),
                None => None,
            }
        };
    let interrupted = tracker.check_with(&agents, now, capture);
    proof {
        let after = tracker.deep_view();
        assert forall|id: Seq<char>| #[trigger] working.contains_key(id) implies after.pane(id)
            == super::inactivity::pane_step(
            before.pane(id),
            working[id],
            lookup(shown, id),
            before.timeout,
            now,
        ) by {
            assert(super::inactivity::can_follow(
                capture,
                before.pane(id),
                after.pane(id),
                id,
                working[id],
                before.timeout,
                now,
            ));
            let text = choose|text: Option<Seq<char>>|
                (super::inactivity::looks(before.pane(id), working[id])
                    ==> super::inactivity::can_show(capture, id, text)) && after.pane(id)
                    == #[trigger] super::inactivity::pane_step(
                    before.pane(id),
                    working[id],
                    text,
                    before.timeout,
                    now,
                );
            if super::inactivity::looks(before.pane(id), working[id]) {
                assert(super::inactivity::can_show(capture, id, text));
            }
        }
    }
    let (agents, agent_writes) = resume_agents(agents, last_interrupted, &interrupted, now_ts);
    let mut snapshot = build_snapshot(agents, scene);
    snapshot.interrupted_pane_ids = interrupted.dup();
    let runtime_write = if !interrupted.same(last_interrupted) || heartbeat_due {
        Some(RuntimeState { interrupted_pane_ids: interrupted.dup(), updated_ts: now_ts })
    } else {
        None
    };
    TickOutput { snapshot, agent_writes, runtime_write, next_interrupted: interrupted }
}

/// The times that are stored for an agent.
#[derive(Debug, Clone, Copy, PartialEq, Eq, Structural)]
pub struct AgentTimes {
    pub status_ts: Option<u64>,
    pub activity_ts: Option<u64>,
}

/// The times to store for an agent, if any are stored for it.
pub fn resumed_times(stored: Option<AgentTimes>, write: &AgentWrite) -> (times: Option<AgentTimes>)
    ensures
        times == (match stored {
            Some(_) => Some(
                AgentTimes {
                    status_ts: Some(write.resumed_ts),
                    activity_ts: Some(write.resumed_ts),
                },
            ),
            None => None::<AgentTimes>,
        }),
{
    match stored {
        Some(_) => Some(
            AgentTimes {
                status_ts: Some(write.resumed_ts),
                activity_ts: Some(write.resumed_ts),
            },
        ),
        None => None,
    }
}

/// Under which key an agent is stored.
pub struct PaneKey {
    pub backend: String,
    pub instance: String,
    pub pane_id: String,
}

/// The keys under which times are to be stored, one for each of the writes, and whether the runtime
/// state is to be stored too.
pub fn apply_tick_effects(output: &TickOutput, backend: &str, instance: &str) -> (effects: (
    Vec<PaneKey>,
    bool,
))
    ensures
        effects.0@.len() == output.agent_writes@.len(),
        forall|i: int|
            0 <= i < effects.0@.len() ==> (#[trigger] effects.0@[i]).backend@ == backend@
                && effects.0@[i].instance@ == instance@ && effects.0@[i].pane_id@
                == output.agent_writes@[i].pane_id@,
        effects.1 == output.runtime_write is Some,
{
    let mut keys: Vec<PaneKey> = Vec::new();
    for i in 0..output.agent_writes.len()
        invariant
            keys@.len() == i,
            forall|j: int|
                0 <= j < i ==> (#[trigger] keys@[j]).backend@ == backend@ && keys@[j].instance@
                    == instance@ && keys@[j].pane_id@ == output.agent_writes@[j].pane_id@,
    {
        keys.push(
            PaneKey {
                backend: backend.to_owned(),
                instance: instance.to_owned(),
                pane_id: output.agent_writes[i].pane_id.dup(),
            },
        );
    }
    (keys, output.runtime_write.is_some())
}

/// Whether the pane of an agent is to be looked at.
pub open spec fn is_watched(
    agent: AgentPaneView,
    tracker: super::inactivity::TrackerView,
) -> bool {
    agent.status == Some(AgentStatus::Working) && super::inactivity::looks(
        tracker.pane(agent.pane_id),
        super::inactivity::reported_by(agent),
    )
}

/// The panes to look at: those of working agents that are not known to be interrupted.
pub open spec fn panes_to_watch(
    agents: Seq<AgentPaneView>,
    tracker: super::inactivity::TrackerView,
) -> Seq<Seq<char>> {
    agents.filter(|agent: AgentPaneView| is_watched(agent, tracker)).map_values(
        |agent: AgentPaneView| agent.pane_id,
    )
}

/// Lists the panes to look at.
pub fn gather_captures(agents: &Vec<AgentPane>, tracker: &InactivityTracker) -> (panes: Vec<String>)
    ensures
        panes.deep_view() == panes_to_watch(agents.deep_view(), tracker.deep_view()),
{
    let mut panes: Vec<String> = Vec::new();
    let ghost all = agents.deep_view();
    let ghost known = tracker.deep_view();
    let ghost keep = |agent: AgentPaneView| is_watched(agent, known);
    let ghost name = |agent: AgentPaneView| agent.pane_id;
    proof {
        crate::lists::lemma_filter_ends(all, keep);
    }
    assert(panes.deep_view() =~= all.take(0).filter(keep).map_values(name));
    for i in 0..agents.len()
        invariant
            all == agents.deep_view(),
            known == tracker.deep_view(),
            keep == (|agent: AgentPaneView| is_watched(agent, known)),
            name == (|agent: AgentPaneView| agent.pane_id),
            panes.deep_view() == all.take(i as int).filter(keep).map_values(name),
    {
        let agent = &agents[i];
        let ghost held = panes.deep_view();
        proof {
            crate::lists::lemma_filter_next(all, keep, i as int);
        }
        let working = match agent.status {
            Some(status) => status == AgentStatus::Working,
            None => false,
        };
        let reported: u64 = match agent.updated_ts {
            Some(time) => time,
            None => 0,
        };
        if working && !tracker.is_confirmed(agent.pane_id.as_str(), reported) {
            panes.push(agent.pane_id.dup());
            assert(panes.deep_view() =~= held.push(all[i as int].pane_id));
            assert(panes.deep_view() =~= all.take(i + 1).filter(keep).map_values(name));
        }
    }
    panes
}

/// What is stored for agents is what the snapshot of the same round shows: each agent whose times
/// are stored has just these times.
pub proof fn stored_times_are_shown(
    agents: Seq<AgentPaneView>,
    last: Set<Seq<char>>,
    interrupted: Set<Seq<char>>,
    now_ts: u64,
    i: int,
)
    requires
        0 <= i < agents.len(),
    ensures
        ({
            let shown = with_all_fresh_times(agents, last, interrupted, now_ts)[i];
            let write = AgentWriteView { pane_id: agents[i].pane_id, resumed_ts: now_ts };
            writes_of(agents, last, interrupted, now_ts).contains(write) ==> shown.status_ts
                == Some(now_ts) && shown.activity_ts == Some(now_ts)
        }),
{
    let write = AgentWriteView { pane_id: agents[i].pane_id, resumed_ts: now_ts };
    lemma_write_means_resumed(agents, last, interrupted, now_ts, write);
}

proof fn lemma_write_means_resumed(
    agents: Seq<AgentPaneView>,
    last: Set<Seq<char>>,
    interrupted: Set<Seq<char>>,
    now_ts: u64,
    write: AgentWriteView,
)
    ensures
        writes_of(agents, last, interrupted, now_ts).contains(write) ==> last.contains(
            write.pane_id,
        ) && !interrupted.contains(write.pane_id),
    decreases agents.len(),
{
    if agents.len() > 0 {
        lemma_write_means_resumed(agents.drop_last(), last, interrupted, now_ts, write);
        let before = writes_of(agents.drop_last(), last, interrupted, now_ts);
        let all = writes_of(agents, last, interrupted, now_ts);
        if all.contains(write) {
            let n = choose|n: int| 0 <= n < all.len() && all[n] == write;
            if n < before.len() {
                assert(before[n] == write);
            }
        }
    }
}

/// Times are stored for exactly those agents whose pane was interrupted in the last round and is not in
/// this one; these are shown with the time of the round, and every other agent is shown as it is.
pub proof fn resumed_agents_begin_anew(
    agents: Seq<AgentPaneView>,
    last: Set<Seq<char>>,
    interrupted: Set<Seq<char>>,
    now_ts: u64,
    i: int,
)
    requires
        0 <= i < agents.len(),
    ensures
        ({
            let shown = with_all_fresh_times(agents, last, interrupted, now_ts);
            let writes = writes_of(agents, last, interrupted, now_ts);
            let write = AgentWriteView { pane_id: agents[i].pane_id, resumed_ts: now_ts };
            let resumed = last.contains(agents[i].pane_id) && !interrupted.contains(
                agents[i].pane_id,
            );
            &&& shown.len() == agents.len()
            &&& resumed <==> writes.contains(write)
            &&& resumed ==> shown[i] == (AgentPaneView {
                status_ts: Some(now_ts),
                activity_ts: Some(now_ts),
                ..agents[i]
            })
            &&& !resumed ==> shown[i] == agents[i]
        }),
{
    let write = AgentWriteView { pane_id: agents[i].pane_id, resumed_ts: now_ts };
    lemma_write_means_resumed(agents, last, interrupted, now_ts, write);
    if last.contains(agents[i].pane_id) && !interrupted.contains(agents[i].pane_id) {
        lemma_resumed_is_written(agents, last, interrupted, now_ts, i);
    }
}

proof fn lemma_resumed_is_written(
    agents: Seq<AgentPaneView>,
    last: Set<Seq<char>>,
    interrupted: Set<Seq<char>>,
    now_ts: u64,
    i: int,
)
    requires
        0 <= i < agents.len(),
        last.contains(agents[i].pane_id),
        !interrupted.contains(agents[i].pane_id),
    ensures
        writes_of(agents, last, interrupted, now_ts).contains(
            AgentWriteView { pane_id: agents[i].pane_id, resumed_ts: now_ts },
        ),
    decreases agents.len(),
{
    let write = AgentWriteView { pane_id: agents[i].pane_id, resumed_ts: now_ts };
    let before = writes_of(agents.drop_last(), last, interrupted, now_ts);
    let all = writes_of(agents, last, interrupted, now_ts);
    if i < agents.len() - 1 {
        assert(agents.drop_last()[i] == agents[i]);
        lemma_resumed_is_written(agents.drop_last(), last, interrupted, now_ts, i);
        let n = choose|n: int| 0 <= n < before.len() && before[n] == write;
        assert(all[n] == write);
    } else {
        assert(all.last() == write);
    }
}

/// Each agent that resumed is stored once, and no other: there are as many writes as agents that
/// resumed.
pub proof fn writes_are_as_many_as_resumed(
    agents: Seq<AgentPaneView>,
    last: Set<Seq<char>>,
    interrupted: Set<Seq<char>>,
    now_ts: u64,
)
    ensures
        writes_of(agents, last, interrupted, now_ts).len() == agents.filter(
            |agent: AgentPaneView|
                last.contains(agent.pane_id) && !interrupted.contains(agent.pane_id),
        ).len(),
    decreases agents.len(),
{
    reveal(Seq::filter);
    if agents.len() > 0 {
        writes_are_as_many_as_resumed(agents.drop_last(), last, interrupted, now_ts);
    }
}

/// The panes that are looked at are those in which an agent works that is not known to be interrupted, or
/// that has reported since it was.
pub proof fn watched_panes_are_of_working_agents(
    agents: Seq<AgentPaneView>,
    tracker: super::inactivity::TrackerView,
    id: Seq<char>,
)
    ensures
        panes_to_watch(agents, tracker).contains(id) <==> exists|i: int|
            0 <= i < agents.len() && (#[trigger] agents[i]).pane_id == id && agents[i].status
                == Some(AgentStatus::Working) && (tracker.confirmed.contains_key(id) ==> (
            match agents[i].updated_ts {
                Some(time) => time,
                None => 0u64,
            }) > tracker.confirmed[id]),
    decreases agents.len(),
{
    let keep = |agent: AgentPaneView| is_watched(agent, tracker);
    let name = |agent: AgentPaneView| agent.pane_id;
    let kept = agents.filter(keep);
    let all = panes_to_watch(agents, tracker);
    if all.contains(id) {
        let n = choose|n: int| 0 <= n < all.len() && all[n] == id;
        crate::lists::lemma_kept_was_there(agents, keep, n);
        let i = choose|i: int| 0 <= i < agents.len() && agents[i] == kept[n];
        assert(agents[i].pane_id == id);
        assert(is_watched(agents[i], tracker));
    }
    if exists|i: int|
        0 <= i < agents.len() && (#[trigger] agents[i]).pane_id == id && agents[i].status == Some(
            AgentStatus::Working,
        ) && (tracker.confirmed.contains_key(id) ==> (match agents[i].updated_ts {
            Some(time) => time,
            None => 0u64,
        }) > tracker.confirmed[id]) {
        let i = choose|i: int|
            0 <= i < agents.len() && (#[trigger] agents[i]).pane_id == id && agents[i].status
                == Some(AgentStatus::Working) && (tracker.confirmed.contains_key(id) ==> (
            match agents[i].updated_ts {
                Some(time) => time,
                None => 0u64,
            }) > tracker.confirmed[id]);
        assert(keep(agents[i]));
        crate::lists::lemma_kept_stays(agents, keep, i);
        let n = choose|n: int| 0 <= n < kept.len() && kept[n] == agents[i];
        assert(all[n] == id);
    }
}

/// Every pane that a check looks at was looked at before the round.
pub proof fn checked_panes_are_watched(
    agents: Seq<AgentPaneView>,
    tracker: super::inactivity::TrackerView,
    id: Seq<char>,
)
    requires
        super::inactivity::is_looked_at(tracker, agents, id),
    ensures
        panes_to_watch(agents, tracker).contains(id),
    decreases agents.len(),
{
    super::inactivity::working_agents_are_checked(agents, id);
    let i = lemma_last_working(agents, id);
    super::inactivity::last_working_agent_counts(agents, id, i);
    watched_panes_are_of_working_agents(agents, tracker, id);
    assert(agents[i].pane_id == id);
}

proof fn lemma_last_working(agents: Seq<AgentPaneView>, id: Seq<char>) -> (i: int)
    requires
        exists|i: int|
            0 <= i < agents.len() && super::inactivity::works_in(#[trigger] agents[i], id),
    ensures
        0 <= i < agents.len(),
        super::inactivity::works_in(agents[i], id),
        forall|j: int|
            i < j < agents.len() ==> !super::inactivity::works_in(#[trigger] agents[j], id),
    decreases agents.len(),
{
    let n = agents.len() - 1;
    if super::inactivity::works_in(agents[n], id) {
        n
    } else {
        let before = agents.drop_last();
        let k = choose|i: int|
            0 <= i < agents.len() && super::inactivity::works_in(#[trigger] agents[i], id);
        assert(super::inactivity::works_in(before[k], id));
        let i = lemma_last_working(before, id);
        assert forall|j: int| i < j < agents.len() implies !super::inactivity::works_in(
            #[trigger] agents[j],
            id,
        ) by {
            if j < n {
                assert(before[j] == agents[j]);
            }
        }
        i
    }
}

} // verus!
