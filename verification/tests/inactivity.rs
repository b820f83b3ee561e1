use std::cell::RefCell;
use std::collections::HashMap;
use workmux::config::SidebarPosition;
use workmux::paths::FilePath;
use workmux::sidebar::inactivity::{fingerprint, InactivityTracker};
use workmux::sidebar::state::{
    AgentPane, AgentStatus, SidebarFilterMode, SidebarLayoutMode, SidebarSnapshot,
};
use workmux::sidebar::tick::{
    apply_tick_effects, compute_tick, gather_captures, resumed_times, AgentTimes, Scene, TickInput,
    TickOutput, TmuxState,
};
use workmux::tables::{KeySet, Table};
use workmux::values::Value;

const SECOND: u64 = 1_000_000_000;
const T0: u64 = 1000 * SECOND;

fn seconds(count: u64) -> u64 {
    count * SECOND
}

fn working_agent(pane_id: &str, updated_ts: u64) -> AgentPane {
    AgentPane {
        session: String::new(),
        window_name: String::new(),
        pane_id: pane_id.to_string(),
        window_id: String::new(),
        window_index: None,
        path: FilePath::parse(""),
        pane_title: None,
        status: Some(AgentStatus::Working),
        status_ts: Some(100),
        activity_ts: Some(100),
        updated_ts: Some(updated_ts),
        window_cmd: None,
        agent_command: None,
        agent_kind: None,
    }
}

fn done_agent(pane_id: &str) -> AgentPane {
    AgentPane {
        status: Some(AgentStatus::Done),
        ..working_agent(pane_id, 1)
    }
}

fn has(panes: &KeySet<String>, id: &str) -> bool {
    panes.contains(&id.to_string())
}

#[test]
fn no_interruption_before_timeout() {
    let mut tracker = InactivityTracker::new(seconds(10));
    let agents = vec![working_agent("%1", 1)];

    let result = tracker.check_with(&agents, T0, |_: &str| Some("hello".into()));
    assert!(result.is_empty());

    let result = tracker.check_with(&agents, T0 + seconds(5), |_: &str| Some("hello".into()));
    assert!(result.is_empty());
}

#[test]
fn interruption_after_timeout() {
    let mut tracker = InactivityTracker::new(seconds(10));
    let agents = vec![working_agent("%1", 1)];

    tracker.check_with(&agents, T0, |_: &str| Some("hello".into()));

    let result = tracker.check_with(&agents, T0 + seconds(11), |_: &str| Some("hello".into()));
    assert!(has(&result, "%1"));
}

#[test]
fn changing_content_resets_window() {
    let mut tracker = InactivityTracker::new(seconds(10));
    let agents = vec![working_agent("%1", 1)];

    tracker.check_with(&agents, T0, |_: &str| Some("hello".into()));
    tracker.check_with(&agents, T0 + seconds(8), |_: &str| Some("world".into()));

    let result = tracker.check_with(&agents, T0 + seconds(13), |_: &str| Some("world".into()));
    assert!(result.is_empty());

    let result = tracker.check_with(&agents, T0 + seconds(19), |_: &str| Some("world".into()));
    assert!(has(&result, "%1"));
}

#[test]
fn sticky_despite_content_change() {
    let mut tracker = InactivityTracker::new(seconds(10));
    let agents = vec![working_agent("%1", 1)];

    tracker.check_with(&agents, T0, |_: &str| Some("hello".into()));
    let result = tracker.check_with(&agents, T0 + seconds(11), |_: &str| Some("hello".into()));
    assert!(has(&result, "%1"));

    let result = tracker.check_with(&agents, T0 + seconds(12), |_: &str| {
        Some("user typed something".into())
    });
    assert!(has(&result, "%1"));
}

#[test]
fn clears_on_updated_ts_change() {
    let mut tracker = InactivityTracker::new(seconds(10));
    let agents = vec![working_agent("%1", 1)];

    tracker.check_with(&agents, T0, |_: &str| Some("hello".into()));
    tracker.check_with(&agents, T0 + seconds(11), |_: &str| Some("hello".into()));

    let resumed_agents = vec![working_agent("%1", 2)];
    let result = tracker.check_with(&resumed_agents, T0 + seconds(12), |_: &str| {
        Some("hello".into())
    });
    assert!(result.is_empty());
}

#[test]
fn fresh_window_after_resume() {
    let mut tracker = InactivityTracker::new(seconds(10));
    let agents = vec![working_agent("%1", 1)];

    tracker.check_with(&agents, T0, |_: &str| Some("hello".into()));
    tracker.check_with(&agents, T0 + seconds(11), |_: &str| Some("hello".into()));

    let resumed = vec![working_agent("%1", 2)];
    tracker.check_with(&resumed, T0 + seconds(12), |_: &str| Some("hello".into()));

    let result = tracker.check_with(&resumed, T0 + seconds(17), |_: &str| Some("hello".into()));
    assert!(result.is_empty());

    let result = tracker.check_with(&resumed, T0 + seconds(23), |_: &str| Some("hello".into()));
    assert!(has(&result, "%1"));
}

#[test]
fn non_working_agents_ignored() {
    let mut tracker = InactivityTracker::new(seconds(10));
    let agents = vec![done_agent("%1")];

    tracker.check_with(&agents, T0, |_: &str| Some("hello".into()));
    let result = tracker.check_with(&agents, T0 + seconds(11), |_: &str| Some("hello".into()));
    assert!(result.is_empty());
}

#[test]
fn leaves_working_clears_tracking() {
    let mut tracker = InactivityTracker::new(seconds(10));
    let working = vec![working_agent("%1", 1)];

    tracker.check_with(&working, T0, |_: &str| Some("hello".into()));
    tracker.check_with(&working, T0 + seconds(11), |_: &str| Some("hello".into()));

    let done = vec![done_agent("%1")];
    let result = tracker.check_with(&done, T0 + seconds(12), |_: &str| Some("hello".into()));
    assert!(result.is_empty());

    let working_again = vec![working_agent("%1", 3)];
    let result = tracker.check_with(&working_again, T0 + seconds(13), |_: &str| {
        Some("hello".into())
    });
    assert!(result.is_empty());
}

#[test]
fn capture_failure_skips_pane() {
    let mut tracker = InactivityTracker::new(seconds(10));
    let agents = vec![working_agent("%1", 1)];

    tracker.check_with(&agents, T0, |_: &str| None);
    let result = tracker.check_with(&agents, T0 + seconds(11), |_: &str| None);
    assert!(result.is_empty());
}

#[test]
fn multiple_agents_tracked_independently() {
    let mut tracker = InactivityTracker::new(seconds(10));
    let agents = vec![working_agent("%1", 1), working_agent("%2", 1)];

    let content = RefCell::new(HashMap::from([
        ("%1".to_string(), "static".to_string()),
        ("%2".to_string(), "changing".to_string()),
    ]));

    tracker.check_with(&agents, T0, |id: &str| content.borrow().get(id).cloned());

    content
        .borrow_mut()
        .insert("%2".to_string(), "new output".into());
    tracker.check_with(&agents, T0 + seconds(5), |id: &str| {
        content.borrow().get(id).cloned()
    });

    let result = tracker.check_with(&agents, T0 + seconds(11), |id: &str| {
        content.borrow().get(id).cloned()
    });
    assert_eq!(result.len(), 1);
    assert!(has(&result, "%1"));
}

#[test]
fn rpc_update_before_timeout_resets_window() {
    let mut tracker = InactivityTracker::new(seconds(10));

    tracker.check_with(&vec![working_agent("%1", 1)], T0, |_: &str| {
        Some("hello".into())
    });
    tracker.check_with(
        &vec![working_agent("%1", 2)],
        T0 + seconds(5),
        |_: &str| Some("hello".into()),
    );

    let result = tracker.check_with(
        &vec![working_agent("%1", 2)],
        T0 + seconds(11),
        |_: &str| Some("hello".into()),
    );
    assert!(result.is_empty());

    let result = tracker.check_with(
        &vec![working_agent("%1", 2)],
        T0 + seconds(16),
        |_: &str| Some("hello".into()),
    );
    assert_eq!(result.len(), 1);
    assert!(has(&result, "%1"));
}

#[test]
fn interruption_at_exact_timeout() {
    let mut tracker = InactivityTracker::new(seconds(10));
    let agents = vec![working_agent("%1", 1)];

    tracker.check_with(&agents, T0, |_: &str| Some("hello".into()));
    let result = tracker.check_with(&agents, T0 + seconds(10), |_: &str| Some("hello".into()));
    assert_eq!(result.len(), 1);
    assert!(has(&result, "%1"));
}

#[test]
fn ansi_and_whitespace_normalized() {
    let mut tracker = InactivityTracker::new(seconds(10));
    let agents = vec![working_agent("%1", 1)];

    tracker.check_with(&agents, T0, |_: &str| Some("hello\n".into()));

    let result = tracker.check_with(&agents, T0 + seconds(11), |_: &str| {
        Some("\x1b[31mhello\x1b[0m   ".into())
    });
    assert_eq!(result.len(), 1);
    assert!(has(&result, "%1"));
    assert_eq!(
        fingerprint("\x1b[31mhello\x1b[0m   "),
        fingerprint("hello\n")
    );
    assert_ne!(fingerprint("hello"), fingerprint("world"));
}

#[test]
fn capture_failure_does_not_create_baseline() {
    let mut tracker = InactivityTracker::new(seconds(10));
    let agents = vec![working_agent("%1", 1)];

    tracker.check_with(&agents, T0, |_: &str| None);

    let result = tracker.check_with(&agents, T0 + seconds(11), |_: &str| Some("hello".into()));
    assert!(result.is_empty());
}

#[test]
fn confirmed_panes_are_not_looked_at() {
    let mut tracker = InactivityTracker::new(seconds(10));
    let agents = vec![working_agent("%1", 1), done_agent("%2")];
    assert_eq!(gather_captures(&agents, &tracker), vec!["%1".to_string()]);
    tracker.check_with(&agents, T0, |_: &str| Some("hello".into()));
    tracker.check_with(&agents, T0 + seconds(10), |_: &str| Some("hello".into()));
    assert!(tracker.is_confirmed("%1", 1));
    assert!(!tracker.is_confirmed("%1", 2));
    assert!(!tracker.is_confirmed("%2", 1));
    assert!(gather_captures(&agents, &tracker).is_empty());
}

// ── Rounds ──────────────────────────────────────────────────────────────────

const BACKEND: &str = "tmux";
const INSTANCE: &str = "test";

/// What is stored of agents and of the daemon.
#[derive(Default)]
struct Store {
    agents: HashMap<(String, String, String), AgentTimes>,
    interrupted: Vec<String>,
}

impl Store {
    fn seed_agent(&mut self, pane_id: &str, status_ts: u64) {
        self.agents.insert(
            (BACKEND.to_string(), INSTANCE.to_string(), pane_id.to_string()),
            AgentTimes {
                status_ts: Some(status_ts),
                activity_ts: Some(status_ts),
            },
        );
    }

    fn get_agent(&self, pane_id: &str) -> Option<AgentTimes> {
        self.agents
            .get(&(BACKEND.to_string(), INSTANCE.to_string(), pane_id.to_string()))
            .copied()
    }

    fn apply(&mut self, output: &TickOutput) {
        let (keys, writes_runtime) = apply_tick_effects(output, BACKEND, INSTANCE);
        for (key, write) in keys.iter().zip(&output.agent_writes) {
            let key = (
                key.backend.clone(),
                key.instance.clone(),
                key.pane_id.clone(),
            );
            if let Some(times) = resumed_times(self.agents.get(&key).copied(), write) {
                self.agents.insert(key, times);
            }
        }
        assert_eq!(writes_runtime, output.runtime_write.is_some());
        if let Some(runtime) = &output.runtime_write {
            self.interrupted = (0..runtime.interrupted_pane_ids.len())
                .map(|at| runtime.interrupted_pane_ids.at(at).clone())
                .collect();
        }
    }
}

fn scene() -> Scene {
    Scene {
        tmux_state: TmuxState {
            window_statuses: Table::new(),
            active_windows: KeySet::new(),
            pane_window_ids: Table::new(),
            pane_window_indexes: Table::new(),
            active_pane_ids: KeySet::new(),
            window_pane_counts: Table::new(),
        },
        position: SidebarPosition::Left,
        layout_mode: SidebarLayoutMode::Tiles,
        filter_mode: SidebarFilterMode::All,
        sort: None,
        git_statuses: Table::new(),
        pr_statuses: Table::new(),
        check_statuses: Table::new(),
        sleeping_pane_ids: KeySet::new(),
    }
}

fn build_snapshot(agents: Vec<AgentPane>, scene: Scene) -> SidebarSnapshot {
    SidebarSnapshot {
        position: scene.position,
        layout_mode: scene.layout_mode,
        filter_mode: scene.filter_mode,
        active_windows: scene.tmux_state.active_windows,
        active_pane_ids: scene.tmux_state.active_pane_ids,
        window_pane_counts: scene.tmux_state.window_pane_counts,
        git_statuses: scene.git_statuses,
        pr_statuses: Table::new(),
        check_statuses: Table::new(),
        interrupted_pane_ids: KeySet::new(),
        sleeping_pane_ids: scene.sleeping_pane_ids,
        agents,
        config_version: 0,
    }
}

fn do_tick(
    tracker: &mut InactivityTracker,
    last: &mut KeySet<String>,
    agents: Vec<AgentPane>,
    captures: Table<String, String>,
    now: u64,
    now_ts: u64,
) -> TickOutput {
    let output = compute_tick(
        TickInput {
            agents,
            captured_panes: captures,
            now,
            now_ts,
            scene: scene(),
        },
        tracker,
        last,
        false,
        build_snapshot,
    );
    *last = output.next_interrupted.dup();
    output
}

fn cap(content: &str) -> Table<String, String> {
    let mut captures = Table::new();
    captures.insert("%1".to_string(), content.to_string());
    captures
}

fn cap2(content: &str) -> Table<String, String> {
    let mut captures = cap(content);
    captures.insert("%2".to_string(), content.to_string());
    captures
}

#[test]
fn resumed_agent_gets_status_ts_reset() {
    let mut store = Store::default();
    store.seed_agent("%1", 100);

    let mut tracker = InactivityTracker::new(seconds(10));
    let mut last = KeySet::new();

    do_tick(
        &mut tracker,
        &mut last,
        vec![working_agent("%1", 1)],
        cap("hello"),
        T0,
        1000,
    );

    let output = do_tick(
        &mut tracker,
        &mut last,
        vec![working_agent("%1", 1)],
        cap("hello"),
        T0 + seconds(11),
        1011,
    );
    assert!(has(&output.snapshot.interrupted_pane_ids, "%1"));

    let output = do_tick(
        &mut tracker,
        &mut last,
        vec![working_agent("%1", 2)],
        cap("hello"),
        T0 + seconds(12),
        1012,
    );
    assert!(output.snapshot.interrupted_pane_ids.is_empty());

    let agent = output
        .snapshot
        .agents
        .iter()
        .find(|a| a.pane_id == "%1")
        .unwrap();
    assert_eq!(agent.status_ts, Some(1012));
    assert_eq!(agent.activity_ts, Some(1012));

    assert_eq!(output.agent_writes.len(), 1);
    assert_eq!(output.agent_writes[0].resumed_ts, 1012);

    store.apply(&output);
    let persisted = store.get_agent("%1").unwrap();
    assert_eq!(persisted.status_ts, Some(1012));
    assert_eq!(persisted.activity_ts, Some(1012));
}

#[test]
fn only_resumed_agent_gets_reset() {
    let mut store = Store::default();
    store.seed_agent("%1", 100);
    store.seed_agent("%2", 200);

    let mut tracker = InactivityTracker::new(seconds(10));
    let mut last = KeySet::new();

    let agents = || vec![working_agent("%1", 1), working_agent("%2", 1)];

    do_tick(
        &mut tracker,
        &mut last,
        agents(),
        cap2("hello"),
        T0,
        1000,
    );
    do_tick(
        &mut tracker,
        &mut last,
        agents(),
        cap2("hello"),
        T0 + seconds(11),
        1011,
    );

    let mixed = vec![working_agent("%1", 2), working_agent("%2", 1)];
    let output = do_tick(
        &mut tracker,
        &mut last,
        mixed,
        cap2("hello"),
        T0 + seconds(12),
        1012,
    );

    assert_eq!(output.agent_writes.len(), 1);
    assert_eq!(output.agent_writes[0].pane_id, "%1");

    store.apply(&output);
    let resumed = store.get_agent("%1").unwrap();
    assert_eq!(resumed.status_ts, Some(1012));
    assert_eq!(resumed.activity_ts, Some(1012));
    let untouched = store.get_agent("%2").unwrap();
    assert_eq!(untouched.status_ts, Some(200));
    assert_eq!(untouched.activity_ts, Some(200));
}

#[test]
fn runtime_file_reflects_interrupted_set() {
    let mut store = Store::default();

    let mut tracker = InactivityTracker::new(seconds(10));
    let mut last = KeySet::new();

    let output = do_tick(
        &mut tracker,
        &mut last,
        vec![working_agent("%1", 1)],
        cap("hello"),
        T0,
        1000,
    );
    store.apply(&output);
    assert!(output.runtime_write.is_none());

    let output = do_tick(
        &mut tracker,
        &mut last,
        vec![working_agent("%1", 1)],
        cap("hello"),
        T0 + seconds(11),
        1011,
    );
    store.apply(&output);
    assert!(store.interrupted.contains(&"%1".to_string()));
    assert_eq!(output.runtime_write.as_ref().unwrap().updated_ts, 1011);

    let output = do_tick(
        &mut tracker,
        &mut last,
        vec![working_agent("%1", 2)],
        cap("hello"),
        T0 + seconds(12),
        1012,
    );
    store.apply(&output);
    assert!(store.interrupted.is_empty());
}

#[test]
fn missing_agent_file_does_not_panic() {
    let mut store = Store::default();

    let mut tracker = InactivityTracker::new(seconds(10));
    let mut last = KeySet::new();

    do_tick(
        &mut tracker,
        &mut last,
        vec![working_agent("%1", 1)],
        cap("hello"),
        T0,
        1000,
    );
    do_tick(
        &mut tracker,
        &mut last,
        vec![working_agent("%1", 1)],
        cap("hello"),
        T0 + seconds(11),
        1011,
    );

    let output = do_tick(
        &mut tracker,
        &mut last,
        vec![working_agent("%1", 2)],
        cap("hello"),
        T0 + seconds(12),
        1012,
    );
    assert!(output.snapshot.interrupted_pane_ids.is_empty());
    store.apply(&output);
    assert!(store.agents.is_empty());
}

#[test]
fn snapshot_has_correct_status_ts_on_resume_tick() {
    let mut tracker = InactivityTracker::new(seconds(10));
    let mut last = KeySet::new();

    do_tick(
        &mut tracker,
        &mut last,
        vec![working_agent("%1", 1)],
        cap("hello"),
        T0,
        1000,
    );
    do_tick(
        &mut tracker,
        &mut last,
        vec![working_agent("%1", 1)],
        cap("hello"),
        T0 + seconds(11),
        1011,
    );

    let output = do_tick(
        &mut tracker,
        &mut last,
        vec![working_agent("%1", 2)],
        cap("hello"),
        T0 + seconds(12),
        1012,
    );
    let agent = output
        .snapshot
        .agents
        .iter()
        .find(|a| a.pane_id == "%1")
        .unwrap();
    assert_eq!(agent.status_ts, Some(1012));
    assert_eq!(agent.activity_ts, Some(1012));
    assert!(!has(&output.snapshot.interrupted_pane_ids, "%1"));
}

#[test]
fn heartbeats_store_the_runtime_state() {
    let mut tracker = InactivityTracker::new(seconds(10));
    let output = compute_tick(
        TickInput {
            agents: vec![working_agent("%1", 1)],
            captured_panes: cap("hello"),
            now: T0,
            now_ts: 7,
            scene: scene(),
        },
        &mut tracker,
        &KeySet::new(),
        true,
        build_snapshot,
    );
    assert_eq!(output.runtime_write.unwrap().updated_ts, 7);
    assert_eq!(output.snapshot.agents[0].status_ts, Some(100));
}
