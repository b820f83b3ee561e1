use workmux::config::{Config, SidebarConfig, SidebarPosition, StatusIcons};
use workmux::paths::FilePath;
use workmux::sidebar::broadcast::{
    frame, stream_is_connected, BroadcastCache, Peek, MAX_SNAPSHOT_SIZE,
};
use workmux::sidebar::comparison::{git_status_semantically_equal, snapshots_equal};
use workmux::sidebar::options::{
    read_sidebar_filter_mode, read_sidebar_layout_mode, read_sidebar_position, read_sleeping_panes,
    socket_path,
};
use workmux::sidebar::state::{
    AgentPane, AgentStatus, CheckSummary, GitStatus, PrSummary, SidebarFilterMode,
    SidebarLayoutMode, SidebarSnapshot,
};
use workmux::tables::{KeySet, Table};
use workmux::values::Value;

fn path(text: &str) -> FilePath {
    FilePath::parse(text)
}

fn working_agent(pane_id: &str, updated_ts: u64) -> AgentPane {
    AgentPane {
        session: String::new(),
        window_name: String::new(),
        pane_id: pane_id.to_string(),
        window_id: String::new(),
        window_index: None,
        path: path(""),
        pane_title: None,
        status: Some(AgentStatus::Working),
        status_ts: Some(100),
        activity_ts: Some(100),
        updated_ts: Some(updated_ts),
        window_cmd: None,
        agent_command: None,
        agent_kind: None,
    }
}

fn empty_snapshot() -> SidebarSnapshot {
    SidebarSnapshot {
        position: SidebarPosition::Left,
        layout_mode: SidebarLayoutMode::Tiles,
        filter_mode: SidebarFilterMode::All,
        active_windows: KeySet::new(),
        active_pane_ids: KeySet::new(),
        window_pane_counts: Table::new(),
        git_statuses: Table::new(),
        pr_statuses: Table::new(),
        check_statuses: Table::new(),
        interrupted_pane_ids: KeySet::new(),
        sleeping_pane_ids: KeySet::new(),
        agents: Vec::new(),
        config_version: 0,
    }
}

#[test]
fn snapshot_comparison_covers_every_sidebar_state_category() {
    let original = empty_snapshot();
    let mut variants = Vec::new();

    let mut changed = original.dup();
    changed.position = SidebarPosition::Top;
    variants.push(changed);
    let mut changed = original.dup();
    changed.layout_mode = SidebarLayoutMode::Compact;
    variants.push(changed);
    let mut changed = original.dup();
    changed.filter_mode = SidebarFilterMode::Session;
    variants.push(changed);
    let mut changed = original.dup();
    changed.active_windows.insert(("s".into(), "@1".into()));
    variants.push(changed);
    let mut changed = original.dup();
    changed.active_pane_ids.insert("%1".into());
    variants.push(changed);
    let mut changed = original.dup();
    changed.window_pane_counts.insert("@1".into(), 2);
    variants.push(changed);
    let mut changed = original.dup();
    changed.git_statuses.insert(
        path("/repo"),
        GitStatus {
            is_dirty: true,
            ..GitStatus::default()
        },
    );
    variants.push(changed);
    let mut changed = original.dup();
    changed.pr_statuses.insert(
        path("/repo"),
        PrSummary {
            number: 1,
            title: "title".into(),
            state: "OPEN".into(),
            is_draft: false,
            checks: None,
            check_meta: None,
            url: None,
        },
    );
    variants.push(changed);
    let mut changed = original.dup();
    changed.check_statuses.insert(
        path("/repo"),
        CheckSummary {
            state: "Success".into(),
            meta: None,
        },
    );
    variants.push(changed);
    let mut changed = original.dup();
    changed.interrupted_pane_ids.insert("%1".into());
    variants.push(changed);
    let mut changed = original.dup();
    changed.sleeping_pane_ids.insert("%1".into());
    variants.push(changed);
    let mut changed = original.dup();
    changed.agents.push(working_agent("%1", 1));
    variants.push(changed);
    let mut changed = original.dup();
    changed.config_version = 1;
    variants.push(changed);

    assert!(variants
        .iter()
        .all(|changed| !snapshots_equal(&original, changed)));
    assert_eq!(variants.len(), 13);
}

#[test]
fn agent_display_and_sorting_changes_are_meaningful() {
    let mut first = empty_snapshot();
    first.agents.push(working_agent("%1", 1));

    let mut prompt = first.dup();
    prompt.agents[0].pane_title = Some("updated prompt".into());
    assert!(!snapshots_equal(&first, &prompt));

    let mut status = first.dup();
    status.agents[0].status = Some(AgentStatus::Waiting);
    assert!(!snapshots_equal(&first, &status));

    let mut activity = first.dup();
    activity.agents[0].activity_ts = Some(200);
    assert!(!snapshots_equal(&first, &activity));

    let mut window_order = first.dup();
    window_order.agents[0].window_index = Some(2);
    assert!(!snapshots_equal(&first, &window_order));
}

#[test]
fn snapshot_comparison_is_set_order_independent() {
    let mut first = empty_snapshot();
    first.active_pane_ids.insert("%1".into());
    first.active_pane_ids.insert("%2".into());
    first.active_windows.insert(("one".into(), "@1".into()));
    first.active_windows.insert(("two".into(), "@2".into()));
    let mut second = empty_snapshot();
    second.active_pane_ids.insert("%2".into());
    second.active_pane_ids.insert("%1".into());
    second.active_windows.insert(("two".into(), "@2".into()));
    second.active_windows.insert(("one".into(), "@1".into()));

    assert!(snapshots_equal(&first, &second));
}

#[test]
fn git_snapshot_comparison_ignores_only_cache_freshness() {
    let mut first = empty_snapshot();
    first.git_statuses.insert(
        path("/repo"),
        GitStatus {
            cached_at: Some(1),
            ..GitStatus::default()
        },
    );
    let mut second = first.dup();
    second.git_statuses.insert(
        path("/repo"),
        GitStatus {
            cached_at: Some(2),
            ..GitStatus::default()
        },
    );
    assert!(snapshots_equal(&first, &second));

    second.git_statuses.insert(
        path("/repo"),
        GitStatus {
            cached_at: Some(2),
            is_rebasing: true,
            ..GitStatus::default()
        },
    );
    assert!(!snapshots_equal(&first, &second));
}

#[test]
fn git_states_differ_in_each_of_their_fields() {
    let base = GitStatus::default();
    let others = vec![
        GitStatus {
            ahead: 1,
            ..GitStatus::default()
        },
        GitStatus {
            behind: 1,
            ..GitStatus::default()
        },
        GitStatus {
            has_conflict: true,
            ..GitStatus::default()
        },
        GitStatus {
            lines_added: 1,
            ..GitStatus::default()
        },
        GitStatus {
            lines_removed: 1,
            ..GitStatus::default()
        },
        GitStatus {
            uncommitted_added: 1,
            ..GitStatus::default()
        },
        GitStatus {
            uncommitted_removed: 1,
            ..GitStatus::default()
        },
        GitStatus {
            base_branch: "main".to_string(),
            ..GitStatus::default()
        },
        GitStatus {
            branch: Some("main".to_string()),
            ..GitStatus::default()
        },
        GitStatus {
            has_upstream: true,
            ..GitStatus::default()
        },
    ];
    for other in &others {
        assert!(!git_status_semantically_equal(&base, other));
        assert!(git_status_semantically_equal(other, other));
    }
}

#[test]
fn socket_server_delivers_initial_cache_and_changed_state_only() {
    let mut cache = BroadcastCache::new();
    assert!(cache.payload.is_empty());

    let mut snapshot = empty_snapshot();
    assert!(cache.needs_publish(&snapshot));
    assert!(cache.broadcast(&snapshot, Some(vec![1, 2, 3])));
    assert_eq!(cache.payload, vec![0, 0, 0, 3, 1, 2, 3]);
    assert!(!cache.broadcast(&snapshot, Some(vec![9])));
    assert_eq!(cache.generation, 1);

    snapshot.git_statuses.insert(
        path("/repo"),
        GitStatus {
            cached_at: Some(1),
            ..GitStatus::default()
        },
    );
    assert!(cache.broadcast(&snapshot, Some(vec![4])));
    snapshot.git_statuses.insert(
        path("/repo"),
        GitStatus {
            cached_at: Some(2),
            ..GitStatus::default()
        },
    );
    assert!(!cache.broadcast(&snapshot, Some(vec![5])));

    snapshot.active_pane_ids.insert("%1".into());
    assert!(cache.broadcast(&snapshot, Some(vec![6])));
    assert_eq!(cache.generation, 3);

    assert!(!stream_is_connected(Peek::Ended));
    assert!(!stream_is_connected(Peek::Data));
    assert!(!stream_is_connected(Peek::Failed));
    assert!(stream_is_connected(Peek::WouldBlock));
    assert!(stream_is_connected(Peek::Interrupted));
}

#[test]
fn concurrent_accept_observes_latest_published_generation() {
    let mut cache = BroadcastCache::new();
    assert!(cache.broadcast(&empty_snapshot(), Some(vec![0])));
    let mut seen = cache.generation;
    for version in 1..=20 {
        let mut snapshot = empty_snapshot();
        snapshot.config_version = version;
        assert!(cache.broadcast(&snapshot, Some(vec![version as u8])));
        assert!(!cache.may_join(seen));
        seen = cache.generation;
    }
    assert!(cache.may_join(seen));
    assert_eq!(cache.payload[4], 20);
}

#[test]
fn snapshots_that_are_too_large_are_not_published() {
    let mut cache = BroadcastCache::new();
    let snapshot = empty_snapshot();
    assert!(!cache.broadcast(&snapshot, None));
    assert!(!cache.broadcast(&snapshot, Some(vec![0; MAX_SNAPSHOT_SIZE + 1])));
    assert!(cache.needs_publish(&snapshot));
    assert!(cache.broadcast(&snapshot, Some(vec![0; MAX_SNAPSHOT_SIZE])));
    assert_eq!(&cache.payload[..4], &[0, 16, 0, 0]);
    assert_eq!(frame(&vec![7; 258])[..5], [0, 0, 1, 2, 7]);
}

#[test]
fn generations_start_over() {
    let mut cache = BroadcastCache::new();
    cache.generation = u64::MAX;
    assert!(cache.broadcast(&empty_snapshot(), Some(Vec::new())));
    assert_eq!(cache.generation, 0);
}

fn config(layout: Option<&str>, position: Option<SidebarPosition>) -> Config {
    Config {
        agent: None,
        agent_type: None,
        selected_agent: None,
        status_icons: StatusIcons {
            working: None,
            waiting: None,
            done: None,
        },
        sidebar: SidebarConfig {
            layout: layout.map(str::to_string),
            position,
            sort: None,
        },
        other_settings: String::new(),
    }
}

#[test]
fn layout_comes_from_tmux_then_settings_then_config() {
    let compact = config(Some("compact"), None);
    assert_eq!(
        read_sidebar_layout_mode(&compact, Some(" tiles\n"), Some("compact")),
        Some(SidebarLayoutMode::Tiles)
    );
    assert_eq!(
        read_sidebar_layout_mode(&compact, Some("other"), Some("tiles")),
        Some(SidebarLayoutMode::Tiles)
    );
    assert_eq!(
        read_sidebar_layout_mode(&compact, None, Some(" tiles")),
        Some(SidebarLayoutMode::Compact)
    );
    assert_eq!(
        read_sidebar_layout_mode(&config(None, None), None, None),
        None
    );
}

#[test]
fn filter_comes_from_tmux_then_settings() {
    assert_eq!(
        read_sidebar_filter_mode(Some("session"), Some("none")),
        Some("session")
    );
    assert_eq!(read_sidebar_filter_mode(None, Some("none")), Some("none"));
    assert_eq!(read_sidebar_filter_mode(None, None), None);
}

#[test]
fn position_comes_from_tmux_then_config() {
    let top = config(None, Some(SidebarPosition::Top));
    let left = SidebarPosition::Left;
    assert_eq!(
        read_sidebar_position(&top, Some(" left "), left),
        SidebarPosition::Left
    );
    assert_eq!(
        read_sidebar_position(&top, Some("bottom"), left),
        SidebarPosition::Top
    );
    assert_eq!(
        read_sidebar_position(&config(None, None), Some("top"), left),
        SidebarPosition::Top
    );
    assert_eq!(
        read_sidebar_position(&config(None, None), None, left),
        SidebarPosition::Left
    );
}

#[test]
fn sleeping_panes_are_words() {
    let panes = read_sleeping_panes(Some(" %1  %2\n%1 "));
    assert_eq!(panes.len(), 2);
    assert!(panes.contains(&"%1".to_string()));
    assert!(panes.contains(&"%2".to_string()));
    assert!(read_sleeping_panes(None).is_empty());
}

#[test]
fn sockets_are_named_after_instances() {
    assert_eq!(
        socket_path(&path("/tmp"), "/tmp/tmux-1000\\default").text(),
        "/tmp/workmux-sidebar--tmp-tmux-1000-default.sock"
    );
}
