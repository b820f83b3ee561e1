//! What the sidebar shows.
use vstd::prelude::*;

use crate::config::SidebarPosition;
use crate::paths::{FilePath, PathView};
use crate::tables::{KeySet, Table};
use crate::values::Value;

verus! {

/// What an agent is doing.
#[derive(Debug, Clone, Copy, PartialEq, Eq, Structural)]
pub enum AgentStatus {
    Working,
    Waiting,
    Done,
}

/// How the sidebar lays its agents out.
#[derive(Debug, Clone, Copy, PartialEq, Eq, Structural)]
pub enum SidebarLayoutMode {
    Compact,
    Tiles,
}

impl DeepView for AgentStatus {
    type V = AgentStatus;

    open spec fn deep_view(&self) -> AgentStatus {
        *self
    }
}

impl Value for AgentStatus {
    fn dup(&self) -> (copy: Self) {
        *self
    }

    fn same(&self, other: &Self) -> (equal: bool) {
        *self == *other
    }
}

impl DeepView for SidebarLayoutMode {
    type V = SidebarLayoutMode;

    open spec fn deep_view(&self) -> SidebarLayoutMode {
        *self
    }
}

impl Value for SidebarLayoutMode {
    fn dup(&self) -> (copy: Self) {
        *self
    }

    fn same(&self, other: &Self) -> (equal: bool) {
        *self == *other
    }
}

/// Which agents the sidebar shows.
#[derive(Debug)]
pub enum SidebarFilterMode {
    /// All of them.
    All,
    /// Those of the session.
    Session,
    /// Those of another mode, by its name.
    Other(String),
}

/// Which agents the sidebar shows.
pub enum SidebarFilterModeView {
    All,
    Session,
    Other(Seq<char>),
}

impl DeepView for SidebarFilterMode {
    type V = SidebarFilterModeView;

    open spec fn deep_view(&self) -> SidebarFilterModeView {
        match self {
            SidebarFilterMode::All => SidebarFilterModeView::All,
            SidebarFilterMode::Session => SidebarFilterModeView::Session,
            SidebarFilterMode::Other(name) => SidebarFilterModeView::Other(name@),
        }
    }
}

impl Value for SidebarFilterMode {
    fn dup(&self) -> (copy: Self) {
        match self {
            SidebarFilterMode::All => SidebarFilterMode::All,
            SidebarFilterMode::Session => SidebarFilterMode::Session,
            SidebarFilterMode::Other(name) => SidebarFilterMode::Other(name.dup()),
        }
    }

    fn same(&self, other: &Self) -> (equal: bool) {
        match (self, other) {
            (SidebarFilterMode::All, SidebarFilterMode::All) => true,
            (SidebarFilterMode::Session, SidebarFilterMode::Session) => true,
            (SidebarFilterMode::Other(a), SidebarFilterMode::Other(b)) => a.same(b),
            _ => false,
        }
    }
}

/// The state of a worktree.
#[derive(Debug)]
pub struct GitStatus {
    pub ahead: usize,
    pub behind: usize,
    pub has_conflict: bool,
    pub is_dirty: bool,
    pub lines_added: usize,
    pub lines_removed: usize,
    pub uncommitted_added: usize,
    pub uncommitted_removed: usize,
    /// When it was found out, in seconds.
    pub cached_at: Option<u64>,
    pub base_branch: String,
    pub branch: Option<String>,
    pub has_upstream: bool,
    pub is_rebasing: bool,
}

/// The state of a worktree.
#[verifier::ext_equal]
pub struct GitStatusView {
    pub ahead: usize,
    pub behind: usize,
    pub has_conflict: bool,
    pub is_dirty: bool,
    pub lines_added: usize,
    pub lines_removed: usize,
    pub uncommitted_added: usize,
    pub uncommitted_removed: usize,
    pub cached_at: Option<u64>,
    pub base_branch: Seq<char>,
    pub branch: Option<Seq<char>>,
    pub has_upstream: bool,
    pub is_rebasing: bool,
}

impl DeepView for GitStatus {
    type V = GitStatusView;

    open spec fn deep_view(&self) -> GitStatusView {
        GitStatusView {
            ahead: self.ahead.deep_view(),
            behind: self.behind.deep_view(),
            has_conflict: self.has_conflict.deep_view(),
            is_dirty: self.is_dirty.deep_view(),
            lines_added: self.lines_added.deep_view(),
            lines_removed: self.lines_removed.deep_view(),
            uncommitted_added: self.uncommitted_added.deep_view(),
            uncommitted_removed: self.uncommitted_removed.deep_view(),
            cached_at: self.cached_at.deep_view(),
            base_branch: self.base_branch.deep_view(),
            branch: self.branch.deep_view(),
            has_upstream: self.has_upstream.deep_view(),
            is_rebasing: self.is_rebasing.deep_view(),
        }
    }
}

impl Value for GitStatus {
    fn dup(&self) -> (copy: Self) {
        GitStatus {
            ahead: self.ahead.dup(),
            behind: self.behind.dup(),
            has_conflict: self.has_conflict.dup(),
            is_dirty: self.is_dirty.dup(),
            lines_added: self.lines_added.dup(),
            lines_removed: self.lines_removed.dup(),
            uncommitted_added: self.uncommitted_added.dup(),
            uncommitted_removed: self.uncommitted_removed.dup(),
            cached_at: self.cached_at.dup(),
            base_branch: self.base_branch.dup(),
            branch: self.branch.dup(),
            has_upstream: self.has_upstream.dup(),
            is_rebasing: self.is_rebasing.dup(),
        }
    }

    fn same(&self, other: &Self) -> (equal: bool) {
        self.ahead.same(&other.ahead)
            && self.behind.same(&other.behind)
            && self.has_conflict.same(&other.has_conflict)
            && self.is_dirty.same(&other.is_dirty)
            && self.lines_added.same(&other.lines_added)
            && self.lines_removed.same(&other.lines_removed)
            && self.uncommitted_added.same(&other.uncommitted_added)
            && self.uncommitted_removed.same(&other.uncommitted_removed)
            && self.cached_at.same(&other.cached_at)
            && self.base_branch.same(&other.base_branch)
            && self.branch.same(&other.branch)
            && self.has_upstream.same(&other.has_upstream)
            && self.is_rebasing.same(&other.is_rebasing)
    }
}

impl GitStatusView {
    /// The state without the time when it was found out.
    pub open spec fn lasting(self) -> GitStatusView {
        GitStatusView { cached_at: None, ..self }
    }
}

impl Default for GitStatus {
    fn default() -> (status: Self)
        ensures
            status.deep_view() == (GitStatusView {
                ahead: 0,
                behind: 0,
                has_conflict: false,
                is_dirty: false,
                lines_added: 0,
                lines_removed: 0,
                uncommitted_added: 0,
                uncommitted_removed: 0,
                cached_at: None,
                base_branch: Seq::empty(),
                branch: None,
                has_upstream: false,
                is_rebasing: false,
            }),
    {
        let base_branch = String::new();
        assert(base_branch@ =~= Seq::<char>::empty());
        GitStatus {
            ahead: 0,
            behind: 0,
            has_conflict: false,
            is_dirty: false,
            lines_added: 0,
            lines_removed: 0,
            uncommitted_added: 0,
            uncommitted_removed: 0,
            cached_at: None,
            base_branch,
            branch: None,
            has_upstream: false,
            is_rebasing: false,
        }
    }
}

/// A pull request.
#[derive(Debug)]
pub struct PrSummary {
    pub number: u64,
    pub title: String,
    pub state: String,
    pub is_draft: bool,
    /// The state of its checks, as it is stored.
    pub checks: Option<String>,
    /// More about its checks, as it is stored.
    pub check_meta: Option<String>,
    pub url: Option<String>,
}

/// A pull request.
#[verifier::ext_equal]
pub struct PrSummaryView {
    pub number: u64,
    pub title: Seq<char>,
    pub state: Seq<char>,
    pub is_draft: bool,
    pub checks: Option<Seq<char>>,
    pub check_meta: Option<Seq<char>>,
    pub url: Option<Seq<char>>,
}

impl DeepView for PrSummary {
    type V = PrSummaryView;

    open spec fn deep_view(&self) -> PrSummaryView {
        PrSummaryView {
            number: self.number.deep_view(),
            title: self.title.deep_view(),
            state: self.state.deep_view(),
            is_draft: self.is_draft.deep_view(),
            checks: self.checks.deep_view(),
            check_meta: self.check_meta.deep_view(),
            url: self.url.deep_view(),
        }
    }
}

impl Value for PrSummary {
    fn dup(&self) -> (copy: Self) {
        PrSummary {
            number: self.number.dup(),
            title: self.title.dup(),
            state: self.state.dup(),
            is_draft: self.is_draft.dup(),
            checks: self.checks.dup(),
            check_meta: self.check_meta.dup(),
            url: self.url.dup(),
        }
    }

    fn same(&self, other: &Self) -> (equal: bool) {
        self.number.same(&other.number)
            && self.title.same(&other.title)
            && self.state.same(&other.state)
            && self.is_draft.same(&other.is_draft)
            && self.checks.same(&other.checks)
            && self.check_meta.same(&other.check_meta)
            && self.url.same(&other.url)
    }
}

/// The checks of a branch.
#[derive(Debug)]
pub struct CheckSummary {
    /// Their state, as it is stored.
    pub state: String,
    /// More about them, as it is stored.
    pub meta: Option<String>,
}

/// The checks of a branch.
#[verifier::ext_equal]
pub struct CheckSummaryView {
    pub state: Seq<char>,
    pub meta: Option<Seq<char>>,
}

impl DeepView for CheckSummary {
    type V = CheckSummaryView;

    open spec fn deep_view(&self) -> CheckSummaryView {
        CheckSummaryView {
            state: self.state.deep_view(),
            meta: self.meta.deep_view(),
        }
    }
}

impl Value for CheckSummary {
    fn dup(&self) -> (copy: Self) {
        CheckSummary {
            state: self.state.dup(),
            meta: self.meta.dup(),
        }
    }

    fn same(&self, other: &Self) -> (equal: bool) {
        self.state.same(&other.state)
            && self.meta.same(&other.meta)
    }
}

/// A pane with an agent.
pub struct AgentPane {
    pub session: String,
    pub window_name: String,
    pub pane_id: String,
    pub window_id: String,
    pub window_index: Option<u32>,
    pub path: FilePath,
    pub pane_title: Option<String>,
    pub status: Option<AgentStatus>,
    /// When the status began, in seconds.
    pub status_ts: Option<u64>,
    /// When the agent last did something, in seconds.
    pub activity_ts: Option<u64>,
    /// When the agent last reported, in seconds.
    pub updated_ts: Option<u64>,
    pub window_cmd: Option<String>,
    pub agent_command: Option<String>,
    pub agent_kind: Option<String>,
}

/// A pane with an agent.
#[verifier::ext_equal]
pub struct AgentPaneView {
    pub session: Seq<char>,
    pub window_name: Seq<char>,
    pub pane_id: Seq<char>,
    pub window_id: Seq<char>,
    pub window_index: Option<u32>,
    pub path: PathView,
    pub pane_title: Option<Seq<char>>,
    pub status: Option<AgentStatus>,
    pub status_ts: Option<u64>,
    pub activity_ts: Option<u64>,
    pub updated_ts: Option<u64>,
    pub window_cmd: Option<Seq<char>>,
    pub agent_command: Option<Seq<char>>,
    pub agent_kind: Option<Seq<char>>,
}

impl DeepView for AgentPane {
    type V = AgentPaneView;

    open spec fn deep_view(&self) -> AgentPaneView {
        AgentPaneView {
            session: self.session.deep_view(),
            window_name: self.window_name.deep_view(),
            pane_id: self.pane_id.deep_view(),
            window_id: self.window_id.deep_view(),
            window_index: self.window_index.deep_view(),
            path: self.path.deep_view(),
            pane_title: self.pane_title.deep_view(),
            status: self.status.deep_view(),
            status_ts: self.status_ts.deep_view(),
            activity_ts: self.activity_ts.deep_view(),
            updated_ts: self.updated_ts.deep_view(),
            window_cmd: self.window_cmd.deep_view(),
            agent_command: self.agent_command.deep_view(),
            agent_kind: self.agent_kind.deep_view(),
        }
    }
}

impl Value for AgentPane {
    fn dup(&self) -> (copy: Self) {
        AgentPane {
            session: self.session.dup(),
            window_name: self.window_name.dup(),
            pane_id: self.pane_id.dup(),
            window_id: self.window_id.dup(),
            window_index: self.window_index.dup(),
            path: self.path.dup(),
            pane_title: self.pane_title.dup(),
            status: self.status.dup(),
            status_ts: self.status_ts.dup(),
            activity_ts: self.activity_ts.dup(),
            updated_ts: self.updated_ts.dup(),
            window_cmd: self.window_cmd.dup(),
            agent_command: self.agent_command.dup(),
            agent_kind: self.agent_kind.dup(),
        }
    }

    fn same(&self, other: &Self) -> (equal: bool) {
        self.session.same(&other.session)
            && self.window_name.same(&other.window_name)
            && self.pane_id.same(&other.pane_id)
            && self.window_id.same(&other.window_id)
            && self.window_index.same(&other.window_index)
            && self.path.same(&other.path)
            && self.pane_title.same(&other.pane_title)
            && self.status.same(&other.status)
            && self.status_ts.same(&other.status_ts)
            && self.activity_ts.same(&other.activity_ts)
            && self.updated_ts.same(&other.updated_ts)
            && self.window_cmd.same(&other.window_cmd)
            && self.agent_command.same(&other.agent_command)
            && self.agent_kind.same(&other.agent_kind)
    }
}

/// Everything that the sidebar shows at a time.
pub struct SidebarSnapshot {
    pub position: SidebarPosition,
    pub layout_mode: SidebarLayoutMode,
    pub filter_mode: SidebarFilterMode,
    /// Sessions and windows.
    pub active_windows: KeySet<(String, String)>,
    pub active_pane_ids: KeySet<String>,
    pub window_pane_counts: Table<String, usize>,
    pub git_statuses: Table<FilePath, GitStatus>,
    pub pr_statuses: Table<FilePath, PrSummary>,
    pub check_statuses: Table<FilePath, CheckSummary>,
    pub interrupted_pane_ids: KeySet<String>,
    pub sleeping_pane_ids: KeySet<String>,
    pub agents: Vec<AgentPane>,
    pub config_version: u64,
}

/// Everything that the sidebar shows at a time.
#[verifier::ext_equal]
pub struct SidebarSnapshotView {
    pub position: SidebarPosition,
    pub layout_mode: SidebarLayoutMode,
    pub filter_mode: SidebarFilterModeView,
    pub active_windows: Set<(Seq<char>, Seq<char>)>,
    pub active_pane_ids: Set<Seq<char>>,
    pub window_pane_counts: Map<Seq<char>, usize>,
    pub git_statuses: Map<PathView, GitStatusView>,
    pub pr_statuses: Map<PathView, PrSummaryView>,
    pub check_statuses: Map<PathView, CheckSummaryView>,
    pub interrupted_pane_ids: Set<Seq<char>>,
    pub sleeping_pane_ids: Set<Seq<char>>,
    pub agents: Seq<AgentPaneView>,
    pub config_version: u64,
}

impl DeepView for SidebarSnapshot {
    type V = SidebarSnapshotView;

    open spec fn deep_view(&self) -> SidebarSnapshotView {
        SidebarSnapshotView {
            position: self.position.deep_view(),
            layout_mode: self.layout_mode.deep_view(),
            filter_mode: self.filter_mode.deep_view(),
            active_windows: self.active_windows.deep_view(),
            active_pane_ids: self.active_pane_ids.deep_view(),
            window_pane_counts: self.window_pane_counts.deep_view(),
            git_statuses: self.git_statuses.deep_view(),
            pr_statuses: self.pr_statuses.deep_view(),
            check_statuses: self.check_statuses.deep_view(),
            interrupted_pane_ids: self.interrupted_pane_ids.deep_view(),
            sleeping_pane_ids: self.sleeping_pane_ids.deep_view(),
            agents: self.agents.deep_view(),
            config_version: self.config_version.deep_view(),
        }
    }
}

impl Value for SidebarSnapshot {
    fn dup(&self) -> (copy: Self) {
        SidebarSnapshot {
            position: self.position.dup(),
            layout_mode: self.layout_mode.dup(),
            filter_mode: self.filter_mode.dup(),
            active_windows: self.active_windows.dup(),
            active_pane_ids: self.active_pane_ids.dup(),
            window_pane_counts: self.window_pane_counts.dup(),
            git_statuses: self.git_statuses.dup(),
            pr_statuses: self.pr_statuses.dup(),
            check_statuses: self.check_statuses.dup(),
            interrupted_pane_ids: self.interrupted_pane_ids.dup(),
            sleeping_pane_ids: self.sleeping_pane_ids.dup(),
            agents: self.agents.dup(),
            config_version: self.config_version.dup(),
        }
    }

    fn same(&self, other: &Self) -> (equal: bool) {
        self.position.same(&other.position)
            && self.layout_mode.same(&other.layout_mode)
            && self.filter_mode.same(&other.filter_mode)
            && self.active_windows.same(&other.active_windows)
            && self.active_pane_ids.same(&other.active_pane_ids)
            && self.window_pane_counts.same(&other.window_pane_counts)
            && self.git_statuses.same(&other.git_statuses)
            && self.pr_statuses.same(&other.pr_statuses)
            && self.check_statuses.same(&other.check_statuses)
            && self.interrupted_pane_ids.same(&other.interrupted_pane_ids)
            && self.sleeping_pane_ids.same(&other.sleeping_pane_ids)
            && self.agents.same(&other.agents)
            && self.config_version.same(&other.config_version)
    }
}

} // verus!
