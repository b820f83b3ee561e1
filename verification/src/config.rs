//! The configuration, as far as the library reads it.
use vstd::prelude::*;

use crate::paths::{FilePath, PathView};
use crate::values::Value;

verus! {

/// The icons that stand for the states of an agent.
#[derive(Debug)]
pub struct StatusIcons {
    pub working: Option<String>,
    pub waiting: Option<String>,
    pub done: Option<String>,
}

/// The icons that stand for the states of an agent.
pub struct StatusIconsView {
    pub working: Option<Seq<char>>,
    pub waiting: Option<Seq<char>>,
    pub done: Option<Seq<char>>,
}

impl DeepView for StatusIcons {
    type V = StatusIconsView;

    open spec fn deep_view(&self) -> StatusIconsView {
        StatusIconsView {
            working: self.working.deep_view(),
            waiting: self.waiting.deep_view(),
            done: self.done.deep_view(),
        }
    }
}

impl Value for StatusIcons {
    fn dup(&self) -> (copy: Self) {
        StatusIcons {
            working: self.working.dup(),
            waiting: self.waiting.dup(),
            done: self.done.dup(),
        }
    }

    fn same(&self, other: &Self) -> (equal: bool) {
        self.working.same(&other.working) && self.waiting.same(&other.waiting) && self.done.same(
            &other.done,
        )
    }
}

/// Where the sidebar stands.
#[derive(Debug, Clone, Copy, PartialEq, Eq, Structural)]
pub enum SidebarPosition {
    Left,
    Top,
}

impl DeepView for SidebarPosition {
    type V = SidebarPosition;

    open spec fn deep_view(&self) -> SidebarPosition {
        *self
    }
}

impl Value for SidebarPosition {
    fn dup(&self) -> (copy: Self) {
        *self
    }

    fn same(&self, other: &Self) -> (equal: bool) {
        *self == *other
    }
}

/// The sidebar's part of the configuration.
#[derive(Debug)]
pub struct SidebarConfig {
    pub layout: Option<String>,
    pub position: Option<SidebarPosition>,
    /// The order of the agents, as it is written.
    pub sort: Option<String>,
}

/// The sidebar's part of the configuration.
pub struct SidebarConfigView {
    pub layout: Option<Seq<char>>,
    pub position: Option<SidebarPosition>,
    pub sort: Option<Seq<char>>,
}

impl DeepView for SidebarConfig {
    type V = SidebarConfigView;

    open spec fn deep_view(&self) -> SidebarConfigView {
        SidebarConfigView {
            layout: self.layout.deep_view(),
            position: self.position.deep_view(),
            sort: self.sort.deep_view(),
        }
    }
}

impl Value for SidebarConfig {
    fn dup(&self) -> (copy: Self) {
        SidebarConfig {
            layout: self.layout.dup(),
            position: self.position.dup(),
            sort: self.sort.dup(),
        }
    }

    fn same(&self, other: &Self) -> (equal: bool) {
        self.layout.same(&other.layout) && self.position.same(&other.position) && self.sort.same(&other.sort)
    }
}

/// The configuration.
#[derive(Debug)]
pub struct Config {
    pub agent: Option<String>,
    pub agent_type: Option<String>,
    pub selected_agent: Option<String>,
    pub status_icons: StatusIcons,
    pub sidebar: SidebarConfig,
    /// The other settings, in the form in which they are stored.
    pub other_settings: String,
}

/// The configuration.
pub struct ConfigView {
    pub agent: Option<Seq<char>>,
    pub agent_type: Option<Seq<char>>,
    pub selected_agent: Option<Seq<char>>,
    pub status_icons: StatusIconsView,
    pub sidebar: SidebarConfigView,
    pub other_settings: Seq<char>,
}

impl DeepView for Config {
    type V = ConfigView;

    open spec fn deep_view(&self) -> ConfigView {
        ConfigView {
            agent: self.agent.deep_view(),
            agent_type: self.agent_type.deep_view(),
            selected_agent: self.selected_agent.deep_view(),
            status_icons: self.status_icons.deep_view(),
            sidebar: self.sidebar.deep_view(),
            other_settings: self.other_settings@,
        }
    }
}

impl Value for Config {
    fn dup(&self) -> (copy: Self) {
        Config {
            agent: self.agent.dup(),
            agent_type: self.agent_type.dup(),
            selected_agent: self.selected_agent.dup(),
            status_icons: self.status_icons.dup(),
            sidebar: self.sidebar.dup(),
            other_settings: self.other_settings.dup(),
        }
    }

    fn same(&self, other: &Self) -> (equal: bool) {
        self.agent.same(&other.agent) && self.agent_type.same(&other.agent_type)
            && self.selected_agent.same(&other.selected_agent) && self.status_icons.same(
            &other.status_icons,
        ) && self.sidebar.same(&other.sidebar) && self.other_settings.same(&other.other_settings)
    }
}

/// Where a project's configuration was found.
pub struct ConfigLocation {
    pub config_path: FilePath,
    pub config_dir: FilePath,
    /// The directory as seen from the root of the repository.
    pub rel_dir: FilePath,
}

/// Where a project's configuration was found.
pub struct ConfigLocationView {
    pub config_path: PathView,
    pub config_dir: PathView,
    pub rel_dir: PathView,
}

impl DeepView for ConfigLocation {
    type V = ConfigLocationView;

    open spec fn deep_view(&self) -> ConfigLocationView {
        ConfigLocationView {
            config_path: self.config_path.deep_view(),
            config_dir: self.config_dir.deep_view(),
            rel_dir: self.rel_dir.deep_view(),
        }
    }
}

impl ConfigLocation {
    /// Whether the paths are spelled as those of another place are.
    pub open spec fn spelled_as(&self, other: ConfigLocation) -> bool {
        &&& self.config_path.spelled() == other.config_path.spelled()
        &&& self.config_dir.spelled() == other.config_dir.spelled()
        &&& self.rel_dir.spelled() == other.rel_dir.spelled()
    }
}

impl Value for ConfigLocation {
    fn dup(&self) -> (copy: Self)
        ensures
            copy.spelled_as(*self),
    {
        ConfigLocation {
            config_path: self.config_path.dup(),
            config_dir: self.config_dir.dup(),
            rel_dir: self.rel_dir.dup(),
        }
    }

    fn same(&self, other: &Self) -> (equal: bool) {
        self.config_path.same(&other.config_path) && self.config_dir.same(&other.config_dir)
            && self.rel_dir.same(&other.rel_dir)
    }
}

} // verus!
