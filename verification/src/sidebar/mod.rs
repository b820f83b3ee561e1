//! The daemon behind the sidebar.
pub mod broadcast;
pub mod clock;
pub mod comparison;
pub mod config_watcher;
pub mod daemon;
pub mod events;
pub mod git_cache;
pub mod git_dirs;
pub mod git_refresh;
pub mod git_run;
pub mod git_worker;
pub mod github_run;
pub mod github_worker;
pub mod ignores;
pub mod inactivity;
pub mod options;
pub mod schedule;
pub mod state;
pub mod tick;
pub mod watches;
