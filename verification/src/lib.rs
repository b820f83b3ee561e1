pub mod agent_setup;
pub mod bytes;
pub mod config;
pub mod frozen_config;
pub mod lists;
pub mod order;
pub mod paths;
pub mod sandbox;
pub mod sidebar;
pub mod tables;
pub mod text;
pub mod values;
