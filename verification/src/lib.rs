//! Process-lifecycle engine for a port monitor: listener scanning and
//! diffing under adaptive polling, and escalating process termination with
//! batch aggregation.

pub mod batch;
pub mod brew;
pub mod config;
pub mod docker;
pub mod icon;
pub mod kill;
pub mod launch;
pub mod lsof;
pub mod menu;
pub mod model;
pub mod monitor;
pub mod netstat;
pub mod notify;
pub mod projects;
pub mod reactor;
pub mod services;
pub mod snapshot;
pub mod text;
pub mod tray_menu;
pub mod utils;
pub mod watcher;
pub mod windows_services;
