//! Supervision rules of the `systemg` process supervisor.

pub mod config;
pub mod daemon;
pub mod diag;
pub mod diag_color;
pub mod doctor;
pub mod error;
pub mod inspect;
pub mod ipc;
pub mod logs;
pub mod logs_cmd;
pub mod loose_registry;
pub mod metrics;
pub mod names;
pub mod paths;
pub mod pids;
pub mod selector;
pub mod spawn;
pub mod state_store;
pub mod status;
pub mod text;
