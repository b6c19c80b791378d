//! The rules a project daemon follows to start, watch, restart and stop its services.

pub mod boot;
pub mod command;
pub mod deploy;
pub mod duration;
pub mod flags;
pub mod handoff;
pub mod launch;
pub mod locks;
pub mod monitor;
pub mod order;
pub mod pass;
pub mod pid_file;
pub mod ports;
pub mod proctree;
pub mod ready;
pub mod record;
pub mod restart;
pub mod start;
pub mod state_file;
pub mod stop;
pub mod verify;

pub use pid_file::{PidFile, PidFileError};
pub use state_file::{
    ServiceLifecycleStatus, ServiceReadyState, ServiceStateEntry, ServiceStateError,
    ServiceStateFile,
};
