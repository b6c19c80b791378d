//! The control channel between command-line invocations and the resident supervisor.

pub mod command;
pub mod fingerprint;
pub mod runtime_files;
pub mod wait;

pub use command::{
    authenticate_peer, decode_control_frame, CommandAck, ControlCommand, ControlError,
};
pub use fingerprint::{manifest_fingerprint, ManifestProject, ServiceHash};
pub use runtime_files::{
    managed_owner_in, socket_path, supervisor_is_managed, supervisor_pid_path,
};
pub use wait::{CommandWait, SliceRead, WaitPolicy, WaitStep};
