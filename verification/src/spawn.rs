//! What is remembered of processes that a service spawned through the supervisor.

use vstd::prelude::*;

verus! {

/// How a spawned child ended.
#[derive(Debug, Clone, Copy, PartialEq, Eq, Structural)]
pub struct SpawnedExit {
    /// Exit code, when the child exited.
    pub exit_code: Option<i32>,
    /// Signal number, when a signal ended the child.
    pub signal: Option<i32>,
    /// When the end was seen, in seconds since the Unix epoch.
    pub finished_at: Option<u64>,
}

/// The record of one spawned child.
#[derive(Debug, PartialEq, Eq)]
pub struct PersistedSpawnChild {
    /// The child's process id.
    pub pid: u32,
    /// The child's display name.
    pub name: String,
    /// The command it runs.
    pub command: String,
    /// When it started, in seconds since the Unix epoch.
    pub started_at: u64,
    /// Its time to live in seconds.
    pub ttl_secs: Option<u64>,
    /// Its depth in the spawn tree.
    pub depth: usize,
    /// The process that spawned it.
    pub parent_pid: u32,
    /// The configuration hash of the service it belongs to.
    pub service_hash: Option<String>,
    /// Its last processor share, as the bits of a 32-bit float.
    pub cpu_percent_bits: Option<u32>,
    /// Its last resident size.
    pub rss_bytes: Option<u64>,
    /// How it ended, once it has.
    pub last_exit: Option<SpawnedExit>,
}

} // verus!
