//! How projects are run.

use vstd::prelude::*;

verus! {

/// How a project was started.
#[derive(Debug, Clone, Copy, PartialEq, Eq, Structural)]
pub enum ProjectRunMode {
    /// In the background.
    Daemon,
    /// In the foreground of a terminal.
    Foreground,
}

impl Default for ProjectRunMode {
    fn default() -> (r: Self)
        ensures
            r == ProjectRunMode::Daemon,
    {
        ProjectRunMode::Daemon
    }
}

} // verus!
