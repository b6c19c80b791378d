//! What an invocation of `logs` does, and how a bad one is reported.

pub mod diagnostics;
pub mod plan;

pub use diagnostics::{
    conflicting_modes, follow_with_mode, loose_service_not_found, prune_bound_missing,
    supervisor_with_selector, target_required, unsupported_format,
};
pub use plan::{resolve_plan, LogsPlan, LogsPlanError, Modes};
