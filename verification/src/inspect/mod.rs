//! Which service an invocation of `inspect` details, and how a bad one is reported.

pub mod diagnostics;
pub mod plan;

pub use diagnostics::{invalid_stream_duration, service_not_found};
pub use plan::{resolve_plan, InspectPlan, InspectPlanError};
