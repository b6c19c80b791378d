//! Resolving the selector of `inspect` into one service.

use vstd::prelude::*;

use crate::selector::{resolve_target, target_of, ProjectMismatch, Target, TargetView};
use crate::text::{opt_str, opt_text};

verus! {

/// The service that an invocation of `inspect` details.
#[derive(Debug, PartialEq, Eq)]
pub struct InspectPlan {
    /// The service, without its project.
    pub service: String,
    /// Its project, when it was named.
    pub project: Option<String>,
    /// Whether the facts are collected at once rather than read from the last collection.
    pub live: bool,
}

/// Why an invocation of `inspect` means nothing.
#[derive(Debug, PartialEq, Eq)]
pub enum InspectPlanError {
    /// The selector names no single service.
    NotAService,
    /// The project flag contradicts the selector.
    Mismatch(ProjectMismatch),
}

/// Resolves the selector into the service to detail.
pub fn resolve_plan(service: &str, project: Option<&str>, live: bool) -> (r: Result<
    InspectPlan,
    InspectPlanError,
>)
    ensures
        match target_of(Some(service@), opt_str(project)) {
            Ok(TargetView::Service { service: s, project: p }) => match r {
                Ok(plan) => plan.service@ == s && opt_text(plan.project) == p && plan.live == live,
                Err(_) => false,
            },
            Ok(_) => r == Err::<InspectPlan, InspectPlanError>(InspectPlanError::NotAService),
            Err((prefix, flag)) => match r {
                Err(InspectPlanError::Mismatch(m)) => m.prefix@ == prefix && m.flag@ == flag,
                _ => false,
            },
        },
{
    match resolve_target(Some(service), project) {
        Ok(Target::Service { service, project }) => Ok(InspectPlan { service, project, live }),
        Ok(_) => Err(InspectPlanError::NotAService),
        Err(m) => Err(InspectPlanError::Mismatch(m)),
    }
}

} // verus!
