use systemg::diag::SgCode;
use systemg::inspect::diagnostics::{invalid_stream_duration, service_not_found};
use systemg::inspect::plan::{InspectPlan, InspectPlanError};
use systemg::logs_cmd::diagnostics::{
    conflicting_modes, follow_with_mode, loose_service_not_found, prune_bound_missing,
    supervisor_with_selector, target_required, unsupported_format,
};
use systemg::logs_cmd::plan::{resolve_plan, LogsPlan, LogsPlanError, Modes};
use systemg::selector::{resolve_target, ProjectMismatch, Target};

#[test]
fn service_not_found_is_sg0202() {
    let diag = service_not_found("web");
    assert_eq!(diag.code, SgCode::TargetNotFound);
    assert!(diag.render(false).contains("web"));
}

#[test]
fn invalid_stream_duration_names_the_value() {
    let diag = invalid_stream_duration("xyz", "not a number");
    assert!(diag.render(false).contains("xyz"));
}

#[test]
fn a_service_resolves() {
    assert_eq!(
        systemg::inspect::plan::resolve_plan("web", None, false).unwrap(),
        InspectPlan { service: "web".into(), project: None, live: false }
    );
}

#[test]
fn project_qualified_service_resolves() {
    assert_eq!(
        systemg::inspect::plan::resolve_plan("web", Some("demo"), true).unwrap(),
        InspectPlan { service: "web".into(), project: Some("demo".into()), live: true }
    );
}

#[test]
fn prefixed_selector_carries_its_project() {
    assert_eq!(
        systemg::inspect::plan::resolve_plan("demo/web", None, false).unwrap(),
        InspectPlan { service: "web".into(), project: Some("demo".into()), live: false }
    );
}

#[test]
fn p_flag_conflicting_with_prefix_is_a_mismatch() {
    assert!(matches!(
        systemg::inspect::plan::resolve_plan("other/web", Some("demo"), false),
        Err(InspectPlanError::Mismatch(_))
    ));
}

#[test]
fn conflicting_modes_is_sg0204_and_names_them() {
    let diag = conflicting_modes(&["--path", "--purge"]);
    assert_eq!(diag.code, SgCode::ConflictingSelectors);
    assert!(diag.render(false).contains("--path and --purge"));
}

#[test]
fn prune_bound_missing_is_sg0017() {
    let diag = prune_bound_missing();
    assert_eq!(diag.code, SgCode::PruneBoundMissing);
    assert!(diag.render(false).contains("SG0017"));
}

#[test]
fn follow_with_mode_is_sg0204() {
    let diag = follow_with_mode("--path");
    assert_eq!(diag.code, SgCode::ConflictingSelectors);
}

#[test]
fn the_other_reports_name_their_subject() {
    assert!(loose_service_not_found("web").render(false).contains("web"));
    assert!(unsupported_format("xml").render(false).contains("xml"));
    assert!(target_required().render(false).contains("error["));
    assert!(supervisor_with_selector().render(false).contains("error["));
}

fn modes(path: bool, purge: bool, prune: bool, follow: bool) -> Modes {
    Modes { path, purge, prune, follow }
}

#[test]
fn no_flags_is_a_show() {
    assert_eq!(
        resolve_plan(modes(false, false, false, false), None, None, None, None).unwrap(),
        LogsPlan::Show { target: Target::Everything, follow: false }
    );
}

#[test]
fn follow_is_a_following_show() {
    assert_eq!(
        resolve_plan(modes(false, false, false, true), Some("web"), None, None, None).unwrap(),
        LogsPlan::Show {
            target: Target::Service { service: "web".into(), project: None },
            follow: true
        }
    );
}

#[test]
fn two_mode_flags_conflict() {
    assert!(matches!(
        resolve_plan(modes(true, true, false, false), None, None, None, None),
        Err(LogsPlanError::ConflictingModes { .. })
    ));
}

#[test]
fn follow_with_a_mode_is_rejected() {
    assert!(matches!(
        resolve_plan(modes(true, false, false, true), None, None, None, None),
        Err(LogsPlanError::FollowWithMode { mode: "--path" })
    ));
}

#[test]
fn prune_without_bounds_is_rejected() {
    assert_eq!(
        resolve_plan(modes(false, false, true, false), None, None, None, None),
        Err(LogsPlanError::PruneBoundMissing)
    );
}

#[test]
fn prune_with_a_bound_resolves() {
    assert_eq!(
        resolve_plan(modes(false, false, true, false), None, None, Some("500MB".into()), None)
            .unwrap(),
        LogsPlan::Prune { max_size: Some("500MB".into()), max_age: None }
    );
}

#[test]
fn purge_resolves_with_selector() {
    assert_eq!(
        resolve_plan(modes(false, true, false, false), None, Some("demo"), None, None).unwrap(),
        LogsPlan::Purge { target: Target::Project { project: "demo".into() } }
    );
}

#[test]
fn a_project_named_twice_must_be_the_same() {
    match resolve_target(Some("other/web"), Some("demo")) {
        Err(ProjectMismatch { prefix, flag }) => {
            assert_eq!((prefix.as_str(), flag.as_str()), ("other", "demo"));
        }
        Ok(t) => panic!("{t:?}"),
    }
    assert_eq!(
        resolve_target(Some("demo/web"), Some("demo")).unwrap(),
        Target::Service { service: "web".into(), project: Some("demo".into()) }
    );
}
