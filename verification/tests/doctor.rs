use systemg::daemon::pid_file::PidFile;
use systemg::daemon::state_file::{ServiceLifecycleStatus, ServiceStateFile};
use systemg::doctor::{check_project, check_state_dir, report, Finding, Severity};
use systemg::pids::PidSet;
use systemg::state_store::StateStore;

fn findings_of(
    status: ServiceLifecycleStatus,
    pid: Option<u32>,
    exit_code: Option<i32>,
    there: &[u32],
    dead: &[u32],
) -> Vec<Finding> {
    let mut state = ServiceStateFile::empty(StateStore::at("/tmp/x".to_string()));
    state.set_in_memory("v2:demo:web", status, pid, exit_code, None);
    let pids = PidFile::empty(StateStore::at("/tmp/x".to_string()));
    let mut addressable = PidSet::new();
    for pid in there {
        addressable.insert(*pid);
    }
    let mut zombies = PidSet::new();
    for pid in dead {
        zombies.insert(*pid);
    }
    let mut findings = Vec::new();
    check_project("demo", Some(&state), Some(&pids), &addressable, &zombies, &mut findings);
    findings
}

#[test]
fn running_with_dead_pid_is_an_error() {
    let findings =
        findings_of(ServiceLifecycleStatus::Running, Some(1_000_007), None, &[], &[]);
    assert!(
        findings
            .iter()
            .any(|f| f.rule == "running-pid-dead" && f.severity == Severity::Error),
        "expected running-pid-dead error, got {findings:?}"
    );
}

#[test]
fn running_without_pid_is_an_error() {
    let findings = findings_of(ServiceLifecycleStatus::Running, None, None, &[], &[]);
    assert!(
        findings.iter().any(|f| f.rule == "running-without-pid"),
        "expected running-without-pid, got {findings:?}"
    );
}

#[test]
fn running_with_live_pid_is_clean() {
    let findings = findings_of(ServiceLifecycleStatus::Running, Some(77), None, &[77], &[]);
    assert!(
        findings.is_empty(),
        "a live Running service should be clean, got {findings:?}"
    );
}

#[test]
fn stopped_service_with_no_pid_is_clean() {
    let findings = findings_of(ServiceLifecycleStatus::Stopped, None, Some(0), &[], &[]);
    assert!(findings.is_empty(), "stopped is fine, got {findings:?}");
}

#[test]
fn a_dead_process_that_is_still_listed_is_an_error() {
    let findings = findings_of(ServiceLifecycleStatus::Running, Some(77), None, &[77], &[77]);
    assert!(findings.iter().any(|f| f.rule == "running-pid-zombie"));
    let told = report(false, 1, findings);
    assert!(told.has_errors() && !told.is_clean());
    assert!(told.message().contains("running-pid-zombie"));
}

#[test]
fn system_state_belongs_under_a_system_directory() {
    let shown = "\"/home/u/.local\"";
    assert!(check_state_dir(false, "/home/u/.local", shown).is_none());
    assert!(check_state_dir(true, "/var/lib/systemg", "").is_none());
    assert!(check_state_dir(true, "/var/./lib//systemg", "").is_none());
    assert!(check_state_dir(true, "/Library", "").is_none());
    assert!(check_state_dir(true, "/var/library", "").is_some());
    assert!(check_state_dir(true, "var/lib", "").is_some());
    let finding = check_state_dir(true, "/home/u/.local", shown).unwrap();
    assert_eq!(finding.rule, "system-mode-user-path");
    assert!(report(true, 0, vec![]).is_clean());
}
