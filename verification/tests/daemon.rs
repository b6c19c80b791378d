use systemg::config::{
    deployment_strategy, effective_logs, restart_is_disabled, restarts_after_failure,
    restarts_after_success, should_verify_service, state_key, DependsOn, DependsOnCondition,
    DeploymentStrategy, LogSink, LogsConfig, SkipConfig,
};
use systemg::daemon::boot::{BootAction, BootRun, BootService};
use systemg::daemon::command::{
    command_timeout, hook_timeout, keep_tail, settle_pre_start, skip_answer, wait_step, BootEpoch,
    CommandEnd, PreStart, WaitStep,
};
use systemg::daemon::deploy::{
    active_index, blue_green_state_path, candidate_slot, env_with_override,
    resolve_blue_green_health_check, resolve_switch_command, BlueGreenAction, BlueGreenPlan,
    BlueGreenRun, HealthCheckConfig, RollingAction, RollingPlan, RollingRun,
};
use systemg::daemon::duration::parse_duration;
use systemg::daemon::flags::{dependents_in_order, restart_dependency_ready, DependencySighting, Flags};
use systemg::daemon::handoff::{
    adopt_handoff_processes, adopt_handoff_state, handoff_processes, handoff_state, HeldProcess,
};
use systemg::daemon::launch::{collect_service_env, launch_env, settle_launch, Launch};
use systemg::daemon::locks::{acquire_lock, release_lock, DaemonLock};
use systemg::daemon::monitor::{
    judge_stale_entry, observe, orphaned_group, Books, ChildPoll, Exit, ExitVerdict, ExitedService,
    LostSighting, RestartVerdict, ServiceProbe, StaleVerdict, WakeVerdict,
};
use systemg::daemon::order::{reverse_dependencies, service_start_order};
use systemg::daemon::pass::{
    reaps_before_restart, DueRestart, MonitorPass, PassAction, StopAll,
};
use systemg::daemon::pid_file::{PidFile, PidFileError};
use systemg::daemon::ports::{
    logs_indicate_port_conflict, output_indicates_port_conflict, port_from_command,
    port_from_output,
};
use systemg::daemon::proctree::{
    collect_descendants, pid_is_zombie, process_start_time, signalled_group, ProcessLink,
    Termination, TerminationStep,
};
use systemg::daemon::ready::{
    describe_exit, GateAction, HealthProbeOutcome, HealthRun, HealthStep, ProbeAnswer, ReadyGate,
    ReadyLimits, ReadyRun, ReadyVerdict,
};
use systemg::daemon::record::{needs_start, Candidate};
use systemg::daemon::restart::{RestartAction, RestartRun};
use systemg::daemon::start::{weigh_claim, ChildState, Claim, StartAction, StartPlan, StartRun};
use systemg::daemon::state_file::{
    ServiceLifecycleStatus, ServiceReadyState, ServiceStateError, ServiceStateFile,
};
use systemg::daemon::stop::{
    resolve_stopped, service_of_key, stop_list, stop_target, Recorded, Sighting, StopAction,
    StopRun, StopTarget,
};
use systemg::daemon::verify::{verify_services_running, RestartLook, ServiceRestart, ServiceRestartAction};
use systemg::error::{Fault, FaultKind, ProcessManagerError};
use systemg::names::{NameMap, NameSet};
use systemg::pids::PidSet;
use systemg::spawn::{PersistedSpawnChild, SpawnedExit};
use systemg::state_store::StateStore;

fn store() -> StateStore {
    StateStore::at("/state/test".to_string())
}

fn lines(raw: &[&str]) -> Vec<String> {
    raw.iter().map(|line| line.to_string()).collect()
}

fn child(pid: u32, name: &str, depth: usize, parent_pid: u32) -> PersistedSpawnChild {
    PersistedSpawnChild {
        pid,
        name: name.into(),
        command: "cmd".into(),
        started_at: 0,
        ttl_secs: None,
        depth,
        parent_pid,
        service_hash: None,
        cpu_percent_bits: None,
        rss_bytes: None,
        last_exit: None,
    }
}

#[test]
fn remove_spawn_subtree_in_memory_prunes_all_descendants() {
    let mut pid_file = PidFile::empty(store());
    pid_file.parent_map.insert(2, 1);
    pid_file.parent_map.insert(3, 2);
    pid_file.children_map.insert(1, vec![2]);
    pid_file.children_map.insert(2, vec![3]);
    pid_file.spawn_depth.insert(1, 0);
    pid_file.spawn_depth.insert(2, 1);
    pid_file.spawn_depth.insert(3, 2);
    pid_file.spawn_metadata.insert(2, child(2, "child", 1, 1));
    pid_file.spawn_metadata.insert(3, child(3, "grandchild", 2, 2));

    let removed = pid_file.remove_spawn_subtree_in_memory(2);
    assert_eq!(
        removed,
        vec![2, 3],
        "subtree removal should return root and descendants"
    );
    assert!(!pid_file.parent_map.has(2));
    assert!(!pid_file.parent_map.has(3));
    assert!(!pid_file.children_map.has(2));
    assert!(pid_file.children_map.get(1).map(|children| children.is_empty()).unwrap_or(true));
    assert!(!pid_file.spawn_metadata.has(2));
    assert!(!pid_file.spawn_metadata.has(3));
}

#[test]
fn remove_service_prunes_spawn_metadata_for_service_pid() {
    let mut loaded = PidFile::empty(store());
    loaded.services.insert("svc", 10);
    loaded.service_groups.insert("svc", 10);
    loaded.parent_map.insert(11, 10);
    loaded.parent_map.insert(12, 11);
    loaded.children_map.insert(10, vec![11]);
    loaded.children_map.insert(11, vec![12]);
    loaded.spawn_depth.insert(11, 1);
    loaded.spawn_depth.insert(12, 2);
    loaded.spawn_metadata.insert(11, child(11, "child", 1, 10));
    loaded.spawn_metadata.insert(12, child(12, "grandchild", 2, 11));

    let removed = loaded.remove(None, "svc");
    assert!(removed.is_ok());
    assert!(!loaded.services.has("svc"));
    assert!(!loaded.service_groups.has("svc"));
    assert!(!loaded.parent_map.has(11));
    assert!(!loaded.parent_map.has(12));
    assert!(!loaded.children_map.has(10));
    assert!(!loaded.children_map.has(11));
    assert!(!loaded.spawn_depth.has(11));
    assert!(!loaded.spawn_depth.has(12));
    assert!(!loaded.spawn_metadata.has(11));
    assert!(!loaded.spawn_metadata.has(12));
}

#[test]
fn updates_of_the_process_record_are_not_lost() {
    let mut ours = PidFile::empty(store());
    ours.insert(None, "baseline", 1000, None);
    let mut theirs = PidFile::empty(store());
    theirs.insert(None, "baseline", 1000, None);
    theirs.insert(None, "cron_job_1", 2001, Some(7));
    ours.insert(Some(theirs), "extra_1", 3001, None);
    assert_eq!(ours.get("baseline"), Some(1000));
    assert_eq!(ours.get("cron_job_1"), Some(2001));
    assert_eq!(ours.start_for("cron_job_1"), Some(7));
    assert_eq!(ours.get("extra_1"), Some(3001));
    assert!(matches!(ours.remove(None, "missing"), Err(PidFileError::ServiceNotFound)));
    assert!(!ours.clear_pid_if_matches(None, "extra_1", 9));
    assert!(ours.clear_pid_if_matches(None, "extra_1", 3001));
}

#[test]
fn detects_the_macos_and_linux_spellings() {
    assert!(output_indicates_port_conflict(&lines(&[
        "Error: Address already in use (os error 48)"
    ])));
    assert!(output_indicates_port_conflict(&lines(&[
        "thread panicked: Address already in use (os error 98)"
    ])));
    assert!(!output_indicates_port_conflict(&lines(&["Error: permission denied"])));
}

#[test]
fn pulls_the_port_when_the_output_names_one() {
    assert_eq!(
        port_from_output(&lines(&["failed to bind 127.0.0.1:8080: in use"])),
        Some(8080)
    );
    assert_eq!(
        port_from_output(&lines(&["could not listen on port 9101"])),
        Some(9101)
    );
    assert_eq!(
        port_from_output(&lines(&[
            "2026-07-18T17:35:04.790530Z INFO fetching provider=espn",
            "Error: Address already in use (os error 48)",
        ])),
        None
    );
    assert_eq!(port_from_output(&lines(&["Address already in use"])), None);
    assert_eq!(port_from_command(Some("serve --port 8081")), Some(8081));
    assert_eq!(port_from_command(None), None);
}

#[test]
fn logs_indicate_port_conflict_detects_common_errors() {
    assert!(logs_indicate_port_conflict(&lines(&[
        "Error: Server(\"Address already in use (os error 98)\")"
    ])));
}

#[test]
fn logs_indicate_port_conflict_returns_false_when_not_present() {
    assert!(!logs_indicate_port_conflict(&lines(&["Some other failure"])));
}

#[test]
fn parse_duration_supports_common_units() {
    assert_eq!(parse_duration("10s").ok().unwrap(), 10);
    assert_eq!(parse_duration("5m").ok().unwrap(), 300);
    assert_eq!(parse_duration("2h").ok().unwrap(), 7200);
    assert_eq!(parse_duration("15").ok().unwrap(), 15);
}

#[test]
fn parse_duration_rejects_invalid_strings() {
    assert!(matches!(parse_duration(""), Err(ProcessManagerError::ConfigParseError(_))));
    assert!(matches!(parse_duration("abc"), Err(ProcessManagerError::ConfigParseError(_))));
}

fn boot_service(name: &str, depends_on: &[(&str, DependsOnCondition)]) -> BootService {
    BootService {
        name: name.to_string(),
        cron: false,
        skip: None,
        depends_on: depends_on
            .iter()
            .map(|(service, condition)| DependsOn {
                service: service.to_string(),
                condition: *condition,
            })
            .collect(),
    }
}

fn broken(service: &str) -> ProcessManagerError {
    ProcessManagerError::ServiceStartError {
        service: service.to_string(),
        source: Fault { kind: FaultKind::Other, message: "broken".to_string() },
    }
}

#[test]
fn a_boot_starts_services_in_order() {
    let mut run = BootRun::begin(vec![
        boot_service("db", &[]),
        boot_service("web", &[("db", DependsOnCondition::Started)]),
    ]);
    assert_eq!(run.pending, BootAction::Start { service: 0 });
    run.started(Ok(ServiceReadyState::Running));
    assert_eq!(run.pending, BootAction::Start { service: 1 });
    run.started(Ok(ServiceReadyState::Running));
    assert_eq!(run.pending, BootAction::Finished);
    assert!(run.outcome().is_ok());
}

#[test]
fn a_boot_does_not_start_what_depends_on_a_failure() {
    let mut run = BootRun::begin(vec![
        boot_service("db", &[]),
        boot_service("web", &[("db", DependsOnCondition::Started)]),
    ]);
    run.started(Err(broken("db")));
    assert_eq!(run.pending, BootAction::Finished);
    assert!(run.outcome().is_err());
}

#[test]
fn a_boot_leaves_out_what_is_skipped() {
    let mut plan = vec![boot_service("db", &[]), boot_service("web", &[])];
    plan[0].skip = Some(SkipConfig::Flag(true));
    plan[1].skip = Some(SkipConfig::Command("test -e x".to_string()));
    let mut run = BootRun::begin(plan);
    assert_eq!(run.pending, BootAction::MarkSkipped { service: 0 });
    run.marked(Ok(()));
    assert_eq!(run.pending, BootAction::EvaluateSkip { service: 1 });
    run.skip_verdict(Ok(false));
    assert_eq!(run.pending, BootAction::Start { service: 1 });
}

#[test]
fn a_boot_waits_for_what_must_complete() {
    let mut run = BootRun::begin(vec![
        boot_service("job", &[]),
        boot_service("web", &[("job", DependsOnCondition::Completed)]),
    ]);
    run.started(Ok(ServiceReadyState::Running));
    assert_eq!(run.pending, BootAction::AwaitCompletion { service: 1, dependency: 0 });
    run.dependency_done(Ok(()));
    assert_eq!(run.pending, BootAction::Start { service: 1 });
}

#[test]
fn a_restart_replaces_only_what_was_selected() {
    let mut selected = NameSet::new();
    selected.insert("web");
    let mut run = RestartRun::begin(
        vec![boot_service("db", &[]), boot_service("web", &[])],
        selected,
    );
    assert_eq!(run.pending, RestartAction::Restart { service: 1 });
    run.replaced(Ok(ServiceReadyState::Running));
    assert_eq!(run.pending, RestartAction::RespawnMonitor);
    run.monitoring(Ok(()));
    assert_eq!(run.pending, RestartAction::Verify);
    run.verified(Ok(()));
    assert_eq!(run.pending, RestartAction::Finished);
    assert_eq!(run.restarted, vec!["web".to_string()]);
    assert!(run.outcome().is_ok());
}

#[test]
fn a_rolling_restart_retires_the_old_instance_last() {
    let mut run = RollingRun::begin(RollingPlan {
        pre_start: false,
        health_check: true,
        grace_period: Some("3s".to_string()),
    });
    assert_eq!(run.pending, RollingAction::Detach);
    run.detached(Ok(true));
    assert_eq!(run.pending, RollingAction::Start);
    run.started(Ok(ServiceReadyState::Running));
    assert_eq!(run.pending, RollingAction::CheckHealth);
    run.health_checked(Ok(()));
    assert_eq!(run.pending, RollingAction::Drain { seconds: 3 });
    run.drained();
    assert_eq!(run.pending, RollingAction::Retire);
    run.retired(Ok(()));
    assert_eq!(run.pending, RollingAction::Finished);
    assert!(run.outcome().is_ok());
}

#[test]
fn a_rolling_restart_that_fails_its_check_restores_the_old_instance() {
    let mut run = RollingRun::begin(RollingPlan {
        pre_start: false,
        health_check: true,
        grace_period: None,
    });
    run.detached(Ok(true));
    run.started(Ok(ServiceReadyState::Running));
    run.health_checked(Err(broken("web")));
    assert!(matches!(run.pending, RollingAction::StopNew { .. }));
    run.stopped_new();
    assert_eq!(run.pending, RollingAction::Restore);
    run.restored(Ok(()));
    assert_eq!(run.pending, RollingAction::Finished);
    assert!(run.outcome().is_err());
}

#[test]
fn a_blue_green_restart_records_the_slot_once_traffic_has_moved() {
    let mut run = BlueGreenRun::begin(BlueGreenPlan {
        name: "web".to_string(),
        slots: 2,
        pre_start: false,
        candidate_health_check: true,
        health_check: false,
        switch_command: true,
        switch_verify: true,
        grace_period: None,
    });
    assert_eq!(run.pending, BlueGreenAction::ReadActive);
    run.active_read(Ok(Some(0)));
    assert_eq!(run.pending, BlueGreenAction::Detach);
    run.detached(Ok(true));
    assert_eq!(run.pending, BlueGreenAction::Start);
    run.started(Ok(ServiceReadyState::Running));
    assert_eq!(run.pending, BlueGreenAction::CheckCandidate);
    run.candidate_checked(Ok(()));
    assert_eq!(run.pending, BlueGreenAction::Switch);
    run.traffic_switched(Ok(()));
    assert_eq!(run.pending, BlueGreenAction::VerifySwitch);
    run.switch_verified(Ok(()));
    assert_eq!(run.pending, BlueGreenAction::Retire);
    assert!(run.checked && run.switched && run.verified);
    run.retired(Ok(()));
    assert_eq!(run.pending, BlueGreenAction::WriteActive);
    run.active_written(Ok(()));
    assert_eq!(run.pending, BlueGreenAction::Finished);
    assert!(run.outcome().is_ok());
    assert_eq!(candidate_slot(0), 1);
    assert_eq!(candidate_slot(1), 0);
    assert_eq!(active_index("web", None).ok().unwrap(), 0);
}

#[test]
fn placeholders_are_filled_in() {
    assert_eq!(
        resolve_switch_command("mv {service_name} {active_slot} {candidate_slot}", "web", "a", "b"),
        "mv web a b"
    );
    let check = resolve_blue_green_health_check(
        &HealthCheckConfig {
            url: Some("http://x/{candidate_slot}".to_string()),
            command: None,
            interval: Some("1s".to_string()),
            attempt_timeout: None,
            retries: Some(4),
        },
        "web",
        "a",
        "b",
    );
    assert_eq!(check.url.as_deref(), Some("http://x/b"));
    assert_eq!((check.interval.as_deref(), check.retries), (Some("1s"), Some(4)));
    assert_eq!(
        blue_green_state_path("/p", "/s", &None, "web"),
        "/s/blue_green_web.json"
    );
    let vars = env_with_override(NameMap::new(), "PORT", "81");
    assert_eq!(vars.get("PORT").map(|v| v.as_str()), Some("81"));
}

fn start_plan() -> StartPlan {
    StartPlan {
        name: "web".to_string(),
        replacing: false,
        skip: None,
        pre_start: true,
        success_hook: true,
        error_hook: false,
    }
}

fn nothing_recorded() -> Recorded {
    Recorded { pid: None, pgid: None, started: None }
}

fn seen(pid_alive: bool, pid_started: Option<u64>) -> Sighting {
    Sighting {
        pid_alive,
        pid_started,
        group_alive: pid_alive,
        group_started: pid_started,
        supervisor_group: 1,
    }
}

#[test]
fn a_start_runs_from_the_first_look_to_the_hook() {
    let mut run = StartRun::begin(start_plan(), false);
    assert_eq!(run.pending, StartAction::Probe);
    run.probed(Ok(ChildState::NotRunning));
    assert_eq!(run.pending, StartAction::Inspect);
    run.inspected(nothing_recorded(), seen(false, None));
    assert_eq!(run.pending, StartAction::Release);
    run.marks_cleared();
    assert_eq!(run.pending, StartAction::RunPreStart);
    run.pre_started(Ok(()));
    assert_eq!(run.pending, StartAction::Launch);
    run.process_launched(Ok(70));
    assert_eq!(run.pending, StartAction::MarkRunning { pid: 70, launched: true });
    run.marked_running(Ok(()));
    assert_eq!(run.pending, StartAction::AwaitReady);
    run.ready(Ok(ServiceReadyState::Running));
    assert_eq!(run.pending, StartAction::RunHook { success: true });
    run.hook_ran();
    assert_eq!(run.pending, StartAction::Finished);
    assert!(matches!(run.outcome(), Ok(ServiceReadyState::Running)));
}

#[test]
fn a_start_never_doubles_a_running_service() {
    let recorded = Recorded { pid: Some(70), pgid: Some(70), started: Some(5) };
    assert!(matches!(
        weigh_claim("web", recorded, seen(true, Some(5))),
        Ok(Claim::Runs { pid: 70 })
    ));
    assert!(weigh_claim("web", recorded, seen(true, Some(6))).is_err());
    assert!(matches!(weigh_claim("web", nothing_recorded(), seen(false, None)), Ok(Claim::Free)));
}

#[test]
fn a_called_off_start_is_interrupted() {
    let run = StartRun::begin(start_plan(), true);
    assert_eq!(run.pending, StartAction::Finished);
    match run.outcome() {
        Err(ProcessManagerError::ServiceStartError { source, .. }) => {
            assert!(matches!(source.kind, FaultKind::Interrupted));
        }
        _ => panic!("an interrupted start fails"),
    }
}

#[test]
fn a_stop_terminates_only_a_process_it_knows() {
    let recorded = Recorded { pid: Some(70), pgid: Some(70), started: Some(5) };
    assert!(matches!(
        stop_target("web", true, recorded, seen(true, Some(5))),
        Ok(StopTarget::Tree { pid: 70, .. })
    ));
    assert!(stop_target("web", false, recorded, seen(true, Some(6))).is_err());

    let mut run = StopRun::begin("web".to_string(), true, recorded, seen(true, Some(5)));
    assert!(matches!(run.pending, StopAction::Terminate { .. }));
    run.terminated(Ok(()));
    assert_eq!(run.pending, StopAction::Reap);
    run.reaped();
    assert_eq!(run.pending, StopAction::VerifyGone { pid: 70 });
    run.verified(false);
    assert_eq!(run.pending, StopAction::Record);
    run.recorded(Ok(()));
    assert_eq!(run.pending, StopAction::Finished);
    assert!(run.outcome().is_ok());
    assert_eq!(service_of_key("v2:demo:web"), "web");
}

#[test]
fn everything_recorded_is_stopped() {
    let mut pids = PidFile::empty(store());
    pids.insert_in_memory("web", 5);
    let mut children = NameSet::new();
    children.insert("db");
    assert_eq!(stop_list(&pids, &children), vec!["db".to_string(), "web".to_string()]);
}

fn books() -> Books {
    Books {
        pids: PidFile::empty(store()),
        states: ServiceStateFile::empty(store()),
        flags: Flags::new(),
        counts: NameMap::new(),
    }
}

fn exited(code: i32) -> ExitedService {
    ExitedService {
        name: "web".to_string(),
        pid: 70,
        exit: Exit { code: Some(code), signal: None },
        key: Some("v2:demo:web".to_string()),
        wants_restart: true,
        retries: true,
    }
}

#[test]
fn a_crash_calls_for_a_restart() {
    let mut b = books();
    b.pids.insert_in_memory("web", 70);
    let (verdict, hook) = b.exited(&exited(3), None, None);
    assert_eq!(verdict, ExitVerdict::Crashed { restart: true });
    assert_eq!(hook, Some(false));
    let entry = b.states.get("v2:demo:web").unwrap();
    assert_eq!(entry.status, ServiceLifecycleStatus::ExitedWithError);
    assert_eq!(entry.exit_code, Some(3));
    assert_eq!(
        b.weigh_restart("web", false, Some(1), &Some("2s".to_string())),
        RestartVerdict::After { seconds: 2 }
    );
    assert_eq!(b.weigh_restart("web", false, Some(1), &None), RestartVerdict::GiveUp);
}

#[test]
fn an_intentional_stop_is_not_restarted() {
    let mut b = books();
    b.pids.insert_in_memory("web", 70);
    b.flags.begin_stop("web", false);
    assert_eq!(b.wake("web", true, false), WakeVerdict::ManuallyStopped);
    b.flags.begin_stop("web", false);
    let (verdict, hook) = b.exited(&exited(1), None, None);
    assert_eq!((verdict, hook), (ExitVerdict::Stopped, None));
}

#[test]
fn a_foreign_exit_changes_nothing() {
    let mut b = books();
    b.pids.insert_in_memory("web", 71);
    let (verdict, _) = b.exited(&exited(1), None, None);
    assert_eq!(verdict, ExitVerdict::Foreign);
    assert_eq!(b.pids.get("web"), Some(71));
}

#[test]
fn an_exit_that_was_seen_is_recorded() {
    let mut pids = PidFile::empty(store());
    pids.insert_in_memory("web", 70);
    let mut states = ServiceStateFile::empty(store());
    states.set_in_memory("k", ServiceLifecycleStatus::Running, Some(70), None, None);
    let probe = observe(
        ChildPoll::Exited(Exit { code: Some(0), signal: None }),
        "web",
        &mut pids,
        None,
        &mut states,
        None,
        Some("k"),
    );
    assert!(matches!(probe, ServiceProbe::Exited(_)));
    assert_eq!(states.get("k").unwrap().status, ServiceLifecycleStatus::ExitedSuccessfully);
    assert_eq!(pids.get("web"), None);
}

#[test]
fn a_stale_record_is_never_signalled_blindly() {
    let recorded = Recorded { pid: Some(70), pgid: Some(70), started: Some(5) };
    assert_eq!(judge_stale_entry(recorded, seen(true, Some(5))), StaleVerdict::Keep);
    assert_eq!(judge_stale_entry(recorded, seen(true, Some(6))), StaleVerdict::Forget);
    assert_eq!(orphaned_group(Some(70), 1, 2), Some(70));
    assert_eq!(orphaned_group(Some(1), 1, 2), None);
}

#[test]
fn a_lost_service_is_claimed_once() {
    let mut flags = Flags::new();
    let lost = LostSighting {
        has_child: false,
        recovered: false,
        expected_up: true,
        status: None,
        retries: true,
        unmet: false,
    };
    assert!(flags.claim_lost("web", lost));
    assert!(!flags.claim_lost("web", lost));
}

#[test]
fn dependents_fall_with_their_root() {
    let mut reverse: NameMap<Vec<String>> = NameMap::new();
    reverse.insert("db", vec!["api".to_string()]);
    reverse.insert("api", vec!["web".to_string()]);
    let mut fallen = dependents_in_order("db", &reverse);
    fallen.sort();
    assert_eq!(fallen, vec!["api".to_string(), "web".to_string()]);
    let seen = DependencySighting { restarting: false, alive: true, status: None };
    assert!(restart_dependency_ready(DependsOnCondition::Started, seen));
    assert!(!restart_dependency_ready(DependsOnCondition::Completed, seen));
}

#[test]
fn restart_policies_decide() {
    let policy = |p: &str| Some(p.to_string());
    assert!(restarts_after_success(&policy("always")) && restarts_after_failure(&policy("always")));
    assert!(!restarts_after_success(&policy("on-failure")));
    assert!(restarts_after_failure(&policy("on-failure")));
    assert!(restart_is_disabled(&policy("never")));
    assert!(!should_verify_service(&policy("always"), true));
    assert!(matches!(
        deployment_strategy(&policy("rolling")),
        DeploymentStrategy::Rolling
    ));
}

#[test]
fn helper_commands_have_their_time() {
    let exit = Exit { code: Some(0), signal: None };
    assert_eq!(wait_step(true, Some(exit), false), WaitStep::GiveUp);
    assert_eq!(wait_step(false, Some(exit), true), WaitStep::Ended(exit));
    assert_eq!(wait_step(false, None, true), WaitStep::GiveUp);
    assert_eq!(wait_step(false, None, false), WaitStep::Poll);
    assert_eq!(command_timeout(Some(" 7 "), 300), 7);
    assert_eq!(command_timeout(Some("x"), 300), 300);
    assert_eq!(hook_timeout(&Some("2m".to_string()), 30), 120);
    let mut kept = b"abc".to_vec();
    keep_tail(&mut kept, b"de", 3);
    assert_eq!(kept, b"cde");
    assert!(skip_answer("web", CommandEnd::Exited(exit), true, 5).ok().unwrap());
    match skip_answer("web", CommandEnd::GivenUp, true, 5) {
        Err(ProcessManagerError::ServiceStartError { source, .. }) => {
            assert_eq!(source.message, "skip condition for 'web' exceeded 5s");
        }
        _ => panic!("a skip condition that takes too long is an error"),
    }
    let mut epoch = BootEpoch { epoch: 0, cancelled: false };
    let token = epoch.begin_boot();
    assert!(!epoch.stale(token));
    epoch.cancel_boot();
    assert!(epoch.stale(token) && epoch.boot_cancelled());
}

#[test]
fn a_failed_pre_start_is_reported() {
    let pre = PreStart {
        service: "web".to_string(),
        project: "demo".to_string(),
        command: "make".to_string(),
        timeout: 60,
        elapsed: 4,
        status_text: "exit status: 2".to_string(),
        tail: lines(&["no rule"]),
    };
    let bad = Exit { code: Some(2), signal: None };
    let settled = settle_pre_start(&pre, CommandEnd::Exited(bad), true);
    assert!(settled.result.is_err());
    assert_eq!(settled.marker.as_deref(), Some("\u{2716} failed after 4s (exit status: 2)"));
    assert_eq!(settled.failure, Some(bad));
    let good = settle_pre_start(&pre, CommandEnd::Exited(Exit { code: Some(0), signal: None }), true);
    assert!(good.result.is_ok());
}

#[test]
fn a_process_is_ready_once_it_is_stable() {
    let mut run = ReadyRun::begin(ReadyLimits { timeout: 1000, stability: 100, poll: 50 });
    assert_eq!(run.look(false, ServiceProbe::Running, 10), ReadyVerdict::Wait);
    assert_eq!(run.look(false, ServiceProbe::Running, 200), ReadyVerdict::Up);
    let bad = Exit { code: Some(1), signal: None };
    assert_eq!(run.look(false, ServiceProbe::Exited(bad), 210), ReadyVerdict::Failed(bad));
    assert_eq!(run.look(true, ServiceProbe::Running, 220), ReadyVerdict::Interrupted);
    assert!(describe_exit(bad).contains('1'));
}

#[test]
fn health_checks_are_repeated() {
    let config = HealthCheckConfig {
        url: Some("http://localhost".to_string()),
        command: None,
        interval: Some("4s".to_string()),
        attempt_timeout: None,
        retries: Some(2),
    };
    let mut run = HealthRun::begin(&config).ok().unwrap();
    assert_eq!(
        run.probed(ProbeAnswer::Ran { healthy: false }, false),
        HealthStep::Again { seconds: 4 }
    );
    assert_eq!(run.probed(ProbeAnswer::Ran { healthy: false }, false), HealthStep::Exhausted);
    assert_eq!(run.last, HealthProbeOutcome::Unhealthy);
    let odd = HealthCheckConfig { interval: Some("soon".to_string()), ..config };
    assert!(matches!(HealthRun::begin(&odd), Err(ProcessManagerError::ConfigParseError(_))));
}

#[test]
fn inline_variables_override_the_file() {
    let inline = vec![("A".to_string(), "2".to_string())];
    let vars = collect_service_env(Some("# note\nA=1\nB=3\n"), &inline);
    assert_eq!(vars.get("A").map(|v| v.as_str()), Some("2"));
    assert_eq!(vars.get("B").map(|v| v.as_str()), Some("3"));
    let plan = launch_env(vars, &vec![], true, None, "/bin", None, &lines(&["DISPLAY"]));
    assert!(plan.clear);
    assert_eq!(plan.vars.get("PATH").map(|v| v.as_str()), Some("/bin"));
    assert_eq!(plan.strip, lines(&["DISPLAY"]));
    let fault = Fault { kind: FaultKind::Other, message: "no pipe".to_string() };
    let verdict = settle_launch("web", Launch::NotLogged { pid: 9, fault });
    assert_eq!(verdict.terminate, Some(9));
    assert!(verdict.outcome.is_err());
}

#[test]
fn locks_are_taken_in_order() {
    let mut held = Vec::new();
    assert!(acquire_lock(&mut held, DaemonLock::Processes).is_ok());
    assert!(acquire_lock(&mut held, DaemonLock::StateFile).is_ok());
    let complaint = acquire_lock(&mut held, DaemonLock::PidFile).unwrap_err();
    assert!(complaint.starts_with("lock order violation: "), "{complaint}");
    release_lock(&mut held, DaemonLock::StateFile);
    assert!(acquire_lock(&mut held, DaemonLock::PidFile).is_ok());
}

#[test]
fn process_records_are_read() {
    let stat = "70 (a (b) c) Z 1 70 70 0 -1 4194560 1 0 0 0 0 0 0 0 20 0 1 0 4711 0 0";
    assert_eq!(process_start_time(stat), Some(4711));
    assert!(pid_is_zombie(stat));
    let links = vec![
        ProcessLink { pid: 2, parent: 1 },
        ProcessLink { pid: 3, parent: 2 },
        ProcessLink { pid: 9, parent: 8 },
    ];
    let found = collect_descendants(&links, 1);
    assert!(found.has(2) && found.has(3) && !found.has(9) && !found.has(1));
    assert_eq!(signalled_group(Some(5), 5), None);
    assert_eq!(signalled_group(Some(5), 6), Some(5));
}

#[test]
fn a_tree_is_asked_before_it_is_killed() {
    let mut below = PidSet::new();
    below.insert(71);
    let mut run = Termination::begin(70, below, &PidSet::new());
    assert_eq!(run.step, TerminationStep::Ask);
    let mut reached = PidSet::new();
    reached.insert(70);
    reached.insert(71);
    run.signalled(reached);
    assert_eq!(run.step, TerminationStep::AwaitAsked);
    let mut left = PidSet::new();
    left.insert(71);
    run.waited(left, &PidSet::new());
    assert_eq!(run.step, TerminationStep::Kill);
}

fn candidate(cron: bool, pid: Option<u32>) -> Candidate {
    Candidate {
        cron,
        recorded: Recorded { pid, pgid: None, started: None },
        seen: seen(pid.is_some(), None),
        status: None,
        skip: None,
        restart_policy: None,
    }
}

#[test]
fn a_project_with_a_missing_service_needs_a_start() {
    assert!(needs_start(&vec![candidate(false, None)]));
    assert!(!needs_start(&vec![candidate(true, None)]));
    assert!(!needs_start(&vec![]));
}

#[test]
fn services_that_do_not_stay_up_are_named() {
    let look = |probes: Vec<ServiceProbe>| RestartLook {
        completed: false,
        configured: true,
        recorded: None,
        meant_to_stay: true,
        probes,
    };
    let services = lines(&["db", "web"]);
    let looks = vec![
        look(vec![ServiceProbe::Running, ServiceProbe::Running]),
        look(vec![ServiceProbe::Running, ServiceProbe::NotStarted]),
    ];
    match verify_services_running(&services, &looks, 2) {
        Err(ProcessManagerError::ServicesNotRunning { services }) => {
            assert_eq!(services, lines(&["web"]));
        }
        _ => panic!("web did not stay up"),
    }
    let mut restart = ServiceRestart::begin(DeploymentStrategy::Immediate);
    assert_eq!(restart.pending, ServiceRestartAction::Stop);
    restart.stopped(Ok(()));
    assert_eq!(restart.pending, ServiceRestartAction::Start);
    restart.started(Ok(ServiceReadyState::CompletedSuccess));
    assert_eq!(restart.pending, ServiceRestartAction::Verify { completed: true });
    restart.verified(Ok(()));
    assert!(restart.outcome().is_ok());
}

#[test]
fn processes_change_hands_with_their_identity() {
    let mut held: NameMap<HeldProcess> = NameMap::new();
    let process = HeldProcess { pid: 70, alive: true, started: Some(5), group: Some(70) };
    held.insert("web", process);
    let mut pids = PidFile::empty(store());
    pids.insert_with_group(None, "web", 70, Some(70), Some(5));
    let mut alive = NameSet::new();
    alive.insert("web");
    let list = handoff_processes(&held, &pids, &alive).ok().unwrap();
    assert_eq!((list[0].pid, list[0].pgid, list[0].started), (70, 70, 5));
    let mut configured = NameSet::new();
    configured.insert("web");
    assert!(adopt_handoff_processes(true, &list, &configured, &pids, &vec![process]).is_ok());
    assert!(adopt_handoff_processes(false, &list, &configured, &pids, &vec![process]).is_err());
    let other = HeldProcess { started: Some(6), ..process };
    assert!(adopt_handoff_processes(true, &list, &configured, &pids, &vec![other]).is_err());
}

#[test]
fn every_failure_has_its_words() {
    let fault = || Fault { kind: FaultKind::Other, message: "why".to_string() };
    let stop = ProcessManagerError::ServiceStopError { service: "web".to_string(), source: fault() };
    assert!(stop.message().contains("web"));
    assert!(broken("web").message().contains("web"));
    assert_eq!(PidFileError::ServiceNotFound.message(), "Service not found in PID file");
    assert_eq!(PidFileError::ReadError(fault()).message(), "Failed to read PID file: why");
    assert_eq!(
        ProcessManagerError::PidFileError(PidFileError::ParseError(fault())).message(),
        "PID file error: Failed to parse PID file: why"
    );
    assert_eq!(ProcessManagerError::ErrNo(3).message(), "Service not found in PID file");
}

#[test]
fn a_pass_stops_dependents_before_it_restarts() {
    let mut pass = MonitorPass::begin(lines(&["api", "job"]), lines(&["api", "web"]));
    assert_eq!(pass.pending, PassAction::TakeExit { exited: 0 });
    pass.exit_taken(Some(ExitVerdict::Crashed { restart: true }), Some(41));
    assert_eq!(pass.pending, PassAction::TakeExit { exited: 1 });
    pass.exit_taken(Some(ExitVerdict::Completed), Some(42));
    assert_eq!(pass.failed, lines(&["api"]));
    assert_eq!(pass.pending, PassAction::StopDependents { failed: 0 });
    pass.dependents_stopped();
    assert_eq!(pass.pending, PassAction::ReviveFallen);
    pass.revived();
    for service in 0..2 {
        assert_eq!(pass.pending, PassAction::ClearStale { service });
        pass.record_corrected();
    }
    assert_eq!(pass.pending, PassAction::LookForLost { service: 0 });
    pass.looked(false, None);
    assert_eq!(pass.pending, PassAction::LookForLost { service: 1 });
    pass.looked(true, Some(7));
    assert_eq!(
        pass.due,
        vec![
            DueRestart { name: "api".to_string(), group: Some(41) },
            DueRestart { name: "web".to_string(), group: Some(7) },
        ]
    );
    for due in 0..2 {
        assert_eq!(pass.pending, PassAction::Restart { due });
        pass.restart_begun();
    }
    assert_eq!(pass.pending, PassAction::Rest);
}

#[test]
fn a_pass_over_nothing_only_revives() {
    let mut pass = MonitorPass::begin(Vec::new(), Vec::new());
    assert_eq!(pass.pending, PassAction::ReviveFallen);
    pass.revived();
    assert_eq!(pass.pending, PassAction::Rest);
}

#[test]
fn a_crash_without_a_restart_still_fells_its_dependents() {
    let mut pass = MonitorPass::begin(lines(&["api"]), Vec::new());
    pass.exit_taken(Some(ExitVerdict::Crashed { restart: false }), None);
    assert_eq!(pass.pending, PassAction::StopDependents { failed: 0 });
    assert!(pass.due.is_empty());
    let mut unseen = MonitorPass::begin(lines(&["api"]), Vec::new());
    unseen.exit_taken(None, None);
    assert_eq!(unseen.pending, PassAction::ReviveFallen);
}

#[test]
fn the_group_of_a_live_child_is_not_reaped() {
    assert!(!reaps_before_restart(Some(5), Some(5), true));
    assert!(reaps_before_restart(Some(5), Some(5), false));
    assert!(reaps_before_restart(Some(5), Some(6), true));
    assert!(reaps_before_restart(None, None, true));
}

#[test]
fn stopping_everything_goes_on_after_a_failure() {
    let mut run = StopAll::begin(lines(&["a", "b", "c"]));
    assert_eq!(run.next(), Some(&"a".to_string()));
    run.stopped(Err(broken("a")));
    assert_eq!(run.next(), Some(&"b".to_string()));
    run.stopped(Err(broken("b")));
    run.stopped(Ok(()));
    assert_eq!(run.next(), None);
    assert_eq!(run.outcome(), Err(broken("a")));
    let none = StopAll::begin(Vec::new());
    assert_eq!(none.outcome(), Ok(()));
}

#[test]
fn a_service_that_is_never_healthy_is_stopped() {
    let mut gate = ReadyGate::begin(ServiceReadyState::Running, true);
    assert_eq!(gate.pending, GateAction::CheckHealth);
    gate.checked(Err(broken("web")));
    assert_eq!(gate.pending, GateAction::StopUnhealthy);
    gate.stopped();
    assert_eq!(gate.pending, GateAction::Finished);
    assert_eq!(gate.outcome(), Err(broken("web")));
    let mut well = ReadyGate::begin(ServiceReadyState::Running, true);
    well.checked(Ok(()));
    assert_eq!(well.outcome(), Ok(ServiceReadyState::Running));
    let done = ReadyGate::begin(ServiceReadyState::CompletedSuccess, true);
    assert_eq!(done.outcome(), Ok(ServiceReadyState::CompletedSuccess));
}

#[test]
fn spawned_children_are_found_from_their_parents() {
    let mut pids = PidFile::empty(store());
    let mut first = child(11, "first", 1, 10);
    first.service_hash = Some("svc".to_string());
    let mut below = child(12, "below", 2, 11);
    below.service_hash = Some("svc".to_string());
    pids.record_spawn(None, first);
    pids.record_spawn(None, below);
    pids.record_spawn(None, child(13, "second", 1, 10));
    assert_eq!(pids.get_parent(12), Some(11));
    assert_eq!(pids.get_depth(12), Some(2));
    assert_eq!(pids.get_children(10), vec![11, 13]);
    assert_eq!(pids.spawn_children_for_parent(10), vec![11, 13]);
    assert_eq!(pids.spawn_roots_for_service("svc"), vec![11]);
    let mut below_ten = pids.get_descendants(10);
    below_ten.sort_unstable();
    assert_eq!(below_ten, vec![11, 12, 13]);
    assert_eq!(pids.get_descendants(13), Vec::<u32>::new());
}

#[test]
fn the_exit_of_a_spawned_child_is_kept_until_it_is_forgotten() {
    let exit = SpawnedExit { exit_code: Some(3), signal: None, finished_at: Some(9) };
    let mut pids = PidFile::empty(store());
    pids.record_spawn(None, child(11, "first", 1, 10));
    pids.record_spawn_exit(None, 11, exit);
    pids.record_spawn_exit(None, 99, exit);
    assert_eq!(pids.get_spawn_metadata(11).and_then(|meta| meta.last_exit), Some(exit));
    assert!(pids.get_spawn_metadata(99).is_none());
    pids.remove_spawn(None, 11);
    assert!(pids.get_spawn_metadata(11).is_none());
    assert_eq!(pids.get_parent(11), None);
}

#[test]
fn a_subtree_is_forgotten_as_a_whole() {
    let mut pids = PidFile::empty(store());
    pids.record_spawn(None, child(11, "first", 1, 10));
    pids.record_spawn(None, child(12, "below", 2, 11));
    pids.record_spawn(None, child(13, "second", 1, 10));
    assert_eq!(pids.remove_spawn_subtree(None, 11), vec![11, 12]);
    assert_eq!(pids.get_children(10), vec![13]);
    assert!(pids.get_spawn_metadata(12).is_none());
}

#[test]
fn process_groups_are_listed_by_service() {
    let mut pids = PidFile::empty(store());
    pids.insert_with_group(None, "web", 20, Some(21), Some(5));
    assert_eq!(pids.service_pgids().get("web"), Some(&21));
    assert_eq!(pids.start_for("web"), Some(5));
}

fn needing(raw: &[(&str, &[&str])]) -> NameMap<Vec<DependsOn>> {
    let mut map = NameMap::new();
    for (name, deps) in raw {
        let deps = deps
            .iter()
            .map(|dep| DependsOn {
                service: dep.to_string(),
                condition: DependsOnCondition::Started,
            })
            .collect();
        map.insert(name, deps);
    }
    map
}

#[test]
fn services_start_after_what_they_need() {
    let order = service_start_order(&needing(&[
        ("api", &["db", "cache"]),
        ("cache", &["db"]),
        ("db", &[]),
        ("web", &["api", "elsewhere"]),
    ]));
    assert_eq!(order.unwrap(), lines(&["db", "cache", "api", "web"]));
    assert_eq!(service_start_order(&needing(&[])).unwrap(), lines(&[]));
}

#[test]
fn services_that_need_each_other_have_no_order() {
    let tangled = needing(&[("a", &["b"]), ("b", &["a"]), ("c", &[])]);
    let err = service_start_order(&tangled).unwrap_err();
    let text = "services depend on each other: a, b".to_string();
    assert_eq!(err, ProcessManagerError::ConfigParseError(text));
    assert!(service_start_order(&needing(&[("a", &["a"])])).is_err());
}

#[test]
fn dependents_are_listed_by_what_they_need() {
    let reverse =
        reverse_dependencies(&needing(&[("api", &["db"]), ("db", &[]), ("web", &["api", "db"])]));
    assert_eq!(reverse.get("db"), Some(&lines(&["api", "web"])));
    assert_eq!(reverse.get("api"), Some(&lines(&["web"])));
    assert!(reverse.get("web").is_none());
    assert_eq!(dependents_in_order("db", &reverse).len(), 2);
}

#[test]
fn a_state_key_names_its_service() {
    let key = state_key("demo", "web");
    assert_eq!(key, "v2:demo:web");
    assert_eq!(service_of_key(&key), "web");
}

#[test]
fn a_service_overrides_how_its_project_keeps_logs() {
    let unset = LogsConfig { max_bytes: None, max_files: None, sink: None };
    let project = LogsConfig { max_files: Some(2), sink: Some(LogSink::Discard), ..unset };
    let own = LogsConfig { max_bytes: Some(64), sink: Some(LogSink::File), ..unset };
    let logs = effective_logs(own, project);
    assert_eq!((logs.max_bytes, logs.max_files, logs.sink), (64, 2, LogSink::File));
    assert_eq!(effective_logs(unset, unset).max_files, 5);
}

#[test]
fn a_replacement_supervisor_goes_on_where_the_old_one_stopped() {
    let mut before = books();
    before.pids.insert_with_group(None, "web", 70, Some(70), Some(5));
    before.flags.manual.insert("job");
    before.flags.manual.insert("api");
    before.counts.insert("web", 3);
    let process = HeldProcess { pid: 70, alive: true, started: Some(5), group: Some(70) };
    let mut held = NameMap::new();
    held.insert("web", process);
    let mut alive = NameSet::new();
    alive.insert("web");
    let state = handoff_state(&NameSet::new(), &before, &held, &alive).unwrap();
    assert_eq!(state.manual_stops, vec!["api".to_string(), "job".to_string()]);

    let mut after = books();
    after.pids.insert_with_group(None, "web", 70, Some(70), Some(5));
    let mut configured = NameSet::new();
    configured.insert("web");
    adopt_handoff_state(&mut after, &state, true, &configured, &vec![process]).unwrap();
    assert!(after.flags.manual.has("job"));
    assert_eq!(after.counts.get("web"), Some(&3));

    let mut busy = NameSet::new();
    busy.insert("web");
    assert!(handoff_state(&busy, &before, &held, &alive).is_err());
    assert!(handoff_state(&NameSet::new(), &before, &NameMap::new(), &alive).is_err());
}

#[test]
fn a_candidate_that_fails_its_check_gets_no_traffic() {
    let mut run = BlueGreenRun::begin(BlueGreenPlan {
        name: "web".to_string(),
        slots: 2,
        pre_start: false,
        candidate_health_check: false,
        health_check: true,
        switch_command: true,
        switch_verify: false,
        grace_period: None,
    });
    run.active_read(Ok(None));
    run.detached(Ok(true));
    run.started(Ok(ServiceReadyState::Running));
    run.health_checked(Err(broken("web")));
    assert_eq!(run.pending, BlueGreenAction::StopNew);
    assert!(!run.switched && !run.checked);
    run.stopped_new();
    assert_eq!(run.pending, BlueGreenAction::Restore);
    run.restored(Ok(()));
    assert!(run.outcome().is_err());
}

#[test]
fn records_can_be_bound_to_another_store() {
    let elsewhere = || StateStore::at("/elsewhere".to_string());
    let mut pids = PidFile::empty(store());
    pids.set_store(elsewhere());
    assert_eq!(pids.store(), elsewhere());
    let mut states = ServiceStateFile::empty(store());
    states.set_store(elsewhere());
    assert_eq!(states.store(), elsewhere());
}

#[test]
fn a_missing_state_file_holds_no_state() {
    let mut states = ServiceStateFile::empty(store());
    states.set(None, "one", ServiceLifecycleStatus::Running, Some(7), None, None);
    assert!(states.get("one").is_some());
    assert!(matches!(states.remove(None, "one"), Err(ServiceStateError::ServiceNotFound)));
    assert!(states.get("one").is_none());

    states.set(None, "one", ServiceLifecycleStatus::Running, Some(7), None, None);
    states.set(None, "two", ServiceLifecycleStatus::Stopped, None, None, None);
    assert!(states.get("one").is_none() && states.get("two").is_some());

    let mut disk = ServiceStateFile::empty(store());
    disk.set_in_memory("three", ServiceLifecycleStatus::Skipped, None, None, None);
    disk.set_in_memory("four", ServiceLifecycleStatus::Running, Some(9), None, None);
    assert!(states.remove(Some(disk), "three").is_ok());
    assert!(states.get("two").is_none() && states.get("three").is_none());
    assert_eq!(states.get("four").map(|e| e.pid), Some(Some(9)));
}

#[test]
fn a_running_service_is_in_both_records() {
    let mut books = books();
    books.mark_running(None, None, "web", Some("v2:demo:web"), 70, Some(5));
    assert_eq!((books.pids.get("web"), books.pids.start_for("web")), (Some(70), Some(5)));
    let entry = books.states.get("v2:demo:web").unwrap();
    assert_eq!((entry.status, entry.pid), (ServiceLifecycleStatus::Running, Some(70)));
    books.mark_service_skipped(None, None, "web", Some("v2:demo:web"));
    assert_eq!(books.pids.get("web"), None);
    let entry = books.states.get("v2:demo:web").unwrap();
    assert_eq!((entry.status, entry.pid), (ServiceLifecycleStatus::Skipped, None));
}

#[test]
fn a_held_child_counts_more_than_its_record() {
    let recorded = Recorded { pid: Some(70), pgid: None, started: Some(5) };
    assert_eq!(
        resolve_stopped(Some(80), Some(81), recorded, Some(70)),
        Recorded { pid: Some(80), pgid: Some(81), started: Some(5) }
    );
    assert_eq!(resolve_stopped(Some(80), None, recorded, Some(70)).pgid, None);
    assert_eq!(resolve_stopped(None, None, recorded, Some(70)).pgid, Some(70));
    let grouped = Recorded { pgid: Some(9), ..recorded };
    assert_eq!(resolve_stopped(None, None, grouped, Some(70)).pgid, Some(9));
    let gone = Recorded { pid: None, ..recorded };
    assert_eq!(resolve_stopped(None, None, gone, Some(70)).pgid, None);
}
