//! Waiting for a service: is it up, has it completed, did it fail on the way, is it healthy?

use vstd::prelude::*;

use crate::daemon::deploy::HealthCheckConfig;
use crate::daemon::duration::{duration_complaint, duration_secs, parse_duration};
use crate::daemon::monitor::{Exit, ServiceProbe};
use crate::daemon::ports::{
    captured, output_indicates_port_conflict, port_from_command, port_from_output, port_in_lines,
    port_of_capture, shows_collision, COMMAND_PORT_PATTERN,
};
use crate::daemon::start::{start_error, start_failure};
use crate::daemon::state_file::{
    on_record, ServiceLifecycleStatus, ServiceReadyState, ServiceStateEntry, ServiceStateFile,
};
use crate::diag::{Diagnostic, DiagnosticView, SgCode};
use crate::error::{FaultKind, ProcessManagerError};
use crate::text::{
    decimal, joined, lower, opt_str, opt_text, push_decimal, push_signed, signed_decimal, texts,
};

verus! {

// ---------------------------------------------------------------------------
// Coming up
// ---------------------------------------------------------------------------

/// How long a fresh process is watched, in milliseconds.
#[derive(Debug, Clone, Copy, PartialEq, Eq, Structural)]
pub struct ReadyLimits {
    /// How long it may take to be seen running.
    pub timeout: u64,
    /// How long it must keep running to count as up.
    pub stability: u64,
    /// How long to wait between two looks.
    pub poll: u64,
}

/// A watch over a fresh process.
#[derive(Debug, Clone, Copy, PartialEq, Eq, Structural)]
pub struct ReadyRun {
    /// The limits.
    pub limits: ReadyLimits,
    /// How long was waited between looks so far.
    pub waited: u64,
    /// When it was first seen running.
    pub running_since: Option<u64>,
}

/// What one look at a fresh process says.
#[derive(Debug, Clone, Copy, PartialEq, Eq, Structural)]
pub enum ReadyVerdict {
    /// Bringing up the project was called off.
    Interrupted,
    /// It is up.
    Up,
    /// It ran to completion.
    Completed,
    /// It failed.
    Failed(Exit),
    /// Too early to say; look again after a pause.
    Wait,
}

/// What one look at a fresh process says.
pub open spec fn ready_verdict(r: ReadyRun, cancelled: bool, probe: ServiceProbe, now: u64) -> ReadyVerdict {
    if cancelled {
        ReadyVerdict::Interrupted
    } else {
        match probe {
            ServiceProbe::Running => {
                let since = match r.running_since {
                    Some(t) => t,
                    None => now,
                };
                if now - since >= r.limits.stability {
                    ReadyVerdict::Up
                } else {
                    ReadyVerdict::Wait
                }
            },
            ServiceProbe::Exited(exit) => if exit.is_clean() {
                ReadyVerdict::Completed
            } else {
                ReadyVerdict::Failed(exit)
            },
            ServiceProbe::NotStarted => ReadyVerdict::Wait,
        }
    }
}

impl ReadyRun {
    /// Begins to watch.
    pub fn begin(limits: ReadyLimits) -> (r: Self)
        ensures
            r == (ReadyRun { limits, waited: 0, running_since: None }),
    {
        ReadyRun { limits, waited: 0, running_since: None }
    }

    /// Whether the time to be seen running is over.
    pub fn expired(&self) -> (r: bool)
        ensures
            r == (self.waited > self.limits.timeout),
    {
        self.waited > self.limits.timeout
    }

    /// Takes in one look at the process. `now` is a clock that does not run backwards.
    pub fn look(&mut self, cancelled: bool, probe: ServiceProbe, now: u64) -> (r: ReadyVerdict)
        requires
            old(self).waited + old(self).limits.poll <= u64::MAX,
            old(self).running_since matches Some(t) ==> t <= now,
        ensures
            r == ready_verdict(*old(self), cancelled, probe, now),
            final(self).limits == old(self).limits,
            final(self).waited == if r is Wait {
                old(self).waited + old(self).limits.poll
            } else {
                old(self).waited as int
            },
            final(self).running_since == if !cancelled && probe is Running
                && old(self).running_since is None {
                Some(now)
            } else {
                old(self).running_since
            },
    {
        if cancelled {
            return ReadyVerdict::Interrupted;
        }
        match probe {
            ServiceProbe::Running => {
                let since: u64 = match self.running_since {
                    Some(t) => t,
                    None => now,
                };
                self.running_since = Some(since);
                if now - since >= self.limits.stability {
                    return ReadyVerdict::Up;
                }
            },
            ServiceProbe::Exited(exit) => {
                return if exit.success() {
                    ReadyVerdict::Completed
                } else {
                    ReadyVerdict::Failed(exit)
                };
            },
            ServiceProbe::NotStarted => {},
        }
        self.waited = self.waited + self.limits.poll;
        ReadyVerdict::Wait
    }
}

/// A process counts as up only after it was seen running for the whole stability window.
pub proof fn law_up_means_stable(r: ReadyRun, probe: ServiceProbe, now: u64)
    requires
        ready_verdict(r, false, probe, now) is Up,
        r.limits.stability > 0,
    ensures
        probe is Running,
        r.running_since is Some,
        now - r.running_since->0 >= r.limits.stability,
{
}

/// The error of a service that was never seen running.
pub fn not_ready_in_time(service: &str) -> (r: ProcessManagerError)
    ensures
        start_failure(
            r,
            service@,
            FaultKind::TimedOut,
            "service did not report a running state in time"@,
        ),
{
    start_error(
        service,
        FaultKind::TimedOut,
        "service did not report a running state in time".to_owned(),
    )
}

/// How a process ended, in words.
pub open spec fn exit_words(exit: Exit) -> Seq<char> {
    match exit.code {
        Some(code) => "exited with status "@ + signed_decimal(code as int),
        None => match exit.signal {
            Some(sig) => "was killed by signal "@ + signed_decimal(sig as int),
            None => "terminated unexpectedly"@,
        },
    }
}

/// How a process ended, in words.
pub fn describe_exit(exit: Exit) -> (r: String)
    ensures
        r@ == exit_words(exit),
{
    match exit.code {
        Some(code) => {
            let mut s = "exited with status ".to_owned();
            push_signed(&mut s, code as i64);
            s
        },
        None => match exit.signal {
            Some(sig) => {
                let mut s = "was killed by signal ".to_owned();
                push_signed(&mut s, sig as i64);
                s
            },
            None => "terminated unexpectedly".to_owned(),
        },
    }
}

/// The command that shows a service's logs.
pub open spec fn logs_command(service: Seq<char>, project: Seq<char>) -> Seq<char> {
    "sysg logs -s "@ + service + " -p "@ + project
}

/// The command that shows a project's status.
pub open spec fn status_command(project: Seq<char>) -> Seq<char> {
    "sysg status -p "@ + project
}

fn logs_command_text(service: &str, project: &str) -> (r: String)
    ensures
        r@ == logs_command(service@, project@),
{
    let mut s = "sysg logs -s ".to_owned();
    s.append(service);
    s.append(" -p ");
    s.append(project);
    s
}

fn status_command_text(project: &str) -> (r: String)
    ensures
        r@ == status_command(project@),
{
    let mut s = "sysg status -p ".to_owned();
    s.append(project);
    s
}

/// The label of a service's last output.
pub open spec fn output_label(service: Seq<char>) -> Seq<char> {
    "last output from `"@ + service + "`"@
}

fn output_label_text(service: &str) -> (r: String)
    ensures
        r@ == output_label(service@),
{
    let mut s = "last output from `".to_owned();
    s.append(service);
    s.append("`");
    s
}

/// The title of the report on a service that lost its port to another process.
pub open spec fn port_title(service: Seq<char>, port: Option<u16>) -> Seq<char> {
    match port {
        Some(p) => "service `"@ + service + "` could not bind port "@ + decimal(p as nat)
            + ": already in use"@,
        None => "service `"@ + service + "` could not bind its port: already in use"@,
    }
}

/// The report on a service that exited at start because another process holds its port.
pub open spec fn port_report(
    service: Seq<char>,
    project: Seq<char>,
    port: Option<u16>,
    tail: Seq<Seq<char>>,
) -> DiagnosticView {
    DiagnosticView::bare(SgCode::PortInUse, port_title(service, port)).noted(
        "another process is already listening on that port, so this service exited at start"@,
    ).noted(
        "stop whatever holds the port, or change the port in this service's command"@,
    ).evidenced(output_label(service), tail).helped(
        "see what sysg manages"@,
        "sysg status"@,
    ).helped("view logs"@, logs_command(service, project)).linked()
}

/// The report on a service that exited at start for any other reason.
pub open spec fn early_exit_report(
    service: Seq<char>,
    project: Seq<char>,
    exit: Exit,
    tail: Seq<Seq<char>>,
) -> DiagnosticView {
    DiagnosticView::bare(
        SgCode::UnitImmediateExit,
        "service `"@ + service + "` exited immediately at start"@,
    ).noted("the process "@ + exit_words(exit) + " before it finished starting"@).evidenced(
        output_label(service),
        tail,
    ).helped("view logs"@, logs_command(service, project)).helped(
        "check status"@,
        status_command(project),
    ).linked()
}

/// The report on a service that exited at start. `port` is the contested port, where one could be
/// made out.
pub fn startup_report(
    service: &str,
    project: &str,
    exit: Exit,
    tail: Vec<String>,
    port: Option<u16>,
) -> (r: Diagnostic)
    ensures
        r@ == if shows_collision(lower(joined(texts(tail@), "\n"@))) {
            port_report(service@, project@, port, texts(tail@))
        } else {
            early_exit_report(service@, project@, exit, texts(tail@))
        },
{
    let label = output_label_text(service);
    let logs = logs_command_text(service, project);
    if output_indicates_port_conflict(&tail) {
        let mut title = "service `".to_owned();
        title.append(service);
        match port {
            Some(p) => {
                title.append("` could not bind port ");
                push_decimal(&mut title, p as u64);
                title.append(": already in use");
            },
            None => {
                title.append("` could not bind its port: already in use");
            },
        }
        Diagnostic::error(SgCode::PortInUse, title.as_str()).note(
            "another process is already listening on that port, so this service exited at start",
        ).note(
            "stop whatever holds the port, or change the port in this service's command",
        ).evidence(label.as_str(), tail).help_cmd("see what sysg manages", "sysg status").help_cmd(
            "view logs",
            logs.as_str(),
        ).help_docs()
    } else {
        let mut title = "service `".to_owned();
        title.append(service);
        title.append("` exited immediately at start");
        let words = describe_exit(exit);
        let mut note = "the process ".to_owned();
        note.append(words.as_str());
        note.append(" before it finished starting");
        let status = status_command_text(project);
        Diagnostic::error(SgCode::UnitImmediateExit, title.as_str()).note(note.as_str()).evidence(
            label.as_str(),
            tail,
        ).help_cmd("view logs", logs.as_str()).help_cmd(
            "check status",
            status.as_str(),
        ).help_docs()
    }
}

/// The contested port: the one the output names, or else the one the command names.
pub open spec fn contested_port(tail: Seq<Seq<char>>, command: Option<Seq<char>>) -> Option<u16> {
    match port_in_lines(tail) {
        Some(p) => Some(p),
        None => match command {
            Some(c) => port_of_capture(captured(COMMAND_PORT_PATTERN@, c)),
            None => None,
        },
    }
}

/// The error of a service that exited at start, given its last output and the command it runs.
pub fn startup_failure(
    service: &str,
    project: &str,
    exit: Exit,
    tail: Vec<String>,
    command: Option<&str>,
) -> (r: Diagnostic)
    ensures
        r@ == if shows_collision(lower(joined(texts(tail@), "\n"@))) {
            port_report(
                service@,
                project@,
                contested_port(texts(tail@), opt_str(command)),
                texts(tail@),
            )
        } else {
            early_exit_report(service@, project@, exit, texts(tail@))
        },
{
    let port: Option<u16> = match port_from_output(&tail) {
        Some(p) => Some(p),
        None => port_from_command(command),
    };
    startup_report(service, project, exit, tail, port)
}

// ---------------------------------------------------------------------------
// Completing
// ---------------------------------------------------------------------------

/// What one look at a dependency that must complete says.
#[derive(Debug, Clone, Copy, PartialEq, Eq, Structural)]
pub enum CompletionVerdict {
    /// Bringing up the project was called off.
    Interrupted,
    /// It has completed.
    Completed,
    /// It failed or was stopped.
    Failed,
    /// Look again after a pause.
    Wait,
}

/// What one look at a dependency that must complete says. `status` is its recorded status.
pub open spec fn completion_verdict(
    cancelled: bool,
    probe: ServiceProbe,
    status: Option<ServiceLifecycleStatus>,
) -> CompletionVerdict {
    if cancelled {
        CompletionVerdict::Interrupted
    } else {
        match probe {
            ServiceProbe::Running => CompletionVerdict::Wait,
            ServiceProbe::Exited(exit) => if exit.is_clean() {
                CompletionVerdict::Completed
            } else {
                CompletionVerdict::Failed
            },
            ServiceProbe::NotStarted => match status {
                Some(ServiceLifecycleStatus::ExitedSuccessfully) => CompletionVerdict::Completed,
                Some(ServiceLifecycleStatus::Skipped) => CompletionVerdict::Completed,
                Some(ServiceLifecycleStatus::ExitedWithError) => CompletionVerdict::Failed,
                Some(ServiceLifecycleStatus::Stopped) => CompletionVerdict::Failed,
                _ => CompletionVerdict::Wait,
            },
        }
    }
}

/// The states once a look at a dependency saw it end.
pub open spec fn completion_recorded(
    states: Map<Seq<char>, ServiceStateEntry>,
    disk: Option<ServiceStateFile>,
    key: Seq<char>,
    probe: ServiceProbe,
) -> Map<Seq<char>, ServiceStateEntry> {
    match probe {
        ServiceProbe::Exited(exit) => on_record(disk).insert(
            key,
            if exit.is_clean() {
                ServiceStateEntry {
                    status: ServiceLifecycleStatus::ExitedSuccessfully,
                    pid: None,
                    exit_code: Some(0i32),
                    signal: None,
                }
            } else {
                ServiceStateEntry {
                    status: ServiceLifecycleStatus::ExitedWithError,
                    pid: None,
                    exit_code: exit.code,
                    signal: exit.signal,
                }
            },
        ),
        _ => states,
    }
}

/// Takes in one look at a dependency that must complete. An end is recorded under `key`, the
/// state key of a configured service.
pub fn await_completion(
    states: &mut ServiceStateFile,
    on_disk: Option<ServiceStateFile>,
    key: Option<&str>,
    cancelled: bool,
    probe: ServiceProbe,
) -> (r: CompletionVerdict)
    ensures
        final(states).store == old(states).store,
        r == completion_verdict(
            cancelled,
            probe,
            match key {
                Some(k) => crate::daemon::state_file::status_of(old(states)@, k@),
                None => None,
            },
        ),
        final(states)@ == match key {
            Some(k) => if cancelled {
                old(states)@
            } else {
                completion_recorded(old(states)@, on_disk, k@, probe)
            },
            None => old(states)@,
        },
{
    if cancelled {
        return CompletionVerdict::Interrupted;
    }
    match probe {
        ServiceProbe::Running => CompletionVerdict::Wait,
        ServiceProbe::Exited(exit) => {
            let clean = exit.success();
            match key {
                Some(k) => {
                    if clean {
                        states.set(
                            on_disk,
                            k,
                            ServiceLifecycleStatus::ExitedSuccessfully,
                            None,
                            Some(0),
                            None,
                        );
                    } else {
                        states.set(
                            on_disk,
                            k,
                            ServiceLifecycleStatus::ExitedWithError,
                            None,
                            exit.code,
                            exit.signal,
                        );
                    }
                },
                None => {},
            }
            if clean {
                CompletionVerdict::Completed
            } else {
                CompletionVerdict::Failed
            }
        },
        ServiceProbe::NotStarted => {
            let status: Option<ServiceLifecycleStatus> = match key {
                Some(k) => match states.get(k) {
                    Some(entry) => Some(entry.status),
                    None => None,
                },
                None => None,
            };
            match status {
                Some(ServiceLifecycleStatus::ExitedSuccessfully) => CompletionVerdict::Completed,
                Some(ServiceLifecycleStatus::Skipped) => CompletionVerdict::Completed,
                Some(ServiceLifecycleStatus::ExitedWithError) => CompletionVerdict::Failed,
                Some(ServiceLifecycleStatus::Stopped) => CompletionVerdict::Failed,
                _ => CompletionVerdict::Wait,
            }
        },
    }
}

// ---------------------------------------------------------------------------
// Health
// ---------------------------------------------------------------------------

/// Why a health probe failed.
#[derive(Debug, Clone, Copy, PartialEq, Eq, Structural)]
pub enum HealthProbeOutcome {
    /// The check ran and reported non-success.
    Unhealthy,
    /// The probe never reached the check.
    Unreachable,
    /// The probe exceeded its time.
    Timeout,
}

/// What a health probe said: an answer, or the kind of failure it met.
#[derive(Debug, Clone, Copy, PartialEq, Eq, Structural)]
pub enum ProbeAnswer {
    /// The check ran.
    Ran {
        /// Whether it reported success.
        healthy: bool,
    },
    /// The probe failed.
    Broke {
        /// How.
        kind: FaultKind,
    },
}

/// Why a probe that did not succeed failed.
pub open spec fn outcome_of(a: ProbeAnswer) -> HealthProbeOutcome {
    match a {
        ProbeAnswer::Ran { .. } => HealthProbeOutcome::Unhealthy,
        ProbeAnswer::Broke { kind } => if kind == FaultKind::TimedOut {
            HealthProbeOutcome::Timeout
        } else {
            HealthProbeOutcome::Unreachable
        },
    }
}

/// A health check in progress.
#[derive(Debug, Clone, Copy, PartialEq, Eq, Structural)]
pub struct HealthRun {
    /// Seconds that one probe may take.
    pub attempt_timeout: u64,
    /// Seconds between two probes.
    pub interval: u64,
    /// How many probes are made.
    pub retries: u32,
    /// The probe to make next, counted from one.
    pub attempt: u32,
    /// Why the last probe failed.
    pub last: HealthProbeOutcome,
}

/// What follows a health probe.
#[derive(Debug, Clone, Copy, PartialEq, Eq, Structural)]
pub enum HealthStep {
    /// The service is healthy.
    Passed,
    /// Bringing up the project was called off.
    Interrupted,
    /// Wait, then probe again.
    Again {
        /// Seconds to wait.
        seconds: u64,
    },
    /// No probe succeeded.
    Exhausted,
}

/// The seconds a configured duration stands for, or `default` when none is configured.
pub open spec fn configured_secs(raw: Option<Seq<char>>, default: nat) -> Option<nat> {
    match raw {
        Some(r) => duration_secs(r),
        None => Some(default),
    }
}

/// What follows a health probe.
pub open spec fn health_step(run: HealthRun, answer: ProbeAnswer, cancelled: bool) -> HealthStep {
    if answer == (ProbeAnswer::Ran { healthy: true }) {
        HealthStep::Passed
    } else if cancelled {
        HealthStep::Interrupted
    } else if run.attempt < run.retries {
        HealthStep::Again { seconds: run.interval }
    } else {
        HealthStep::Exhausted
    }
}

impl HealthRun {
    /// Reads the settings of a health check: 3 probes, 2 seconds apart, 30 seconds each, unless
    /// configured otherwise; at least one probe is made.
    pub fn begin(c: &HealthCheckConfig) -> (r: Result<Self, ProcessManagerError>)
        ensures
            match (
                configured_secs(opt_text(c.attempt_timeout), 30),
                configured_secs(opt_text(c.interval), 2),
            ) {
                (Some(t), Some(i)) => r matches Ok(h) && h.attempt_timeout == t && h.interval == i
                    && h.retries == (match c.retries {
                    Some(n) => if n == 0 {
                        1u32
                    } else {
                        n
                    },
                    None => 3u32,
                }) && h.attempt == 1 && h.last == HealthProbeOutcome::Unhealthy,
                (None, _) => r matches Err(ProcessManagerError::ConfigParseError(m)) && m@
                    == duration_complaint(c.attempt_timeout->0@),
                (_, None) => r matches Err(ProcessManagerError::ConfigParseError(m)) && m@
                    == duration_complaint(c.interval->0@),
            },
    {
        let attempt_timeout: u64 = match &c.attempt_timeout {
            Some(raw) => match parse_duration(raw.as_str()) {
                Ok(n) => n,
                Err(err) => {
                    return Err(err);
                },
            },
            None => 30,
        };
        let retries: u32 = match c.retries {
            Some(n) => if n == 0 {
                1
            } else {
                n
            },
            None => 3,
        };
        let interval: u64 = match &c.interval {
            Some(raw) => match parse_duration(raw.as_str()) {
                Ok(n) => n,
                Err(err) => {
                    return Err(err);
                },
            },
            None => 2,
        };
        Ok(
            HealthRun {
                attempt_timeout,
                interval,
                retries,
                attempt: 1,
                last: HealthProbeOutcome::Unhealthy,
            },
        )
    }

    /// Takes in what a probe said. `cancelled` says whether bringing up the project was called off
    /// by the time the probe was over; a probe that succeeded counts all the same.
    pub fn probed(&mut self, answer: ProbeAnswer, cancelled: bool) -> (r: HealthStep)
        requires
            1 <= old(self).attempt <= old(self).retries,
        ensures
            final(self).attempt_timeout == old(self).attempt_timeout,
            final(self).interval == old(self).interval,
            final(self).retries == old(self).retries,
            r == health_step(*old(self), answer, cancelled),
            answer == (ProbeAnswer::Ran { healthy: true }) <==> r is Passed,
            r is Exhausted ==> old(self).attempt == old(self).retries,
            final(self).last == (if r is Passed {
                old(self).last
            } else {
                outcome_of(answer)
            }),
            final(self).attempt == (if r is Again {
                old(self).attempt + 1
            } else {
                old(self).attempt as int
            }),
    {
        match answer {
            ProbeAnswer::Ran { healthy } => {
                if healthy {
                    return HealthStep::Passed;
                }
                self.last = HealthProbeOutcome::Unhealthy;
            },
            ProbeAnswer::Broke { kind } => {
                self.last = if kind == FaultKind::TimedOut {
                    HealthProbeOutcome::Timeout
                } else {
                    HealthProbeOutcome::Unreachable
                };
            },
        }
        if cancelled {
            return HealthStep::Interrupted;
        }
        if self.attempt < self.retries {
            self.attempt = self.attempt + 1;
            return HealthStep::Again { seconds: self.interval };
        }
        HealthStep::Exhausted
    }
}

/// What a health check asks: its address, or else its command.
pub open spec fn check_target(url: Option<Seq<char>>, command: Option<Seq<char>>) -> Seq<char> {
    match url {
        Some(u) => u,
        None => match command {
            Some(c) => c,
            None => "<unconfigured>"@,
        },
    }
}

/// The head of the report on a service that never became healthy: what the last probe met.
pub open spec fn health_head(
    service: Seq<char>,
    target: Seq<char>,
    attempt_timeout: u64,
    retries: u32,
    outcome: HealthProbeOutcome,
    alive: bool,
) -> DiagnosticView {
    let over = " over "@ + decimal(retries as nat) + " attempts"@;
    match outcome {
        HealthProbeOutcome::Unhealthy => DiagnosticView::bare(
            SgCode::HealthUnmet,
            "service `"@ + service + "` failed to become healthy"@,
        ).noted(
            "the health check against "@ + target
                + " ran but reported the service is not healthy"@ + over,
        ).noted(
            if alive {
                "the process is running but never answered the health check \u{2014} it may be listening on a different address or still starting"@
            } else {
                "the process is not running \u{2014} it exited before it could become healthy"@
            },
        ),
        HealthProbeOutcome::Unreachable => DiagnosticView::bare(
            SgCode::HealthCheckUnreachable,
            "service `"@ + service + "`'s health check could not reach it"@,
        ).noted(
            "every probe against "@ + target
                + " failed to connect (the address may be wrong or a port is not listening)"@ + over,
        ),
        HealthProbeOutcome::Timeout => DiagnosticView::bare(
            SgCode::HealthCheckTimeout,
            "service `"@ + service + "`'s health check timed out"@,
        ).noted(
            "no probe against "@ + target + " completed within the "@ + decimal(
                attempt_timeout as nat,
            ) + "s per-attempt budget"@ + over,
        ),
    }
}

fn push_over(s: &mut String, retries: u32)
    ensures
        final(s)@ == old(s)@ + (" over "@ + decimal(retries as nat) + " attempts"@),
{
    s.append(" over ");
    push_decimal(s, retries as u64);
    s.append(" attempts");
    assert(s@ =~= old(s)@ + (" over "@ + decimal(retries as nat) + " attempts"@));
}

fn health_report_head(
    service: &str,
    target: &str,
    attempt_timeout: u64,
    retries: u32,
    outcome: HealthProbeOutcome,
    alive: bool,
) -> (r: Diagnostic)
    ensures
        r@ == health_head(service@, target@, attempt_timeout, retries, outcome, alive),
{
    let mut title = "service `".to_owned();
    title.append(service);
    match outcome {
        HealthProbeOutcome::Unhealthy => {
            title.append("` failed to become healthy");
            let mut note = "the health check against ".to_owned();
            note.append(target);
            note.append(" ran but reported the service is not healthy");
            push_over(&mut note, retries);
            Diagnostic::error(SgCode::HealthUnmet, title.as_str()).note(note.as_str()).note(
                if alive {
                    "the process is running but never answered the health check \u{2014} it may be listening on a different address or still starting"
                } else {
                    "the process is not running \u{2014} it exited before it could become healthy"
                },
            )
        },
        HealthProbeOutcome::Unreachable => {
            title.append("`'s health check could not reach it");
            let mut note = "every probe against ".to_owned();
            note.append(target);
            note.append(
                " failed to connect (the address may be wrong or a port is not listening)",
            );
            push_over(&mut note, retries);
            Diagnostic::error(SgCode::HealthCheckUnreachable, title.as_str()).note(note.as_str())
        },
        HealthProbeOutcome::Timeout => {
            title.append("`'s health check timed out");
            let mut note = "no probe against ".to_owned();
            note.append(target);
            note.append(" completed within the ");
            push_decimal(&mut note, attempt_timeout);
            note.append("s per-attempt budget");
            push_over(&mut note, retries);
            Diagnostic::error(SgCode::HealthCheckTimeout, title.as_str()).note(note.as_str())
        },
    }
}

/// Builds the report on a service that never became healthy: what was checked, whether the process
/// is alive, its last output, and the commands to dig further.
pub fn health_check_failure_diag(
    service: &str,
    project: &str,
    check: &HealthCheckConfig,
    run: HealthRun,
    alive: bool,
    tail: Vec<String>,
) -> (r: Diagnostic)
    ensures
        r@ == health_head(
            service@,
            check_target(opt_text(check.url), opt_text(check.command)),
            run.attempt_timeout,
            run.retries,
            run.last,
            alive,
        ).evidenced(output_label(service@), texts(tail@)).helped(
            "view logs"@,
            logs_command(service@, project@),
        ).helped("check status"@, status_command(project@)).linked(),
{
    let target: String = match &check.url {
        Some(u) => u.clone(),
        None => match &check.command {
            Some(c) => c.clone(),
            None => "<unconfigured>".to_owned(),
        },
    };
    let label = output_label_text(service);
    let logs = logs_command_text(service, project);
    let status = status_command_text(project);
    let head = health_report_head(
        service,
        target.as_str(),
        run.attempt_timeout,
        run.retries,
        run.last,
        alive,
    );
    head.evidence(label.as_str(), tail).help_cmd("view logs", logs.as_str()).help_cmd(
        "check status",
        status.as_str(),
    ).help_docs()
}

// ---------------------------------------------------------------------------
// Health as a condition of readiness
// ---------------------------------------------------------------------------

/// The next thing that a service which came up needs done before it counts as ready.
#[derive(Debug, Clone, Copy, PartialEq, Eq, Structural)]
pub enum GateAction {
    /// Wait for its health check.
    CheckHealth,
    /// Stop it, without ruling restarts out; a failure to do so is only logged.
    StopUnhealthy,
    /// Nothing: it is decided.
    Finished,
}

/// A service that came up, on its way to being ready. One that never passes its health check is
/// stopped rather than left running.
pub struct ReadyGate {
    /// How it came up.
    pub state: ServiceReadyState,
    /// Why it is not ready.
    pub error: Option<ProcessManagerError>,
    /// What to do next.
    pub pending: GateAction,
    /// What was found out and done so far.
    pub journal: Ghost<GateJournal>,
}

/// What was found out and done about a service that came up.
#[verifier::ext_equal]
pub struct GateJournal {
    /// Whether it has a health check.
    pub health_check: bool,
    /// Whether its health check passed.
    pub healthy: Option<bool>,
    /// Whether it was stopped.
    pub stopped: bool,
}

/// What holds in every state of a service on its way to being ready.
pub open spec fn gate_sound(g: ReadyGate) -> bool {
    let j = g.journal@;
    let wanted = j.health_check && g.state is Running;
    &&& g.error is Some <==> j.healthy == Some(false)
    &&& match g.pending {
        GateAction::CheckHealth => wanted && j.healthy is None && !j.stopped,
        GateAction::StopUnhealthy => wanted && j.healthy == Some(false) && !j.stopped,
        GateAction::Finished => {
            &&& wanted ==> j.healthy is Some
            &&& !wanted ==> j.healthy is None
            &&& j.stopped == (j.healthy == Some(false))
        },
    }
}

impl ReadyGate {
    /// Begins with a service that came up. Only one that keeps running has its health checked.
    pub fn begin(state: ServiceReadyState, health_check: bool) -> (r: Self)
        ensures
            gate_sound(r),
            r.journal@.health_check == health_check,
            r.state == state,
            r.error is None,
            r.pending == (if health_check && state is Running {
                GateAction::CheckHealth
            } else {
                GateAction::Finished
            }),
    {
        let running = match state {
            ServiceReadyState::Running => true,
            ServiceReadyState::CompletedSuccess => false,
        };
        let pending = if health_check && running {
            GateAction::CheckHealth
        } else {
            GateAction::Finished
        };
        ReadyGate {
            state,
            error: None,
            pending,
            journal: Ghost(GateJournal { health_check, healthy: None, stopped: false }),
        }
    }

    /// Takes in how the health check went.
    pub fn checked(&mut self, result: Result<(), ProcessManagerError>)
        requires
            old(self).pending is CheckHealth,
        ensures
            gate_sound(*old(self)) ==> gate_sound(*final(self)),
            final(self).journal@ == (GateJournal {
                healthy: Some(result is Ok),
                ..old(self).journal@
            }),
            final(self).state == old(self).state,
            match result {
                Ok(()) => final(self).error == old(self).error && final(self).pending is Finished,
                Err(e) => final(self).error == Some(e) && final(self).pending is StopUnhealthy,
            },
    {
        let ghost j = GateJournal { healthy: Some(result is Ok), ..self.journal@ };
        self.journal = Ghost(j);
        match result {
            Ok(()) => {
                self.pending = GateAction::Finished;
            },
            Err(e) => {
                self.error = Some(e);
                self.pending = GateAction::StopUnhealthy;
            },
        }
    }

    /// Goes on once the service was stopped.
    pub fn stopped(&mut self)
        requires
            old(self).pending is StopUnhealthy,
        ensures
            gate_sound(*old(self)) ==> gate_sound(*final(self)),
            final(self).journal@ == (GateJournal { stopped: true, ..old(self).journal@ }),
            final(self).state == old(self).state,
            final(self).error == old(self).error,
            final(self).pending is Finished,
    {
        let ghost j = GateJournal { stopped: true, ..self.journal@ };
        self.journal = Ghost(j);
        self.pending = GateAction::Finished;
    }

    /// Whether the service is ready, and how it came up.
    pub fn outcome(self) -> (r: Result<ServiceReadyState, ProcessManagerError>)
        ensures
            match self.error {
                Some(e) => r == Err::<ServiceReadyState, ProcessManagerError>(e),
                None => r == Ok::<ServiceReadyState, ProcessManagerError>(self.state),
            },
    {
        match self.error {
            Some(e) => Err(e),
            None => Ok(self.state),
        }
    }
}

/// A process that was seen running for the whole stability window counts as up at once; one that was
/// not yet is looked at again. An end decides, whatever was seen before: a clean one is a completion,
/// any other a failure. A start that was called off is never anything else.
pub proof fn law_look_decides_by_what_is_seen(r: ReadyRun, probe: ServiceProbe, now: u64)
    ensures
        ready_verdict(r, true, probe, now) == ReadyVerdict::Interrupted,
        probe is Running && r.running_since is Some ==> (ready_verdict(r, false, probe, now)
            == ReadyVerdict::Up <==> r.running_since->0 + r.limits.stability <= now),
        probe is Running && r.running_since is None ==> (ready_verdict(r, false, probe, now)
            == ReadyVerdict::Up <==> r.limits.stability == 0),
        probe is Running ==> ready_verdict(r, false, probe, now) == ReadyVerdict::Up
            || ready_verdict(r, false, probe, now) == ReadyVerdict::Wait,
        probe is NotStarted ==> ready_verdict(r, false, probe, now) == ReadyVerdict::Wait,
        match probe {
            ServiceProbe::Exited(exit) => {
                &&& exit.code == Some(0i32) ==> ready_verdict(r, false, probe, now)
                    == ReadyVerdict::Completed
                &&& exit.code != Some(0i32) ==> ready_verdict(r, false, probe, now)
                    == ReadyVerdict::Failed(exit)
            },
            _ => true,
        },
{
}

/// A dependency that must complete has done so exactly when its process just ended cleanly, or there
/// is none and it is on record as completed or skipped; it has failed exactly when its process just
/// ended otherwise, or there is none and it is on record as failed or stopped. While its process
/// runs it is waited for.
pub proof fn law_completion_is_told_from_failure(
    probe: ServiceProbe,
    status: Option<ServiceLifecycleStatus>,
)
    ensures
        completion_verdict(true, probe, status) == CompletionVerdict::Interrupted,
        completion_verdict(false, ServiceProbe::Running, status) == CompletionVerdict::Wait,
        match probe {
            ServiceProbe::Exited(exit) => completion_verdict(false, probe, status) == (if exit.code
                == Some(0i32) {
                CompletionVerdict::Completed
            } else {
                CompletionVerdict::Failed
            }),
            _ => true,
        },
        completion_verdict(false, ServiceProbe::NotStarted, status) == CompletionVerdict::Completed
            <==> status == Some(ServiceLifecycleStatus::ExitedSuccessfully) || status == Some(
            ServiceLifecycleStatus::Skipped,
        ),
        completion_verdict(false, ServiceProbe::NotStarted, status) == CompletionVerdict::Failed
            <==> status == Some(ServiceLifecycleStatus::ExitedWithError) || status == Some(
            ServiceLifecycleStatus::Stopped,
        ),
        completion_verdict(false, ServiceProbe::NotStarted, status) == CompletionVerdict::Wait
            <==> status is None || status == Some(ServiceLifecycleStatus::Running),
{
}

/// An end that a look at a dependency saw is on record afterwards as it was, and no other service's
/// record changes with it; any other look changes nothing.
pub proof fn law_completion_is_recorded_as_it_was(
    states: Map<Seq<char>, ServiceStateEntry>,
    disk: Option<ServiceStateFile>,
    key: Seq<char>,
    exit: Exit,
)
    ensures
        ({
            let after = completion_recorded(states, disk, key, ServiceProbe::Exited(exit));
            &&& after.contains_key(key)
            &&& after[key].pid is None
            &&& exit.code == Some(0i32) ==> after[key].status
                == ServiceLifecycleStatus::ExitedSuccessfully && after[key].signal is None
            &&& exit.code != Some(0i32) ==> after[key].status
                == ServiceLifecycleStatus::ExitedWithError && after[key].signal == exit.signal
            &&& after[key].exit_code == exit.code
            &&& after.remove(key) == on_record(disk).remove(key)
        }),
        completion_recorded(states, disk, key, ServiceProbe::Running) == states,
        completion_recorded(states, disk, key, ServiceProbe::NotStarted) == states,
{
}

/// A probe that succeeds makes a service healthy, whatever came before and though the start was
/// called off meanwhile. One that fails is followed by another, after the interval, as long as fewer
/// probes were made than are allowed; only the last one that is allowed exhausts the check.
pub proof fn law_health_check_makes_all_its_probes(
    run: HealthRun,
    answer: ProbeAnswer,
    cancelled: bool,
)
    requires
        1 <= run.attempt <= run.retries,
    ensures
        health_step(run, ProbeAnswer::Ran { healthy: true }, cancelled) == HealthStep::Passed,
        answer != (ProbeAnswer::Ran { healthy: true }) ==> health_step(run, answer, cancelled)
            != HealthStep::Passed,
        answer != (ProbeAnswer::Ran { healthy: true }) && cancelled ==> health_step(
            run,
            answer,
            cancelled,
        ) == HealthStep::Interrupted,
        answer != (ProbeAnswer::Ran { healthy: true }) && !cancelled && run.attempt < run.retries
            ==> health_step(run, answer, cancelled) == (HealthStep::Again {
            seconds: run.interval,
        }),
        answer != (ProbeAnswer::Ran { healthy: true }) && !cancelled && run.attempt == run.retries
            ==> health_step(run, answer, cancelled) == HealthStep::Exhausted,
{
}

/// A probe that ran and said no is told from one that ran out of time and from one that did not get
/// through.
pub proof fn law_probe_failures_are_told_apart(healthy: bool, kind: FaultKind)
    ensures
        outcome_of(ProbeAnswer::Ran { healthy }) == HealthProbeOutcome::Unhealthy,
        outcome_of(ProbeAnswer::Broke { kind }) == HealthProbeOutcome::Timeout <==> kind
            == FaultKind::TimedOut,
        outcome_of(ProbeAnswer::Broke { kind }) == HealthProbeOutcome::Unreachable <==> kind
            != FaultKind::TimedOut,
{
}

/// A setting that is not given takes its default, and one that is given is never replaced by it.
pub proof fn law_configured_duration_counts(raw: Option<Seq<char>>, default: nat)
    ensures
        raw is None ==> configured_secs(raw, default) == Some(default),
        raw is Some ==> configured_secs(raw, default) == duration_secs(raw->0),
{
}

/// The port that a service's output names is the contested one, whatever its command says; the
/// command is asked only when the output names none.
pub proof fn law_output_names_the_port_first(tail: Seq<Seq<char>>, command: Option<Seq<char>>)
    ensures
        port_in_lines(tail) is Some ==> contested_port(tail, command) == port_in_lines(tail),
        port_in_lines(tail) is None && command is None ==> contested_port(tail, command) is None,
        port_in_lines(tail) is None && command is Some ==> contested_port(tail, command)
            == port_of_capture(captured(COMMAND_PORT_PATTERN@, command->0)),
{
}

/// A service that keeps running and has a health check is ready exactly when it passed it, and is
/// stopped exactly when it did not; any other service is ready as it came up, and is not stopped.
pub proof fn law_ready_means_healthy(g: ReadyGate)
    requires
        gate_sound(g),
        g.pending is Finished,
    ensures
        g.journal@.health_check && g.state is Running ==> (g.error is None <==> g.journal@.healthy
            == Some(true)),
        g.journal@.health_check && g.state is Running ==> (g.journal@.stopped
            <==> g.journal@.healthy == Some(false)),
        !g.journal@.health_check || !(g.state is Running) ==> g.error is None
            && !g.journal@.stopped,
{
    if g.journal@.healthy is Some {
        let b = g.journal@.healthy->0;
        assert(g.journal@.healthy == Some(b));
    }
}

} // verus!
