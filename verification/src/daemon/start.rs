//! Starting one service: whether it already runs, what may be cleared away first, and what is
//! recorded on the way.

use vstd::prelude::*;

use crate::config::{DependsOn, DependsOnCondition, SkipConfig};
use crate::daemon::state_file::ServiceReadyState;
use crate::daemon::stop::{Recorded, Sighting};
use crate::error::{Fault, FaultKind, ProcessManagerError};
use crate::names::NameMap;
use crate::text::{decimal, push_decimal, same, trim, trimmed};

verus! {

/// Whether `err` is a failure to start `service` with this kind and message.
pub open spec fn start_failure(
    err: ProcessManagerError,
    service: Seq<char>,
    kind: FaultKind,
    message: Seq<char>,
) -> bool {
    match err {
        ProcessManagerError::ServiceStartError { service: s, source } => s@ == service
            && source.kind == kind && source.message@ == message,
        _ => false,
    }
}

pub(crate) fn start_error(service: &str, kind: FaultKind, message: String) -> (r:
    ProcessManagerError)
    ensures
        start_failure(r, service@, kind, message@),
{
    ProcessManagerError::ServiceStartError {
        service: service.to_owned(),
        source: Fault { kind, message },
    }
}

/// Whether `err` says that bringing up the project was cancelled.
pub open spec fn is_interruption(err: ProcessManagerError, service: Seq<char>) -> bool {
    start_failure(err, service, FaultKind::Interrupted, "project start was cancelled"@)
}

/// The error of a start that was cancelled.
pub fn interrupted(service: &str) -> (r: ProcessManagerError)
    ensures
        is_interruption(r, service@),
{
    start_error(service, FaultKind::Interrupted, "project start was cancelled".to_owned())
}

/// What the recorded process of a service means for a new start.
#[derive(Debug, Clone, Copy, PartialEq, Eq, Structural)]
pub enum Claim {
    /// The recorded process is alive and verified: the service runs.
    Runs {
        /// The process.
        pid: u32,
    },
    /// Nothing is recorded.
    Free,
    /// Only a dead record is left; forget it.
    Stale,
    /// The group outlived its leader; terminate it, then forget the record.
    Leftover {
        /// The root to terminate.
        root: u32,
        /// The group.
        group: i32,
    },
}

/// Why a new start is refused.
pub enum ClaimRefusal {
    /// A live process whose identity cannot be verified.
    UnverifiedProcess(u32),
    /// A live group with no recorded start time.
    UnverifiedGroup,
    /// A live group whose leader id was taken over.
    ReusedGroup,
}

/// The root of what a recorded service left behind.
pub open spec fn leftover_root(r: Recorded) -> u32 {
    match r.pid {
        Some(pid) => pid,
        None => r.pgid->0 as u32,
    }
}

/// When the root of what a recorded service left behind started, as seen.
pub open spec fn leftover_started(r: Recorded, s: Sighting) -> Option<u64> {
    match r.pid {
        Some(_) => s.pid_started,
        None => s.group_started,
    }
}

/// Why a new start is refused, if it is.
pub open spec fn claim_refusal(r: Recorded, s: Sighting) -> Option<ClaimRefusal> {
    if r.pid is Some && s.pid_alive {
        if r.started is Some && s.pid_started == r.started {
            None
        } else {
            Some(ClaimRefusal::UnverifiedProcess(r.pid->0))
        }
    } else if r.pgid is Some && s.group_alive {
        if r.started is None {
            Some(ClaimRefusal::UnverifiedGroup)
        } else if leftover_started(r, s) is Some && leftover_started(r, s) != r.started {
            Some(ClaimRefusal::ReusedGroup)
        } else {
            None
        }
    } else {
        None
    }
}

/// What a refused start says.
pub open spec fn claim_refusal_text(r: ClaimRefusal) -> Seq<char> {
    match r {
        ClaimRefusal::UnverifiedProcess(pid) => "refusing to replace unverified live pid "@ + decimal(
            pid as nat,
        ),
        ClaimRefusal::UnverifiedGroup => "refusing to replace an unverified live process group"@,
        ClaimRefusal::ReusedGroup =>
            "refusing to replace a process group with reused ownership"@,
    }
}

/// What the recorded process means for a new start that is not refused.
pub open spec fn claim_of(r: Recorded, s: Sighting) -> Claim {
    if r.pid is Some && s.pid_alive {
        Claim::Runs { pid: r.pid->0 }
    } else if r.pgid is Some && s.group_alive {
        Claim::Leftover { root: leftover_root(r), group: r.pgid->0 }
    } else if r.pid is Some || r.pgid is Some {
        Claim::Stale
    } else {
        Claim::Free
    }
}

/// Weighs what is recorded of a service against what is seen of it, before it is started anew.
pub fn weigh_claim(service: &str, r: Recorded, s: Sighting) -> (c: Result<
    Claim,
    ProcessManagerError,
>)
    ensures
        match claim_refusal(r, s) {
            Some(why) => c is Err && start_failure(
                c->Err_0,
                service@,
                FaultKind::Other,
                claim_refusal_text(why),
            ),
            None => c == Ok::<Claim, ProcessManagerError>(claim_of(r, s)),
        },
{
    match r.pid {
        Some(pid) => {
            if s.pid_alive {
                if r.started.is_some() && s.pid_started == r.started {
                    return Ok(Claim::Runs { pid });
                }
                let mut m = "refusing to replace unverified live pid ".to_owned();
                push_decimal(&mut m, pid as u64);
                return Err(start_error(service, FaultKind::Other, m));
            }
        },
        None => {},
    }
    match r.pgid {
        Some(group) => {
            if s.group_alive {
                if r.started.is_none() {
                    return Err(
                        start_error(
                            service,
                            FaultKind::Other,
                            "refusing to replace an unverified live process group".to_owned(),
                        ),
                    );
                }
                let seen: Option<u64> = if r.pid.is_some() {
                    s.pid_started
                } else {
                    s.group_started
                };
                if seen.is_some() && seen != r.started {
                    return Err(
                        start_error(
                            service,
                            FaultKind::Other,
                            "refusing to replace a process group with reused ownership".to_owned(),
                        ),
                    );
                }
                let root: u32 = match r.pid {
                    Some(pid) => pid,
                    None => group as u32,
                };
                return Ok(Claim::Leftover { root, group });
            }
        },
        None => {},
    }
    if r.pid.is_some() || r.pgid.is_some() {
        Ok(Claim::Stale)
    } else {
        Ok(Claim::Free)
    }
}

/// A new start never terminates a process group unless a start time was recorded for the service.
pub proof fn law_only_known_groups_are_cleared(r: Recorded, s: Sighting)
    requires
        claim_refusal(r, s) is None,
        claim_of(r, s) is Leftover,
    ensures
        r.started is Some,
        leftover_started(r, s) is None || leftover_started(r, s) == r.started,
{
}

/// The position of the first dependency that must have completed and whose command is the
/// pre-start command. `commands` holds the command of every configured service.
pub fn pre_start_duplicate_dependency(
    deps: &Vec<DependsOn>,
    commands: &NameMap<String>,
    pre_start: &str,
) -> (r: Option<usize>)
    ensures
        match r {
            Some(i) => i < deps.len() && runs_pre_start(deps@[i as int], commands@, pre_start@)
                && forall|j: int|
                0 <= j < i ==> !runs_pre_start(#[trigger] deps@[j], commands@, pre_start@),
            None => forall|j: int|
                0 <= j < deps.len() ==> !runs_pre_start(
                    #[trigger] deps@[j],
                    commands@,
                    pre_start@,
                ),
        },
{
    let wanted = trim(pre_start);
    let mut i: usize = 0;
    while i < deps.len()
        invariant
            i <= deps.len(),
            wanted@ == trimmed(pre_start@),
            forall|j: int|
                0 <= j < i ==> !runs_pre_start(#[trigger] deps@[j], commands@, pre_start@),
        decreases deps.len() - i,
    {
        if deps[i].condition == DependsOnCondition::Completed {
            match commands.get(deps[i].service.as_str()) {
                Some(command) => {
                    let own = trim(command.as_str());
                    if same(own.as_str(), wanted.as_str()) {
                        return Some(i);
                    }
                },
                None => {},
            }
        }
        i = i + 1;
    }
    None
}

/// Whether a dependency has already run what the pre-start command would run.
pub open spec fn runs_pre_start(
    d: DependsOn,
    commands: Map<Seq<char>, String>,
    pre_start: Seq<char>,
) -> bool {
    d.condition == DependsOnCondition::Completed && commands.contains_key(d.service@) && trimmed(
        commands[d.service@]@,
    ) == trimmed(pre_start)
}

// ---------------------------------------------------------------------------
// One start, from the first look to the hook
// ---------------------------------------------------------------------------

/// What a start reads of the service.
pub struct StartPlan {
    /// The service name.
    pub name: String,
    /// Whether a deployment is replacing the running instance on purpose.
    pub replacing: bool,
    /// When the service is left out.
    pub skip: Option<SkipConfig>,
    /// Whether a pre-start command has to be run.
    pub pre_start: bool,
    /// Whether a hook is configured for a start that works.
    pub success_hook: bool,
    /// Whether a hook is configured for a start that fails.
    pub error_hook: bool,
}

/// What a look at the child handle says.
#[derive(Debug, Clone, Copy, PartialEq, Eq, Structural)]
pub enum ChildState {
    /// The child runs.
    Running,
    /// The child has exited, or there is none.
    NotRunning,
}

/// The next thing a start needs done.
#[derive(Debug, Clone, Copy, PartialEq, Eq, Structural)]
pub enum StartAction {
    /// Look at the child handle.
    Probe,
    /// Record the running child's process as the service's, and the service as running.
    RecordRunning,
    /// Look at the recorded process.
    Inspect,
    /// Record the service as running as this process.
    MarkRunning {
        /// The process.
        pid: u32,
        /// Whether the process was launched just now.
        launched: bool,
    },
    /// Terminate what the service left behind.
    Terminate {
        /// The root to terminate.
        root: u32,
        /// The group.
        group: i32,
    },
    /// Forget the recorded process.
    Forget,
    /// Clear the marks that keep the service down.
    Release,
    /// Run the skip command.
    EvaluateSkip,
    /// Record the service as skipped.
    MarkSkipped,
    /// Run the pre-start command.
    RunPreStart,
    /// Launch the process and record it.
    Launch,
    /// Wait until the process is up for good, or has finished.
    AwaitReady,
    /// Record that the process ran to completion.
    RecordCompleted,
    /// Run the configured hook.
    RunHook {
        /// Whether the start worked.
        success: bool,
    },
    /// Nothing: the start is over.
    Finished,
}

/// A start in progress.
pub struct StartRun {
    /// What was configured.
    pub plan: StartPlan,
    /// Whether the process was launched by this start.
    pub launched: bool,
    /// How the service came up.
    pub state: Option<ServiceReadyState>,
    /// Why the start fails, if it does.
    pub error: Option<ProcessManagerError>,
    /// What to do next.
    pub pending: StartAction,
    /// What was found out and done so far.
    pub journal: Ghost<StartJournal>,
}

/// What a start has found out and done.
#[verifier::ext_equal]
pub struct StartJournal {
    /// What was reported as done, in order.
    pub done: Seq<StartAction>,
    /// What was reported as failed.
    pub fell_at: Option<StartAction>,
    /// What the recorded process meant.
    pub claim: Option<Claim>,
    /// Whether the skip command said to leave the service out.
    pub left_out: Option<bool>,
    /// The process that was launched.
    pub pid: Option<u32>,
    /// How the process came up.
    pub came_up: Option<ServiceReadyState>,
}

/// A journal before anything has happened.
pub open spec fn blank_journal() -> StartJournal {
    StartJournal {
        done: Seq::empty(),
        fell_at: None,
        claim: None,
        left_out: None,
        pid: None,
        came_up: None,
    }
}

/// What is done before the marks that keep the service down are cleared.
pub open spec fn done_before_release(plan: StartPlan, claim: Option<Claim>) -> Seq<StartAction> {
    let looked = Seq::empty().push(StartAction::Probe);
    if plan.replacing {
        looked
    } else {
        match claim {
            Some(Claim::Stale) => looked.push(StartAction::Inspect).push(StartAction::Forget),
            Some(Claim::Leftover { root, group }) => looked.push(StartAction::Inspect).push(
                StartAction::Terminate { root, group },
            ).push(StartAction::Forget),
            _ => looked.push(StartAction::Inspect),
        }
    }
}

/// What is done before the pre-start command, or the launch without one.
pub open spec fn done_before_setup(plan: StartPlan, claim: Option<Claim>) -> Seq<StartAction> {
    let freed = done_before_release(plan, claim).push(StartAction::Release);
    match plan.skip {
        Some(SkipConfig::Command(_)) => freed.push(StartAction::EvaluateSkip),
        _ => freed,
    }
}

/// What is done before the launch.
pub open spec fn done_before_launch(plan: StartPlan, claim: Option<Claim>) -> Seq<StartAction> {
    if plan.pre_start {
        done_before_setup(plan, claim).push(StartAction::RunPreStart)
    } else {
        done_before_setup(plan, claim)
    }
}

/// What is done before the process is waited for.
pub open spec fn done_before_wait(plan: StartPlan, claim: Option<Claim>, pid: u32) -> Seq<
    StartAction,
> {
    done_before_launch(plan, claim).push(StartAction::Launch).push(
        StartAction::MarkRunning { pid, launched: true },
    )
}

/// What is done before the success hook.
pub open spec fn done_before_hook(
    plan: StartPlan,
    claim: Option<Claim>,
    pid: u32,
    state: ServiceReadyState,
) -> Seq<StartAction> {
    let up = done_before_wait(plan, claim, pid).push(StartAction::AwaitReady);
    if state == ServiceReadyState::CompletedSuccess {
        up.push(StartAction::RecordCompleted)
    } else {
        up
    }
}

/// Whether nothing says that the service is to be left out.
pub open spec fn is_wanted(plan: StartPlan, j: StartJournal) -> bool {
    match plan.skip {
        Some(SkipConfig::Flag(b)) => !b,
        Some(SkipConfig::Command(_)) => j.left_out == Some(false),
        None => true,
    }
}

/// Whether nothing stands in the way of a new process.
pub open spec fn is_clear(plan: StartPlan, j: StartJournal) -> bool {
    plan.replacing || (j.claim is Some && !(j.claim->0 is Runs))
}

/// Whether the journal of a start fits where the start stands.
pub open spec fn start_is_on_course(s: StartRun) -> bool {
    let j = s.journal@;
    let looked = Seq::empty().push(StartAction::Probe);
    let inspected = looked.push(StartAction::Inspect);
    &&& s.error is Some <==> j.fell_at is Some
    &&& s.launched <==> j.pid is Some
    &&& match s.pending {
        StartAction::Probe => j == blank_journal(),
        StartAction::RecordRunning => j.done == looked,
        StartAction::Inspect => !s.plan.replacing && j.done == looked,
        StartAction::MarkRunning { pid, launched } => if launched {
            &&& is_clear(s.plan, j)
            &&& is_wanted(s.plan, j)
            &&& j.pid == Some(pid)
            &&& j.done == done_before_launch(s.plan, j.claim).push(StartAction::Launch)
        } else {
            !s.plan.replacing && j.claim == Some(Claim::Runs { pid }) && j.done == inspected
        },
        StartAction::Terminate { root, group } => !s.plan.replacing && j.claim == Some(
            Claim::Leftover { root, group },
        ) && j.done == inspected,
        StartAction::Forget => !s.plan.replacing && match j.claim {
            Some(Claim::Stale) => j.done == inspected,
            Some(Claim::Leftover { root, group }) => j.done == inspected.push(
                StartAction::Terminate { root, group },
            ),
            _ => false,
        },
        StartAction::Release => is_clear(s.plan, j) && j.done == done_before_release(
            s.plan,
            j.claim,
        ),
        StartAction::EvaluateSkip => {
            &&& is_clear(s.plan, j)
            &&& s.plan.skip is Some && s.plan.skip->0 is Command
            &&& j.done == done_before_release(s.plan, j.claim).push(StartAction::Release)
        },
        StartAction::MarkSkipped => {
            &&& is_clear(s.plan, j)
            &&& s.plan.skip == Some(SkipConfig::Flag(true)) || (s.plan.skip is Some
                && s.plan.skip->0 is Command && j.left_out == Some(true))
            &&& j.done == done_before_setup(s.plan, j.claim)
        },
        StartAction::RunPreStart => {
            &&& is_clear(s.plan, j)
            &&& is_wanted(s.plan, j)
            &&& s.plan.pre_start
            &&& j.done == done_before_setup(s.plan, j.claim)
        },
        StartAction::Launch => {
            &&& is_clear(s.plan, j)
            &&& is_wanted(s.plan, j)
            &&& j.done == done_before_launch(s.plan, j.claim)
        },
        StartAction::AwaitReady => {
            &&& is_clear(s.plan, j)
            &&& is_wanted(s.plan, j)
            &&& j.done == done_before_wait(s.plan, j.claim, j.pid->0)
        },
        StartAction::RecordCompleted => {
            &&& is_clear(s.plan, j)
            &&& is_wanted(s.plan, j)
            &&& j.came_up == Some(ServiceReadyState::CompletedSuccess)
            &&& j.done == done_before_wait(s.plan, j.claim, j.pid->0).push(StartAction::AwaitReady)
        },
        StartAction::RunHook { success } => if success {
            &&& is_clear(s.plan, j)
            &&& is_wanted(s.plan, j)
            &&& s.plan.success_hook
            &&& j.came_up == s.state
            &&& j.done == done_before_hook(s.plan, j.claim, j.pid->0, j.came_up->0)
        } else {
            &&& s.plan.error_hook
            &&& j.fell_at == Some(StartAction::Launch) || j.fell_at == Some(StartAction::AwaitReady)
        },
        StartAction::Finished => match j.fell_at {
            Some(a) => {
                &&& s.plan.error_hook && (a == StartAction::Launch || a == StartAction::AwaitReady)
                    ==> j.done.len() > 0 && j.done.last() == (StartAction::RunHook {
                    success: false,
                })
                &&& !(s.plan.error_hook && (a == StartAction::Launch || a
                    == StartAction::AwaitReady)) ==> !j.done.contains(
                    StartAction::RunHook { success: false },
                )
            },
            None => if s.launched {
                let before = done_before_hook(s.plan, j.claim, j.pid->0, j.came_up->0);
                &&& is_clear(s.plan, j)
                &&& is_wanted(s.plan, j)
                &&& j.came_up is Some
                &&& j.came_up == s.state
                &&& j.done == if s.plan.success_hook {
                    before.push(StartAction::RunHook { success: true })
                } else {
                    before
                }
            } else if s.state == Some(ServiceReadyState::CompletedSuccess) {
                &&& is_clear(s.plan, j)
                &&& s.plan.skip == Some(SkipConfig::Flag(true)) || (s.plan.skip is Some
                    && s.plan.skip->0 is Command && j.left_out == Some(true))
                &&& j.done == done_before_setup(s.plan, j.claim).push(StartAction::MarkSkipped)
            } else {
                ||| j.done == looked.push(StartAction::RecordRunning)
                ||| {
                    &&& j.claim is Some
                    &&& j.claim->0 is Runs
                    &&& j.done == inspected.push(
                        StartAction::MarkRunning { pid: j.claim->0->pid, launched: false },
                    )
                }
            },
        },
    }
    &&& !(s.pending is Finished) ==> !j.done.contains(StartAction::RunHook { success: false })
}

/// The start with `action` to do next.
pub open spec fn doing(s: StartRun, action: StartAction) -> StartRun {
    StartRun { pending: action, ..s }
}

/// The start ended by an error.
pub open spec fn ended(s: StartRun, err: ProcessManagerError) -> StartRun {
    StartRun { error: Some(err), pending: StartAction::Finished, ..s }
}

/// The start ended with the service in `state`.
pub open spec fn settled(s: StartRun, state: ServiceReadyState) -> StartRun {
    StartRun { state: Some(state), pending: StartAction::Finished, ..s }
}

/// The start that failed after its launch was tried: the error hook is due if there is one.
pub open spec fn failed(s: StartRun, err: ProcessManagerError) -> StartRun {
    StartRun {
        error: Some(err),
        pending: if s.plan.error_hook {
            StartAction::RunHook { success: false }
        } else {
            StartAction::Finished
        },
        ..s
    }
}

/// The start that worked: the success hook is due if there is one.
pub open spec fn succeeded(s: StartRun) -> StartRun {
    doing(
        s,
        if s.plan.success_hook {
            StartAction::RunHook { success: true }
        } else {
            StartAction::Finished
        },
    )
}

/// What comes first once nothing stands in the way: the marks that keep the service down go.
pub open spec fn preparing(s: StartRun) -> StartRun {
    doing(s, StartAction::Release)
}

/// What comes before the launch.
pub open spec fn released(s: StartRun) -> StartRun {
    doing(
        s,
        match s.plan.skip {
            Some(SkipConfig::Flag(true)) => StartAction::MarkSkipped,
            Some(SkipConfig::Command(_)) => StartAction::EvaluateSkip,
            _ => if s.plan.pre_start {
                StartAction::RunPreStart
            } else {
                StartAction::Launch
            },
        },
    )
}

/// What comes once the service is not to be skipped.
pub open spec fn unskipped(s: StartRun) -> StartRun {
    doing(
        s,
        if s.plan.pre_start {
            StartAction::RunPreStart
        } else {
            StartAction::Launch
        },
    )
}

/// What holds in every state of a start.
pub open spec fn start_sound(s: StartRun) -> bool {
    &&& match s.pending {
        StartAction::Finished => s.error is Some || s.state is Some,
        StartAction::RunHook { success } => s.launched_or_failed() && (success ==> s.error is None
            && s.state is Some && s.launched) && (!success ==> s.error is Some),
        StartAction::RecordCompleted => s.error is None && s.launched && s.state == Some(
            ServiceReadyState::CompletedSuccess,
        ),
        StartAction::AwaitReady => s.error is None && s.state is None && s.launched,
        StartAction::MarkRunning { launched, .. } => s.error is None && s.state is None && launched
            == s.launched,
        _ => s.error is None && s.state is None && !s.launched,
    }
    &&& start_is_on_course(s)
}

impl StartRun {
    /// The start with the pending action reported as done.
    pub open spec fn noted(self) -> StartRun {
        StartRun {
            journal: Ghost(
                StartJournal { done: self.journal@.done.push(self.pending), ..self.journal@ },
            ),
            ..self
        }
    }

    /// The start with the pending action reported as failed.
    pub open spec fn fallen(self) -> StartRun {
        StartRun {
            journal: Ghost(StartJournal { fell_at: Some(self.pending), ..self.journal@ }),
            ..self
        }
    }

    /// The start with this much more found out.
    pub open spec fn learned(self, j: StartJournal) -> StartRun {
        StartRun { journal: Ghost(j), ..self }
    }

    /// Whether a launch was tried.
    pub open spec fn launched_or_failed(self) -> bool {
        self.launched || self.error is Some
    }

    /// Begins to start a service. `cancelled` says whether bringing up the project was called off.
    pub fn begin(plan: StartPlan, cancelled: bool) -> (r: Self)
        ensures
            start_sound(r),
            r.plan == plan,
            !r.launched,
            r.state is None,
            if cancelled {
                r.pending is Finished && r.error is Some && is_interruption(
                    r.error->0,
                    plan.name@,
                )
            } else {
                r.pending is Probe && r.error is None
            },
    {
        let mut r = StartRun {
            plan,
            launched: false,
            state: None,
            error: None,
            pending: StartAction::Probe,
            journal: Ghost(blank_journal()),
        };
        if cancelled {
            let ghost fallen = r.fallen().journal@;
            r.journal = Ghost(fallen);
            let err = interrupted(r.plan.name.as_str());
            r.end(err);
        }
        r
    }

    fn end(&mut self, err: ProcessManagerError)
        ensures
            *final(self) == ended(*old(self), err),
    {
        self.error = Some(err);
        self.pending = StartAction::Finished;
    }

    fn fail(&mut self, err: ProcessManagerError)
        ensures
            *final(self) == failed(*old(self), err),
    {
        self.error = Some(err);
        self.pending = if self.plan.error_hook {
            StartAction::RunHook { success: false }
        } else {
            StartAction::Finished
        };
    }

    fn succeed(&mut self)
        ensures
            *final(self) == succeeded(*old(self)),
    {
        self.pending = if self.plan.success_hook {
            StartAction::RunHook { success: true }
        } else {
            StartAction::Finished
        };
    }

    fn prepare(&mut self)
        ensures
            *final(self) == preparing(*old(self)),
    {
        self.pending = StartAction::Release;
    }

    fn unskip(&mut self)
        ensures
            *final(self) == unskipped(*old(self)),
    {
        self.pending = if self.plan.pre_start {
            StartAction::RunPreStart
        } else {
            StartAction::Launch
        };
    }

    /// Reports what the child handle says. A service that is being replaced is not held against
    /// its recorded process.
    pub fn probed(&mut self, child: Result<ChildState, ProcessManagerError>)
        requires
            old(self).pending is Probe,
            start_sound(*old(self)),
        ensures
            start_sound(*final(self)),
            *final(self) == match child {
                Ok(ChildState::Running) => doing(old(self).noted(), StartAction::RecordRunning),
                Ok(ChildState::NotRunning) => if old(self).plan.replacing {
                    preparing(old(self).noted())
                } else {
                    doing(old(self).noted(), StartAction::Inspect)
                },
                Err(err) => ended(old(self).fallen(), err),
            },
    {
        let ghost j = if child is Ok {
            self.noted().journal@
        } else {
            self.fallen().journal@
        };
        self.journal = Ghost(j);
        match child {
            Ok(ChildState::Running) => {
                self.pending = StartAction::RecordRunning;
            },
            Ok(ChildState::NotRunning) => {
                if self.plan.replacing {
                    self.prepare();
                } else {
                    self.pending = StartAction::Inspect;
                }
            },
            Err(err) => {
                self.end(err);
            },
        }
    }

    /// Reports whether the running child could be recorded.
    pub fn running_recorded(&mut self, result: Result<(), ProcessManagerError>)
        requires
            old(self).pending is RecordRunning,
            start_sound(*old(self)),
        ensures
            start_sound(*final(self)),
            *final(self) == match result {
                Ok(_) => settled(old(self).noted(), ServiceReadyState::Running),
                Err(err) => ended(old(self).fallen(), err),
            },
    {
        let ghost j = if result is Ok {
            self.noted().journal@
        } else {
            self.fallen().journal@
        };
        self.journal = Ghost(j);
        match result {
            Ok(_) => {
                self.state = Some(ServiceReadyState::Running);
                self.pending = StartAction::Finished;
            },
            Err(err) => {
                self.end(err);
            },
        }
    }

    /// Reports what is recorded and seen of the service's process.
    pub fn inspected(&mut self, r: Recorded, s: Sighting)
        requires
            old(self).pending is Inspect,
            start_sound(*old(self)),
        ensures
            start_sound(*final(self)),
            match claim_refusal(r, s) {
                Some(why) => final(self).error is Some && *final(self) == ended(
                    old(self).fallen(),
                    final(self).error->0,
                ) && start_failure(
                    final(self).error->0,
                    old(self).plan.name@,
                    FaultKind::Other,
                    claim_refusal_text(why),
                ),
                None => *final(self) == match claim_of(r, s) {
                    Claim::Runs { pid } => doing(
                        old(self).learned(
(StartJournal { claim: Some(claim_of(r, s)), ..old(self).noted().journal@ }),
),
                        StartAction::MarkRunning { pid, launched: false },
                    ),
                    Claim::Leftover { root, group } => doing(
                        old(self).learned(
(StartJournal { claim: Some(claim_of(r, s)), ..old(self).noted().journal@ }),
),
                        StartAction::Terminate { root, group },
                    ),
                    Claim::Stale => doing(old(self).learned(
(StartJournal { claim: Some(claim_of(r, s)), ..old(self).noted().journal@ }),
), StartAction::Forget),
                    Claim::Free => preparing(old(self).learned(
(StartJournal { claim: Some(claim_of(r, s)), ..old(self).noted().journal@ }),
)),
                },
            },
    {
        let ghost j = if claim_refusal(r, s) is None {
            (StartJournal { claim: Some(claim_of(r, s)), ..self.noted().journal@ })
        } else {
            self.fallen().journal@
        };
        self.journal = Ghost(j);
        match weigh_claim(self.plan.name.as_str(), r, s) {
            Ok(Claim::Runs { pid }) => {
                self.pending = StartAction::MarkRunning { pid, launched: false };
            },
            Ok(Claim::Leftover { root, group }) => {
                self.pending = StartAction::Terminate { root, group };
            },
            Ok(Claim::Stale) => {
                self.pending = StartAction::Forget;
            },
            Ok(Claim::Free) => {
                self.prepare();
            },
            Err(err) => {
                self.end(err);
            },
        }
    }

    /// Reports whether what was left behind could be terminated.
    pub fn terminated(&mut self, result: Result<(), ProcessManagerError>)
        requires
            old(self).pending is Terminate,
            start_sound(*old(self)),
        ensures
            start_sound(*final(self)),
            *final(self) == match result {
                Ok(_) => doing(old(self).noted(), StartAction::Forget),
                Err(err) => ended(old(self).fallen(), err),
            },
    {
        let ghost j = if result is Ok {
            self.noted().journal@
        } else {
            self.fallen().journal@
        };
        self.journal = Ghost(j);
        match result {
            Ok(_) => {
                self.pending = StartAction::Forget;
            },
            Err(err) => {
                self.end(err);
            },
        }
    }

    /// Reports whether the recorded process could be forgotten.
    pub fn forgotten(&mut self, result: Result<(), ProcessManagerError>)
        requires
            old(self).pending is Forget,
            start_sound(*old(self)),
        ensures
            start_sound(*final(self)),
            *final(self) == match result {
                Ok(_) => preparing(old(self).noted()),
                Err(err) => ended(old(self).fallen(), err),
            },
    {
        let ghost j = if result is Ok {
            self.noted().journal@
        } else {
            self.fallen().journal@
        };
        self.journal = Ghost(j);
        match result {
            Ok(_) => {
                self.prepare();
            },
            Err(err) => {
                self.end(err);
            },
        }
    }

    /// Reports that the marks that keep the service down are cleared.
    pub fn marks_cleared(&mut self)
        requires
            old(self).pending is Release,
            start_sound(*old(self)),
        ensures
            start_sound(*final(self)),
            *final(self) == released(old(self).noted()),
    {
        let ghost j = self.noted().journal@;
        self.journal = Ghost(j);
        match &self.plan.skip {
            Some(SkipConfig::Flag(true)) => {
                self.pending = StartAction::MarkSkipped;
            },
            Some(SkipConfig::Command(_)) => {
                self.pending = StartAction::EvaluateSkip;
            },
            _ => {
                self.unskip();
            },
        }
    }

    /// Reports what the skip command said.
    pub fn skip_verdict(&mut self, verdict: Result<bool, ProcessManagerError>)
        requires
            old(self).pending is EvaluateSkip,
            start_sound(*old(self)),
        ensures
            start_sound(*final(self)),
            *final(self) == match verdict {
                Ok(true) => doing(old(self).learned(
(StartJournal { left_out: Some(verdict->Ok_0), ..old(self).noted().journal@ }),
), StartAction::MarkSkipped),
                Ok(false) => unskipped(old(self).learned(
(StartJournal { left_out: Some(verdict->Ok_0), ..old(self).noted().journal@ }),
)),
                Err(err) => ended(old(self).fallen(), err),
            },
    {
        let ghost j = if verdict is Ok {
            (StartJournal { left_out: Some(verdict->Ok_0), ..self.noted().journal@ })
        } else {
            self.fallen().journal@
        };
        self.journal = Ghost(j);
        match verdict {
            Ok(true) => {
                self.pending = StartAction::MarkSkipped;
            },
            Ok(false) => {
                self.unskip();
            },
            Err(err) => {
                self.end(err);
            },
        }
    }

    /// Reports whether the service could be recorded as skipped. A skipped service counts as
    /// completed to whoever asked for the start.
    pub fn skip_marked(&mut self, result: Result<(), ProcessManagerError>)
        requires
            old(self).pending is MarkSkipped,
            start_sound(*old(self)),
        ensures
            start_sound(*final(self)),
            *final(self) == match result {
                Ok(_) => settled(old(self).noted(), ServiceReadyState::CompletedSuccess),
                Err(err) => ended(old(self).fallen(), err),
            },
    {
        let ghost j = if result is Ok {
            self.noted().journal@
        } else {
            self.fallen().journal@
        };
        self.journal = Ghost(j);
        match result {
            Ok(_) => {
                self.state = Some(ServiceReadyState::CompletedSuccess);
                self.pending = StartAction::Finished;
            },
            Err(err) => {
                self.end(err);
            },
        }
    }

    /// Reports how the pre-start command went.
    pub fn pre_started(&mut self, result: Result<(), ProcessManagerError>)
        requires
            old(self).pending is RunPreStart,
            start_sound(*old(self)),
        ensures
            start_sound(*final(self)),
            *final(self) == match result {
                Ok(_) => doing(old(self).noted(), StartAction::Launch),
                Err(err) => ended(old(self).fallen(), err),
            },
    {
        let ghost j = if result is Ok {
            self.noted().journal@
        } else {
            self.fallen().journal@
        };
        self.journal = Ghost(j);
        match result {
            Ok(_) => {
                self.pending = StartAction::Launch;
            },
            Err(err) => {
                self.end(err);
            },
        }
    }

    /// Reports how launching the process went.
    pub fn process_launched(&mut self, result: Result<u32, ProcessManagerError>)
        requires
            old(self).pending is Launch,
            start_sound(*old(self)),
        ensures
            start_sound(*final(self)),
            *final(self) == match result {
                Ok(pid) => (StartRun {
                    launched: true,
                    pending: StartAction::MarkRunning { pid, launched: true },
                    ..old(self).learned(
(StartJournal { pid: Some(pid), ..old(self).noted().journal@ }),
)
                }),
                Err(err) => failed(old(self).fallen(), err),
            },
    {
        let ghost j = if result is Ok {
            (StartJournal { pid: Some(result->Ok_0), ..self.noted().journal@ })
        } else {
            self.fallen().journal@
        };
        self.journal = Ghost(j);
        match result {
            Ok(pid) => {
                self.launched = true;
                self.pending = StartAction::MarkRunning { pid, launched: true };
            },
            Err(err) => {
                self.fail(err);
            },
        }
    }

    /// Reports whether the service could be recorded as running.
    pub fn marked_running(&mut self, result: Result<(), ProcessManagerError>)
        requires
            old(self).pending is MarkRunning,
            start_sound(*old(self)),
        ensures
            start_sound(*final(self)),
            *final(self) == match result {
                Ok(_) => if old(self).launched {
                    doing(old(self).noted(), StartAction::AwaitReady)
                } else {
                    settled(old(self).noted(), ServiceReadyState::Running)
                },
                Err(err) => ended(old(self).fallen(), err),
            },
    {
        let ghost j = if result is Ok {
            self.noted().journal@
        } else {
            self.fallen().journal@
        };
        self.journal = Ghost(j);
        match result {
            Ok(_) => {
                if self.launched {
                    self.pending = StartAction::AwaitReady;
                } else {
                    self.state = Some(ServiceReadyState::Running);
                    self.pending = StartAction::Finished;
                }
            },
            Err(err) => {
                self.end(err);
            },
        }
    }

    /// Reports whether the process came up.
    pub fn ready(&mut self, result: Result<ServiceReadyState, ProcessManagerError>)
        requires
            old(self).pending is AwaitReady,
            start_sound(*old(self)),
        ensures
            start_sound(*final(self)),
            *final(self) == match result {
                Ok(ServiceReadyState::Running) => succeeded(
                    StartRun { state: Some(ServiceReadyState::Running), ..old(self).learned(
(StartJournal { came_up: Some(result->Ok_0), ..old(self).noted().journal@ }),
) },
                ),
                Ok(ServiceReadyState::CompletedSuccess) => (StartRun {
                    state: Some(ServiceReadyState::CompletedSuccess),
                    pending: StartAction::RecordCompleted,
                    ..old(self).learned(
(StartJournal { came_up: Some(result->Ok_0), ..old(self).noted().journal@ }),
)
                }),
                Err(err) => failed(old(self).fallen(), err),
            },
    {
        let ghost j = if result is Ok {
            (StartJournal { came_up: Some(result->Ok_0), ..self.noted().journal@ })
        } else {
            self.fallen().journal@
        };
        self.journal = Ghost(j);
        match result {
            Ok(state) => {
                self.state = Some(state);
                match state {
                    ServiceReadyState::Running => {
                        self.succeed();
                    },
                    ServiceReadyState::CompletedSuccess => {
                        self.pending = StartAction::RecordCompleted;
                    },
                }
            },
            Err(err) => {
                self.fail(err);
            },
        }
    }

    /// Reports whether the completion could be recorded.
    pub fn completion_recorded(&mut self, result: Result<(), ProcessManagerError>)
        requires
            old(self).pending is RecordCompleted,
            start_sound(*old(self)),
        ensures
            start_sound(*final(self)),
            *final(self) == match result {
                Ok(_) => succeeded(old(self).noted()),
                Err(err) => ended(old(self).fallen(), err),
            },
    {
        let ghost j = if result is Ok {
            self.noted().journal@
        } else {
            self.fallen().journal@
        };
        self.journal = Ghost(j);
        match result {
            Ok(_) => {
                self.succeed();
            },
            Err(err) => {
                self.end(err);
            },
        }
    }

    /// Reports that the hook was run.
    pub fn hook_ran(&mut self)
        requires
            old(self).pending is RunHook,
            start_sound(*old(self)),
        ensures
            start_sound(*final(self)),
            *final(self) == doing(old(self).noted(), StartAction::Finished),
    {
        let ghost j = self.noted().journal@;
        self.journal = Ghost(j);
        self.pending = StartAction::Finished;
    }

    /// The outcome of a finished start.
    pub fn outcome(self) -> (r: Result<ServiceReadyState, ProcessManagerError>)
        requires
            self.pending is Finished,
            start_sound(self),
        ensures
            match self.error {
                Some(err) => r == Err::<ServiceReadyState, ProcessManagerError>(err),
                None => r == Ok::<ServiceReadyState, ProcessManagerError>(self.state->0),
            },
    {
        match self.error {
            Some(err) => Err(err),
            None => Ok(self.state.unwrap()),
        }
    }
}

/// The success hook is run only for a service that this start launched and that came up.
pub proof fn law_success_hook_only_after_launch(s: StartRun)
    requires
        start_sound(s),
        s.pending == (StartAction::RunHook { success: true }),
    ensures
        s.launched,
        s.error is None,
        s.state is Some,
{
}

/// A process is launched only after the marks that keep the service down were cleared, a skip
/// command, if there is one, said not to leave the service out, and the pre-start command, if there
/// is one, was run last of all; and never when the skip flag is set.
pub proof fn law_launch_comes_after_setup(s: StartRun)
    requires
        start_sound(s),
        s.pending is Launch || s.launched,
        s.error is None,
    ensures
        s.plan.skip != Some(SkipConfig::Flag(true)),
        s.plan.skip is Some && s.plan.skip->0 is Command ==> s.journal@.left_out == Some(false),
        exists|n: int|
            0 < n < s.journal@.done.len() && #[trigger] s.journal@.done[n] == StartAction::Release,
        s.pending is Launch && s.plan.pre_start ==> s.journal@.done.last()
            == StartAction::RunPreStart,
        s.pending is Launch && !s.plan.pre_start ==> !s.journal@.done.contains(
            StartAction::RunPreStart,
        ),
        s.plan.replacing || (s.journal@.claim is Some && !(s.journal@.claim->0 is Runs)),
{
    let j = s.journal@;
    let n: int = done_before_release(s.plan, j.claim).len() as int;
    assert(j.done[n] == StartAction::Release);
}

/// Before the marks are cleared, what a service left behind is terminated and its record forgotten;
/// a dead record is only forgotten; with nothing on record nothing is done. A service that is being
/// replaced on purpose is not looked up at all.
pub proof fn law_leftovers_go_first(s: StartRun)
    requires
        start_sound(s),
        s.pending is Release,
    ensures
        s.plan.replacing ==> s.journal@.done == seq![StartAction::Probe],
        !s.plan.replacing ==> match s.journal@.claim {
            Some(Claim::Free) => s.journal@.done == seq![StartAction::Probe, StartAction::Inspect],
            Some(Claim::Stale) => s.journal@.done == seq![
                StartAction::Probe,
                StartAction::Inspect,
                StartAction::Forget,
            ],
            Some(Claim::Leftover { root, group }) => s.journal@.done == seq![
                StartAction::Probe,
                StartAction::Inspect,
                StartAction::Terminate { root, group },
                StartAction::Forget,
            ],
            _ => false,
        },
{
}

/// A start that ends well in a service that runs either found it running, as a child or as the
/// recorded process, and put that on record, or launched it, put it on record and saw it come up. One
/// that ends well in a completed service either left it out or launched it, saw it finish, and put
/// that on record.
pub proof fn law_good_start_has_a_reason(s: StartRun)
    requires
        start_sound(s),
        s.pending is Finished,
        s.error is None,
    ensures
        s.state is Some,
        s.launched ==> ({
            let j = s.journal@;
            &&& j.came_up == s.state
            &&& j.pid is Some
            &&& j.done.contains(StartAction::Launch)
            &&& j.done.contains(StartAction::MarkRunning { pid: j.pid->0, launched: true })
            &&& j.done.contains(StartAction::AwaitReady)
            &&& s.state == Some(ServiceReadyState::CompletedSuccess) <==> j.done.contains(
                StartAction::RecordCompleted,
            )
            &&& s.plan.success_hook <==> j.done.last() == (StartAction::RunHook { success: true })
        }),
        !s.launched && s.state == Some(ServiceReadyState::CompletedSuccess) ==> ({
            &&& s.journal@.done.last() == StartAction::MarkSkipped
            &&& s.plan.skip == Some(SkipConfig::Flag(true)) || s.journal@.left_out == Some(true)
        }),
        !s.launched && s.state == Some(ServiceReadyState::Running) ==> ({
            ||| s.journal@.done == seq![StartAction::Probe, StartAction::RecordRunning]
            ||| exists|pid: u32| #[trigger]
                s.journal@.claim == Some(Claim::Runs { pid }) && s.journal@.done == seq![
                    StartAction::Probe,
                    StartAction::Inspect,
                    StartAction::MarkRunning { pid, launched: false },
                ]
        }),
{
    let j = s.journal@;
    if s.launched {
        let a: int = done_before_launch(s.plan, j.claim).len() as int;
        assert(j.done[a] == StartAction::Launch);
        assert(j.done[a + 1] == (StartAction::MarkRunning { pid: j.pid->0, launched: true }));
        assert(j.done[a + 2] == StartAction::AwaitReady);
        if s.state == Some(ServiceReadyState::CompletedSuccess) {
            assert(j.done[a + 3] == StartAction::RecordCompleted);
        }
    } else if s.state == Some(ServiceReadyState::Running) {
        if j.done =~= seq![StartAction::Probe, StartAction::RecordRunning] {
        } else {
            let pid = j.claim->0->pid;
            assert(j.claim == Some(Claim::Runs { pid }));
            assert(j.done =~= seq![
                StartAction::Probe,
                StartAction::Inspect,
                StartAction::MarkRunning { pid, launched: false },
            ]);
        }
    }
}

/// The error hook, where there is one, is run exactly when the launch failed or the process did not
/// come up; any other failure ends the start without it.
pub proof fn law_error_hook_follows_failed_launch(s: StartRun)
    requires
        start_sound(s),
        s.pending is Finished,
        s.error is Some,
    ensures
        s.journal@.fell_at is Some,
        s.journal@.done.contains(StartAction::RunHook { success: false }) <==> s.plan.error_hook
            && (s.journal@.fell_at == Some(StartAction::Launch) || s.journal@.fell_at == Some(
            StartAction::AwaitReady,
        )),
{
    let j = s.journal@;
    if s.plan.error_hook && (j.fell_at == Some(StartAction::Launch) || j.fell_at == Some(
        StartAction::AwaitReady,
    )) {
        assert(j.done[j.done.len() - 1] == (StartAction::RunHook { success: false }));
    }
}

/// A live recorded process whose start time is the one on record means that the service runs; a live
/// one whose start time differs or is unknown is never replaced.
pub proof fn law_running_service_is_recognised(r: Recorded, s: Sighting, pid: u32)
    requires
        r.pid == Some(pid),
        s.pid_alive,
    ensures
        r.started is Some && s.pid_started == r.started ==> claim_refusal(r, s) is None && claim_of(
            r,
            s,
        ) == (Claim::Runs { pid }),
        r.started is None || s.pid_started != r.started ==> claim_refusal(r, s) == Some(
            ClaimRefusal::UnverifiedProcess(pid),
        ),
{
}

/// With the recorded process gone, a live group that can be told to be the recorded one is cleared
/// away, one that cannot is never touched, and without a live group the start goes ahead, over a
/// dead record if there is one.
pub proof fn law_dead_service_can_be_started(r: Recorded, s: Sighting)
    requires
        r.pid is None || !s.pid_alive,
    ensures
        r.pgid is None || !s.group_alive ==> claim_refusal(r, s) is None,
        (r.pgid is None || !s.group_alive) && (r.pid is Some || r.pgid is Some) ==> claim_of(r, s)
            == Claim::Stale,
        r.pgid is None && r.pid is None ==> claim_of(r, s) == Claim::Free,
        r.pgid is Some && s.group_alive ==> ({
            let seen = if r.pid is Some {
                s.pid_started
            } else {
                s.group_started
            };
            &&& r.started is None ==> claim_refusal(r, s) == Some(ClaimRefusal::UnverifiedGroup)
            &&& r.started is Some && seen is Some && seen != r.started ==> claim_refusal(r, s)
                == Some(ClaimRefusal::ReusedGroup)
            &&& r.started is Some && (seen is None || seen == r.started) ==> claim_refusal(r, s)
                is None && claim_of(r, s) == (Claim::Leftover {
                root: if r.pid is Some {
                    r.pid->0
                } else {
                    r.pgid->0 as u32
                },
                group: r.pgid->0,
            })
        }),
{
}

/// A dependency has run what the pre-start command would run exactly when it had to complete and its
/// command is that command, white space around them aside; one that only has to be up never has.
pub proof fn law_pre_start_is_not_run_twice(
    d: DependsOn,
    commands: Map<Seq<char>, String>,
    pre_start: Seq<char>,
)
    ensures
        d.condition == DependsOnCondition::Started ==> !runs_pre_start(d, commands, pre_start),
        !commands.contains_key(d.service@) ==> !runs_pre_start(d, commands, pre_start),
        d.condition == DependsOnCondition::Completed && commands.contains_key(d.service@) ==> (
        runs_pre_start(d, commands, pre_start) <==> trimmed(commands[d.service@]@) == trimmed(
            pre_start,
        )),
{
}

} // verus!
