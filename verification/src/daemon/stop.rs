//! Stopping services: which process may be terminated, and what is recorded afterwards.

use vstd::prelude::*;

use crate::config::key_of;
use crate::daemon::pid_file::{current, is_without, knows, PidFile};
use crate::daemon::state_file::{
    on_record, status_of, ServiceLifecycleStatus, ServiceStateEntry, ServiceStateFile,
};
use crate::error::{Fault, FaultKind, ProcessManagerError};
use crate::names::{ascending, NameSet};
use crate::text::{
    after_last, chars_of, decimal, last_of, lemma_last_of, push_decimal, same, string_of, texts,
};

verus! {

/// What is recorded of a service's process.
#[derive(Debug, Clone, Copy, PartialEq, Eq, Structural)]
pub struct Recorded {
    /// Its process.
    pub pid: Option<u32>,
    /// Its process group.
    pub pgid: Option<i32>,
    /// When the process started.
    pub started: Option<u64>,
}

/// What a service's process is taken to be when the service is stopped.
pub open spec fn taken_to_be(
    child: Option<u32>,
    child_group: Option<i32>,
    recorded: Recorded,
    group_of_recorded: Option<i32>,
) -> Recorded {
    if child is Some {
        Recorded {
            pid: child,
            pgid: if child_group is Some {
                child_group
            } else {
                recorded.pgid
            },
            started: recorded.started,
        }
    } else {
        Recorded {
            pid: recorded.pid,
            pgid: if recorded.pgid is None && recorded.pid is Some {
                group_of_recorded
            } else {
                recorded.pgid
            },
            started: recorded.started,
        }
    }
}

/// A held child counts more than the record, as does the group the system gives it; without a child
/// the record counts, and the system is asked only for a group that is not on record.
pub proof fn law_held_child_outranks_the_record(
    child: Option<u32>,
    child_group: Option<i32>,
    recorded: Recorded,
    group_of_recorded: Option<i32>,
)
    ensures
        ({
            let r = taken_to_be(child, child_group, recorded, group_of_recorded);
            &&& child is Some ==> r.pid == child
            &&& child is None ==> r.pid == recorded.pid
            &&& child is Some && child_group is Some ==> r.pgid == child_group
            &&& child is Some && child_group is None ==> r.pgid == recorded.pgid
            &&& child is None && recorded.pgid is Some ==> r.pgid == recorded.pgid
            &&& child is None && recorded.pgid is None && recorded.pid is Some ==> r.pgid
                == group_of_recorded
            &&& child is None && recorded.pid is None ==> r.pgid == recorded.pgid
            &&& r.started == recorded.started
        }),
{
}

/// What a service's process is taken to be when the service is stopped. A child that is held counts
/// more than the record; `child_group` is the group the system gives it. Without a child and without
/// a recorded group, `group_of_recorded`, the group the system gives the recorded process, is taken.
pub fn resolve_stopped(
    child: Option<u32>,
    child_group: Option<i32>,
    recorded: Recorded,
    group_of_recorded: Option<i32>,
) -> (r: Recorded)
    ensures
        r == taken_to_be(child, child_group, recorded, group_of_recorded),
        r.started == recorded.started,
        child is Some ==> {
            &&& r.pid == child
            &&& r.pgid == if child_group is Some {
                child_group
            } else {
                recorded.pgid
            }
        },
        child is None ==> {
            &&& r.pid == recorded.pid
            &&& r.pgid == if recorded.pgid is None && recorded.pid is Some {
                group_of_recorded
            } else {
                recorded.pgid
            }
        },
{
    let mut r = recorded;
    if child.is_some() {
        r.pid = child;
        if child_group.is_some() {
            r.pgid = child_group;
        }
    } else if recorded.pgid.is_none() && recorded.pid.is_some() {
        r.pgid = group_of_recorded;
    }
    r
}

/// What the system says about a recorded process.
#[derive(Debug, Clone, Copy, PartialEq, Eq, Structural)]
pub struct Sighting {
    /// Whether the process is alive.
    pub pid_alive: bool,
    /// When the process by that id started.
    pub pid_started: Option<u64>,
    /// Whether the process group has members.
    pub group_alive: bool,
    /// When the process whose id is the group's started.
    pub group_started: Option<u64>,
    /// The supervisor's own process group.
    pub supervisor_group: i32,
}

/// What to terminate.
#[allow(inconsistent_fields)]
#[derive(Debug, Clone, Copy, PartialEq, Eq, Structural)]
pub enum StopTarget {
    /// Nothing.
    Nothing,
    /// The tree below a process. Running out of time is not held against the stop.
    Tree {
        /// The root of the tree.
        pid: u32,
        /// Its process group.
        group: Option<i32>,
    },
    /// What is left of a process group.
    Group {
        /// The group.
        group: i32,
    },
}

/// Why a stop is refused.
pub enum StopRefusal {
    /// The process is not the one recorded.
    ForeignProcess(u32),
    /// The group is alive, its leader is gone, and no start time was recorded.
    UnknownGroup,
    /// The group id was taken over by another process.
    ReusedGroup,
    /// The group can only be invalid or the supervisor's own.
    InvalidGroup,
}

/// Why a service cannot be stopped, if it cannot. A live child handle is proof of identity.
pub open spec fn refusal(has_child: bool, r: Recorded, s: Sighting) -> Option<StopRefusal> {
    let live = r.pid is Some && s.pid_alive;
    if !has_child && live && (r.started is None || s.pid_started != r.started) {
        Some(StopRefusal::ForeignProcess(r.pid->0))
    } else if !has_child && !live && r.pgid is Some && s.group_alive && r.started is None {
        Some(StopRefusal::UnknownGroup)
    } else if !has_child && !live && r.pgid is Some && s.group_alive && s.group_started is Some
        && s.group_started != r.started {
        Some(StopRefusal::ReusedGroup)
    } else if r.pid is None && r.pgid is Some && (r.pgid->0 <= 0 || r.pgid->0
        == s.supervisor_group) {
        Some(StopRefusal::InvalidGroup)
    } else {
        None
    }
}

/// What a stop that is not refused goes for: the tree below the recorded process, or what is left
/// of the recorded group, or nothing.
pub open spec fn aimed_at(r: Recorded) -> StopTarget {
    match r.pid {
        Some(pid) => StopTarget::Tree { pid, group: r.pgid },
        None => match r.pgid {
            Some(group) => StopTarget::Group { group },
            None => StopTarget::Nothing,
        },
    }
}

/// What a refusal says.
pub open spec fn refusal_text(r: StopRefusal) -> Seq<char> {
    match r {
        StopRefusal::ForeignProcess(pid) => "refusing to stop pid "@ + decimal(pid as nat)
            + ": its recorded process identity does not match"@,
        StopRefusal::UnknownGroup =>
            "refusing to stop a live process group whose recorded leader is gone"@,
        StopRefusal::ReusedGroup => "refusing to stop a reused process group"@,
        StopRefusal::InvalidGroup => "refusing to stop an invalid service process group"@,
    }
}

/// Whether `err` is a failure to stop `service` with this kind and message.
pub open spec fn stop_failure(
    err: ProcessManagerError,
    service: Seq<char>,
    kind: FaultKind,
    message: Seq<char>,
) -> bool {
    match err {
        ProcessManagerError::ServiceStopError { service: s, source } => s@ == service
            && source.kind == kind && source.message@ == message,
        _ => false,
    }
}

fn stop_error(service: &str, kind: FaultKind, message: String) -> (r: ProcessManagerError)
    ensures
        stop_failure(r, service@, kind, message@),
{
    ProcessManagerError::ServiceStopError {
        service: service.to_owned(),
        source: Fault { kind, message },
    }
}

/// What to terminate to stop a service, or why nothing may be.
pub fn stop_target(service: &str, has_child: bool, r: Recorded, s: Sighting) -> (t: Result<
    StopTarget,
    ProcessManagerError,
>)
    ensures
        match refusal(has_child, r, s) {
            Some(why) => t is Err && stop_failure(
                t->Err_0,
                service@,
                FaultKind::Other,
                refusal_text(why),
            ),
            None => t == Ok::<StopTarget, ProcessManagerError>(aimed_at(r)),
        },
        r.pid is Some && s.pid_alive && (has_child || (r.started is Some && s.pid_started
            == r.started)) ==> t == Ok::<StopTarget, ProcessManagerError>(
            StopTarget::Tree { pid: r.pid->0, group: r.pgid },
        ),
        r.pid is Some && s.pid_alive && !has_child && (r.started is None || s.pid_started
            != r.started) ==> t is Err,
        r.pid is None && r.pgid is None ==> t == Ok::<StopTarget, ProcessManagerError>(
            StopTarget::Nothing,
        ),
{
    let live = r.pid.is_some() && s.pid_alive;
    if !has_child {
        match r.pid {
            Some(pid) => {
                if s.pid_alive && (r.started.is_none() || s.pid_started != r.started) {
                    let mut m = "refusing to stop pid ".to_owned();
                    push_decimal(&mut m, pid as u64);
                    m.append(": its recorded process identity does not match");
                    return Err(stop_error(service, FaultKind::Other, m));
                }
            },
            None => {},
        }
        if !live && r.pgid.is_some() && s.group_alive {
            if r.started.is_none() {
                return Err(
                    stop_error(
                        service,
                        FaultKind::Other,
                        "refusing to stop a live process group whose recorded leader is gone".to_owned(),
                    ),
                );
            }
            if s.group_started.is_some() && s.group_started != r.started {
                return Err(
                    stop_error(
                        service,
                        FaultKind::Other,
                        "refusing to stop a reused process group".to_owned(),
                    ),
                );
            }
        }
    }
    match r.pid {
        Some(pid) => Ok(StopTarget::Tree { pid, group: r.pgid }),
        None => match r.pgid {
            Some(group) => {
                if group <= 0 || group == s.supervisor_group {
                    return Err(
                        stop_error(
                            service,
                            FaultKind::Other,
                            "refusing to stop an invalid service process group".to_owned(),
                        ),
                    );
                }
                Ok(StopTarget::Group { group })
            },
            None => Ok(StopTarget::Nothing),
        },
    }
}

/// A process that is alive under another identity than the recorded one is never terminated unless
/// the supervisor holds its child handle.
pub proof fn law_foreign_process_is_spared(r: Recorded, s: Sighting)
    requires
        r.pid is Some,
        s.pid_alive,
        s.pid_started != r.started,
    ensures
        refusal(false, r, s) is Some,
        refusal(false, r, s) == Some(StopRefusal::ForeignProcess(r.pid->0)),
{
}

/// A live process whose start time is the one on record is stopped, with everything below it, and
/// never refused, child handle or not.
pub proof fn law_recorded_process_is_stopped(has_child: bool, r: Recorded, s: Sighting, pid: u32)
    requires
        r.pid == Some(pid),
        s.pid_alive,
        r.started is Some,
        s.pid_started == r.started,
    ensures
        refusal(has_child, r, s) is None,
        aimed_at(r) == (StopTarget::Tree { pid, group: r.pgid }),
{
}

/// A held child handle is proof enough: the tree below the recorded process is stopped whatever is
/// seen of it, and so is a recorded group that can be a service's.
pub proof fn law_held_child_is_stopped(r: Recorded, s: Sighting)
    ensures
        r.pid is Some ==> refusal(true, r, s) is None && aimed_at(r) == (StopTarget::Tree {
            pid: r.pid->0,
            group: r.pgid,
        }),
        r.pid is None && r.pgid is Some && r.pgid->0 > 0 && r.pgid->0 != s.supervisor_group
            ==> refusal(true, r, s) is None && aimed_at(r) == (StopTarget::Group {
            group: r.pgid->0,
        }),
        r.pid is None && r.pgid is Some && (r.pgid->0 <= 0 || r.pgid->0 == s.supervisor_group)
            ==> refusal(true, r, s) == Some(StopRefusal::InvalidGroup),
{
}

/// With nothing on record there is nothing to stop and nothing to refuse.
pub proof fn law_nothing_recorded_is_no_refusal(has_child: bool, r: Recorded, s: Sighting)
    requires
        r.pid is None,
        r.pgid is None,
    ensures
        refusal(has_child, r, s) is None,
        aimed_at(r) == StopTarget::Nothing,
{
}

/// Once the recorded process is gone, and no child is held, its group decides: a live group is left
/// alone when no start time is on record or its id was taken over, and is stopped otherwise; a dead
/// group is no reason to refuse.
pub proof fn law_survivors_are_stopped_by_identity(r: Recorded, s: Sighting)
    requires
        r.pid is None || !s.pid_alive,
        r.pgid is Some,
    ensures
        s.group_alive && r.started is None ==> refusal(false, r, s) == Some(
            StopRefusal::UnknownGroup,
        ),
        s.group_alive && r.started is Some && s.group_started is Some && s.group_started
            != r.started ==> refusal(false, r, s) == Some(StopRefusal::ReusedGroup),
        (!s.group_alive || (r.started is Some && (s.group_started is None || s.group_started
            == r.started))) && (r.pid is Some || (r.pgid->0 > 0 && r.pgid->0
            != s.supervisor_group)) ==> refusal(false, r, s) is None,
        r.pid is None && (r.pgid->0 <= 0 || r.pgid->0 == s.supervisor_group) ==> refusal(
            false,
            r,
            s,
        ) is Some,
{
}

/// Whether a termination that ran out of time is overlooked.
pub open spec fn is_time_out(err: ProcessManagerError) -> bool {
    err matches ProcessManagerError::ServiceStopError { source, .. } && source.kind
        == FaultKind::TimedOut
}

/// What a stop makes of how the termination went: running out of time on a process tree is
/// overlooked, since the process is looked at again afterwards.
pub fn settle_termination(target: StopTarget, result: Result<(), ProcessManagerError>) -> (r: Result<
    (),
    ProcessManagerError,
>)
    ensures
        match result {
            Ok(_) => r is Ok,
            Err(err) => if target is Tree && is_time_out(err) {
                r is Ok
            } else {
                r == Err::<(), ProcessManagerError>(err)
            },
        },
{
    match result {
        Ok(_) => Ok(()),
        Err(err) => {
            let mut forgiven = false;
            if let StopTarget::Tree { .. } = target {
                if let ProcessManagerError::ServiceStopError { source, .. } = &err {
                    forgiven = source.kind == FaultKind::TimedOut;
                }
            }
            if forgiven {
                Ok(())
            } else {
                Err(err)
            }
        },
    }
}

/// Whether the process is gone. One that is still alive makes the stop fail.
pub fn confirm_gone(service: &str, pid: Option<u32>, alive: bool) -> (r: Result<
    (),
    ProcessManagerError,
>)
    ensures
        pid is None || !alive ==> r is Ok,
        pid is Some && alive ==> r is Err && stop_failure(
            r->Err_0,
            service@,
            FaultKind::TimedOut,
            "process "@ + decimal(pid->0 as nat) + " for '"@ + service@
                + "' is still alive after termination"@,
        ),
{
    match pid {
        Some(p) => {
            if alive {
                let mut m = "process ".to_owned();
                push_decimal(&mut m, p as u64);
                m.append(" for '");
                m.append(service);
                m.append("' is still alive after termination");
                return Err(stop_error(service, FaultKind::TimedOut, m));
            }
            Ok(())
        },
        None => Ok(()),
    }
}

/// The entry of a stopped service.
pub open spec fn stopped_entry() -> ServiceStateEntry {
    ServiceStateEntry {
        status: ServiceLifecycleStatus::Stopped,
        pid: None,
        exit_code: None,
        signal: None,
    }
}

/// The states after a service was stopped. One that ran to completion keeps that record, and so
/// does everything else; a service that is not configured has no key and leaves no trace.
pub open spec fn states_after_stop(
    memory: Map<Seq<char>, ServiceStateEntry>,
    disk: Option<ServiceStateFile>,
    key: Option<&str>,
) -> Map<Seq<char>, ServiceStateEntry> {
    match key {
        Some(k) => if status_of(memory, k@) == Some(ServiceLifecycleStatus::ExitedSuccessfully) {
            memory
        } else {
            on_record(disk).insert(k@, stopped_entry())
        },
        None => memory,
    }
}

/// Records a stopped service: it loses its process entry, and its state becomes stopped unless it
/// had run to completion. `key` is the state key of a configured service.
pub fn record_stop(
    pids: &mut PidFile,
    pids_on_disk: Option<PidFile>,
    states: &mut ServiceStateFile,
    states_on_disk: Option<ServiceStateFile>,
    service: &str,
    key: Option<&str>,
)
    ensures
        final(pids).store == old(pids).store,
        final(states).store == old(states).store,
        if knows(current(old(pids)@, pids_on_disk), service@) {
            is_without(current(old(pids)@, pids_on_disk), service@, final(pids)@)
        } else {
            final(pids)@ == current(old(pids)@, pids_on_disk)
        },
        final(states)@ == states_after_stop(old(states)@, states_on_disk, key),
{
    let _ = pids.remove(pids_on_disk, service);
    match key {
        Some(k) => {
            let completed = match states.get(k) {
                Some(entry) => entry.status == ServiceLifecycleStatus::ExitedSuccessfully,
                None => false,
            };
            if !completed {
                states.set(states_on_disk, k, ServiceLifecycleStatus::Stopped, None, None, None);
            }
        },
        None => {},
    }
}

/// Stopping a service that ran to completion does not rewrite its history.
pub proof fn law_completed_stays_completed(
    memory: Map<Seq<char>, ServiceStateEntry>,
    disk: Option<ServiceStateFile>,
    key: &str,
)
    requires
        status_of(memory, key@) == Some(ServiceLifecycleStatus::ExitedSuccessfully),
    ensures
        states_after_stop(memory, disk, Some(key)) == memory,
{
}

// ---------------------------------------------------------------------------
// One stop, from the first look to the record
// ---------------------------------------------------------------------------

/// The next thing a stop needs done.
#[derive(Debug, Clone, Copy, PartialEq, Eq, Structural)]
pub enum StopAction {
    /// Terminate this.
    Terminate {
        /// What to terminate.
        target: StopTarget,
    },
    /// Take the child handle out of supervision and wait for it.
    Reap,
    /// Wait, up to the limit, for the process to disappear, and say whether it is alive.
    VerifyGone {
        /// The process.
        pid: u32,
    },
    /// Record the service as stopped.
    Record,
    /// Nothing: the stop is over.
    Finished,
}

/// A stop in progress.
pub struct StopRun {
    /// The service.
    pub service: String,
    /// Its process, if it has one.
    pub pid: Option<u32>,
    /// Whether the process was confirmed gone, or there was none.
    pub confirmed: bool,
    /// Why the stop fails, if it does.
    pub error: Option<ProcessManagerError>,
    /// What to do next.
    pub pending: StopAction,
    /// What the stop is about and what was done so far.
    pub journal: Ghost<StopJournal>,
}

/// What a stop is about and what was done so far.
#[verifier::ext_equal]
pub struct StopJournal {
    /// What it goes for; nothing when it was refused.
    pub target: Option<StopTarget>,
    /// What was reported as done, in order.
    pub done: Seq<StopAction>,
    /// What was reported as failed, if anything was.
    pub fell_at: Option<StopAction>,
}

/// What is done in a stop for `target` before the child is waited for.
pub open spec fn done_before_reap(target: StopTarget) -> Seq<StopAction> {
    if target is Nothing {
        Seq::empty()
    } else {
        Seq::empty().push(StopAction::Terminate { target })
    }
}

/// What is done in a stop for `target` before it is recorded.
pub open spec fn done_before_record(target: StopTarget) -> Seq<StopAction> {
    match target {
        StopTarget::Tree { pid, .. } => done_before_reap(target).push(StopAction::Reap).push(
            StopAction::VerifyGone { pid },
        ),
        _ => done_before_reap(target).push(StopAction::Reap),
    }
}

/// Whether the journal of a stop fits where the stop stands.
pub open spec fn stop_is_on_course(s: StopRun) -> bool {
    let j = s.journal@;
    match j.target {
        None => s.pending is Finished && s.error is Some && j.done.len() == 0 && j.fell_at is None,
        Some(t) => {
            &&& s.pid is Some <==> t is Tree
            &&& t is Tree ==> s.pid == Some(t->pid)
            &&& j.fell_at is Some <==> s.error is Some
            &&& match s.pending {
                StopAction::Terminate { target } => target == t && j.done == Seq::<
                    StopAction,
                >::empty(),
                StopAction::Reap => j.done == done_before_reap(t),
                StopAction::VerifyGone { pid } => t is Tree && j.done == done_before_reap(t).push(
                    StopAction::Reap,
                ),
                StopAction::Record => j.done == done_before_record(t),
                StopAction::Finished => match j.fell_at {
                    None => j.done == done_before_record(t).push(StopAction::Record),
                    Some(a) => match a {
                        StopAction::Terminate { target } => target == t && j.done == Seq::<
                            StopAction,
                        >::empty(),
                        StopAction::VerifyGone { pid } => j.done == done_before_reap(t).push(
                            StopAction::Reap,
                        ),
                        StopAction::Record => j.done == done_before_record(t),
                        _ => false,
                    },
                },
            }
        },
    }
}

/// What holds in every state of a stop.
pub open spec fn stop_sound(s: StopRun) -> bool {
    &&& s.error is Some <==> s.pending is Finished && !s.confirmed
    &&& match s.pending {
        StopAction::Terminate { target } => !s.confirmed && (target is Tree ==> s.pid == Some(
            target->pid,
        )) && !(target is Nothing),
        StopAction::Reap => !s.confirmed,
        StopAction::VerifyGone { pid } => !s.confirmed && s.pid == Some(pid),
        StopAction::Record => s.confirmed,
        StopAction::Finished => true,
    }
    &&& stop_is_on_course(s)
}

impl StopRun {
    /// The journal once the pending action was reported on, as done or as failed.
    pub open spec fn noted(self, done: bool) -> StopJournal {
        if done {
            StopJournal { done: self.journal@.done.push(self.pending), ..self.journal@ }
        } else {
            StopJournal { fell_at: Some(self.pending), ..self.journal@ }
        }
    }

    /// Begins to stop `service`, given what is recorded and seen of its process.
    pub fn begin(service: String, has_child: bool, r: Recorded, s: Sighting) -> (run: Self)
        ensures
            run.service == service,
            run.pid == r.pid,
            stop_sound(run),
            run.journal@.target == (if refusal(has_child, r, s) is Some {
                None
            } else {
                Some(aimed_at(r))
            }),
            match refusal(has_child, r, s) {
                Some(why) => run.pending is Finished && run.error is Some && stop_failure(
                    run.error->0,
                    service@,
                    FaultKind::Other,
                    refusal_text(why),
                ),
                None => run.pending == match r.pid {
                    Some(pid) => StopAction::Terminate {
                        target: StopTarget::Tree { pid, group: r.pgid },
                    },
                    None => match r.pgid {
                        Some(group) => StopAction::Terminate {
                            target: StopTarget::Group { group },
                        },
                        None => StopAction::Reap,
                    },
                },
            },
    {
        let target = stop_target(service.as_str(), has_child, r, s);
        let mut run = StopRun {
            service,
            pid: r.pid,
            confirmed: false,
            error: None,
            pending: StopAction::Reap,
            journal: Ghost(
                StopJournal {
                    target: match target {
                        Ok(t) => Some(t),
                        Err(_) => None,
                    },
                    done: Seq::empty(),
                    fell_at: None,
                },
            ),
        };
        match target {
            Ok(t) => {
                if let StopTarget::Nothing = t {
                } else {
                    run.pending = StopAction::Terminate { target: t };
                }
            },
            Err(err) => {
                run.error = Some(err);
                run.pending = StopAction::Finished;
            },
        }
        run
    }

    /// Reports how the termination went.
    pub fn terminated(&mut self, result: Result<(), ProcessManagerError>)
        requires
            old(self).pending is Terminate,
            stop_sound(*old(self)),
        ensures
            stop_sound(*final(self)),
            final(self).service == old(self).service,
            final(self).journal@ == old(self).noted(!(result is Err) || (old(self).pending->target is Tree
                && is_time_out(result->Err_0))),
            final(self).pid == old(self).pid,
            final(self).confirmed == old(self).confirmed,
            match result {
                Err(err) if !(old(self).pending->target is Tree && is_time_out(err)) => {
                    final(self).error == Some(err) && final(self).pending is Finished
                },
                _ => final(self).error is None && final(self).pending is Reap,
            },
    {
        let ghost noted = self.noted(!(result is Err) || (self.pending->target is Tree && is_time_out(result->Err_0)));
        self.journal = Ghost(noted);
        if let StopAction::Terminate { target } = self.pending {
            match settle_termination(target, result) {
                Ok(_) => {
                    self.pending = StopAction::Reap;
                },
                Err(err) => {
                    self.error = Some(err);
                    self.pending = StopAction::Finished;
                },
            }
        }
    }

    /// Reports that the child handle, if there was one, was waited for.
    pub fn reaped(&mut self)
        requires
            old(self).pending is Reap,
            stop_sound(*old(self)),
        ensures
            stop_sound(*final(self)),
            final(self).service == old(self).service,
            final(self).journal@ == old(self).noted(true),
            final(self).pid == old(self).pid,
            final(self).error is None,
            match old(self).pid {
                Some(pid) => final(self).pending == (StopAction::VerifyGone { pid })
                    && !final(self).confirmed,
                None => final(self).pending is Record && final(self).confirmed,
            },
    {
        let ghost noted = self.noted(true);
        self.journal = Ghost(noted);
        match self.pid {
            Some(pid) => {
                self.pending = StopAction::VerifyGone { pid };
            },
            None => {
                self.confirmed = true;
                self.pending = StopAction::Record;
            },
        }
    }

    /// Reports whether the process is still alive when the time to disappear is over.
    pub fn verified(&mut self, alive: bool)
        requires
            old(self).pending is VerifyGone,
            stop_sound(*old(self)),
        ensures
            stop_sound(*final(self)),
            final(self).service == old(self).service,
            final(self).journal@ == old(self).noted(!alive),
            final(self).pid == old(self).pid,
            if alive {
                final(self).pending is Finished && final(self).error is Some && stop_failure(
                    final(self).error->0,
                    old(self).service@,
                    FaultKind::TimedOut,
                    "process "@ + decimal(old(self).pid->0 as nat) + " for '"@ + old(self).service@
                        + "' is still alive after termination"@,
                )
            } else {
                final(self).pending is Record && final(self).confirmed
            },
    {
        let ghost noted = self.noted(!alive);
        self.journal = Ghost(noted);
        match confirm_gone(self.service.as_str(), self.pid, alive) {
            Ok(_) => {
                self.confirmed = true;
                self.pending = StopAction::Record;
            },
            Err(err) => {
                self.error = Some(err);
                self.pending = StopAction::Finished;
            },
        }
    }

    /// Reports whether the stop could be recorded.
    pub fn recorded(&mut self, result: Result<(), ProcessManagerError>)
        requires
            old(self).pending is Record,
            stop_sound(*old(self)),
        ensures
            stop_sound(*final(self)),
            final(self).service == old(self).service,
            final(self).journal@ == old(self).noted(result is Ok),
            final(self).pid == old(self).pid,
            final(self).pending is Finished,
            match result {
                Ok(_) => final(self).error is None,
                Err(err) => final(self).error == Some(err),
            },
    {
        let ghost noted = self.noted(result is Ok);
        self.journal = Ghost(noted);
        match result {
            Ok(_) => {},
            Err(err) => {
                self.confirmed = false;
                self.error = Some(err);
            },
        }
        self.pending = StopAction::Finished;
    }

    /// The outcome of a finished stop.
    pub fn outcome(self) -> (r: Result<(), ProcessManagerError>)
        requires
            self.pending is Finished,
        ensures
            match self.error {
                Some(err) => r == Err::<(), ProcessManagerError>(err),
                None => r is Ok,
            },
    {
        match self.error {
            Some(err) => Err(err),
            None => Ok(()),
        }
    }
}

/// A service is recorded as stopped only once its process was confirmed gone.
pub proof fn law_recorded_only_when_gone(s: StopRun)
    requires
        stop_sound(s),
        s.pending is Record,
    ensures
        s.confirmed,
        s.error is None,
{
}

/// A stop that was not refused terminates what it goes for, waits for the child, makes sure that the
/// process is gone, and records the service as stopped, in this order, leaving out only what there
/// is none of. It ends well only after all of that, and a step that failed is its last.
pub proof fn law_stop_follows_its_course(s: StopRun, t: StopTarget)
    requires
        stop_sound(s),
        s.journal@.target == Some(t),
    ensures
        ({
            let done = s.journal@.done;
            let terminate = StopAction::Terminate { target: t };
            &&& t is Nothing && s.pending is Reap ==> done == Seq::<StopAction>::empty()
            &&& !(t is Nothing) && s.pending is Reap ==> done == seq![terminate]
            &&& s.pending is VerifyGone ==> t is Tree && s.pending->pid == t->pid && done
                == seq![terminate, StopAction::Reap]
            &&& s.pending is Record && t is Tree ==> done == seq![
                terminate,
                StopAction::Reap,
                StopAction::VerifyGone { pid: t->pid },
            ]
            &&& s.pending is Record && t is Group ==> done == seq![terminate, StopAction::Reap]
            &&& s.pending is Record && t is Nothing ==> done == seq![StopAction::Reap]
            &&& s.pending is Finished && s.error is None ==> done.len() > 0 && done.last()
                == StopAction::Record && done.contains(StopAction::Reap)
            &&& s.pending is Finished && s.error is None && t is Tree ==> done == seq![
                terminate,
                StopAction::Reap,
                StopAction::VerifyGone { pid: t->pid },
                StopAction::Record,
            ]
            &&& s.journal@.fell_at is Some ==> s.pending is Finished && s.error is Some
        }),
{
    let done = s.journal@.done;
    if s.pending is Finished && s.error is None {
        let k: int = done_before_reap(t).len() as int;
        assert(done[k] == StopAction::Reap);
    }
}

// ---------------------------------------------------------------------------
// Stopping everything that is recorded
// ---------------------------------------------------------------------------

/// The names of everything that has a process, a group or a child handle, in ascending order.
pub fn stop_list(pids: &PidFile, children: &NameSet) -> (r: Vec<String>)
    ensures
        ascending(texts(r@)),
        texts(r@).to_set() == pids@.services.dom().union(pids@.groups.dom()).union(children@),
{
    let mut all = NameSet::new();
    let n: usize = pids.services.len();
    let mut i: usize = 0;
    let ghost names = pids.services.names();
    while i < n
        invariant
            i <= n,
            n == names.len(),
            names == pids.services.names(),
            all@ == names.take(i as int).to_set(),
        decreases n - i,
    {
        let name = pids.services.name_at(i);
        let _ = all.insert(name.as_str());
        i = i + 1;
        proof {
            lemma_take_to_set(names, i - 1);
        }
    }
    assert(names.take(n as int) =~= names);
    assert(all@ =~= pids@.services.dom());
    let m: usize = pids.service_groups.len();
    let ghost groups = pids.service_groups.names();
    let ghost base = all@;
    assert(base.union(groups.take(0).to_set()) =~= base);
    let mut j: usize = 0;
    while j < m
        invariant
            j <= m,
            m == groups.len(),
            groups == pids.service_groups.names(),
            all@ == base.union(groups.take(j as int).to_set()),
        decreases m - j,
    {
        let name = pids.service_groups.name_at(j);
        let _ = all.insert(name.as_str());
        j = j + 1;
        proof {
            lemma_take_to_set(groups, j - 1);
            assert(all@ =~= base.union(groups.take(j as int).to_set()));
        }
    }
    assert(groups.take(m as int) =~= groups);
    assert(groups.to_set() =~= pids@.groups.dom());
    let c: usize = children.len();
    let ghost kids = children.names();
    let ghost base2 = all@;
    assert(base2.union(kids.take(0).to_set()) =~= base2);
    let mut k: usize = 0;
    while k < c
        invariant
            k <= c,
            c == kids.len(),
            kids == children.names(),
            all@ == base2.union(kids.take(k as int).to_set()),
        decreases c - k,
    {
        let name = children.name_at(k);
        let _ = all.insert(name.as_str());
        k = k + 1;
        proof {
            lemma_take_to_set(kids, k - 1);
            assert(all@ =~= base2.union(kids.take(k as int).to_set()));
        }
    }
    assert(kids.take(c as int) =~= kids);
    set_names(&all)
}

proof fn lemma_take_to_set(s: Seq<Seq<char>>, i: int)
    requires
        0 <= i < s.len(),
    ensures
        s.take(i + 1).to_set() == s.take(i).to_set().insert(s[i]),
{
    let a = s.take(i + 1);
    let b = s.take(i);
    assert forall|x: Seq<char>| #[trigger] a.to_set().contains(x) == b.to_set().insert(s[i]).contains(x) by {
        if b.contains(x) {
            let k = choose|k: int| 0 <= k < b.len() && b[k] == x;
            assert(a[k] == x);
        }
        if a.contains(x) {
            let k = choose|k: int| 0 <= k < a.len() && a[k] == x;
            if k < i {
                assert(b[k] == x);
            }
        }
        assert(a[i] == s[i]);
    }
    assert(a.to_set() =~= b.to_set().insert(s[i]));
}

/// The names of a set, in ascending order.
pub fn set_names(all: &NameSet) -> (r: Vec<String>)
    ensures
        ascending(texts(r@)),
        texts(r@) == all.names(),
        texts(r@).to_set() == all@,
{
    let n: usize = all.len();
    let mut r: Vec<String> = Vec::new();
    let ghost names = all.names();
    let mut i: usize = 0;
    while i < n
        invariant
            i <= n,
            n == names.len(),
            names == all.names(),
            texts(r@) == names.take(i as int),
        decreases n - i,
    {
        let ghost before = texts(r@);
        r.push(all.name_at(i).clone());
        i = i + 1;
        assert(texts(r@) =~= before.push(names[i - 1]));
        assert(names.take(i as int) =~= names.take(i - 1).push(names[i - 1]));
    }
    assert(names.take(n as int) =~= names);
    r
}

/// Why a recorded service is left alone when a whole project is stopped from its records.
pub open spec fn tracked_refusal(r: Recorded, s: Sighting) -> Option<Seq<char>> {
    let live = r.pid is Some && s.pid_alive;
    if live && (r.started is None || s.pid_started != r.started) {
        Some("recorded process identity does not match"@)
    } else if !live && r.pgid is Some && s.group_alive && (r.started is None || (s.group_started is Some
        && s.group_started != r.started) || r.pgid->0 <= 0 || r.pgid->0 == s.supervisor_group) {
        Some("recorded process group identity does not match"@)
    } else {
        None
    }
}

/// The root to terminate when a whole project is stopped from its records.
pub open spec fn tracked_root(r: Recorded, s: Sighting) -> Option<u32> {
    if (r.pid is Some && s.pid_alive) || (r.pgid is Some && s.group_alive) {
        match r.pid {
            Some(pid) => Some(pid),
            None => if r.pgid is Some && r.pgid->0 > 0 {
                Some(r.pgid->0 as u32)
            } else {
                None
            },
        }
    } else {
        None
    }
}

/// Which process tree to terminate for one recorded service, if any, or why none may be.
pub fn tracked_target(service: &str, r: Recorded, s: Sighting) -> (t: Result<
    Option<u32>,
    ProcessManagerError,
>)
    ensures
        match tracked_refusal(r, s) {
            Some(m) => t is Err && stop_failure(t->Err_0, service@, FaultKind::Other, m),
            None => t == Ok::<Option<u32>, ProcessManagerError>(tracked_root(r, s)),
        },
{
    let live = r.pid.is_some() && s.pid_alive;
    if live && (r.started.is_none() || s.pid_started != r.started) {
        return Err(
            stop_error(
                service,
                FaultKind::Other,
                "recorded process identity does not match".to_owned(),
            ),
        );
    }
    match r.pgid {
        Some(group) => {
            if !live && s.group_alive && (r.started.is_none() || (s.group_started.is_some()
                && s.group_started != r.started) || group <= 0 || group == s.supervisor_group) {
                return Err(
                    stop_error(
                        service,
                        FaultKind::Other,
                        "recorded process group identity does not match".to_owned(),
                    ),
                );
            }
        },
        None => {},
    }
    if live || (r.pgid.is_some() && s.group_alive) {
        match r.pid {
            Some(pid) => Ok(Some(pid)),
            None => match r.pgid {
                Some(group) => if group > 0 {
                    Ok(Some(group as u32))
                } else {
                    Ok(None)
                },
                None => Ok(None),
            },
        }
    } else {
        Ok(None)
    }
}

/// The service part of a state key: what follows the last `:`.
pub open spec fn service_part(key: Seq<char>) -> Seq<char> {
    key.skip(last_of(key, ':') + 1)
}

/// The service part of a state key.
pub fn service_of_key(key: &str) -> (r: String)
    ensures
        r@ == service_part(key@),
{
    let v = chars_of(key);
    let a = after_last(&v, ':');
    let r = string_of(&v, a, v.len());
    assert(r@ =~= service_part(key@));
    r
}

/// The key of a service's state names that service, if its name holds no `:`.
pub proof fn law_state_key_names_its_service(project: Seq<char>, service: Seq<char>)
    requires
        !service.contains(':'),
    ensures
        service_part(key_of(project, service)) == service,
{
    reveal_strlit(":");
    let front = "v2:"@ + project + ":"@;
    let key = key_of(project, service);
    assert(front.last() == ':');
    lemma_last_of(key, ':');
    let i = front.len() - 1;
    assert(key[i] == ':');
    assert forall|j: int| i < j < key.len() implies key[j] != ':' by {
        assert(key[j] == service[j - front.len()]);
    }
    assert(key.skip(i + 1) =~= service);
}

/// Whether a state entry says that `service` runs.
pub open spec fn claims_running(
    states: Map<Seq<char>, ServiceStateEntry>,
    key: Seq<char>,
    service: Seq<char>,
) -> bool {
    states.contains_key(key) && states[key].status == ServiceLifecycleStatus::Running
        && service_part(key) == service
}

/// The states with every entry that says `service` runs turned into stopped.
pub open spec fn none_running(
    states: Map<Seq<char>, ServiceStateEntry>,
    service: Seq<char>,
) -> Map<Seq<char>, ServiceStateEntry> {
    Map::new(
        |k: Seq<char>| states.contains_key(k),
        |k: Seq<char>|
            if claims_running(states, k, service) {
                stopped_entry()
            } else {
                states[k]
            },
    )
}

/// The keys of the entries that say `service` runs, in ascending order.
pub fn running_keys(states: &ServiceStateFile, service: &str) -> (r: Vec<String>)
    ensures
        forall|k: Seq<char>|
            #[trigger] texts(r@).contains(k) <==> claims_running(states@, k, service@),
        ascending(texts(r@)),
{
    let n: usize = states.services.len();
    let ghost names = states.services.names();
    let mut r: Vec<String> = Vec::new();
    let mut i: usize = 0;
    while i < n
        invariant
            i <= n,
            n == names.len(),
            names == states.services.names(),
            ascending(names),
            states@ == states.services@,
            forall|k: Seq<char>| #[trigger]
                texts(r@).contains(k) <==> names.take(i as int).contains(k) && claims_running(
                    states@,
                    k,
                    service@,
                ),
            ascending(texts(r@)),
        decreases n - i,
    {
        let key = states.services.name_at(i);
        let entry = states.services.value_at(i);
        let ghost before = texts(r@);
        let ghost done = names.take(i as int);
        let part = service_of_key(key.as_str());
        let hit = entry.status == ServiceLifecycleStatus::Running && same(part.as_str(), service);
        assert(hit == claims_running(states@, key@, service@));
        if hit {
            r.push(key.clone());
            assert(texts(r@) =~= before.push(key@));
        }
        i = i + 1;
        proof {
            assert(names.take(i as int) =~= done.push(names[i - 1]));
            assert forall|k: Seq<char>| #[trigger] texts(r@).contains(k) <==> names.take(
                i as int,
            ).contains(k) && claims_running(states@, k, service@) by {
                lemma_push_contains(before, key@, k);
                lemma_push_contains(done, names[i - 1], k);
                assert(before.contains(k) <==> done.contains(k) && claims_running(
                    states@,
                    k,
                    service@,
                ));
            }
            if hit {
                assert forall|a: int, b: int| 0 <= a < b < texts(r@).len() implies crate::names::precedes(
                    #[trigger] texts(r@)[a],
                    #[trigger] texts(r@)[b],
                ) by {
                    assert(texts(r@)[a] == before[a]);
                    if b < before.len() {
                        assert(texts(r@)[b] == before[b]);
                    } else {
                        assert(before.contains(before[a]));
                        let p = choose|p: int| 0 <= p < done.len() && done[p] == before[a];
                        assert(names[p] == before[a]);
                        assert(crate::names::precedes(names[p], names[i - 1]));
                    }
                }
            }
        }
    }
    assert(names.take(n as int) =~= names);
    r
}

proof fn lemma_push_contains(s: Seq<Seq<char>>, x: Seq<char>, k: Seq<char>)
    ensures
        s.push(x).contains(k) <==> s.contains(k) || k == x,
{
    if s.contains(k) {
        let i = choose|i: int| 0 <= i < s.len() && s[i] == k;
        assert(s.push(x)[i] == k);
    }
    if k == x {
        assert(s.push(x)[s.len() as int] == k);
    }
}

/// Turns every entry that says `service` runs into stopped.
pub fn settle_states(states: &mut ServiceStateFile, service: &str)
    ensures
        final(states)@ == none_running(old(states)@, service@),
        final(states).store == old(states).store,
{
    let keys = running_keys(states, service);
    let ghost before = states@;
    let ghost all = texts(keys@);
    let mut i: usize = 0;
    while i < keys.len()
        invariant
            i <= keys.len(),
            all == texts(keys@),
            states.store == old(states).store,
            forall|k: Seq<char>|
                #[trigger] all.contains(k) <==> claims_running(before, k, service@),
            states@.dom() == before.dom(),
            forall|k: Seq<char>|
                #![trigger states@[k]]
                before.contains_key(k) ==> states@[k] == (if all.take(i as int).contains(k) {
                    stopped_entry()
                } else {
                    before[k]
                }),
        decreases keys.len() - i,
    {
        let ghost mid = states@;
        let ghost done = all.take(i as int);
        assert(all[i as int] == keys@[i as int]@);
        assert(all.contains(all[i as int]));
        states.set_in_memory(
            keys[i].as_str(),
            ServiceLifecycleStatus::Stopped,
            None,
            None,
            None,
        );
        i = i + 1;
        proof {
            assert(all.take(i as int) =~= done.push(all[i - 1]));
            assert(states@.dom() =~= before.dom());
            assert forall|k: Seq<char>|
                #![trigger states@[k]]
                before.contains_key(k) implies states@[k] == (if all.take(i as int).contains(k) {
                stopped_entry()
            } else {
                before[k]
            }) by {
                lemma_push_contains(done, all[i - 1], k);
                assert(mid[k] == (if done.contains(k) {
                    stopped_entry()
                } else {
                    before[k]
                }));
            }
        }
    }
    assert(all.take(i as int) =~= all);
    assert(states@ =~= none_running(before, service@));
}

/// Stopping a configured service that has not run to completion puts it on record as stopped, with
/// no process and no outcome, and touches no other service's record. A service without a key leaves
/// no trace.
pub proof fn law_stop_is_recorded(
    memory: Map<Seq<char>, ServiceStateEntry>,
    disk: Option<ServiceStateFile>,
    key: &str,
)
    ensures
        status_of(memory, key@) != Some(ServiceLifecycleStatus::ExitedSuccessfully) ==> {
            let after = states_after_stop(memory, disk, Some(key));
            &&& after.contains_key(key@)
            &&& after[key@].status == ServiceLifecycleStatus::Stopped
            &&& after[key@].pid is None
            &&& after[key@].exit_code is None
            &&& after[key@].signal is None
            &&& after.remove(key@) == on_record(disk).remove(key@)
        },
        states_after_stop(memory, disk, None) == memory,
{
}

/// Running out of time is overlooked only for a failure to stop that says so.
pub proof fn law_only_time_outs_are_overlooked(err: ProcessManagerError)
    ensures
        is_time_out(err) ==> err is ServiceStopError,
        match err {
            ProcessManagerError::ServiceStopError { source, .. } => is_time_out(err)
                <==> source.kind == FaultKind::TimedOut,
            _ => !is_time_out(err),
        },
{
}

/// When a whole project is stopped from its records, a live process whose start time is the one on
/// record is terminated by its id; one whose start time differs or is unknown is left alone.
pub proof fn law_project_stop_goes_by_identity(r: Recorded, s: Sighting)
    requires
        r.pid is Some,
        s.pid_alive,
    ensures
        r.started is Some && s.pid_started == r.started ==> tracked_refusal(r, s) is None
            && tracked_root(r, s) == r.pid,
        r.started is None || s.pid_started != r.started ==> tracked_refusal(r, s) is Some,
{
}

/// When a whole project is stopped from its records and the recorded process is gone, a live group
/// is terminated only when it can be told to be the recorded one; without a live group there is
/// nothing to terminate.
pub proof fn law_project_stop_finds_survivors(r: Recorded, s: Sighting)
    requires
        r.pid is None || !s.pid_alive,
    ensures
        r.pgid is None || !s.group_alive ==> tracked_refusal(r, s) is None && tracked_root(r, s)
            is None,
        r.pgid is Some && s.group_alive ==> (tracked_refusal(r, s) is None <==> {
            &&& r.started is Some
            &&& s.group_started is None || s.group_started == r.started
            &&& r.pgid->0 > 0
            &&& r.pgid->0 != s.supervisor_group
        }),
        r.pgid is Some && s.group_alive && r.pgid->0 > 0 ==> tracked_root(r, s) == Some(
            if r.pid is Some {
                r.pid->0
            } else {
                r.pgid->0 as u32
            },
        ),
{
}

/// Settling the states of a service leaves none that says it runs, forgets no entry, and changes
/// only entries of that service that said so.
pub proof fn law_settled_service_runs_nowhere(
    states: Map<Seq<char>, ServiceStateEntry>,
    service: Seq<char>,
    key: Seq<char>,
)
    requires
        states.contains_key(key),
    ensures
        none_running(states, service).dom() == states.dom(),
        key.skip(last_of(key, ':') + 1) == service ==> none_running(states, service)[key].status
            != ServiceLifecycleStatus::Running,
        none_running(states, service)[key] != states[key] ==> {
            &&& key.skip(last_of(key, ':') + 1) == service
            &&& states[key].status == ServiceLifecycleStatus::Running
            &&& none_running(states, service)[key].status == ServiceLifecycleStatus::Stopped
            &&& none_running(states, service)[key].pid is None
            &&& none_running(states, service)[key].exit_code is None
            &&& none_running(states, service)[key].signal is None
        },
{
    assert(none_running(states, service).dom() =~= states.dom());
}

} // verus!
