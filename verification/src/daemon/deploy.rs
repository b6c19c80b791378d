//! Replacing the running instance of one service: rolling and blue/green restarts.
//!
//! A run names the next thing to do as its pending action. Whoever runs it does that and reports
//! how it went through the method that belongs to the action.

use vstd::prelude::*;

use crate::daemon::duration::{duration_complaint, duration_secs, parse_duration};
use crate::daemon::state_file::ServiceReadyState;
use crate::error::ProcessManagerError;
use crate::names::NameMap;
use crate::paths::{join_path, joined_path};
use crate::text::{decimal, opt_text, push_decimal, replace, replaced};

verus! {

/// What a rolling restart reads of the service.
pub struct RollingPlan {
    /// Whether a pre-start command is configured.
    pub pre_start: bool,
    /// Whether a health check is configured.
    pub health_check: bool,
    /// How long the old instance is kept once the new one is up.
    pub grace_period: Option<String>,
}

/// Why the new instance is being stopped.
#[derive(Debug, Clone, Copy, PartialEq, Eq, Structural)]
pub enum StopCause {
    /// It did not start.
    Start,
    /// It started but did not prove itself.
    Check,
}

/// The next thing a rolling restart needs done.
#[derive(Debug, Clone, Copy, PartialEq, Eq, Structural)]
pub enum RollingAction {
    /// Take the handle of the running instance out of supervision, leaving the process alive.
    Detach,
    /// Run the pre-start command.
    RunPreStart,
    /// Start the new instance.
    Start,
    /// Stop what is left of the new instance; a failure to do so is only logged.
    StopNew {
        /// Why.
        cause: StopCause,
    },
    /// Look for a port collision in the log of the new instance.
    CheckPortConflict,
    /// Terminate the old instance so that the new one can have its port.
    MakeRoom,
    /// Wait for the health check of the new instance.
    CheckHealth,
    /// Keep both instances for a while.
    Drain {
        /// How long.
        seconds: u64,
    },
    /// Terminate the old instance.
    Retire,
    /// Put the old instance back under supervision.
    Restore,
    /// Nothing: the restart is over.
    Finished,
}

/// A rolling restart in progress.
pub struct RollingRun {
    /// What was configured.
    pub plan: RollingPlan,
    /// Whether the old instance is detached and neither restored nor terminated yet.
    pub held: bool,
    /// Whether the old instance was terminated to free its port.
    pub made_room: bool,
    /// Whether the health check passed.
    pub checked: bool,
    /// How the new instance came up.
    pub state: Option<ServiceReadyState>,
    /// Why the restart fails, if it does.
    pub error: Option<ProcessManagerError>,
    /// What to do next.
    pub pending: RollingAction,
    /// What was done so far.
    pub journal: Ghost<RollingJournal>,
}

/// What was done in a rolling restart.
pub struct RollingJournal {
    /// The actions that were reported on, in order.
    pub done: Seq<RollingAction>,
    /// Whether there was an old instance to detach.
    pub had_old: bool,
    /// Whether the new instance was seen to fail over a port, once that was looked for.
    pub conflict: Option<bool>,
}

/// What a [`RollingRun`] knows.
pub struct RollingView {
    pub held: bool,
    pub made_room: bool,
    pub checked: bool,
    pub state: Option<ServiceReadyState>,
    pub error: Option<ProcessManagerError>,
    pub pending: RollingAction,
    pub journal: RollingJournal,
}

impl View for RollingRun {
    type V = RollingView;

    open spec fn view(&self) -> RollingView {
        RollingView {
            held: self.held,
            made_room: self.made_room,
            checked: self.checked,
            state: self.state,
            error: self.error,
            pending: self.pending,
            journal: self.journal@,
        }
    }
}

impl RollingView {
    /// The restart with its pending action reported on.
    pub open spec fn reported(self) -> RollingView {
        RollingView {
            journal: RollingJournal { done: self.journal.done.push(self.pending), ..self.journal },
            ..self
        }
    }
}

/// What was done of a rolling restart in which nothing has failed for good when an action is pending.
/// A first start that failed over a port is followed by the end of the old instance.
pub open spec fn rolled_before(plan: RollingPlan, v: RollingView) -> Seq<RollingAction> {
    let grace = grace_seconds(plan.grace_period);
    let detached = seq![RollingAction::Detach];
    let prepared = also_if(detached, plan.pre_start, RollingAction::RunPreStart);
    let to_start = if v.made_room {
        prepared.push(RollingAction::Start).push(
            RollingAction::StopNew { cause: StopCause::Start },
        ).push(RollingAction::CheckPortConflict).push(RollingAction::MakeRoom)
    } else {
        prepared
    };
    let to_check = to_start.push(RollingAction::Start);
    let to_drain = also_if(to_check, plan.health_check, RollingAction::CheckHealth);
    let to_retire = also_if(to_drain, grace > 0, RollingAction::Drain { seconds: grace as u64 });
    match v.pending {
        RollingAction::Detach => seq![],
        RollingAction::RunPreStart => detached,
        RollingAction::Start => to_start,
        RollingAction::CheckHealth => to_check,
        RollingAction::Drain { .. } => to_drain,
        RollingAction::Retire => to_retire,
        _ => also_if(to_retire, v.journal.had_old && !v.made_room, RollingAction::Retire),
    }
}

/// Whether a rolling restart that failed, or is failing, is dealt with: what may be left of the new
/// instance is stopped, and the old one is terminated only to make room over a port, or else put
/// back.
pub open spec fn is_rolled_back(plan: RollingPlan, v: RollingView) -> bool {
    let done = v.journal.done;
    let n = done.len() - 1;
    match v.pending {
        RollingAction::StopNew { cause } => n >= 0 && if cause == StopCause::Start {
            done[n] == RollingAction::Start
        } else {
            done[n] == RollingAction::Start || done[n] == RollingAction::CheckHealth
        },
        RollingAction::CheckPortConflict => {
            &&& v.journal.had_old
            &&& !v.made_room
            &&& done == also_if(
                seq![RollingAction::Detach],
                plan.pre_start,
                RollingAction::RunPreStart,
            ).push(RollingAction::Start).push(RollingAction::StopNew { cause: StopCause::Start })
        },
        RollingAction::MakeRoom => {
            &&& v.journal.conflict == Some(true)
            &&& v.journal.had_old
            &&& !v.made_room
            &&& done == also_if(
                seq![RollingAction::Detach],
                plan.pre_start,
                RollingAction::RunPreStart,
            ).push(RollingAction::Start).push(
                RollingAction::StopNew { cause: StopCause::Start },
            ).push(RollingAction::CheckPortConflict)
        },
        RollingAction::Restore => v.journal.had_old && !v.made_room && n >= 0 && (done[n]
            == RollingAction::RunPreStart || done[n] == (RollingAction::StopNew {
            cause: StopCause::Check,
        }) || (done[n] == RollingAction::CheckPortConflict && v.journal.conflict == Some(false))),
        RollingAction::Finished => v.journal.had_old && !v.made_room ==> n >= 0 && (done[n]
            == RollingAction::Restore || done[n] == RollingAction::MakeRoom || done[n]
            == RollingAction::Retire),
        _ => false,
    }
}

/// The run with the old instance dealt with for good.
pub open spec fn wound_up(v: RollingView) -> RollingView {
    RollingView {
        pending: if v.held {
            RollingAction::Retire
        } else {
            RollingAction::Finished
        },
        ..v
    }
}

/// The run given up on: the old instance, if any, goes back under supervision.
pub open spec fn abandoned(v: RollingView, err: ProcessManagerError) -> RollingView {
    RollingView {
        error: Some(err),
        pending: if v.held {
            RollingAction::Restore
        } else {
            RollingAction::Finished
        },
        ..v
    }
}

/// The run with a new instance that did not prove itself.
pub open spec fn unproven(v: RollingView, err: ProcessManagerError) -> RollingView {
    RollingView {
        error: Some(err),
        pending: RollingAction::StopNew { cause: StopCause::Check },
        ..v
    }
}

/// Whether `n` is where the run goes once the new instance has proved itself: it drains for the
/// grace period, and a grace period that cannot be read counts as a failure.
pub open spec fn proven(plan: RollingPlan, v: RollingView, n: RollingView) -> bool {
    match plan.grace_period {
        None => n == wound_up(v),
        Some(raw) => match duration_secs(raw@) {
            Some(secs) => if secs == 0 {
                n == wound_up(v)
            } else {
                n == (RollingView { pending: RollingAction::Drain { seconds: secs as u64 }, ..v })
            },
            None => exists|m: String|
                #![trigger m@]
                m@ == duration_complaint(raw@) && n == unproven(
                    v,
                    ProcessManagerError::ConfigParseError(m),
                ),
        },
    }
}

/// What holds in every state of a rolling restart.
pub open spec fn rolling_sound(plan: RollingPlan, v: RollingView) -> bool {
    &&& v.made_room ==> !v.held
    &&& v.made_room ==> v.journal.had_old && v.journal.conflict == Some(true)
    &&& v.journal.conflict == Some(true) ==> v.pending is MakeRoom || v.made_room || (v.pending is Finished
        && v.journal.done.len() > 0 && v.journal.done.last() == RollingAction::MakeRoom)
    &&& !(v.pending is Finished) && !v.made_room ==> v.held == v.journal.had_old
    &&& v.error is None ==> {
        &&& v.journal.done == rolled_before(plan, v)
        &&& v.pending is RunPreStart ==> plan.pre_start
        &&& v.pending matches RollingAction::Drain { seconds } ==> seconds > 0 && seconds
            == grace_seconds(plan.grace_period)
    }
    &&& v.error is Some ==> is_rolled_back(plan, v)
    &&& v.pending == (RollingAction::StopNew { cause: StopCause::Start }) ==> v.journal.done == also_if(
        seq![RollingAction::Detach],
        plan.pre_start,
        RollingAction::RunPreStart,
    ).push(RollingAction::Start)
    &&& v.checked ==> plan.health_check && v.state is Some
    &&& match v.pending {
        RollingAction::Detach => !v.held && !v.made_room && v.state is None && v.error is None,
        RollingAction::RunPreStart => v.state is None && v.error is None && !v.made_room,
        RollingAction::Start => v.state is None && v.error is None,
        RollingAction::StopNew { cause } => v.error is Some && (cause == StopCause::Start
            ==> !v.made_room),
        RollingAction::CheckPortConflict => v.held && v.error is Some && v.state is None,
        RollingAction::MakeRoom => v.held && v.error is Some && v.state is None,
        RollingAction::CheckHealth => v.state is Some && v.error is None && plan.health_check,
        RollingAction::Drain { .. } => v.state is Some && v.error is None && (plan.health_check
            ==> v.checked),
        RollingAction::Retire => v.held && v.state is Some && v.error is None && (plan.health_check
            ==> v.checked),
        RollingAction::Restore => v.held && v.error is Some,
        RollingAction::Finished => !v.held && (v.error is None ==> v.state is Some && (
        plan.health_check ==> v.checked)),
    }
    &&& v.pending is StopNew && v.pending->cause == StopCause::Start ==> v.state is None
}

impl RollingRun {
    /// Begins a rolling restart.
    pub fn begin(plan: RollingPlan) -> (r: Self)
        ensures
            r.plan == plan,
            r@ == (RollingView {
                held: false,
                made_room: false,
                checked: false,
                state: None,
                error: None,
                pending: RollingAction::Detach,
                journal: RollingJournal { done: seq![], had_old: false, conflict: None },
            }),
            rolling_sound(r.plan, r@),
    {
        RollingRun {
            plan,
            held: false,
            made_room: false,
            checked: false,
            state: None,
            error: None,
            pending: RollingAction::Detach,
            journal: Ghost(RollingJournal { done: seq![], had_old: false, conflict: None }),
        }
    }

    fn note_done(&mut self)
        ensures
            final(self).plan == old(self).plan,
            final(self)@ == old(self)@.reported(),
    {
        self.journal = Ghost(self@.reported().journal);
    }

    fn wind_up(&mut self)
        ensures
            final(self).plan == old(self).plan,
            final(self)@ == wound_up(old(self)@),
    {
        self.pending = if self.held {
            RollingAction::Retire
        } else {
            RollingAction::Finished
        };
    }

    fn abandon(&mut self, err: ProcessManagerError)
        ensures
            final(self).plan == old(self).plan,
            final(self)@ == abandoned(old(self)@, err),
    {
        self.error = Some(err);
        self.pending = if self.held {
            RollingAction::Restore
        } else {
            RollingAction::Finished
        };
    }

    fn prove_itself(&mut self)
        ensures
            final(self).plan == old(self).plan,
            proven(old(self).plan, old(self)@, final(self)@),
    {
        let drain: Result<u64, ProcessManagerError> = match &self.plan.grace_period {
            Some(raw) => parse_duration(raw.as_str()),
            None => Ok(0),
        };
        match drain {
            Ok(seconds) => {
                if seconds == 0 {
                    self.wind_up();
                } else {
                    self.pending = RollingAction::Drain { seconds };
                }
            },
            Err(err) => {
                self.error = Some(err);
                self.pending = RollingAction::StopNew { cause: StopCause::Check };
                proof {
                    let m = err->ConfigParseError_0;
                    assert(m@ == duration_complaint(self.plan.grace_period->0@));
                }
            },
        }
    }

    /// Reports whether there was a running instance to detach.
    pub fn detached(&mut self, result: Result<bool, ProcessManagerError>)
        requires
            old(self).pending is Detach,
            rolling_sound(old(self).plan, old(self)@),
        ensures
            final(self).plan == old(self).plan,
            rolling_sound(old(self).plan, final(self)@),
            final(self)@ == match result {
                Ok(previous) => (RollingView {
                    held: previous,
                    pending: if old(self).plan.pre_start {
                        RollingAction::RunPreStart
                    } else {
                        RollingAction::Start
                    },
                    journal: RollingJournal {
                        had_old: previous,
                        ..old(self)@.reported().journal
                    },
                    ..old(self)@
                }),
                Err(err) => abandoned(old(self)@.reported(), err),
            },
    {
        self.note_done();
        match result {
            Ok(previous) => {
                self.held = previous;
                self.journal = Ghost(RollingJournal { had_old: previous, ..self.journal@ });
                assert(self.journal@.done =~= seq![RollingAction::Detach]);
                self.pending = if self.plan.pre_start {
                    RollingAction::RunPreStart
                } else {
                    RollingAction::Start
                };
            },
            Err(err) => {
                self.abandon(err);
            },
        }
    }

    /// Reports how the pre-start command went.
    pub fn pre_started(&mut self, result: Result<(), ProcessManagerError>)
        requires
            old(self).pending is RunPreStart,
            rolling_sound(old(self).plan, old(self)@),
        ensures
            final(self).plan == old(self).plan,
            rolling_sound(old(self).plan, final(self)@),
            final(self)@ == match result {
                Ok(_) => (RollingView { pending: RollingAction::Start, ..old(self)@.reported() }),
                Err(err) => abandoned(old(self)@.reported(), err),
            },
    {
        self.note_done();
        match result {
            Ok(_) => {
                self.pending = RollingAction::Start;
            },
            Err(err) => {
                self.abandon(err);
            },
        }
    }

    /// Reports how starting the new instance went. A second failure, after room was made, ends the
    /// restart.
    pub fn started(&mut self, result: Result<ServiceReadyState, ProcessManagerError>)
        requires
            old(self).pending is Start,
            rolling_sound(old(self).plan, old(self)@),
        ensures
            final(self).plan == old(self).plan,
            rolling_sound(old(self).plan, final(self)@),
            match result {
                Ok(state) => {
                    let up = RollingView { state: Some(state), ..old(self)@.reported() };
                    if old(self).plan.health_check {
                        final(self)@ == (RollingView { pending: RollingAction::CheckHealth, ..up })
                    } else {
                        proven(old(self).plan, up, final(self)@)
                    }
                },
                Err(err) => final(self)@ == (RollingView {
                    error: Some(err),
                    pending: if old(self).made_room {
                        RollingAction::Finished
                    } else {
                        RollingAction::StopNew { cause: StopCause::Start }
                    },
                    ..old(self)@.reported()
                }),
            },
    {
        self.note_done();
        match result {
            Ok(state) => {
                self.state = Some(state);
                if self.plan.health_check {
                    self.pending = RollingAction::CheckHealth;
                } else {
                    self.prove_itself();
                }
            },
            Err(err) => {
                self.error = Some(err);
                self.pending = if self.made_room {
                    RollingAction::Finished
                } else {
                    RollingAction::StopNew { cause: StopCause::Start }
                };
            },
        }
    }

    /// Reports that what was left of the new instance is stopped.
    pub fn stopped_new(&mut self)
        requires
            old(self).pending is StopNew,
            rolling_sound(old(self).plan, old(self)@),
        ensures
            final(self).plan == old(self).plan,
            rolling_sound(old(self).plan, final(self)@),
            final(self)@ == (RollingView {
                pending: if !old(self).held {
                    RollingAction::Finished
                } else if old(self).pending->cause == StopCause::Start {
                    RollingAction::CheckPortConflict
                } else {
                    RollingAction::Restore
                },
                ..old(self)@.reported()
            }),
    {
        self.note_done();
        if let RollingAction::StopNew { cause } = self.pending {
            self.pending = if !self.held {
                RollingAction::Finished
            } else if cause == StopCause::Start {
                RollingAction::CheckPortConflict
            } else {
                RollingAction::Restore
            };
        }
    }

    /// Reports whether the new instance failed over a port that the old one holds.
    pub fn port_checked(&mut self, conflict: bool)
        requires
            old(self).pending is CheckPortConflict,
            rolling_sound(old(self).plan, old(self)@),
        ensures
            final(self).plan == old(self).plan,
            rolling_sound(old(self).plan, final(self)@),
            final(self)@ == (RollingView {
                pending: if conflict {
                    RollingAction::MakeRoom
                } else {
                    RollingAction::Restore
                },
                journal: RollingJournal {
                    conflict: Some(conflict),
                    ..old(self)@.reported().journal
                },
                ..old(self)@
            }),
    {
        self.note_done();
        self.journal = Ghost(RollingJournal { conflict: Some(conflict), ..self.journal@ });
        self.pending = if conflict {
            RollingAction::MakeRoom
        } else {
            RollingAction::Restore
        };
    }

    /// Reports whether the old instance could be terminated to free its port.
    pub fn room_made(&mut self, result: Result<(), ProcessManagerError>)
        requires
            old(self).pending is MakeRoom,
            rolling_sound(old(self).plan, old(self)@),
        ensures
            final(self).plan == old(self).plan,
            rolling_sound(old(self).plan, final(self)@),
            final(self)@ == match result {
                Ok(_) => (RollingView {
                    held: false,
                    made_room: true,
                    error: None,
                    pending: RollingAction::Start,
                    ..old(self)@.reported()
                }),
                Err(err) => (RollingView {
                    held: false,
                    error: Some(err),
                    pending: RollingAction::Finished,
                    ..old(self)@.reported()
                }),
            },
    {
        self.note_done();
        self.held = false;
        match result {
            Ok(_) => {
                self.made_room = true;
                self.error = None;
                self.pending = RollingAction::Start;
            },
            Err(err) => {
                self.error = Some(err);
                self.pending = RollingAction::Finished;
            },
        }
    }

    /// Reports whether the new instance passed its health check.
    pub fn health_checked(&mut self, result: Result<(), ProcessManagerError>)
        requires
            old(self).pending is CheckHealth,
            rolling_sound(old(self).plan, old(self)@),
        ensures
            final(self).plan == old(self).plan,
            rolling_sound(old(self).plan, final(self)@),
            match result {
                Ok(_) => proven(
                    old(self).plan,
                    RollingView { checked: true, ..old(self)@.reported() },
                    final(self)@,
                ),
                Err(err) => final(self)@ == unproven(old(self)@.reported(), err),
            },
    {
        self.note_done();
        match result {
            Ok(_) => {
                self.checked = true;
                self.prove_itself();
            },
            Err(err) => {
                self.error = Some(err);
                self.pending = RollingAction::StopNew { cause: StopCause::Check };
            },
        }
    }

    /// Reports that the grace period is over.
    pub fn drained(&mut self)
        requires
            old(self).pending is Drain,
            rolling_sound(old(self).plan, old(self)@),
        ensures
            final(self).plan == old(self).plan,
            rolling_sound(old(self).plan, final(self)@),
            final(self)@ == wound_up(old(self)@.reported()),
    {
        self.note_done();
        self.wind_up();
    }

    /// Reports whether the old instance could be terminated.
    pub fn retired(&mut self, result: Result<(), ProcessManagerError>)
        requires
            old(self).pending is Retire,
            rolling_sound(old(self).plan, old(self)@),
        ensures
            final(self).plan == old(self).plan,
            rolling_sound(old(self).plan, final(self)@),
            final(self)@ == (RollingView {
                held: false,
                error: match result {
                    Ok(_) => old(self)@.error,
                    Err(err) => Some(err),
                },
                pending: RollingAction::Finished,
                ..old(self)@.reported()
            }),
    {
        self.note_done();
        self.held = false;
        if let Err(err) = result {
            self.error = Some(err);
        }
        self.pending = RollingAction::Finished;
    }

    /// Reports whether the old instance could be put back under supervision. A failure to do so
    /// is what the restart then reports.
    pub fn restored(&mut self, result: Result<(), ProcessManagerError>)
        requires
            old(self).pending is Restore,
            rolling_sound(old(self).plan, old(self)@),
        ensures
            final(self).plan == old(self).plan,
            rolling_sound(old(self).plan, final(self)@),
            final(self)@ == (RollingView {
                held: false,
                error: match result {
                    Ok(_) => old(self)@.error,
                    Err(err) => Some(err),
                },
                pending: RollingAction::Finished,
                ..old(self)@.reported()
            }),
    {
        self.note_done();
        self.held = false;
        if let Err(err) = result {
            self.error = Some(err);
        }
        self.pending = RollingAction::Finished;
    }

    /// The outcome of a finished restart.
    pub fn outcome(self) -> (r: Result<ServiceReadyState, ProcessManagerError>)
        requires
            self.pending is Finished,
            rolling_sound(self.plan, self@),
        ensures
            match self.error {
                Some(err) => r == Err::<ServiceReadyState, ProcessManagerError>(err),
                None => r == Ok::<ServiceReadyState, ProcessManagerError>(self.state->0),
            },
    {
        match self.error {
            Some(err) => Err(err),
            None => Ok(self.state.unwrap()),
        }
    }
}

/// The old instance is terminated as superseded only once the new one has started and, where a
/// health check is configured, has passed it.
pub proof fn law_retired_only_when_replaced(plan: RollingPlan, v: RollingView)
    requires
        rolling_sound(plan, v),
        v.pending is Retire,
    ensures
        v.state is Some,
        plan.health_check ==> v.checked,
        v.error is None,
{
}

/// A rolling restart that reports success has a new instance that came up and, where a health check
/// is configured, has passed it.
pub proof fn law_success_means_healthy(plan: RollingPlan, v: RollingView)
    requires
        rolling_sound(plan, v),
        v.pending is Finished,
        v.error is None,
    ensures
        v.state is Some,
        plan.health_check ==> v.checked,
{
}

/// A finished rolling restart has restored or terminated the old instance.
pub proof fn law_no_instance_left_behind(plan: RollingPlan, v: RollingView)
    requires
        rolling_sound(plan, v),
        v.pending is Finished,
    ensures
        !v.held,
{
}

/// A rolling restart in which nothing failed for good has done exactly what its plan asks for, in
/// order: the pre-start command where there is one, the start, the health check where there is one,
/// a drain of the whole grace period, and the end of the old instance. Only where the first start
/// failed over a port that the old instance holds was the old instance ended before.
pub proof fn law_rolling_follows_its_plan(plan: RollingPlan, v: RollingView)
    requires
        rolling_sound(plan, v),
        v.error is None,
    ensures
        ({
            let prepared = if plan.pre_start {
                seq![RollingAction::Detach].push(RollingAction::RunPreStart)
            } else {
                seq![RollingAction::Detach]
            };
            let ready = if v.made_room {
                prepared.push(RollingAction::Start).push(
                    RollingAction::StopNew { cause: StopCause::Start },
                ).push(RollingAction::CheckPortConflict).push(RollingAction::MakeRoom)
            } else {
                prepared
            };
            let started = ready.push(RollingAction::Start);
            let checked = if plan.health_check {
                started.push(RollingAction::CheckHealth)
            } else {
                started
            };
            let drained = match plan.grace_period {
                Some(raw) => if duration_secs(raw@) is Some && duration_secs(raw@)->0 > 0 {
                    checked.push(RollingAction::Drain { seconds: duration_secs(raw@)->0 as u64 })
                } else {
                    checked
                },
                None => checked,
            };
            match v.pending {
                RollingAction::Detach => v.journal.done.len() == 0,
                RollingAction::RunPreStart => plan.pre_start && v.journal.done
                    == seq![RollingAction::Detach],
                RollingAction::Start => v.journal.done == ready,
                RollingAction::CheckHealth => plan.health_check && v.journal.done == started,
                RollingAction::Drain { seconds } => {
                    &&& plan.grace_period is Some
                    &&& duration_secs(plan.grace_period->0@) == Some(seconds as nat)
                    &&& seconds > 0
                    &&& v.journal.done == checked
                },
                RollingAction::Retire => v.journal.had_old && !v.made_room && v.journal.done
                    == drained,
                RollingAction::Finished => v.journal.done == if v.journal.had_old && !v.made_room {
                    drained.push(RollingAction::Retire)
                } else {
                    drained
                },
                _ => false,
            }
        }),
{
}

/// The old instance is terminated before the new one is up exactly when the new one was seen to fail
/// over a port, and the new one is then started again.
pub proof fn law_room_is_made_only_over_a_port(plan: RollingPlan, v: RollingView)
    requires
        rolling_sound(plan, v),
    ensures
        v.pending is MakeRoom ==> v.journal.conflict == Some(true),
        v.made_room ==> v.journal.conflict == Some(true),
        v.journal.conflict == Some(true) && !v.made_room && !(v.pending is MakeRoom) ==> v.pending is Finished
            && v.error is Some && v.journal.done.last() == RollingAction::MakeRoom,
        v.pending is Restore ==> v.journal.conflict != Some(true),
{
}

/// A rolling restart that failed has put the old instance back, unless it was terminated: because
/// the new one had proved itself, or to free a port for it.
pub proof fn law_failed_rolling_restores_old(plan: RollingPlan, v: RollingView)
    requires
        rolling_sound(plan, v),
        v.error is Some,
        v.pending is Finished,
        v.journal.had_old,
        !v.made_room,
    ensures
        v.journal.done.len() > 0,
        v.journal.done.last() == RollingAction::Restore || v.journal.done.last()
            == RollingAction::Retire || v.journal.done.last() == RollingAction::MakeRoom,
{
}

// ---------------------------------------------------------------------------
// Blue/green
// ---------------------------------------------------------------------------

/// What a blue/green restart reads of the service.
pub struct BlueGreenPlan {
    /// The service name.
    pub name: String,
    /// How many slots are configured.
    pub slots: usize,
    /// Whether a pre-start command is configured.
    pub pre_start: bool,
    /// Whether the candidate has a health check of its own.
    pub candidate_health_check: bool,
    /// Whether the service has a health check.
    pub health_check: bool,
    /// Whether a command to switch traffic is configured.
    pub switch_command: bool,
    /// Whether the switch is verified.
    pub switch_verify: bool,
    /// How long the old instance is kept once traffic is switched.
    pub grace_period: Option<String>,
}

/// The next thing a blue/green restart needs done.
#[derive(Debug, Clone, Copy, PartialEq, Eq, Structural)]
pub enum BlueGreenAction {
    /// Read which slot is recorded as active.
    ReadActive,
    /// Take the handle of the running instance out of supervision, leaving the process alive.
    Detach,
    /// Run the pre-start command.
    RunPreStart,
    /// Start the candidate on the inactive slot.
    Start,
    /// Wait for the candidate's own health check.
    CheckCandidate,
    /// Wait for the service's health check.
    CheckHealth,
    /// Run the command that switches traffic.
    Switch,
    /// Wait for the check that verifies the switch.
    VerifySwitch,
    /// Keep both instances for a while.
    Drain {
        /// How long.
        seconds: u64,
    },
    /// Terminate the old instance.
    Retire,
    /// Record the candidate's slot as active.
    WriteActive,
    /// Stop what is left of the candidate; a failure to do so is only logged.
    StopNew,
    /// Put the old instance back under supervision.
    Restore,
    /// Nothing: the restart is over.
    Finished,
}

/// A blue/green restart in progress.
pub struct BlueGreenRun {
    /// What was configured.
    pub plan: BlueGreenPlan,
    /// The active slot when the restart began.
    pub active: usize,
    /// Whether the old instance is detached and neither restored nor terminated yet.
    pub held: bool,
    /// Whether the candidate passed the health check it was held to.
    pub checked: bool,
    /// Whether traffic was switched to the candidate.
    pub switched: bool,
    /// Whether the switch was verified.
    pub verified: bool,
    /// How the candidate came up.
    pub state: Option<ServiceReadyState>,
    /// Why the restart fails, if it does.
    pub error: Option<ProcessManagerError>,
    /// What to do next.
    pub pending: BlueGreenAction,
    /// What was done so far.
    pub journal: Ghost<BlueGreenJournal>,
}

/// What was done in a blue/green restart.
pub struct BlueGreenJournal {
    /// The actions that were reported on, in order.
    pub done: Seq<BlueGreenAction>,
    /// The slot that was recorded as active, if any.
    pub recorded: Option<usize>,
    /// Whether there was an old instance to detach.
    pub had_old: bool,
    /// The action whose report was a failure.
    pub fell_at: Option<BlueGreenAction>,
}

/// What a [`BlueGreenRun`] knows.
pub struct BlueGreenView {
    pub active: usize,
    pub held: bool,
    pub checked: bool,
    pub switched: bool,
    pub verified: bool,
    pub state: Option<ServiceReadyState>,
    pub error: Option<ProcessManagerError>,
    pub pending: BlueGreenAction,
    pub journal: BlueGreenJournal,
}

impl View for BlueGreenRun {
    type V = BlueGreenView;

    open spec fn view(&self) -> BlueGreenView {
        BlueGreenView {
            active: self.active,
            held: self.held,
            checked: self.checked,
            switched: self.switched,
            verified: self.verified,
            state: self.state,
            error: self.error,
            pending: self.pending,
            journal: self.journal@,
        }
    }
}

impl BlueGreenView {
    /// The restart with its pending action done.
    pub open spec fn reported(self) -> BlueGreenView {
        BlueGreenView {
            journal: BlueGreenJournal { done: self.journal.done.push(self.pending), ..self.journal },
            ..self
        }
    }

    /// The restart with its pending action failed.
    pub open spec fn failed(self) -> BlueGreenView {
        BlueGreenView {
            journal: BlueGreenJournal {
                done: self.journal.done.push(self.pending),
                fell_at: Some(self.pending),
                ..self.journal
            },
            ..self
        }
    }
}

/// What was done, with one more action where it is wanted.
pub open spec fn also_if<A>(done: Seq<A>, wanted: bool, action: A) -> Seq<A> {
    if wanted {
        done.push(action)
    } else {
        done
    }
}

/// How many seconds a grace period asks for.
pub open spec fn grace_seconds(grace_period: Option<String>) -> nat {
    match grace_period {
        Some(raw) => match duration_secs(raw@) {
            Some(secs) => secs,
            None => 0,
        },
        None => 0,
    }
}

/// What was done of a restart in which nothing has failed when an action is pending.
pub open spec fn done_before(plan: BlueGreenPlan, had_old: bool, pending: BlueGreenAction) -> Seq<
    BlueGreenAction,
> {
    let grace = grace_seconds(plan.grace_period);
    let detached = seq![BlueGreenAction::ReadActive, BlueGreenAction::Detach];
    let to_start = also_if(detached, plan.pre_start, BlueGreenAction::RunPreStart);
    let to_check = to_start.push(BlueGreenAction::Start);
    let to_switch = if plan.candidate_health_check {
        to_check.push(BlueGreenAction::CheckCandidate)
    } else {
        also_if(to_check, plan.health_check, BlueGreenAction::CheckHealth)
    };
    let to_verify = to_switch.push(BlueGreenAction::Switch);
    let to_drain = also_if(to_verify, plan.switch_verify, BlueGreenAction::VerifySwitch);
    let to_retire = also_if(
        to_drain,
        grace > 0,
        BlueGreenAction::Drain { seconds: grace as u64 },
    );
    let to_write = also_if(to_retire, had_old, BlueGreenAction::Retire);
    match pending {
        BlueGreenAction::ReadActive => seq![],
        BlueGreenAction::Detach => seq![BlueGreenAction::ReadActive],
        BlueGreenAction::RunPreStart => detached,
        BlueGreenAction::Start => to_start,
        BlueGreenAction::CheckCandidate => to_check,
        BlueGreenAction::CheckHealth => to_check,
        BlueGreenAction::Switch => to_switch,
        BlueGreenAction::VerifySwitch => to_verify,
        BlueGreenAction::Drain { .. } => to_drain,
        BlueGreenAction::Retire => to_retire,
        BlueGreenAction::WriteActive => to_write,
        _ => to_write.push(BlueGreenAction::WriteActive),
    }
}

/// Whether an action is one that the plan asks for.
pub open spec fn is_asked_for(plan: BlueGreenPlan, had_old: bool, pending: BlueGreenAction) -> bool {
    match pending {
        BlueGreenAction::RunPreStart => plan.pre_start,
        BlueGreenAction::CheckCandidate => plan.candidate_health_check,
        BlueGreenAction::CheckHealth => !plan.candidate_health_check && plan.health_check,
        BlueGreenAction::VerifySwitch => plan.switch_verify,
        BlueGreenAction::Drain { seconds } => seconds > 0 && seconds == grace_seconds(
            plan.grace_period,
        ),
        BlueGreenAction::Retire => had_old,
        _ => true,
    }
}

/// Whether a failed restart is dealt with as its failure asks: what may be left of the candidate is
/// stopped, and the old instance is put back.
pub open spec fn is_dealt_with(j: BlueGreenJournal, pending: BlueGreenAction) -> bool {
    let undone = match j.fell_at {
        Some(BlueGreenAction::Start) => true,
        Some(BlueGreenAction::CheckHealth) => true,
        Some(BlueGreenAction::Switch) => true,
        _ => false,
    };
    let called_off = j.fell_at == Some(BlueGreenAction::RunPreStart);
    match pending {
        BlueGreenAction::StopNew => undone && j.done.len() > 0 && Some(j.done.last()) == j.fell_at,
        BlueGreenAction::Restore => j.had_old && j.done.len() > 0 && if undone {
            j.done.last() == BlueGreenAction::StopNew
        } else {
            called_off && Some(j.done.last()) == j.fell_at
        },
        BlueGreenAction::Finished => {
            &&& undone || called_off ==> j.done.len() > 0
            &&& (undone || called_off) && j.had_old ==> j.done.last() == BlueGreenAction::Restore
            &&& undone && j.had_old ==> j.done.len() > 1 && j.done[j.done.len() - 2]
                == BlueGreenAction::StopNew
            &&& undone && !j.had_old ==> j.done.last() == BlueGreenAction::StopNew
        },
        _ => false,
    }
}

/// The slot that is not `active`.
pub open spec fn other_slot(active: usize) -> usize {
    if active == 0 {
        1
    } else {
        0
    }
}

/// The slot that is not `active`.
pub fn candidate_slot(active: usize) -> (r: usize)
    ensures
        r == other_slot(active),
{
    if active == 0 {
        1
    } else {
        0
    }
}

/// What is said of a recorded slot index that cannot be.
pub open spec fn slot_complaint(name: Seq<char>, index: usize) -> Seq<char> {
    "blue/green state for '"@ + name + "' contains invalid slot index "@ + decimal(index as nat)
}

/// The active slot, given what is recorded: slot 0 when nothing is.
pub fn active_index(name: &str, recorded: Option<usize>) -> (r: Result<usize, ProcessManagerError>)
    ensures
        match recorded {
            None => r == Ok::<usize, ProcessManagerError>(0),
            Some(i) => if i <= 1 {
                r == Ok::<usize, ProcessManagerError>(i)
            } else {
                r matches Err(ProcessManagerError::ConfigParseError(m)) && m@ == slot_complaint(
                    name@,
                    i,
                )
            },
        },
{
    match recorded {
        None => Ok(0),
        Some(i) => {
            if i > 1 {
                let mut m = "blue/green state for '".to_owned();
                m.append(name);
                m.append("' contains invalid slot index ");
                push_decimal(&mut m, i as u64);
                return Err(ProcessManagerError::ConfigParseError(m));
            }
            Ok(i)
        },
    }
}

/// The run ended by an error.
pub open spec fn cut_short(v: BlueGreenView, err: ProcessManagerError) -> BlueGreenView {
    BlueGreenView { error: Some(err), pending: BlueGreenAction::Finished, ..v }
}

/// Whether `n` is the run ended by a configuration error that reads `message`.
pub open spec fn misconfigured(v: BlueGreenView, message: Seq<char>, n: BlueGreenView) -> bool {
    n.error matches Some(ProcessManagerError::ConfigParseError(m)) && m@ == message && n
        == cut_short(v, n.error->0)
}

/// The run given up on before traffic was switched.
pub open spec fn backed_out(v: BlueGreenView, err: ProcessManagerError) -> BlueGreenView {
    BlueGreenView { error: Some(err), pending: BlueGreenAction::StopNew, ..v }
}

/// The run given up on with no candidate to stop.
pub open spec fn called_off(v: BlueGreenView, err: ProcessManagerError) -> BlueGreenView {
    BlueGreenView {
        error: Some(err),
        pending: if v.held {
            BlueGreenAction::Restore
        } else {
            BlueGreenAction::Finished
        },
        ..v
    }
}

/// Whether `n` is where the run goes once the candidate is healthy.
pub open spec fn to_switch(plan: BlueGreenPlan, v: BlueGreenView, n: BlueGreenView) -> bool {
    if plan.switch_command {
        n == (BlueGreenView { pending: BlueGreenAction::Switch, ..v })
    } else {
        misconfigured(
            v,
            "blue_green.switch_command is required for service '"@ + plan.name@ + "'"@,
            n,
        )
    }
}

/// Whether `n` is where the run goes once the switch stands.
pub open spec fn to_drain(plan: BlueGreenPlan, v: BlueGreenView, n: BlueGreenView) -> bool {
    let done = BlueGreenView {
        pending: if v.held {
            BlueGreenAction::Retire
        } else {
            BlueGreenAction::WriteActive
        },
        ..v
    };
    match plan.grace_period {
        None => n == done,
        Some(raw) => match duration_secs(raw@) {
            Some(secs) => if secs == 0 {
                n == done
            } else {
                n == (BlueGreenView { pending: BlueGreenAction::Drain { seconds: secs as u64 }, ..v })
            },
            None => misconfigured(v, duration_complaint(raw@), n),
        },
    }
}

/// Whether the candidate passed a health check, where one is configured.
pub open spec fn is_checked(plan: BlueGreenPlan, v: BlueGreenView) -> bool {
    plan.candidate_health_check || plan.health_check ==> v.checked
}

/// Whether the switch was verified, where that is configured.
pub open spec fn is_verified(plan: BlueGreenPlan, v: BlueGreenView) -> bool {
    plan.switch_verify ==> v.verified
}

/// What holds in every state of a blue/green restart.
pub open spec fn blue_green_sound(plan: BlueGreenPlan, v: BlueGreenView) -> bool {
    &&& v.active <= 1
    &&& v.journal.recorded is None ==> v.active == 0
    &&& v.journal.recorded is Some ==> v.active == v.journal.recorded->0
    &&& v.error is None ==> {
        &&& v.journal.done == done_before(plan, v.journal.had_old, v.pending)
        &&& is_asked_for(plan, v.journal.had_old, v.pending)
        &&& v.journal.fell_at is None
    }
    &&& v.error is Some ==> is_dealt_with(v.journal, v.pending)
    &&& v.journal.fell_at == Some(BlueGreenAction::Start) || v.journal.fell_at == Some(
        BlueGreenAction::CheckHealth,
    ) || v.journal.fell_at == Some(BlueGreenAction::Switch) ==> !v.switched
    &&& v.pending is RunPreStart || v.pending is Start || v.pending is CheckCandidate
        || v.pending is CheckHealth || v.pending is Switch || v.pending is VerifySwitch
        || v.pending is Drain || v.pending is Retire || v.pending is StopNew || v.pending is Restore
        ==> v.held == v.journal.had_old
    &&& v.switched ==> v.state is Some && is_checked(plan, v)
    &&& match v.pending {
        BlueGreenAction::ReadActive => !v.held && !v.switched && v.error is None && v.state is None,
        BlueGreenAction::Detach => !v.held && !v.switched && v.error is None && v.state is None,
        BlueGreenAction::RunPreStart => !v.switched && v.error is None && v.state is None,
        BlueGreenAction::Start => !v.switched && v.error is None && v.state is None,
        BlueGreenAction::CheckCandidate => !v.switched && v.error is None && v.state is Some,
        BlueGreenAction::CheckHealth => !v.switched && v.error is None && v.state is Some,
        BlueGreenAction::Switch => !v.switched && v.error is None && v.state is Some && is_checked(
            plan,
            v,
        ),
        BlueGreenAction::VerifySwitch => v.switched && v.error is None,
        BlueGreenAction::Drain { .. } => v.switched && v.error is None && is_verified(plan, v),
        BlueGreenAction::Retire => v.switched && v.error is None && v.held && is_verified(plan, v),
        BlueGreenAction::WriteActive => v.switched && v.error is None && !v.held && is_verified(
            plan,
            v,
        ),
        BlueGreenAction::StopNew => !v.switched && v.error is Some,
        BlueGreenAction::Restore => !v.switched && v.error is Some && v.held,
        BlueGreenAction::Finished => v.error is None ==> v.switched && !v.held && is_verified(
            plan,
            v,
        ),
    }
}

impl BlueGreenRun {
    /// Begins a blue/green restart. Anything but two slots is refused.
    pub fn begin(plan: BlueGreenPlan) -> (r: Self)
        ensures
            r.plan == plan,
            blue_green_sound(plan, r@),
            ({
                let start = BlueGreenView {
                    active: 0,
                    held: false,
                    checked: false,
                    switched: false,
                    verified: false,
                    state: None,
                    error: None,
                    pending: BlueGreenAction::ReadActive,
                    journal: BlueGreenJournal {
                        done: seq![],
                        recorded: None,
                        had_old: false,
                        fell_at: None,
                    },
                };
                if plan.slots == 2 {
                    r@ == start
                } else {
                    misconfigured(
                        start,
                        "blue_green.slots for '"@ + plan.name@
                            + "' must contain exactly two entries"@,
                        r@,
                    )
                }
            }),
    {
        let mut r = BlueGreenRun {
            plan,
            active: 0,
            held: false,
            checked: false,
            switched: false,
            verified: false,
            state: None,
            error: None,
            pending: BlueGreenAction::ReadActive,
            journal: Ghost(
                BlueGreenJournal { done: seq![], recorded: None, had_old: false, fell_at: None },
            ),
        };
        if r.plan.slots != 2 {
            let mut m = "blue_green.slots for '".to_owned();
            m.append(r.plan.name.as_str());
            m.append("' must contain exactly two entries");
            r.cut(ProcessManagerError::ConfigParseError(m));
        }
        r
    }

    fn note_done(&mut self)
        ensures
            final(self).plan == old(self).plan,
            final(self)@ == old(self)@.reported(),
    {
        self.journal = Ghost(self@.reported().journal);
    }

    fn note_failed(&mut self)
        ensures
            final(self).plan == old(self).plan,
            final(self)@ == old(self)@.failed(),
    {
        self.journal = Ghost(self@.failed().journal);
    }

    fn cut(&mut self, err: ProcessManagerError)
        ensures
            final(self).plan == old(self).plan,
            final(self)@ == cut_short(old(self)@, err),
    {
        self.error = Some(err);
        self.pending = BlueGreenAction::Finished;
    }

    fn back_out(&mut self, err: ProcessManagerError)
        ensures
            final(self).plan == old(self).plan,
            final(self)@ == backed_out(old(self)@, err),
    {
        self.error = Some(err);
        self.pending = BlueGreenAction::StopNew;
    }

    fn call_off(&mut self, err: ProcessManagerError)
        ensures
            final(self).plan == old(self).plan,
            final(self)@ == called_off(old(self)@, err),
    {
        self.error = Some(err);
        self.pending = if self.held {
            BlueGreenAction::Restore
        } else {
            BlueGreenAction::Finished
        };
    }

    fn go_switch(&mut self)
        ensures
            final(self).plan == old(self).plan,
            to_switch(old(self).plan, old(self)@, final(self)@),
    {
        if self.plan.switch_command {
            self.pending = BlueGreenAction::Switch;
        } else {
            let mut m = "blue_green.switch_command is required for service '".to_owned();
            m.append(self.plan.name.as_str());
            m.append("'");
            self.cut(ProcessManagerError::ConfigParseError(m));
        }
    }

    fn go_drain(&mut self)
        ensures
            final(self).plan == old(self).plan,
            to_drain(old(self).plan, old(self)@, final(self)@),
    {
        let drain: Result<u64, ProcessManagerError> = match &self.plan.grace_period {
            Some(raw) => parse_duration(raw.as_str()),
            None => Ok(0),
        };
        match drain {
            Ok(seconds) => {
                if seconds > 0 {
                    self.pending = BlueGreenAction::Drain { seconds };
                } else {
                    self.go_retire();
                }
            },
            Err(err) => {
                self.cut(err);
            },
        }
    }

    fn go_retire(&mut self)
        ensures
            final(self).plan == old(self).plan,
            final(self)@ == (BlueGreenView {
                pending: if old(self).held {
                    BlueGreenAction::Retire
                } else {
                    BlueGreenAction::WriteActive
                },
                ..old(self)@
            }),
    {
        self.pending = if self.held {
            BlueGreenAction::Retire
        } else {
            BlueGreenAction::WriteActive
        };
    }

    /// Reports which slot is recorded as active, if any.
    pub fn active_read(&mut self, recorded: Result<Option<usize>, ProcessManagerError>)
        requires
            old(self).pending is ReadActive,
            blue_green_sound(old(self).plan, old(self)@),
        ensures
            final(self).plan == old(self).plan,
            blue_green_sound(old(self).plan, final(self)@),
            match recorded {
                Ok(Some(i)) if i > 1 => misconfigured(
                    old(self)@.reported(),
                    slot_complaint(old(self).plan.name@, i),
                    final(self)@,
                ),
                Ok(i) => final(self)@ == (BlueGreenView {
                    active: match i {
                        Some(i) => i,
                        None => 0,
                    },
                    pending: BlueGreenAction::Detach,
                    journal: BlueGreenJournal { recorded: i, ..old(self)@.reported().journal },
                    ..old(self)@
                }),
                Err(err) => final(self)@ == cut_short(old(self)@.failed(), err),
            },
    {
        match recorded {
            Ok(index) => {
                self.note_done();
                match active_index(self.plan.name.as_str(), index) {
                    Ok(i) => {
                        self.active = i;
                        self.journal = Ghost(
                            BlueGreenJournal { recorded: index, ..self.journal@ },
                        );
                        self.pending = BlueGreenAction::Detach;
                    },
                    Err(err) => {
                        self.cut(err);
                    },
                }
            },
            Err(err) => {
                self.note_failed();
                self.cut(err);
            },
        }
    }

    /// Reports whether there was a running instance to detach.
    pub fn detached(&mut self, result: Result<bool, ProcessManagerError>)
        requires
            old(self).pending is Detach,
            blue_green_sound(old(self).plan, old(self)@),
        ensures
            final(self).plan == old(self).plan,
            blue_green_sound(old(self).plan, final(self)@),
            final(self)@ == match result {
                Ok(previous) => (BlueGreenView {
                    held: previous,
                    pending: if old(self).plan.pre_start {
                        BlueGreenAction::RunPreStart
                    } else {
                        BlueGreenAction::Start
                    },
                    journal: BlueGreenJournal {
                        had_old: previous,
                        ..old(self)@.reported().journal
                    },
                    ..old(self)@
                }),
                Err(err) => cut_short(old(self)@.failed(), err),
            },
    {
        match result {
            Ok(previous) => {
                self.note_done();
                self.held = previous;
                self.journal = Ghost(BlueGreenJournal { had_old: previous, ..self.journal@ });
                assert(self.journal@.done =~= seq![
                    BlueGreenAction::ReadActive,
                    BlueGreenAction::Detach,
                ]);
                self.pending = if self.plan.pre_start {
                    BlueGreenAction::RunPreStart
                } else {
                    BlueGreenAction::Start
                };
            },
            Err(err) => {
                self.note_failed();
                self.cut(err);
            },
        }
    }

    /// Reports how the pre-start command went.
    pub fn pre_started(&mut self, result: Result<(), ProcessManagerError>)
        requires
            old(self).pending is RunPreStart,
            blue_green_sound(old(self).plan, old(self)@),
        ensures
            final(self).plan == old(self).plan,
            blue_green_sound(old(self).plan, final(self)@),
            final(self)@ == match result {
                Ok(_) => (BlueGreenView { pending: BlueGreenAction::Start, ..old(self)@.reported() }),
                Err(err) => called_off(old(self)@.failed(), err),
            },
    {
        match result {
            Ok(_) => {
                self.note_done();
                self.pending = BlueGreenAction::Start;
            },
            Err(err) => {
                self.note_failed();
                self.call_off(err);
            },
        }
    }

    /// Reports how starting the candidate went.
    pub fn started(&mut self, result: Result<ServiceReadyState, ProcessManagerError>)
        requires
            old(self).pending is Start,
            blue_green_sound(old(self).plan, old(self)@),
        ensures
            final(self).plan == old(self).plan,
            blue_green_sound(old(self).plan, final(self)@),
            match result {
                Ok(state) => {
                    let up = BlueGreenView { state: Some(state), ..old(self)@.reported() };
                    if old(self).plan.candidate_health_check {
                        final(self)@ == (BlueGreenView {
                            pending: BlueGreenAction::CheckCandidate,
                            ..up
                        })
                    } else if old(self).plan.health_check {
                        final(self)@ == (BlueGreenView {
                            pending: BlueGreenAction::CheckHealth,
                            ..up
                        })
                    } else {
                        to_switch(old(self).plan, up, final(self)@)
                    }
                },
                Err(err) => final(self)@ == backed_out(old(self)@.failed(), err),
            },
    {
        match result {
            Ok(state) => {
                self.note_done();
                self.state = Some(state);
                if self.plan.candidate_health_check {
                    self.pending = BlueGreenAction::CheckCandidate;
                } else if self.plan.health_check {
                    self.pending = BlueGreenAction::CheckHealth;
                } else {
                    self.go_switch();
                }
            },
            Err(err) => {
                self.note_failed();
                self.back_out(err);
            },
        }
    }

    /// Reports whether the candidate passed its own health check. A failure ends the restart with
    /// both instances left as they are.
    pub fn candidate_checked(&mut self, result: Result<(), ProcessManagerError>)
        requires
            old(self).pending is CheckCandidate,
            blue_green_sound(old(self).plan, old(self)@),
        ensures
            final(self).plan == old(self).plan,
            blue_green_sound(old(self).plan, final(self)@),
            match result {
                Ok(_) => to_switch(
                    old(self).plan,
                    BlueGreenView { checked: true, ..old(self)@.reported() },
                    final(self)@,
                ),
                Err(err) => final(self)@ == cut_short(old(self)@.failed(), err),
            },
    {
        match result {
            Ok(_) => {
                self.note_done();
                self.checked = true;
                self.go_switch();
            },
            Err(err) => {
                self.note_failed();
                self.cut(err);
            },
        }
    }

    /// Reports whether the candidate passed the service's health check.
    pub fn health_checked(&mut self, result: Result<(), ProcessManagerError>)
        requires
            old(self).pending is CheckHealth,
            blue_green_sound(old(self).plan, old(self)@),
        ensures
            final(self).plan == old(self).plan,
            blue_green_sound(old(self).plan, final(self)@),
            match result {
                Ok(_) => to_switch(
                    old(self).plan,
                    BlueGreenView { checked: true, ..old(self)@.reported() },
                    final(self)@,
                ),
                Err(err) => final(self)@ == backed_out(old(self)@.failed(), err),
            },
    {
        match result {
            Ok(_) => {
                self.note_done();
                self.checked = true;
                self.go_switch();
            },
            Err(err) => {
                self.note_failed();
                self.back_out(err);
            },
        }
    }

    /// Reports how switching traffic went.
    pub fn traffic_switched(&mut self, result: Result<(), ProcessManagerError>)
        requires
            old(self).pending is Switch,
            blue_green_sound(old(self).plan, old(self)@),
        ensures
            final(self).plan == old(self).plan,
            blue_green_sound(old(self).plan, final(self)@),
            match result {
                Ok(_) => {
                    let on = BlueGreenView { switched: true, ..old(self)@.reported() };
                    if old(self).plan.switch_verify {
                        final(self)@ == (BlueGreenView {
                            pending: BlueGreenAction::VerifySwitch,
                            ..on
                        })
                    } else {
                        to_drain(old(self).plan, on, final(self)@)
                    }
                },
                Err(err) => final(self)@ == backed_out(old(self)@.failed(), err),
            },
    {
        match result {
            Ok(_) => {
                self.note_done();
                self.switched = true;
                if self.plan.switch_verify {
                    self.pending = BlueGreenAction::VerifySwitch;
                } else {
                    self.go_drain();
                }
            },
            Err(err) => {
                self.note_failed();
                self.back_out(err);
            },
        }
    }

    /// Reports whether the switch was verified. A failure ends the restart with both instances
    /// left as they are.
    pub fn switch_verified(&mut self, result: Result<(), ProcessManagerError>)
        requires
            old(self).pending is VerifySwitch,
            blue_green_sound(old(self).plan, old(self)@),
        ensures
            final(self).plan == old(self).plan,
            blue_green_sound(old(self).plan, final(self)@),
            match result {
                Ok(_) => to_drain(
                    old(self).plan,
                    BlueGreenView { verified: true, ..old(self)@.reported() },
                    final(self)@,
                ),
                Err(err) => final(self)@ == cut_short(old(self)@.failed(), err),
            },
    {
        match result {
            Ok(_) => {
                self.note_done();
                self.verified = true;
                self.go_drain();
            },
            Err(err) => {
                self.note_failed();
                self.cut(err);
            },
        }
    }

    /// Reports that the grace period is over.
    pub fn drained(&mut self)
        requires
            old(self).pending is Drain,
            blue_green_sound(old(self).plan, old(self)@),
        ensures
            final(self).plan == old(self).plan,
            blue_green_sound(old(self).plan, final(self)@),
            final(self)@ == (BlueGreenView {
                pending: if old(self).held {
                    BlueGreenAction::Retire
                } else {
                    BlueGreenAction::WriteActive
                },
                ..old(self)@.reported()
            }),
    {
        self.note_done();
        self.go_retire();
    }

    /// Reports whether the old instance could be terminated.
    pub fn retired(&mut self, result: Result<(), ProcessManagerError>)
        requires
            old(self).pending is Retire,
            blue_green_sound(old(self).plan, old(self)@),
        ensures
            final(self).plan == old(self).plan,
            blue_green_sound(old(self).plan, final(self)@),
            final(self)@ == match result {
                Ok(_) => (BlueGreenView {
                    held: false,
                    pending: BlueGreenAction::WriteActive,
                    ..old(self)@.reported()
                }),
                Err(err) => cut_short(BlueGreenView { held: false, ..old(self)@.failed() }, err),
            },
    {
        self.held = false;
        match result {
            Ok(_) => {
                self.note_done();
                self.pending = BlueGreenAction::WriteActive;
            },
            Err(err) => {
                self.note_failed();
                self.cut(err);
            },
        }
    }

    /// Reports whether the candidate's slot could be recorded as active.
    pub fn active_written(&mut self, result: Result<(), ProcessManagerError>)
        requires
            old(self).pending is WriteActive,
            blue_green_sound(old(self).plan, old(self)@),
        ensures
            final(self).plan == old(self).plan,
            blue_green_sound(old(self).plan, final(self)@),
            final(self)@ == match result {
                Ok(_) => (BlueGreenView { pending: BlueGreenAction::Finished, ..old(self)@.reported() }),
                Err(err) => cut_short(old(self)@.failed(), err),
            },
    {
        match result {
            Ok(_) => {
                self.note_done();
                self.pending = BlueGreenAction::Finished;
            },
            Err(err) => {
                self.note_failed();
                self.cut(err);
            },
        }
    }

    /// Reports that what was left of the candidate is stopped.
    pub fn stopped_new(&mut self)
        requires
            old(self).pending is StopNew,
            blue_green_sound(old(self).plan, old(self)@),
        ensures
            final(self).plan == old(self).plan,
            blue_green_sound(old(self).plan, final(self)@),
            final(self)@ == (BlueGreenView {
                pending: if old(self).held {
                    BlueGreenAction::Restore
                } else {
                    BlueGreenAction::Finished
                },
                ..old(self)@.reported()
            }),
    {
        self.note_done();
        self.pending = if self.held {
            BlueGreenAction::Restore
        } else {
            BlueGreenAction::Finished
        };
    }

    /// Reports whether the old instance could be put back under supervision. A failure to do so
    /// is what the restart then reports.
    pub fn restored(&mut self, result: Result<(), ProcessManagerError>)
        requires
            old(self).pending is Restore,
            blue_green_sound(old(self).plan, old(self)@),
        ensures
            final(self).plan == old(self).plan,
            blue_green_sound(old(self).plan, final(self)@),
            final(self)@ == (BlueGreenView {
                held: false,
                error: match result {
                    Ok(_) => old(self)@.error,
                    Err(err) => Some(err),
                },
                pending: BlueGreenAction::Finished,
                ..old(self)@.reported()
            }),
    {
        self.note_done();
        self.held = false;
        if let Err(err) = result {
            self.error = Some(err);
        }
        self.pending = BlueGreenAction::Finished;
    }

    /// The outcome of a finished restart.
    pub fn outcome(self) -> (r: Result<ServiceReadyState, ProcessManagerError>)
        requires
            self.pending is Finished,
            blue_green_sound(self.plan, self@),
        ensures
            match self.error {
                Some(err) => r == Err::<ServiceReadyState, ProcessManagerError>(err),
                None => r == Ok::<ServiceReadyState, ProcessManagerError>(self.state->0),
            },
    {
        match self.error {
            Some(err) => Err(err),
            None => Ok(self.state.unwrap()),
        }
    }
}

/// The candidate's slot is recorded as active, and the old instance terminated, only once traffic
/// was switched.
pub proof fn law_slot_moves_only_with_traffic(plan: BlueGreenPlan, v: BlueGreenView)
    requires
        blue_green_sound(plan, v),
        v.pending is WriteActive || v.pending is Retire,
    ensures
        v.switched,
        v.state is Some,
        v.error is None,
        v.active == match v.journal.recorded {
            Some(i) => i,
            None => 0,
        },
        other_slot(v.active) != v.active,
{
}

/// Traffic is moved only to a candidate that passed its health check, where one is configured, and
/// a blue/green restart that reports success has moved traffic and verified that, where it is to be
/// verified.
pub proof fn law_traffic_moves_to_healthy_candidate(plan: BlueGreenPlan, v: BlueGreenView)
    requires
        blue_green_sound(plan, v),
    ensures
        v.pending is Switch || v.switched ==> v.state is Some && is_checked(plan, v),
        v.pending is Finished && v.error is None ==> v.switched && is_checked(plan, v) && is_verified(
            plan,
            v,
        ),
{
}

/// A blue/green restart in which nothing failed has done exactly what its plan asks for, in order:
/// the pre-start command where there is one, the candidate's own health check or else the service's,
/// the switch and its verification, a drain of the whole grace period, and the end of the old
/// instance before the candidate's slot is recorded. What is pending is what comes next.
pub proof fn law_blue_green_follows_its_plan(plan: BlueGreenPlan, v: BlueGreenView)
    requires
        blue_green_sound(plan, v),
        v.error is None,
    ensures
        ({
            let detached = seq![BlueGreenAction::ReadActive, BlueGreenAction::Detach];
            let prepared = if plan.pre_start {
                detached.push(BlueGreenAction::RunPreStart)
            } else {
                detached
            };
            let started = prepared.push(BlueGreenAction::Start);
            let checked = if plan.candidate_health_check {
                started.push(BlueGreenAction::CheckCandidate)
            } else if plan.health_check {
                started.push(BlueGreenAction::CheckHealth)
            } else {
                started
            };
            let switched = checked.push(BlueGreenAction::Switch);
            let verified = if plan.switch_verify {
                switched.push(BlueGreenAction::VerifySwitch)
            } else {
                switched
            };
            let drained = match plan.grace_period {
                Some(raw) => if duration_secs(raw@) is Some && duration_secs(raw@)->0 > 0 {
                    verified.push(
                        BlueGreenAction::Drain { seconds: duration_secs(raw@)->0 as u64 },
                    )
                } else {
                    verified
                },
                None => verified,
            };
            let retired = if v.journal.had_old {
                drained.push(BlueGreenAction::Retire)
            } else {
                drained
            };
            match v.pending {
                BlueGreenAction::ReadActive => v.journal.done.len() == 0,
                BlueGreenAction::Detach => v.journal.done == seq![BlueGreenAction::ReadActive],
                BlueGreenAction::RunPreStart => plan.pre_start && v.journal.done == detached,
                BlueGreenAction::Start => v.journal.done == prepared,
                BlueGreenAction::CheckCandidate => plan.candidate_health_check && v.journal.done
                    == started,
                BlueGreenAction::CheckHealth => plan.health_check && !plan.candidate_health_check
                    && v.journal.done == started,
                BlueGreenAction::Switch => v.journal.done == checked,
                BlueGreenAction::VerifySwitch => plan.switch_verify && v.journal.done == switched,
                BlueGreenAction::Drain { seconds } => {
                    &&& plan.grace_period is Some
                    &&& duration_secs(plan.grace_period->0@) == Some(seconds as nat)
                    &&& seconds > 0
                    &&& v.journal.done == verified
                },
                BlueGreenAction::Retire => v.journal.had_old && v.journal.done == drained,
                BlueGreenAction::WriteActive => v.journal.done == retired,
                BlueGreenAction::StopNew => false,
                BlueGreenAction::Restore => false,
                BlueGreenAction::Finished => v.journal.done == retired.push(
                    BlueGreenAction::WriteActive,
                ),
            }
        }),
{
}

/// Whenever the old instance is about to be terminated or the candidate's slot recorded, and a grace
/// period is configured that reads as more than no time, both instances were kept for just that
/// long.
pub proof fn law_grace_period_is_honoured(plan: BlueGreenPlan, v: BlueGreenView, raw: String)
    requires
        blue_green_sound(plan, v),
        v.pending is Retire || v.pending is WriteActive || v.pending is Finished,
        v.error is None,
        plan.grace_period == Some(raw),
        duration_secs(raw@) is Some,
        duration_secs(raw@)->0 > 0,
    ensures
        v.journal.done.contains(
            BlueGreenAction::Drain { seconds: duration_secs(raw@)->0 as u64 },
        ),
        v.journal.done.len() >= 4,
{
    let drain = BlueGreenAction::Drain { seconds: duration_secs(raw@)->0 as u64 };
    let done = v.journal.done;
    let n = done.len() - 1;
    if v.pending is Retire {
        assert(done[n] == drain);
    } else if v.pending is WriteActive {
        if v.journal.had_old {
            assert(done[n - 1] == drain);
        } else {
            assert(done[n] == drain);
        }
    } else {
        if v.journal.had_old {
            assert(done[n - 2] == drain);
        } else {
            assert(done[n - 1] == drain);
        }
    }
}

/// A candidate that did not start or was found unhealthy before traffic moved, and traffic that could
/// not be moved, leave the old instance in charge: what is left of the candidate is stopped, and
/// the old instance, if there was one, is put back under supervision. A pre-start command that fails
/// puts the old instance back as well.
pub proof fn law_failed_candidate_leaves_old_in_charge(plan: BlueGreenPlan, v: BlueGreenView)
    requires
        blue_green_sound(plan, v),
        v.error is Some,
    ensures
        ({
            let undone = v.journal.fell_at == Some(BlueGreenAction::Start) || v.journal.fell_at
                == Some(BlueGreenAction::CheckHealth) || v.journal.fell_at == Some(
                BlueGreenAction::Switch,
            );
            let called_off = v.journal.fell_at == Some(BlueGreenAction::RunPreStart);
            &&& v.pending is StopNew || v.pending is Restore || v.pending is Finished
            &&& undone ==> !v.switched
            &&& undone && v.pending is Finished && v.journal.had_old ==> v.journal.done.len() >= 2
                && v.journal.done[v.journal.done.len() - 1] == BlueGreenAction::Restore
                && v.journal.done[v.journal.done.len() - 2] == BlueGreenAction::StopNew
            &&& undone && v.pending is Finished && !v.journal.had_old ==> v.journal.done.len() >= 1
                && v.journal.done.last() == BlueGreenAction::StopNew
            &&& called_off && v.pending is Finished && v.journal.had_old ==> v.journal.done.len()
                >= 1 && v.journal.done.last() == BlueGreenAction::Restore
        }),
{
}

/// Two successful restarts in a row come back to the slot they began with.
pub proof fn law_two_switches_return(active: usize)
    requires
        active <= 1,
    ensures
        other_slot(other_slot(active)) == active,
        other_slot(active) != active,
        other_slot(active) <= 1,
{
}

// ---------------------------------------------------------------------------
// Templates and places
// ---------------------------------------------------------------------------

/// What a health check is made of.
pub struct HealthCheckConfig {
    /// The address to ask.
    pub url: Option<String>,
    /// The command to run.
    pub command: Option<String>,
    /// How long to wait between attempts.
    pub interval: Option<String>,
    /// How long one attempt may take.
    pub attempt_timeout: Option<String>,
    /// How many attempts are made.
    pub retries: Option<u32>,
}

/// A blue/green health-check template with its placeholders filled in.
pub open spec fn check_text(
    value: Seq<char>,
    service: Seq<char>,
    active: Seq<char>,
    candidate: Seq<char>,
) -> Seq<char> {
    replaced(
        replaced(
            replaced(replaced(value, "{slot}"@, candidate), "{active_slot}"@, active),
            "{candidate_slot}"@,
            candidate,
        ),
        "{service_name}"@,
        service,
    )
}

/// A switch command with its placeholders filled in.
pub open spec fn switch_text(
    command: Seq<char>,
    service: Seq<char>,
    active: Seq<char>,
    candidate: Seq<char>,
) -> Seq<char> {
    replaced(
        replaced(replaced(command, "{active_slot}"@, active), "{candidate_slot}"@, candidate),
        "{service_name}"@,
        service,
    )
}

proof fn lemma_placeholders()
    ensures
        "{slot}"@.len() > 0,
        "{active_slot}"@.len() > 0,
        "{candidate_slot}"@.len() > 0,
        "{service_name}"@.len() > 0,
{
    reveal_strlit("{slot}");
    reveal_strlit("{active_slot}");
    reveal_strlit("{candidate_slot}");
    reveal_strlit("{service_name}");
}

fn fill_check(value: &str, service: &str, active: &str, candidate: &str) -> (r: String)
    ensures
        r@ == check_text(value@, service@, active@, candidate@),
{
    proof {
        lemma_placeholders();
    }
    let a = replace(value, "{slot}", candidate);
    let b = replace(a.as_str(), "{active_slot}", active);
    let c = replace(b.as_str(), "{candidate_slot}", candidate);
    replace(c.as_str(), "{service_name}", service)
}

/// The switch command with its placeholders filled in.
pub fn resolve_switch_command(command: &str, service: &str, active: &str, candidate: &str) -> (r:
    String)
    ensures
        r@ == switch_text(command@, service@, active@, candidate@),
{
    proof {
        lemma_placeholders();
    }
    let a = replace(command, "{active_slot}", active);
    let b = replace(a.as_str(), "{candidate_slot}", candidate);
    replace(b.as_str(), "{service_name}", service)
}

/// Replaces supported placeholders in blue/green health-check templates.
pub fn resolve_blue_green_health_check(
    health_check: &HealthCheckConfig,
    service_name: &str,
    active_slot: &str,
    candidate_slot: &str,
) -> (r: HealthCheckConfig)
    ensures
        opt_text(r.url) == match opt_text(health_check.url) {
            Some(u) => Some(check_text(u, service_name@, active_slot@, candidate_slot@)),
            None => None,
        },
        opt_text(r.command) == match opt_text(health_check.command) {
            Some(c) => Some(check_text(c, service_name@, active_slot@, candidate_slot@)),
            None => None,
        },
        r.interval == health_check.interval,
        r.attempt_timeout == health_check.attempt_timeout,
        r.retries == health_check.retries,
{
    HealthCheckConfig {
        url: match &health_check.url {
            Some(u) => Some(fill_check(u.as_str(), service_name, active_slot, candidate_slot)),
            None => None,
        },
        command: match &health_check.command {
            Some(c) => Some(fill_check(c.as_str(), service_name, active_slot, candidate_slot)),
            None => None,
        },
        interval: crate::text::copy_opt(&health_check.interval),
        attempt_timeout: crate::text::copy_opt(&health_check.attempt_timeout),
        retries: health_check.retries,
    }
}

/// Where the active slot of a service is recorded.
pub open spec fn slot_record(
    project_root: Seq<char>,
    state_dir: Seq<char>,
    configured: Option<Seq<char>>,
    service: Seq<char>,
) -> Seq<char> {
    match configured {
        Some(p) => joined_path(project_root, p),
        None => joined_path(state_dir, "blue_green_"@ + service + ".json"@),
    }
}

/// Resolves the path used to record the active blue/green slot.
pub fn blue_green_state_path(
    project_root: &str,
    state_dir: &str,
    configured: &Option<String>,
    service_name: &str,
) -> (r: String)
    ensures
        r@ == slot_record(project_root@, state_dir@, opt_text(*configured), service_name@),
{
    match configured {
        Some(p) => join_path(project_root, p.as_str()),
        None => {
            let mut file = "blue_green_".to_owned();
            file.append(service_name);
            file.append(".json");
            join_path(state_dir, file.as_str())
        },
    }
}

/// The environment of the candidate: the configured variables with one of them overridden.
pub fn env_with_override(vars: NameMap<String>, key: &str, value: &str) -> (r: NameMap<String>)
    ensures
        r@.dom() == vars@.dom().insert(key@),
        r@[key@]@ == value@,
        forall|k: Seq<char>| k != key@ && vars@.contains_key(k) ==> #[trigger] r@[k] == vars@[k],
{
    let mut r = vars;
    r.insert(key, value.to_owned());
    assert(r@.dom() =~= vars@.dom().insert(key@));
    r
}

} // verus!
