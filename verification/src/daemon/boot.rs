//! Bringing up a whole project: which service is skipped, waited for, started or given up on.
//!
//! A [`BootRun`] names the next thing to do as its pending [`BootAction`]. Whoever runs the boot
//! does it and reports how it went through the method that belongs to the action.

use vstd::prelude::*;

use crate::config::{DependsOn, DependsOnCondition, SkipConfig};
use crate::daemon::state_file::ServiceReadyState;
use crate::error::ProcessManagerError;
use crate::names::NameSet;

verus! {

/// What a boot reads of one service.
pub struct BootService {
    /// The service name.
    pub name: String,
    /// Whether the scheduler, not the boot, launches it.
    pub cron: bool,
    /// When it is left out.
    pub skip: Option<SkipConfig>,
    /// What it waits for, in order.
    pub depends_on: Vec<DependsOn>,
}

/// The next thing a boot needs done. Services and dependencies go by their position.
#[derive(Debug, Clone, Copy, PartialEq, Eq, Structural)]
pub enum BootAction {
    /// Run the skip command of the service.
    EvaluateSkip {
        /// The service.
        service: usize,
    },
    /// Record the service as skipped and forget its process.
    MarkSkipped {
        /// The service.
        service: usize,
    },
    /// Wait until a dependency of the service has run to completion.
    AwaitCompletion {
        /// The service.
        service: usize,
        /// Which of its dependencies.
        dependency: usize,
    },
    /// Start the service.
    Start {
        /// The service.
        service: usize,
    },
    /// Nothing: the boot is over.
    Finished,
}

/// A boot in progress.
pub struct BootRun {
    /// The services in start order.
    pub plan: Vec<BootService>,
    /// The service being brought up.
    pub cursor: usize,
    /// Services that are up or have completed.
    pub healthy: NameSet,
    /// Services that have completed.
    pub completed: NameSet,
    /// Services that could not be brought up.
    pub failed: NameSet,
    /// Services left out.
    pub skipped: NameSet,
    /// The error the boot will report.
    pub error: Option<ProcessManagerError>,
    /// What to do next.
    pub pending: BootAction,
}

/// What a [`BootRun`] knows.
#[verifier::ext_equal]
pub struct BootView {
    pub cursor: int,
    pub healthy: Set<Seq<char>>,
    pub completed: Set<Seq<char>>,
    pub failed: Set<Seq<char>>,
    pub skipped: Set<Seq<char>>,
    pub error: Option<ProcessManagerError>,
    pub pending: BootAction,
}

impl View for BootRun {
    type V = BootView;

    open spec fn view(&self) -> BootView {
        BootView {
            cursor: self.cursor as int,
            healthy: self.healthy@,
            completed: self.completed@,
            failed: self.failed@,
            skipped: self.skipped@,
            error: self.error,
            pending: self.pending,
        }
    }
}

/// How a dependency stands.
pub enum DepState {
    /// It was skipped, so it can never come up.
    Skipped,
    /// It failed.
    Failed,
    /// It is not up.
    NotRunning,
    /// It is up but has not completed, as it must.
    Incomplete,
    /// It is as it should be.
    Satisfied,
}

/// How dependency `d` stands in `b`.
pub open spec fn dep_state(b: BootView, d: DependsOn) -> DepState {
    if b.skipped.contains(d.service@) {
        DepState::Skipped
    } else if b.failed.contains(d.service@) {
        DepState::Failed
    } else if !b.healthy.contains(d.service@) {
        DepState::NotRunning
    } else if d.condition == DependsOnCondition::Completed && !b.completed.contains(d.service@) {
        DepState::Incomplete
    } else {
        DepState::Satisfied
    }
}

/// The boot with `action` to do next.
pub open spec fn doing(b: BootView, action: BootAction) -> BootView {
    BootView { pending: action, ..b }
}

/// The boot with the service at the cursor given up on. The first error is the one reported.
pub open spec fn gave_up(plan: Seq<BootService>, b: BootView, err: ProcessManagerError) -> BootView {
    BootView {
        failed: b.failed.insert(plan[b.cursor].name@),
        error: match b.error {
            Some(e) => Some(e),
            None => Some(err),
        },
        cursor: b.cursor + 1,
        ..b
    }
}

/// The boot with the service at the cursor up.
pub open spec fn came_up(plan: Seq<BootService>, b: BootView) -> BootView {
    BootView { healthy: b.healthy.insert(plan[b.cursor].name@), cursor: b.cursor + 1, ..b }
}

/// The boot with the service at the cursor completed.
pub open spec fn ran_through(plan: Seq<BootService>, b: BootView) -> BootView {
    BootView {
        healthy: b.healthy.insert(plan[b.cursor].name@),
        completed: b.completed.insert(plan[b.cursor].name@),
        cursor: b.cursor + 1,
        ..b
    }
}

/// The boot with the service at the cursor left out.
pub open spec fn left_out(plan: Seq<BootService>, b: BootView) -> BootView {
    BootView { skipped: b.skipped.insert(plan[b.cursor].name@), cursor: b.cursor + 1, ..b }
}

/// Where the boot stops next: it goes on, from dependency `at` of the service at the cursor or
/// from the service itself, until something has to be done.
pub open spec fn run_on(plan: Seq<BootService>, b: BootView, at: Option<int>) -> BootView
    decreases plan.len() - b.cursor, (if at is None { 1int } else { 0int }), (if at is Some {
        plan[b.cursor].depends_on@.len() - at->0
    } else {
        0int
    }),
{
    if b.cursor < 0 || b.cursor >= plan.len() {
        doing(b, BootAction::Finished)
    } else {
        let s = plan[b.cursor];
        match at {
            None => if s.cron {
                run_on(plan, ran_through(plan, b), None)
            } else {
                match s.skip {
                    Some(SkipConfig::Flag(true)) => doing(
                        b,
                        BootAction::MarkSkipped { service: b.cursor as usize },
                    ),
                    Some(SkipConfig::Command(_)) => doing(
                        b,
                        BootAction::EvaluateSkip { service: b.cursor as usize },
                    ),
                    _ => run_on(plan, b, Some(0)),
                }
            },
            Some(k) => if k < 0 || k >= s.depends_on@.len() {
                doing(b, BootAction::Start { service: b.cursor as usize })
            } else {
                let d = s.depends_on@[k];
                match dep_state(b, d) {
                    DepState::Skipped => doing(
                        b,
                        BootAction::MarkSkipped { service: b.cursor as usize },
                    ),
                    DepState::Failed => run_on(
                        plan,
                        gave_up(
                            plan,
                            b,
                            ProcessManagerError::DependencyFailed {
                                service: s.name,
                                dependency: d.service,
                            },
                        ),
                        None,
                    ),
                    DepState::NotRunning => run_on(
                        plan,
                        gave_up(
                            plan,
                            b,
                            ProcessManagerError::DependencyError {
                                service: s.name,
                                dependency: d.service,
                            },
                        ),
                        None,
                    ),
                    DepState::Incomplete => doing(
                        b,
                        BootAction::AwaitCompletion {
                            service: b.cursor as usize,
                            dependency: k as usize,
                        },
                    ),
                    DepState::Satisfied => run_on(plan, b, Some(k + 1)),
                }
            },
        }
    }
}

/// A boot before anything has happened.
pub open spec fn fresh() -> BootView {
    BootView {
        cursor: 0,
        healthy: Set::empty(),
        completed: Set::empty(),
        failed: Set::empty(),
        skipped: Set::empty(),
        error: None,
        pending: BootAction::Finished,
    }
}

impl BootRun {
    /// Begins a boot of `plan`.
    pub fn begin(plan: Vec<BootService>) -> (r: Self)
        ensures
            r.plan == plan,
            r@ == run_on(plan@, fresh(), None),
            sound(plan@, r@),
    {
        let mut r = BootRun {
            plan,
            cursor: 0,
            healthy: NameSet::new(),
            completed: NameSet::new(),
            failed: NameSet::new(),
            skipped: NameSet::new(),
            error: None,
            pending: BootAction::Finished,
        };
        assert(r@ =~= fresh());
        proof {
            assert(plan.len() == plan@.len());
            assert forall|i: int| 0 <= i < plan@.len() implies (
            #[trigger] plan@[i]).depends_on@.len() <= usize::MAX by {
                assert(plan@[i].depends_on.len() == plan@[i].depends_on@.len());
            }
            assert(fresh().failed.is_empty());
            lemma_run_on_sound(plan@, fresh(), None);
        }
        r.advance(None);
        r
    }

    /// Goes on until something has to be done.
    fn advance(&mut self, from: Option<usize>)
        ensures
            final(self).plan == old(self).plan,
            final(self)@ == run_on(
                old(self).plan@,
                old(self)@,
                match from {
                    Some(k) => Some(k as int),
                    None => None,
                },
            ),
    {
        let mut at: Option<usize> = from;
        let ghost target = run_on(
            self.plan@,
            self@,
            match from {
                Some(k) => Some(k as int),
                None => None,
            },
        );
        while self.cursor < self.plan.len()
            invariant_except_break
                self.plan == old(self).plan,
                target == run_on(
                    self.plan@,
                    self@,
                    match at {
                        Some(k) => Some(k as int),
                        None => None,
                    },
                ),
            ensures
                self.plan == old(self).plan,
                self.cursor < self.plan.len() ==> target == self@,
                self.cursor >= self.plan.len() ==> target == doing(self@, BootAction::Finished),
            decreases
                self.plan.len() - self.cursor,
                (if at is None {
                    1int
                } else {
                    0int
                }),
                (if at is Some {
                    self.plan@[self.cursor as int].depends_on@.len() - at->0
                } else {
                    0int
                }),
        {
            let i: usize = self.cursor;
            match at {
                None => {
                    if self.plan[i].cron {
                        let _ = self.healthy.insert(self.plan[i].name.as_str());
                        let _ = self.completed.insert(self.plan[i].name.as_str());
                        self.cursor = i + 1;
                    } else {
                        match &self.plan[i].skip {
                            Some(SkipConfig::Flag(true)) => {
                                self.pending = BootAction::MarkSkipped { service: i };
                                break;
                            },
                            Some(SkipConfig::Command(_)) => {
                                self.pending = BootAction::EvaluateSkip { service: i };
                                break;
                            },
                            _ => {
                                at = Some(0);
                            },
                        }
                    }
                },
                Some(k) => {
                    if k >= self.plan[i].depends_on.len() {
                        self.pending = BootAction::Start { service: i };
                        break;
                    }
                    let dep = &self.plan[i].depends_on[k];
                    if self.skipped.has(dep.service.as_str()) {
                        self.pending = BootAction::MarkSkipped { service: i };
                        break;
                    }
                    if self.failed.has(dep.service.as_str()) {
                        let err = ProcessManagerError::DependencyFailed {
                            service: self.plan[i].name.clone(),
                            dependency: dep.service.clone(),
                        };
                        self.give_up(err);
                        at = None;
                    } else if !self.healthy.has(dep.service.as_str()) {
                        let err = ProcessManagerError::DependencyError {
                            service: self.plan[i].name.clone(),
                            dependency: dep.service.clone(),
                        };
                        self.give_up(err);
                        at = None;
                    } else if dep.condition == DependsOnCondition::Completed && !self.completed.has(
                        dep.service.as_str(),
                    ) {
                        self.pending = BootAction::AwaitCompletion { service: i, dependency: k };
                        break;
                    } else {
                        at = Some(k + 1);
                    }
                },
            }
        }
        if self.cursor >= self.plan.len() {
            self.pending = BootAction::Finished;
        }
    }

    fn give_up(&mut self, err: ProcessManagerError)
        requires
            old(self).cursor < old(self).plan.len(),
        ensures
            final(self).plan == old(self).plan,
            final(self)@ == gave_up(old(self).plan@, old(self)@, err),
    {
        let i: usize = self.cursor;
        let _ = self.failed.insert(self.plan[i].name.as_str());
        if self.error.is_none() {
            self.error = Some(err);
        }
        self.cursor = i + 1;
    }

    /// Reports what the skip command said: leave the service out, bring it up, or no answer.
    pub fn skip_verdict(&mut self, verdict: Result<bool, ProcessManagerError>)
        requires
            old(self).pending is EvaluateSkip,
            sound(old(self).plan@, old(self)@),
        ensures
            final(self).plan == old(self).plan,
            sound(old(self).plan@, final(self)@),
            final(self)@ == match verdict {
                Ok(true) => doing(
                    old(self)@,
                    BootAction::MarkSkipped { service: old(self).cursor },
                ),
                Ok(false) => run_on(old(self).plan@, old(self)@, Some(0)),
                Err(err) => run_on(
                    old(self).plan@,
                    gave_up(old(self).plan@, old(self)@, err),
                    None,
                ),
            },
            final(self)@.skipped == old(self)@.skipped,
            match verdict {
                Ok(true) => final(self).pending == (BootAction::MarkSkipped {
                    service: old(self).cursor,
                }),
                Ok(false) => !(final(self).pending is EvaluateSkip) || final(self).cursor
                    > old(self).cursor,
                Err(err) => {
                    &&& final(self).cursor > old(self).cursor
                    &&& final(self)@.failed.contains(old(self).plan@[old(self).cursor as int].name@)
                    &&& final(self).error == (if old(self).error is Some {
                        old(self).error
                    } else {
                        Some(err)
                    })
                },
            },
    {
        proof {
            lemma_skip_verdict_sound(self.plan@, self@, verdict);
            match verdict {
                Ok(true) => {},
                Ok(false) => {
                    law_boot_passes_by(self.plan@, self@, Some(0));
                    lemma_no_second_look(self.plan@, self@, 0);
                },
                Err(_) => {
                    law_boot_passes_by(
                        self.plan@,
                        gave_up(self.plan@, self@, verdict->Err_0),
                        None,
                    );
                },
            }
        }
        match verdict {
            Ok(true) => {
                self.pending = BootAction::MarkSkipped { service: self.cursor };
            },
            Ok(false) => {
                self.advance(Some(0));
            },
            Err(err) => {
                self.give_up(err);
                self.advance(None);
            },
        }
    }

    /// Reports whether the service could be recorded as skipped. A failure ends the boot.
    pub fn marked(&mut self, result: Result<(), ProcessManagerError>)
        requires
            old(self).pending is MarkSkipped,
            sound(old(self).plan@, old(self)@),
        ensures
            final(self).plan == old(self).plan,
            result is Ok ==> sound(old(self).plan@, final(self)@),
            final(self)@ == match result {
                Ok(_) => run_on(old(self).plan@, left_out(old(self).plan@, old(self)@), None),
                Err(err) => (BootView {
                    error: Some(err),
                    pending: BootAction::Finished,
                    ..old(self)@
                }),
            },
            match result {
                Ok(_) => {
                    &&& final(self).cursor > old(self).cursor
                    &&& final(self)@.skipped == old(self)@.skipped.insert(
                        old(self).plan@[old(self).cursor as int].name@,
                    )
                },
                Err(err) => final(self).pending is Finished && final(self).error == Some(err)
                    && final(self)@.skipped == old(self)@.skipped,
            },
    {
        proof {
            if result is Ok {
                lemma_marked_sound(self.plan@, self@);
                law_boot_passes_by(self.plan@, left_out(self.plan@, self@), None);
            }
        }
        match result {
            Ok(_) => {
                let i: usize = self.cursor;
                let _ = self.skipped.insert(self.plan[i].name.as_str());
                self.cursor = i + 1;
                self.advance(None);
            },
            Err(err) => {
                self.error = Some(err);
                self.pending = BootAction::Finished;
            },
        }
    }

    /// Reports whether the awaited dependency completed.
    pub fn dependency_done(&mut self, result: Result<(), ProcessManagerError>)
        requires
            old(self).pending is AwaitCompletion,
            sound(old(self).plan@, old(self)@),
        ensures
            final(self).plan == old(self).plan,
            sound(old(self).plan@, final(self)@),
            final(self)@ == ({
                let k = old(self).pending->dependency as int;
                let dep = old(self).plan@[old(self).cursor as int].depends_on@[k].service@;
                match result {
                    Ok(_) => run_on(
                        old(self).plan@,
                        (BootView {
                            completed: old(self)@.completed.insert(dep),
                            ..old(self)@
                        }),
                        Some(k + 1),
                    ),
                    Err(err) => run_on(
                        old(self).plan@,
                        gave_up(old(self).plan@, old(self)@, err),
                        None,
                    ),
                }
            }),
            final(self)@.skipped == old(self)@.skipped,
            match result {
                Ok(_) => final(self)@.completed.contains(
                    old(self).plan@[old(self).cursor as int].depends_on@[
                        old(self).pending->dependency as int
                    ].service@,
                ),
                Err(err) => {
                    &&& final(self).cursor > old(self).cursor
                    &&& final(self)@.failed.contains(old(self).plan@[old(self).cursor as int].name@)
                    &&& final(self).error == (if old(self).error is Some {
                        old(self).error
                    } else {
                        Some(err)
                    })
                },
            },
    {
        proof {
            lemma_dependency_done_sound(self.plan@, self@, result);
            match result {
                Ok(_) => {
                    let k = self.pending->dependency as int;
                    let dep = self.plan@[self.cursor as int].depends_on@[k].service@;
                    let c = BootView { completed: self@.completed.insert(dep), ..self@ };
                    law_boot_passes_by(self.plan@, c, Some(k + 1));
                    assert(c.completed.contains(dep));
                },
                Err(_) => {
                    law_boot_passes_by(
                        self.plan@,
                        gave_up(self.plan@, self@, result->Err_0),
                        None,
                    );
                },
            }
        }
        match result {
            Ok(_) => {
                let i: usize = self.cursor;
                if let BootAction::AwaitCompletion { dependency, .. } = self.pending {
                    let _ = self.completed.insert(self.plan[i].depends_on[dependency].service.as_str());
                    self.advance(Some(dependency + 1));
                }
            },
            Err(err) => {
                self.give_up(err);
                self.advance(None);
            },
        }
    }

    /// Reports how starting the service went.
    pub fn started(&mut self, result: Result<ServiceReadyState, ProcessManagerError>)
        requires
            old(self).pending is Start,
            sound(old(self).plan@, old(self)@),
        ensures
            final(self).plan == old(self).plan,
            sound(old(self).plan@, final(self)@),
            final(self)@ == run_on(
                old(self).plan@,
                match result {
                    Ok(ServiceReadyState::Running) => came_up(old(self).plan@, old(self)@),
                    Ok(ServiceReadyState::CompletedSuccess) => ran_through(
                        old(self).plan@,
                        old(self)@,
                    ),
                    Err(err) => gave_up(old(self).plan@, old(self)@, err),
                },
                None,
            ),
            final(self)@.skipped == old(self)@.skipped,
            final(self).cursor > old(self).cursor,
            match result {
                Ok(state) => {
                    &&& final(self)@.healthy.contains(old(self).plan@[old(self).cursor as int].name@)
                    &&& state == ServiceReadyState::CompletedSuccess
                        ==> final(self)@.completed.contains(
                        old(self).plan@[old(self).cursor as int].name@,
                    )
                },
                Err(err) => {
                    &&& final(self).cursor > old(self).cursor
                    &&& final(self)@.failed.contains(old(self).plan@[old(self).cursor as int].name@)
                    &&& final(self).error == (if old(self).error is Some {
                        old(self).error
                    } else {
                        Some(err)
                    })
                },
            },
    {
        proof {
            lemma_started_sound(self.plan@, self@, result);
            match result {
                Ok(ServiceReadyState::Running) => {
                    law_boot_passes_by(self.plan@, came_up(self.plan@, self@), None);
                },
                Ok(ServiceReadyState::CompletedSuccess) => {
                    law_boot_passes_by(self.plan@, ran_through(self.plan@, self@), None);
                },
                Err(_) => {
                    law_boot_passes_by(
                        self.plan@,
                        gave_up(self.plan@, self@, result->Err_0),
                        None,
                    );
                },
            }
        }
        let i: usize = self.cursor;
        match result {
            Ok(state) => {
                let _ = self.healthy.insert(self.plan[i].name.as_str());
                if state == ServiceReadyState::CompletedSuccess {
                    let _ = self.completed.insert(self.plan[i].name.as_str());
                }
                self.cursor = i + 1;
            },
            Err(err) => {
                self.give_up(err);
            },
        }
        self.advance(None);
    }

    /// The outcome of a finished boot: the first error met, if any.
    pub fn outcome(self) -> (r: Result<(), ProcessManagerError>)
        requires
            self.pending is Finished,
        ensures
            match self.error {
                Some(err) => r == Err::<(), ProcessManagerError>(err),
                None => r is Ok,
            },
    {
        match self.error {
            Some(err) => Err(err),
            None => Ok(()),
        }
    }
}

// ---------------------------------------------------------------------------
// What holds in every state of a boot
// ---------------------------------------------------------------------------

/// Whether the first `n` dependencies of `s` are satisfied.
pub open spec fn satisfied_up_to(b: BootView, s: BootService, n: int) -> bool {
    forall|k: int|
        0 <= k < n ==> dep_state(b, #[trigger] s.depends_on@[k]) is Satisfied
}

/// Whether every service before the cursor is accounted for.
pub open spec fn accounted(plan: Seq<BootService>, b: BootView) -> bool {
    &&& 0 <= b.cursor <= plan.len()
    &&& plan.len() <= usize::MAX
    &&& forall|i: int|
        0 <= i < plan.len() ==> (#[trigger] plan[i]).depends_on@.len() <= usize::MAX
    &&& forall|i: int|
        0 <= i < b.cursor ==> b.healthy.contains((#[trigger] plan[i]).name@) || b.failed.contains(
            plan[i].name@,
        ) || b.skipped.contains(plan[i].name@)
    &&& b.error is Some <==> !b.failed.is_empty()
}

/// What holds of every boot that has not been cut short.
pub open spec fn sound(plan: Seq<BootService>, b: BootView) -> bool {
    &&& accounted(plan, b)
    &&& match b.pending {
        BootAction::Finished => b.cursor == plan.len(),
        BootAction::EvaluateSkip { service } => {
            &&& service == b.cursor < plan.len()
            &&& !plan[b.cursor].cron
            &&& plan[b.cursor].skip matches Some(SkipConfig::Command(_))
        },
        BootAction::MarkSkipped { service } => service == b.cursor < plan.len()
            && !plan[b.cursor].cron,
        BootAction::AwaitCompletion { service, dependency } => {
            &&& service == b.cursor < plan.len()
            &&& !plan[b.cursor].cron
            &&& dependency < plan[b.cursor].depends_on@.len()
            &&& satisfied_up_to(b, plan[b.cursor], dependency as int)
            &&& dep_state(b, plan[b.cursor].depends_on@[dependency as int]) is Incomplete
        },
        BootAction::Start { service } => {
            &&& service == b.cursor < plan.len()
            &&& !plan[b.cursor].cron
            &&& satisfied_up_to(b, plan[b.cursor], plan[b.cursor].depends_on@.len() as int)
        },
    }
}

proof fn lemma_run_on_sound(plan: Seq<BootService>, b: BootView, at: Option<int>)
    requires
        accounted(plan, b),
        at matches Some(k) ==> b.cursor < plan.len() && !plan[b.cursor].cron && 0 <= k
            <= plan[b.cursor].depends_on@.len() && satisfied_up_to(b, plan[b.cursor], k),
    ensures
        sound(plan, run_on(plan, b, at)),
    decreases plan.len() - b.cursor, (if at is None { 1int } else { 0int }), (if at is Some {
        plan[b.cursor].depends_on@.len() - at->0
    } else {
        0int
    }),
{
    if b.cursor < plan.len() {
        let s = plan[b.cursor];
        match at {
            None => {
                if s.cron {
                    lemma_run_on_sound(plan, ran_through(plan, b), None);
                } else {
                    match s.skip {
                        Some(SkipConfig::Flag(true)) => {},
                        Some(SkipConfig::Command(_)) => {},
                        _ => {
                            lemma_run_on_sound(plan, b, Some(0));
                        },
                    }
                }
            },
            Some(k) => {
                if k < s.depends_on@.len() {
                    let d = s.depends_on@[k];
                    match dep_state(b, d) {
                        DepState::Skipped => {},
                        DepState::Failed => {
                            let err = ProcessManagerError::DependencyFailed {
                                service: s.name,
                                dependency: d.service,
                            };
                            lemma_gave_up(plan, b, err);
                            lemma_run_on_sound(plan, gave_up(plan, b, err), None);
                        },
                        DepState::NotRunning => {
                            let err = ProcessManagerError::DependencyError {
                                service: s.name,
                                dependency: d.service,
                            };
                            lemma_gave_up(plan, b, err);
                            lemma_run_on_sound(plan, gave_up(plan, b, err), None);
                        },
                        DepState::Incomplete => {},
                        DepState::Satisfied => {
                            lemma_run_on_sound(plan, b, Some(k + 1));
                        },
                    }
                }
            },
        }
    }
}

proof fn lemma_gave_up(plan: Seq<BootService>, b: BootView, err: ProcessManagerError)
    requires
        accounted(plan, b),
        b.cursor < plan.len(),
    ensures
        accounted(plan, gave_up(plan, b, err)),
{
    assert(gave_up(plan, b, err).failed.contains(plan[b.cursor].name@));
}

proof fn lemma_skip_verdict_sound(
    plan: Seq<BootService>,
    b: BootView,
    verdict: Result<bool, ProcessManagerError>,
)
    requires
        b.pending is EvaluateSkip,
        sound(plan, b),
    ensures
        match verdict {
            Ok(true) => sound(plan, doing(b, BootAction::MarkSkipped { service: b.cursor as usize })),
            Ok(false) => sound(plan, run_on(plan, b, Some(0))),
            Err(err) => sound(plan, run_on(plan, gave_up(plan, b, err), None)),
        },
{
    match verdict {
        Ok(true) => {},
        Ok(false) => {
            lemma_run_on_sound(plan, b, Some(0));
        },
        Err(err) => {
            lemma_gave_up(plan, b, err);
            lemma_run_on_sound(plan, gave_up(plan, b, err), None);
        },
    }
}

proof fn lemma_marked_sound(plan: Seq<BootService>, b: BootView)
    requires
        b.pending is MarkSkipped,
        sound(plan, b),
    ensures
        sound(plan, run_on(plan, left_out(plan, b), None)),
{
    lemma_run_on_sound(plan, left_out(plan, b), None);
}

proof fn lemma_dependency_done_sound(
    plan: Seq<BootService>,
    b: BootView,
    result: Result<(), ProcessManagerError>,
)
    requires
        b.pending is AwaitCompletion,
        sound(plan, b),
    ensures
        ({
            let k = b.pending->dependency as int;
            let dep = plan[b.cursor].depends_on@[k].service@;
            match result {
                Ok(_) => sound(
                    plan,
                    run_on(
                        plan,
                        (BootView { completed: b.completed.insert(dep), ..b }),
                        Some(k + 1),
                    ),
                ),
                Err(err) => sound(plan, run_on(plan, gave_up(plan, b, err), None)),
            }
        }),
{
    let k = b.pending->dependency as int;
    let s = plan[b.cursor];
    let dep = s.depends_on@[k].service@;
    match result {
        Ok(_) => {
            let c = BootView { completed: b.completed.insert(dep), ..b };
            assert forall|j: int| 0 <= j < k + 1 implies dep_state(
                c,
                #[trigger] s.depends_on@[j],
            ) is Satisfied by {
                if j < k {
                    assert(dep_state(b, s.depends_on@[j]) is Satisfied);
                }
            }
            lemma_run_on_sound(plan, c, Some(k + 1));
        },
        Err(err) => {
            lemma_gave_up(plan, b, err);
            lemma_run_on_sound(plan, gave_up(plan, b, err), None);
        },
    }
}

proof fn lemma_started_sound(
    plan: Seq<BootService>,
    b: BootView,
    result: Result<ServiceReadyState, ProcessManagerError>,
)
    requires
        b.pending is Start,
        sound(plan, b),
    ensures
        sound(
            plan,
            run_on(
                plan,
                match result {
                    Ok(ServiceReadyState::Running) => came_up(plan, b),
                    Ok(ServiceReadyState::CompletedSuccess) => ran_through(plan, b),
                    Err(err) => gave_up(plan, b, err),
                },
                None,
            ),
        ),
{
    match result {
        Ok(ServiceReadyState::Running) => {
            lemma_run_on_sound(plan, came_up(plan, b), None);
        },
        Ok(ServiceReadyState::CompletedSuccess) => {
            lemma_run_on_sound(plan, ran_through(plan, b), None);
        },
        Err(err) => {
            lemma_gave_up(plan, b, err);
            lemma_run_on_sound(plan, gave_up(plan, b, err), None);
        },
    }
}

/// A boot starts a service only when each of its dependencies is up, was neither skipped nor
/// failed, and has completed where it had to.
pub proof fn law_started_only_when_ready(plan: Seq<BootService>, b: BootView, k: int)
    requires
        sound(plan, b),
        b.pending is Start,
        0 <= k < plan[b.cursor].depends_on@.len(),
    ensures
        b.healthy.contains(plan[b.cursor].depends_on@[k].service@),
        !b.skipped.contains(plan[b.cursor].depends_on@[k].service@),
        !b.failed.contains(plan[b.cursor].depends_on@[k].service@),
        plan[b.cursor].depends_on@[k].condition == DependsOnCondition::Completed
            ==> b.completed.contains(plan[b.cursor].depends_on@[k].service@),
{
    assert(dep_state(b, plan[b.cursor].depends_on@[k]) is Satisfied);
}

/// A boot that ran to its end reports an error exactly when some service failed, and has
/// accounted for every service.
pub proof fn law_error_iff_failure(plan: Seq<BootService>, b: BootView, i: int)
    requires
        sound(plan, b),
        b.pending is Finished,
        0 <= i < plan.len(),
    ensures
        b.error is Some <==> !b.failed.is_empty(),
        b.healthy.contains(plan[i].name@) || b.failed.contains(plan[i].name@)
            || b.skipped.contains(plan[i].name@),
{
}

/// A service one of whose dependencies is skipped, with the dependencies before it satisfied, is
/// marked skipped instead of started.
pub proof fn law_skip_spreads(plan: Seq<BootService>, b: BootView, k: int, j: int)
    requires
        0 <= b.cursor < plan.len(),
        0 <= k <= j < plan[b.cursor].depends_on@.len(),
        satisfied_up_to(b, plan[b.cursor], j),
        b.skipped.contains(plan[b.cursor].depends_on@[j].service@),
    ensures
        run_on(plan, b, Some(k)) == doing(
            b,
            BootAction::MarkSkipped { service: b.cursor as usize },
        ),
    decreases j - k,
{
    if k < j {
        assert(dep_state(b, plan[b.cursor].depends_on@[k]) is Satisfied);
        law_skip_spreads(plan, b, k + 1, j);
    }
}

/// A service that is not launched by the scheduler nor left out, and each of whose dependencies is
/// up, was neither skipped nor failed, and has completed where it has to, is the next one to be
/// started, whatever became of the other services. Nothing else changes.
pub proof fn law_ready_service_is_started(plan: Seq<BootService>, b: BootView)
    requires
        0 <= b.cursor < plan.len(),
        !plan[b.cursor].cron,
        forall|k: int|
            0 <= k < plan[b.cursor].depends_on@.len() ==> {
                let d = #[trigger] plan[b.cursor].depends_on@[k];
                &&& b.healthy.contains(d.service@)
                &&& !b.skipped.contains(d.service@)
                &&& !b.failed.contains(d.service@)
                &&& d.condition == DependsOnCondition::Completed ==> b.completed.contains(
                    d.service@,
                )
            },
    ensures
        plan[b.cursor].skip is None || plan[b.cursor].skip == Some(SkipConfig::Flag(false))
            ==> run_on(plan, b, None) == (BootView {
            pending: BootAction::Start { service: b.cursor as usize },
            ..b
        }),
        run_on(plan, b, Some(0)) == (BootView {
            pending: BootAction::Start { service: b.cursor as usize },
            ..b
        }),
{
    assert forall|k: int| 0 <= k < plan[b.cursor].depends_on@.len() implies dep_state(
        b,
        #[trigger] plan[b.cursor].depends_on@[k],
    ) is Satisfied by {}
    lemma_past_satisfied(plan, b, 0, plan[b.cursor].depends_on@.len() as int);
}

proof fn lemma_past_satisfied(plan: Seq<BootService>, b: BootView, k: int, j: int)
    requires
        0 <= b.cursor < plan.len(),
        0 <= k <= j <= plan[b.cursor].depends_on@.len(),
        satisfied_up_to(b, plan[b.cursor], j),
    ensures
        run_on(plan, b, Some(k)) == run_on(plan, b, Some(j)),
    decreases j - k,
{
    if k < j {
        assert(dep_state(b, plan[b.cursor].depends_on@[k]) is Satisfied);
        lemma_past_satisfied(plan, b, k + 1, j);
    }
}

/// The first dependency that is not as it has to be decides about a service: with one that was
/// skipped the service is left out, with one that failed or is not up it is given up on and named
/// as the error unless there is an earlier one, and one that has yet to complete is waited for.
pub proof fn law_first_unmet_dependency_decides(plan: Seq<BootService>, b: BootView, j: int)
    requires
        0 <= b.cursor < plan.len(),
        0 <= j < plan[b.cursor].depends_on@.len(),
        forall|k: int|
            0 <= k < j ==> {
                let d = #[trigger] plan[b.cursor].depends_on@[k];
                &&& b.healthy.contains(d.service@)
                &&& !b.skipped.contains(d.service@)
                &&& !b.failed.contains(d.service@)
                &&& d.condition == DependsOnCondition::Completed ==> b.completed.contains(
                    d.service@,
                )
            },
    ensures
        ({
            let s = plan[b.cursor];
            let d = s.depends_on@[j];
            let n = d.service@;
            let r = run_on(plan, b, Some(0));
            &&& b.skipped.contains(n) ==> r == (BootView {
                pending: BootAction::MarkSkipped { service: b.cursor as usize },
                ..b
            })
            &&& !b.skipped.contains(n) && b.failed.contains(n) ==> r == run_on(
                plan,
                BootView {
                    cursor: b.cursor + 1,
                    failed: b.failed.insert(s.name@),
                    error: if b.error is Some {
                        b.error
                    } else {
                        Some(
                            ProcessManagerError::DependencyFailed {
                                service: s.name,
                                dependency: d.service,
                            },
                        )
                    },
                    ..b
                },
                None,
            )
            &&& !b.skipped.contains(n) && !b.failed.contains(n) && !b.healthy.contains(n) ==> r
                == run_on(
                plan,
                BootView {
                    cursor: b.cursor + 1,
                    failed: b.failed.insert(s.name@),
                    error: if b.error is Some {
                        b.error
                    } else {
                        Some(
                            ProcessManagerError::DependencyError {
                                service: s.name,
                                dependency: d.service,
                            },
                        )
                    },
                    ..b
                },
                None,
            )
            &&& !b.skipped.contains(n) && !b.failed.contains(n) && b.healthy.contains(n)
                && d.condition == DependsOnCondition::Completed && !b.completed.contains(n) ==> r
                == (BootView {
                pending: BootAction::AwaitCompletion {
                    service: b.cursor as usize,
                    dependency: j as usize,
                },
                ..b
            })
        }),
{
    assert forall|k: int| 0 <= k < j implies dep_state(
        b,
        #[trigger] plan[b.cursor].depends_on@[k],
    ) is Satisfied by {}
    lemma_past_satisfied(plan, b, 0, j);
}

/// A service that the scheduler launches counts as up and completed at once; of the others, one
/// whose skip flag is set is marked skipped, and one with a skip command has the command run, before
/// any dependency is looked at.
pub proof fn law_skip_comes_before_dependencies(plan: Seq<BootService>, b: BootView)
    requires
        0 <= b.cursor < plan.len(),
    ensures
        plan[b.cursor].cron ==> run_on(plan, b, None) == run_on(
            plan,
            BootView {
                cursor: b.cursor + 1,
                healthy: b.healthy.insert(plan[b.cursor].name@),
                completed: b.completed.insert(plan[b.cursor].name@),
                ..b
            },
            None,
        ),
        !plan[b.cursor].cron && plan[b.cursor].skip == Some(SkipConfig::Flag(true)) ==> run_on(
            plan,
            b,
            None,
        ) == (BootView {
            pending: BootAction::MarkSkipped { service: b.cursor as usize },
            ..b
        }),
        !plan[b.cursor].cron && plan[b.cursor].skip is Some && plan[b.cursor].skip->0 is Command
            ==> run_on(plan, b, None) == (BootView {
            pending: BootAction::EvaluateSkip { service: b.cursor as usize },
            ..b
        }),
        !plan[b.cursor].cron && (plan[b.cursor].skip is None || plan[b.cursor].skip == Some(
            SkipConfig::Flag(false),
        )) ==> run_on(plan, b, None) == run_on(plan, b, Some(0)),
{
}

/// What a boot does on its own account, between two things it needs done: it leaves nobody out,
/// counts as up and completed only what the scheduler launches, keeps the first error, and gives up
/// exactly on the other services it passes by, each because one of its own dependencies failed or
/// is not up.
pub proof fn law_boot_passes_by(plan: Seq<BootService>, b: BootView, at: Option<int>)
    requires
        0 <= b.cursor <= plan.len(),
        at is Some ==> b.cursor < plan.len() && !plan[b.cursor].cron && 0 <= at->0,
    ensures
        ({
            let r = run_on(plan, b, at);
            &&& b.cursor <= r.cursor <= plan.len()
            &&& r.pending is Finished <==> r.cursor == plan.len()
            &&& r.skipped == b.skipped
            &&& b.error is Some ==> r.error == b.error
            &&& forall|n: Seq<char>| #[trigger]
                r.healthy.contains(n) <==> b.healthy.contains(n) || passed_by(
                    plan,
                    b.cursor,
                    r.cursor,
                    true,
                    n,
                )
            &&& forall|n: Seq<char>| #[trigger]
                r.completed.contains(n) <==> b.completed.contains(n) || passed_by(
                    plan,
                    b.cursor,
                    r.cursor,
                    true,
                    n,
                )
            &&& forall|n: Seq<char>| #[trigger]
                r.failed.contains(n) <==> b.failed.contains(n) || passed_by(
                    plan,
                    b.cursor,
                    r.cursor,
                    false,
                    n,
                )
            &&& forall|i: int|
                #![trigger plan[i]]
                b.cursor <= i < r.cursor && !plan[i].cron ==> exists|k: int|
                    0 <= k < plan[i].depends_on@.len() && {
                        let d = (#[trigger] plan[i].depends_on@[k]).service@;
                        r.failed.contains(d) || !b.healthy.contains(d)
                    }
        }),
    decreases plan.len() - b.cursor, (if at is None { 1int } else { 0int }), (if at is Some {
        plan[b.cursor].depends_on@.len() - at->0
    } else {
        0int
    }),
{
    let r = run_on(plan, b, at);
    if b.cursor < plan.len() {
        let s = plan[b.cursor];
        match at {
            None => {
                if s.cron {
                    let c = ran_through(plan, b);
                    law_boot_passes_by(plan, c, None);
                    lemma_passed_by(plan, b.cursor, r.cursor);
                } else if !(s.skip matches Some(SkipConfig::Flag(true))) && !(
                s.skip matches Some(SkipConfig::Command(_))) {
                    law_boot_passes_by(plan, b, Some(0));
                }
            },
            Some(k) => {
                if k < s.depends_on@.len() {
                    let d = s.depends_on@[k];
                    match dep_state(b, d) {
                        DepState::Failed => {
                            let c = gave_up(
                                plan,
                                b,
                                ProcessManagerError::DependencyFailed {
                                    service: s.name,
                                    dependency: d.service,
                                },
                            );
                            law_boot_passes_by(plan, c, None);
                            lemma_passed_by(plan, b.cursor, r.cursor);
                            assert(r.failed.contains(plan[b.cursor].depends_on@[k].service@));
                        },
                        DepState::NotRunning => {
                            let c = gave_up(
                                plan,
                                b,
                                ProcessManagerError::DependencyError {
                                    service: s.name,
                                    dependency: d.service,
                                },
                            );
                            law_boot_passes_by(plan, c, None);
                            lemma_passed_by(plan, b.cursor, r.cursor);
                            assert(!b.healthy.contains(plan[b.cursor].depends_on@[k].service@));
                        },
                        DepState::Satisfied => {
                            law_boot_passes_by(plan, b, Some(k + 1));
                        },
                        _ => {},
                    }
                }
            },
        }
    }
}

proof fn lemma_no_second_look(plan: Seq<BootService>, b: BootView, k: int)
    requires
        0 <= b.cursor < plan.len(),
        0 <= k <= plan[b.cursor].depends_on@.len(),
    ensures
        !(run_on(plan, b, Some(k)).pending is EvaluateSkip) || run_on(plan, b, Some(k)).cursor
            > b.cursor,
    decreases plan[b.cursor].depends_on@.len() - k,
{
    let s = plan[b.cursor];
    if k < s.depends_on@.len() {
        let d = s.depends_on@[k];
        match dep_state(b, d) {
            DepState::Failed => {
                let err = ProcessManagerError::DependencyFailed {
                    service: s.name,
                    dependency: d.service,
                };
                law_boot_passes_by(plan, gave_up(plan, b, err), None);
            },
            DepState::NotRunning => {
                let err = ProcessManagerError::DependencyError {
                    service: s.name,
                    dependency: d.service,
                };
                law_boot_passes_by(plan, gave_up(plan, b, err), None);
            },
            DepState::Satisfied => {
                lemma_no_second_look(plan, b, k + 1);
            },
            _ => {},
        }
    }
}

/// Whether a service of this name, launched by the scheduler or not, stands from `from` on and
/// before `to`.
pub open spec fn passed_by(
    plan: Seq<BootService>,
    from: int,
    to: int,
    cron: bool,
    name: Seq<char>,
) -> bool {
    exists|i: int| from <= i < to && (#[trigger] plan[i]).cron == cron && plan[i].name@ == name
}

proof fn lemma_passed_by(plan: Seq<BootService>, from: int, to: int)
    requires
        0 <= from < to <= plan.len(),
    ensures
        forall|cron: bool, n: Seq<char>| #[trigger]
            passed_by(plan, from, to, cron, n) <==> (plan[from].cron == cron && plan[from].name@
                == n) || passed_by(plan, from + 1, to, cron, n),
{
    assert forall|cron: bool, n: Seq<char>| #[trigger]
        passed_by(plan, from, to, cron, n) <==> (plan[from].cron == cron && plan[from].name@ == n)
            || passed_by(plan, from + 1, to, cron, n) by {
        if plan[from].cron == cron && plan[from].name@ == n {
            assert(passed_by(plan, from, to, cron, n));
        }
    }
}

} // verus!
