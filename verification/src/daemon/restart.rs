//! Restarting a chosen set of services in dependency order.
//!
//! A [`RestartRun`] names the next thing to do as its pending [`RestartAction`]. Whoever runs the
//! restart does it and reports how it went through the method that belongs to the action.

use vstd::prelude::*;

use crate::config::{DependsOn, DependsOnCondition, SkipConfig};
use crate::daemon::boot::BootService;
use crate::daemon::state_file::ServiceReadyState;
use crate::error::ProcessManagerError;
use crate::names::NameSet;
use crate::text::texts;

verus! {

/// The next thing a restart needs done. Services and dependencies go by their position.
#[derive(Debug, Clone, Copy, PartialEq, Eq, Structural)]
pub enum RestartAction {
    /// Run the skip command of the service.
    EvaluateSkip {
        /// The service.
        service: usize,
    },
    /// Stop the service, which is to be left out.
    StopSkipped {
        /// The service.
        service: usize,
    },
    /// Record the stopped service as skipped.
    MarkSkipped {
        /// The service.
        service: usize,
    },
    /// Look at a dependency: is it recorded as skipped, and is its recorded process alive?
    Observe {
        /// The service.
        service: usize,
        /// Which of its dependencies.
        dependency: usize,
    },
    /// Wait until a dependency of the service has run to completion.
    AwaitCompletion {
        /// The service.
        service: usize,
        /// Which of its dependencies.
        dependency: usize,
    },
    /// Replace the running instance of the service.
    Restart {
        /// The service.
        service: usize,
    },
    /// Start watching again.
    RespawnMonitor,
    /// Check that what was restarted is up.
    Verify,
    /// Nothing: the restart is over.
    Finished,
}

/// A restart in progress.
pub struct RestartRun {
    /// All services in start order.
    pub plan: Vec<BootService>,
    /// The services to restart.
    pub selected: NameSet,
    /// The service being looked at.
    pub cursor: usize,
    /// Services that were restarted and are up or have completed.
    pub healthy: NameSet,
    /// Services that have completed.
    pub completed: NameSet,
    /// Services that could not be restarted.
    pub failed: NameSet,
    /// Services left out.
    pub skipped: NameSet,
    /// The services restarted, in order.
    pub restarted: Vec<String>,
    /// The error the restart will report.
    pub error: Option<ProcessManagerError>,
    /// What to do next.
    pub pending: RestartAction,
}

/// What a [`RestartRun`] knows.
#[verifier::ext_equal]
pub struct RestartView {
    pub selected: Set<Seq<char>>,
    pub cursor: int,
    pub healthy: Set<Seq<char>>,
    pub completed: Set<Seq<char>>,
    pub failed: Set<Seq<char>>,
    pub skipped: Set<Seq<char>>,
    pub restarted: Seq<Seq<char>>,
    pub error: Option<ProcessManagerError>,
    pub pending: RestartAction,
}

impl View for RestartRun {
    type V = RestartView;

    open spec fn view(&self) -> RestartView {
        RestartView {
            selected: self.selected@,
            cursor: self.cursor as int,
            healthy: self.healthy@,
            completed: self.completed@,
            failed: self.failed@,
            skipped: self.skipped@,
            restarted: texts(self.restarted@),
            error: self.error,
            pending: self.pending,
        }
    }
}

/// The restart with `action` to do next.
pub open spec fn doing(r: RestartView, action: RestartAction) -> RestartView {
    RestartView { pending: action, ..r }
}

/// The restart with `err` met; an earlier error stays the one reported.
pub open spec fn with_error(r: RestartView, err: ProcessManagerError) -> RestartView {
    RestartView {
        error: match r.error {
            Some(e) => Some(e),
            None => Some(err),
        },
        ..r
    }
}

/// The restart with the service at the cursor given up on.
pub open spec fn gave_up(plan: Seq<BootService>, r: RestartView, err: ProcessManagerError) -> RestartView {
    RestartView {
        failed: r.failed.insert(plan[r.cursor].name@),
        cursor: r.cursor + 1,
        ..with_error(r, err)
    }
}

/// The restart with the service at the cursor left out.
pub open spec fn left_out(plan: Seq<BootService>, r: RestartView) -> RestartView {
    RestartView { skipped: r.skipped.insert(plan[r.cursor].name@), cursor: r.cursor + 1, ..r }
}

/// The restart with the service at the cursor replaced, and either up or completed.
pub open spec fn replaced(plan: Seq<BootService>, r: RestartView, state: ServiceReadyState) -> RestartView {
    RestartView {
        healthy: r.healthy.insert(plan[r.cursor].name@),
        completed: if state == ServiceReadyState::CompletedSuccess {
            r.completed.insert(plan[r.cursor].name@)
        } else {
            r.completed
        },
        restarted: r.restarted.push(plan[r.cursor].name@),
        cursor: r.cursor + 1,
        ..r
    }
}

/// Where the restart stops next: it goes on, from dependency `at` of the service at the cursor or
/// from the service itself, until something has to be done.
pub open spec fn run_on(plan: Seq<BootService>, r: RestartView, at: Option<int>) -> RestartView
    decreases plan.len() - r.cursor,
{
    if r.cursor < 0 || r.cursor >= plan.len() {
        doing(r, RestartAction::RespawnMonitor)
    } else {
        let s = plan[r.cursor];
        match at {
            None => if !r.selected.contains(s.name@) {
                run_on(plan, RestartView { cursor: r.cursor + 1, ..r }, None)
            } else if s.cron {
                run_on(
                    plan,
                    RestartView {
                        completed: r.completed.insert(s.name@),
                        cursor: r.cursor + 1,
                        ..r
                    },
                    None,
                )
            } else {
                match s.skip {
                    Some(SkipConfig::Flag(true)) => doing(
                        r,
                        RestartAction::StopSkipped { service: r.cursor as usize },
                    ),
                    Some(SkipConfig::Command(_)) => doing(
                        r,
                        RestartAction::EvaluateSkip { service: r.cursor as usize },
                    ),
                    _ => at_dependency(plan, r, 0),
                }
            },
            Some(k) => at_dependency(plan, r, k),
        }
    }
}

/// The restart about to look at dependency `k` of the service at the cursor.
pub open spec fn at_dependency(plan: Seq<BootService>, r: RestartView, k: int) -> RestartView {
    if k < 0 || k >= plan[r.cursor].depends_on@.len() {
        doing(r, RestartAction::Restart { service: r.cursor as usize })
    } else {
        doing(r, RestartAction::Observe { service: r.cursor as usize, dependency: k as usize })
    }
}

/// The error for a service whose dependency stands in the way.
pub open spec fn blocked_by(s: BootService, d: DependsOn) -> ProcessManagerError {
    ProcessManagerError::DependencyFailed { service: s.name, dependency: d.service }
}

/// What follows from looking at dependency `k` of the service at the cursor.
pub open spec fn judged(
    plan: Seq<BootService>,
    r: RestartView,
    k: int,
    recorded_skipped: bool,
    alive: bool,
) -> RestartView {
    let s = plan[r.cursor];
    let d = s.depends_on@[k];
    let name = d.service@;
    let must_complete = d.condition == DependsOnCondition::Completed;
    if r.skipped.contains(name) || recorded_skipped {
        doing(r, RestartAction::StopSkipped { service: r.cursor as usize })
    } else if r.failed.contains(name) || (r.selected.contains(name) && !r.healthy.contains(name))
        || (!must_complete && !r.selected.contains(name) && !alive) {
        run_on(plan, gave_up(plan, r, blocked_by(s, d)), None)
    } else if must_complete && !r.completed.contains(name) {
        doing(
            r,
            RestartAction::AwaitCompletion { service: r.cursor as usize, dependency: k as usize },
        )
    } else {
        at_dependency(plan, r, k + 1)
    }
}

/// A restart before anything has happened.
pub open spec fn fresh(selected: Set<Seq<char>>) -> RestartView {
    RestartView {
        selected,
        cursor: 0,
        healthy: Set::empty(),
        completed: Set::empty(),
        failed: Set::empty(),
        skipped: Set::empty(),
        restarted: seq![],
        error: None,
        pending: RestartAction::Finished,
    }
}

// ---------------------------------------------------------------------------
// What holds in every state of a restart
// ---------------------------------------------------------------------------

/// Whether nothing known of dependency `d` stands in the way of its dependent.
pub open spec fn cleared(r: RestartView, d: DependsOn) -> bool {
    &&& !r.skipped.contains(d.service@)
    &&& !r.failed.contains(d.service@)
    &&& r.selected.contains(d.service@) ==> r.healthy.contains(d.service@)
    &&& d.condition == DependsOnCondition::Completed ==> r.completed.contains(d.service@)
}

/// Whether the first `n` dependencies of `s` are cleared.
pub open spec fn cleared_up_to(r: RestartView, s: BootService, n: int) -> bool {
    forall|k: int| 0 <= k < n ==> cleared(r, #[trigger] s.depends_on@[k])
}

/// What holds apart from the pending action.
pub open spec fn accounted(plan: Seq<BootService>, r: RestartView) -> bool {
    &&& 0 <= r.cursor <= plan.len()
    &&& plan.len() <= usize::MAX
    &&& forall|i: int|
        0 <= i < plan.len() ==> (#[trigger] plan[i]).depends_on@.len() <= usize::MAX
    &&& forall|i: int|
        0 <= i < r.cursor && r.selected.contains((#[trigger] plan[i]).name@) && !plan[i].cron
            ==> r.healthy.contains(plan[i].name@) || r.failed.contains(plan[i].name@)
            || r.skipped.contains(plan[i].name@)
    &&& !r.failed.is_empty() ==> r.error is Some
    &&& forall|i: int| 0 <= i < r.restarted.len() ==> r.healthy.contains(#[trigger] r.restarted[i])
}

/// Whether the service at the cursor is one that may be restarted.
pub open spec fn at_candidate(plan: Seq<BootService>, r: RestartView) -> bool {
    r.cursor < plan.len() && !plan[r.cursor].cron && r.selected.contains(plan[r.cursor].name@)
}

/// What holds of every restart.
pub open spec fn sound(plan: Seq<BootService>, r: RestartView) -> bool {
    &&& accounted(plan, r)
    &&& match r.pending {
        RestartAction::EvaluateSkip { service } => service == r.cursor && at_candidate(plan, r),
        RestartAction::StopSkipped { service } => service == r.cursor && at_candidate(plan, r),
        RestartAction::MarkSkipped { service } => service == r.cursor && at_candidate(plan, r),
        RestartAction::Observe { service, dependency } => {
            &&& service == r.cursor
            &&& at_candidate(plan, r)
            &&& dependency < plan[r.cursor].depends_on@.len()
            &&& cleared_up_to(r, plan[r.cursor], dependency as int)
        },
        RestartAction::AwaitCompletion { service, dependency } => {
            &&& service == r.cursor
            &&& at_candidate(plan, r)
            &&& dependency < plan[r.cursor].depends_on@.len()
            &&& cleared_up_to(r, plan[r.cursor], dependency as int)
            &&& ({
                let d = plan[r.cursor].depends_on@[dependency as int].service@;
                &&& !r.skipped.contains(d)
                &&& !r.failed.contains(d)
                &&& r.selected.contains(d) ==> r.healthy.contains(d)
            })
        },
        RestartAction::Restart { service } => {
            &&& service == r.cursor
            &&& at_candidate(plan, r)
            &&& cleared_up_to(r, plan[r.cursor], plan[r.cursor].depends_on@.len() as int)
        },
        RestartAction::RespawnMonitor => r.cursor == plan.len(),
        RestartAction::Verify => r.cursor == plan.len(),
        RestartAction::Finished => r.cursor == plan.len(),
    }
}

proof fn lemma_at_dependency_sound(plan: Seq<BootService>, r: RestartView, k: int)
    requires
        accounted(plan, r),
        at_candidate(plan, r),
        0 <= k <= plan[r.cursor].depends_on@.len(),
        cleared_up_to(r, plan[r.cursor], k),
    ensures
        sound(plan, at_dependency(plan, r, k)),
{
    let n = at_dependency(plan, r, k);
    assert forall|j: int| 0 <= j < k implies cleared(n, #[trigger] plan[r.cursor].depends_on@[j]) by {
        assert(cleared(r, plan[r.cursor].depends_on@[j]));
    }
}

proof fn lemma_run_on_sound(plan: Seq<BootService>, r: RestartView)
    requires
        accounted(plan, r),
    ensures
        sound(plan, run_on(plan, r, None)),
    decreases plan.len() - r.cursor,
{
    if r.cursor < plan.len() {
        let s = plan[r.cursor];
        if !r.selected.contains(s.name@) {
            lemma_run_on_sound(plan, RestartView { cursor: r.cursor + 1, ..r });
        } else if s.cron {
            lemma_run_on_sound(
                plan,
                RestartView {
                    completed: r.completed.insert(s.name@),
                    cursor: r.cursor + 1,
                    ..r
                },
            );
        } else {
            match s.skip {
                Some(SkipConfig::Flag(true)) => {},
                Some(SkipConfig::Command(_)) => {},
                _ => {
                    lemma_at_dependency_sound(plan, r, 0);
                },
            }
        }
    }
}

proof fn lemma_gave_up_sound(plan: Seq<BootService>, r: RestartView, err: ProcessManagerError)
    requires
        accounted(plan, r),
        r.cursor < plan.len(),
    ensures
        sound(plan, run_on(plan, gave_up(plan, r, err), None)),
        run_on(plan, gave_up(plan, r, err), None).cursor > r.cursor,
        run_on(plan, gave_up(plan, r, err), None).selected == r.selected,
        run_on(plan, gave_up(plan, r, err), None).failed == r.failed.insert(plan[r.cursor].name@),
        run_on(plan, gave_up(plan, r, err), None).restarted == r.restarted,
        run_on(plan, gave_up(plan, r, err), None).error == (if r.error is Some {
            r.error
        } else {
            Some(err)
        }),
{
    lemma_run_on_sound(plan, gave_up(plan, r, err));
    law_restart_passes_by(plan, gave_up(plan, r, err));
}

proof fn lemma_judged_sound(
    plan: Seq<BootService>,
    r: RestartView,
    k: int,
    recorded_skipped: bool,
    alive: bool,
)
    requires
        sound(plan, r),
        r.pending is Observe,
        k == r.pending->Observe_dependency,
    ensures
        sound(plan, judged(plan, r, k, recorded_skipped, alive)),
{
    let s = plan[r.cursor];
    let d = s.depends_on@[k];
    let name = d.service@;
    let must_complete = d.condition == DependsOnCondition::Completed;
    if r.skipped.contains(name) || recorded_skipped {
    } else if r.failed.contains(name) || (r.selected.contains(name) && !r.healthy.contains(name))
        || (!must_complete && !r.selected.contains(name) && !alive) {
        lemma_gave_up_sound(plan, r, blocked_by(s, d));
    } else if must_complete && !r.completed.contains(name) {
        let n = judged(plan, r, k, recorded_skipped, alive);
        assert forall|j: int| 0 <= j < k implies cleared(n, #[trigger] s.depends_on@[j]) by {
            assert(cleared(r, s.depends_on@[j]));
        }
    } else {
        assert(cleared(r, d));
        lemma_at_dependency_sound(plan, r, k + 1);
    }
}

proof fn lemma_completion_sound(plan: Seq<BootService>, r: RestartView, k: int)
    requires
        sound(plan, r),
        r.pending is AwaitCompletion,
        k == r.pending->AwaitCompletion_dependency,
    ensures
        sound(
            plan,
            at_dependency(
                plan,
                (RestartView {
                    completed: r.completed.insert(plan[r.cursor].depends_on@[k].service@),
                    ..r
                }),
                k + 1,
            ),
        ),
{
    let s = plan[r.cursor];
    let c = RestartView { completed: r.completed.insert(s.depends_on@[k].service@), ..r };
    assert forall|j: int| 0 <= j < k + 1 implies cleared(c, #[trigger] s.depends_on@[j]) by {
        if j < k {
            assert(cleared(r, s.depends_on@[j]));
        }
    }
    lemma_at_dependency_sound(plan, c, k + 1);
}

proof fn lemma_replaced_sound(plan: Seq<BootService>, r: RestartView, state: ServiceReadyState)
    requires
        sound(plan, r),
        r.pending is Restart,
    ensures
        sound(plan, run_on(plan, replaced(plan, r, state), None)),
{
    let n = replaced(plan, r, state);
    assert forall|i: int| 0 <= i < n.restarted.len() implies n.healthy.contains(
        #[trigger] n.restarted[i],
    ) by {
        if i < r.restarted.len() {
            assert(n.restarted[i] == r.restarted[i]);
        }
    }
    lemma_run_on_sound(plan, n);
}

// ---------------------------------------------------------------------------
// The run
// ---------------------------------------------------------------------------

impl RestartRun {
    /// Begins a restart of the `selected` services of `plan`.
    pub fn begin(plan: Vec<BootService>, selected: NameSet) -> (r: Self)
        ensures
            r.plan == plan,
            r@ == run_on(plan@, fresh(selected@), None),
            sound(plan@, r@),
    {
        let mut r = RestartRun {
            plan,
            selected,
            cursor: 0,
            healthy: NameSet::new(),
            completed: NameSet::new(),
            failed: NameSet::new(),
            skipped: NameSet::new(),
            restarted: Vec::new(),
            error: None,
            pending: RestartAction::Finished,
        };
        assert(r@ =~= fresh(selected@));
        proof {
            assert(plan.len() == plan@.len());
            assert forall|i: int| 0 <= i < plan@.len() implies (
            #[trigger] plan@[i]).depends_on@.len() <= usize::MAX by {
                assert(plan@[i].depends_on.len() == plan@[i].depends_on@.len());
            }
            assert(fresh(selected@).failed.is_empty());
            lemma_run_on_sound(plan@, fresh(selected@));
        }
        r.advance();
        r
    }

    fn advance(&mut self)
        ensures
            final(self).plan == old(self).plan,
            final(self)@ == run_on(old(self).plan@, old(self)@, None),
    {
        let ghost target = run_on(self.plan@, self@, None);
        while self.cursor < self.plan.len()
            invariant_except_break
                self.plan == old(self).plan,
                target == run_on(self.plan@, self@, None),
            ensures
                self.plan == old(self).plan,
                self.cursor < self.plan.len() ==> target == self@,
                self.cursor >= self.plan.len() ==> target == doing(
                    self@,
                    RestartAction::RespawnMonitor,
                ),
            decreases self.plan.len() - self.cursor,
        {
            let i: usize = self.cursor;
            if !self.selected.has(self.plan[i].name.as_str()) {
                self.cursor = i + 1;
            } else if self.plan[i].cron {
                let _ = self.completed.insert(self.plan[i].name.as_str());
                self.cursor = i + 1;
            } else {
                match &self.plan[i].skip {
                    Some(SkipConfig::Flag(true)) => {
                        self.pending = RestartAction::StopSkipped { service: i };
                    },
                    Some(SkipConfig::Command(_)) => {
                        self.pending = RestartAction::EvaluateSkip { service: i };
                    },
                    _ => {
                        self.turn_to(0);
                    },
                }
                break;
            }
        }
        if self.cursor >= self.plan.len() {
            self.pending = RestartAction::RespawnMonitor;
        }
    }

    fn turn_to(&mut self, k: usize)
        requires
            old(self).cursor < old(self).plan.len(),
        ensures
            final(self).plan == old(self).plan,
            final(self).cursor == old(self).cursor,
            final(self)@ == at_dependency(old(self).plan@, old(self)@, k as int),
    {
        let i: usize = self.cursor;
        if k >= self.plan[i].depends_on.len() {
            self.pending = RestartAction::Restart { service: i };
        } else {
            self.pending = RestartAction::Observe { service: i, dependency: k };
        }
    }

    fn note(&mut self, err: ProcessManagerError)
        ensures
            final(self).plan == old(self).plan,
            final(self)@ == with_error(old(self)@, err),
    {
        if self.error.is_none() {
            self.error = Some(err);
        }
    }

    fn give_up(&mut self, err: ProcessManagerError)
        requires
            old(self).cursor < old(self).plan.len(),
        ensures
            final(self).plan == old(self).plan,
            final(self)@ == run_on(
                old(self).plan@,
                gave_up(old(self).plan@, old(self)@, err),
                None,
            ),
    {
        let i: usize = self.cursor;
        let _ = self.failed.insert(self.plan[i].name.as_str());
        self.note(err);
        self.cursor = i + 1;
        self.advance();
    }

    /// Reports what the skip command said: leave the service out, restart it, or no answer.
    pub fn skip_verdict(&mut self, verdict: Result<bool, ProcessManagerError>)
        requires
            old(self).pending is EvaluateSkip,
            sound(old(self).plan@, old(self)@),
        ensures
            final(self).plan == old(self).plan,
            sound(old(self).plan@, final(self)@),
            final(self)@ == match verdict {
                Ok(true) => doing(
                    old(self)@,
                    RestartAction::StopSkipped { service: old(self).cursor },
                ),
                Ok(false) => at_dependency(old(self).plan@, old(self)@, 0),
                Err(err) => run_on(
                    old(self).plan@,
                    gave_up(old(self).plan@, old(self)@, err),
                    None,
                ),
            },
            final(self)@.selected == old(self)@.selected,
            match verdict {
                Ok(true) => final(self).pending == (RestartAction::StopSkipped {
                    service: old(self).cursor,
                }),
                Ok(false) => final(self).cursor == old(self).cursor && (
                final(self).pending is Observe || final(self).pending is Restart),
                Err(err) => {
                    &&& final(self).cursor > old(self).cursor
                    &&& final(self)@.failed == old(self)@.failed.insert(
                        old(self).plan@[old(self).cursor as int].name@,
                    )
                    &&& final(self)@.restarted == old(self)@.restarted
                    &&& final(self).error == (if old(self).error is Some {
                        old(self).error
                    } else {
                        Some(err)
                    })
                },
            },
    {
        match verdict {
            Ok(true) => {
                self.pending = RestartAction::StopSkipped { service: self.cursor };
            },
            Ok(false) => {
                proof {
                    lemma_at_dependency_sound(self.plan@, self@, 0);
                }
                self.turn_to(0);
            },
            Err(err) => {
                proof {
                    lemma_gave_up_sound(self.plan@, self@, err);
                }
                self.give_up(err);
            },
        }
    }

    /// Reports whether the service to be left out was stopped.
    pub fn stopped(&mut self, result: Result<(), ProcessManagerError>)
        requires
            old(self).pending is StopSkipped,
            sound(old(self).plan@, old(self)@),
        ensures
            final(self).plan == old(self).plan,
            sound(old(self).plan@, final(self)@),
            final(self)@ == match result {
                Ok(_) => doing(
                    old(self)@,
                    RestartAction::MarkSkipped { service: old(self).cursor },
                ),
                Err(err) => run_on(
                    old(self).plan@,
                    gave_up(old(self).plan@, old(self)@, err),
                    None,
                ),
            },
            final(self)@.selected == old(self)@.selected,
            match result {
                Ok(_) => final(self).pending == (RestartAction::MarkSkipped {
                    service: old(self).cursor,
                }),
                Err(err) => {
                    &&& final(self).cursor > old(self).cursor
                    &&& final(self)@.failed == old(self)@.failed.insert(
                        old(self).plan@[old(self).cursor as int].name@,
                    )
                    &&& final(self)@.restarted == old(self)@.restarted
                    &&& final(self).error == (if old(self).error is Some {
                        old(self).error
                    } else {
                        Some(err)
                    })
                },
            },
    {
        match result {
            Ok(_) => {
                self.pending = RestartAction::MarkSkipped { service: self.cursor };
            },
            Err(err) => {
                proof {
                    lemma_gave_up_sound(self.plan@, self@, err);
                }
                self.give_up(err);
            },
        }
    }

    /// Reports whether the stopped service was recorded as skipped.
    pub fn marked(&mut self, result: Result<(), ProcessManagerError>)
        requires
            old(self).pending is MarkSkipped,
            sound(old(self).plan@, old(self)@),
        ensures
            final(self).plan == old(self).plan,
            sound(old(self).plan@, final(self)@),
            final(self)@ == run_on(
                old(self).plan@,
                match result {
                    Ok(_) => left_out(old(self).plan@, old(self)@),
                    Err(err) => gave_up(old(self).plan@, old(self)@, err),
                },
                None,
            ),
            final(self)@.selected == old(self)@.selected,
            match result {
                Ok(_) => {
                    &&& final(self).cursor > old(self).cursor
                    &&& final(self)@.failed == old(self)@.failed
                    &&& final(self)@.restarted == old(self)@.restarted
                    &&& final(self)@.skipped == old(self)@.skipped.insert(
                        old(self).plan@[old(self).cursor as int].name@,
                    )
                },
                Err(err) => {
                    &&& final(self).cursor > old(self).cursor
                    &&& final(self)@.failed == old(self)@.failed.insert(
                        old(self).plan@[old(self).cursor as int].name@,
                    )
                    &&& final(self)@.restarted == old(self)@.restarted
                    &&& final(self).error == (if old(self).error is Some {
                        old(self).error
                    } else {
                        Some(err)
                    })
                },
            },
    {
        match result {
            Ok(_) => {
                proof {
                    lemma_run_on_sound(self.plan@, left_out(self.plan@, self@));
                    law_restart_passes_by(self.plan@, left_out(self.plan@, self@));
                }
                let i: usize = self.cursor;
                let _ = self.skipped.insert(self.plan[i].name.as_str());
                self.cursor = i + 1;
                self.advance();
            },
            Err(err) => {
                proof {
                    lemma_gave_up_sound(self.plan@, self@, err);
                }
                self.give_up(err);
            },
        }
    }

    /// Reports what was seen of a dependency: whether it is recorded as skipped, and whether its
    /// recorded process is alive and still the same process.
    pub fn observed(&mut self, recorded_skipped: bool, alive: bool)
        requires
            old(self).pending is Observe,
            sound(old(self).plan@, old(self)@),
        ensures
            final(self).plan == old(self).plan,
            sound(old(self).plan@, final(self)@),
            final(self)@ == judged(
                old(self).plan@,
                old(self)@,
                old(self).pending->Observe_dependency as int,
                recorded_skipped,
                alive,
            ),
    {
        if let RestartAction::Observe { dependency, .. } = self.pending {
            proof {
                lemma_judged_sound(self.plan@, self@, dependency as int, recorded_skipped, alive);
            }
            let i: usize = self.cursor;
            let dep = &self.plan[i].depends_on[dependency];
            let must_complete = dep.condition == DependsOnCondition::Completed;
            let chosen = self.selected.has(dep.service.as_str());
            if self.skipped.has(dep.service.as_str()) || recorded_skipped {
                self.pending = RestartAction::StopSkipped { service: i };
            } else if self.failed.has(dep.service.as_str()) || (chosen && !self.healthy.has(
                dep.service.as_str(),
            )) || (!must_complete && !chosen && !alive) {
                let err = ProcessManagerError::DependencyFailed {
                    service: self.plan[i].name.clone(),
                    dependency: dep.service.clone(),
                };
                self.give_up(err);
            } else if must_complete && !self.completed.has(dep.service.as_str()) {
                self.pending = RestartAction::AwaitCompletion { service: i, dependency };
            } else {
                self.turn_to(dependency + 1);
            }
        }
    }

    /// Reports whether the awaited dependency completed.
    pub fn dependency_done(&mut self, result: Result<(), ProcessManagerError>)
        requires
            old(self).pending is AwaitCompletion,
            sound(old(self).plan@, old(self)@),
        ensures
            final(self).plan == old(self).plan,
            sound(old(self).plan@, final(self)@),
            final(self)@ == ({
                let k = old(self).pending->AwaitCompletion_dependency as int;
                let dep = old(self).plan@[old(self).cursor as int].depends_on@[k].service@;
                match result {
                    Ok(_) => at_dependency(
                        old(self).plan@,
                        (RestartView {
                            completed: old(self)@.completed.insert(dep),
                            ..old(self)@
                        }),
                        k + 1,
                    ),
                    Err(err) => run_on(
                        old(self).plan@,
                        gave_up(old(self).plan@, old(self)@, err),
                        None,
                    ),
                }
            }),
            final(self)@.selected == old(self)@.selected,
            match result {
                Ok(_) => final(self).cursor == old(self).cursor && final(self)@.completed.contains(
                    old(self).plan@[old(self).cursor as int].depends_on@[
                        old(self).pending->AwaitCompletion_dependency as int
                    ].service@,
                ),
                Err(err) => {
                    &&& final(self).cursor > old(self).cursor
                    &&& final(self)@.failed == old(self)@.failed.insert(
                        old(self).plan@[old(self).cursor as int].name@,
                    )
                    &&& final(self)@.restarted == old(self)@.restarted
                    &&& final(self).error == (if old(self).error is Some {
                        old(self).error
                    } else {
                        Some(err)
                    })
                },
            },
    {
        if let RestartAction::AwaitCompletion { dependency, .. } = self.pending {
            match result {
                Ok(_) => {
                    proof {
                        lemma_completion_sound(self.plan@, self@, dependency as int);
                    }
                    let i: usize = self.cursor;
                    let _ = self.completed.insert(
                        self.plan[i].depends_on[dependency].service.as_str(),
                    );
                    self.turn_to(dependency + 1);
                },
                Err(err) => {
                    proof {
                        lemma_gave_up_sound(self.plan@, self@, err);
                    }
                    self.give_up(err);
                },
            }
        }
    }

    /// Reports how replacing the service went.
    pub fn replaced(&mut self, result: Result<ServiceReadyState, ProcessManagerError>)
        requires
            old(self).pending is Restart,
            sound(old(self).plan@, old(self)@),
        ensures
            final(self).plan == old(self).plan,
            sound(old(self).plan@, final(self)@),
            final(self)@ == run_on(
                old(self).plan@,
                match result {
                    Ok(state) => replaced(old(self).plan@, old(self)@, state),
                    Err(err) => gave_up(old(self).plan@, old(self)@, err),
                },
                None,
            ),
            final(self)@.selected == old(self)@.selected,
            match result {
                Ok(state) => {
                    &&& final(self).cursor > old(self).cursor
                    &&& final(self)@.failed == old(self)@.failed
                    &&& final(self)@.restarted == old(self)@.restarted.push(
                        old(self).plan@[old(self).cursor as int].name@,
                    )
                    &&& final(self)@.healthy.contains(old(self).plan@[old(self).cursor as int].name@)
                    &&& state == ServiceReadyState::CompletedSuccess
                        ==> final(self)@.completed.contains(
                        old(self).plan@[old(self).cursor as int].name@,
                    )
                },
                Err(err) => {
                    &&& final(self).cursor > old(self).cursor
                    &&& final(self)@.failed == old(self)@.failed.insert(
                        old(self).plan@[old(self).cursor as int].name@,
                    )
                    &&& final(self)@.restarted == old(self)@.restarted
                    &&& final(self).error == (if old(self).error is Some {
                        old(self).error
                    } else {
                        Some(err)
                    })
                },
            },
    {
        let i: usize = self.cursor;
        match result {
            Ok(state) => {
                proof {
                    lemma_replaced_sound(self.plan@, self@, state);
                    law_restart_passes_by(self.plan@, replaced(self.plan@, self@, state));
                    if state == ServiceReadyState::CompletedSuccess {
                        assert(replaced(self.plan@, self@, state).completed.contains(
                            self.plan@[self.cursor as int].name@,
                        ));
                    }
                }
                let _ = self.healthy.insert(self.plan[i].name.as_str());
                if state == ServiceReadyState::CompletedSuccess {
                    let _ = self.completed.insert(self.plan[i].name.as_str());
                }
                self.restarted.push(self.plan[i].name.clone());
                self.cursor = i + 1;
                assert(self@ =~= replaced(old(self).plan@, old(self)@, state));
                self.advance();
            },
            Err(err) => {
                proof {
                    lemma_gave_up_sound(self.plan@, self@, err);
                }
                self.give_up(err);
            },
        }
    }

    /// Reports whether watching was resumed.
    pub fn monitoring(&mut self, result: Result<(), ProcessManagerError>)
        requires
            old(self).pending is RespawnMonitor,
            sound(old(self).plan@, old(self)@),
        ensures
            final(self).plan == old(self).plan,
            sound(old(self).plan@, final(self)@),
            final(self)@ == doing(
                match result {
                    Ok(_) => old(self)@,
                    Err(err) => with_error(old(self)@, err),
                },
                RestartAction::Verify,
            ),
            final(self).pending == RestartAction::Verify,
            final(self)@.restarted == old(self)@.restarted,
            final(self)@.failed == old(self)@.failed,
            final(self).error == (match (old(self).error, result) {
                (None, Err(err)) => Some(err),
                _ => old(self).error,
            }),
    {
        if let Err(err) = result {
            self.note(err);
        }
        self.pending = RestartAction::Verify;
    }

    /// Reports whether what was restarted was found up.
    pub fn verified(&mut self, result: Result<(), ProcessManagerError>)
        requires
            old(self).pending is Verify,
            sound(old(self).plan@, old(self)@),
        ensures
            final(self).plan == old(self).plan,
            sound(old(self).plan@, final(self)@),
            final(self)@ == doing(
                match result {
                    Ok(_) => old(self)@,
                    Err(err) => with_error(old(self)@, err),
                },
                RestartAction::Finished,
            ),
            final(self).pending == RestartAction::Finished,
            final(self)@.restarted == old(self)@.restarted,
            final(self)@.failed == old(self)@.failed,
            final(self).error == (match (old(self).error, result) {
                (None, Err(err)) => Some(err),
                _ => old(self).error,
            }),
    {
        if let Err(err) = result {
            self.note(err);
        }
        self.pending = RestartAction::Finished;
    }

    /// The outcome of a finished restart: the first error met, if any.
    pub fn outcome(self) -> (r: Result<(), ProcessManagerError>)
        requires
            self.pending is Finished,
        ensures
            match self.error {
                Some(err) => r == Err::<(), ProcessManagerError>(err),
                None => r is Ok,
            },
    {
        match self.error {
            Some(err) => Err(err),
            None => Ok(()),
        }
    }
}

/// A service is replaced only when none of its dependencies was skipped or failed, the chosen ones
/// are up again, and those that had to have completed.
pub proof fn law_replaced_only_when_cleared(plan: Seq<BootService>, r: RestartView, k: int)
    requires
        sound(plan, r),
        r.pending is Restart,
        0 <= k < plan[r.cursor].depends_on@.len(),
    ensures
        r.selected.contains(plan[r.cursor].name@),
        cleared(r, plan[r.cursor].depends_on@[k]),
{
}

/// A restart that reports no error has brought back, or left out, every chosen service that does not
/// run on a schedule.
pub proof fn law_success_leaves_nothing_behind(plan: Seq<BootService>, r: RestartView, i: int)
    requires
        sound(plan, r),
        r.pending is Finished,
        r.error is None,
        0 <= i < plan.len(),
        r.selected.contains(plan[i].name@),
        !plan[i].cron,
    ensures
        r.healthy.contains(plan[i].name@) || r.skipped.contains(plan[i].name@),
{
    if r.failed.contains(plan[i].name@) {
        assert(!r.failed.is_empty());
    }
}

/// A failed service always makes the restart report an error.
pub proof fn law_failure_is_reported(plan: Seq<BootService>, r: RestartView)
    requires
        sound(plan, r),
        !r.failed.is_empty(),
    ensures
        r.error is Some,
{
}

/// What a restart does on its own account, between two things it needs done: it passes by services
/// that were not chosen, and chosen ones that the scheduler launches, which count as completed. It
/// gives up on nobody, leaves nobody out, counts nobody as up or restarted, and forgets no error.
pub proof fn law_restart_passes_by(plan: Seq<BootService>, r: RestartView)
    requires
        0 <= r.cursor <= plan.len(),
    ensures
        ({
            let n = run_on(plan, r, None);
            &&& r.cursor <= n.cursor <= plan.len()
            &&& n.selected == r.selected
            &&& n.healthy == r.healthy
            &&& n.failed == r.failed
            &&& n.skipped == r.skipped
            &&& n.restarted == r.restarted
            &&& n.error == r.error
            &&& n.pending == RestartAction::RespawnMonitor <==> n.cursor == plan.len()
            &&& forall|x: Seq<char>| #[trigger]
                r.completed.contains(x) ==> n.completed.contains(x)
            &&& forall|x: Seq<char>| #[trigger]
                n.completed.contains(x) ==> r.completed.contains(x) || (r.selected.contains(x)
                    && exists|i: int|
                    r.cursor <= i < n.cursor && (#[trigger] plan[i]).cron && plan[i].name@ == x)
            &&& forall|i: int|
                r.cursor <= i < n.cursor ==> !r.selected.contains((#[trigger] plan[i]).name@)
                    || plan[i].cron
            &&& n.cursor < plan.len() ==> r.selected.contains(plan[n.cursor].name@)
                && !plan[n.cursor].cron
        }),
    decreases plan.len() - r.cursor,
{
    if r.cursor < plan.len() {
        let s = plan[r.cursor];
        if !r.selected.contains(s.name@) {
            law_restart_passes_by(plan, RestartView { cursor: r.cursor + 1, ..r });
        } else if s.cron {
            let c = RestartView {
                completed: r.completed.insert(s.name@),
                cursor: r.cursor + 1,
                ..r
            };
            law_restart_passes_by(plan, c);
            assert forall|x: Seq<char>| #[trigger] r.completed.contains(x) implies run_on(
                plan,
                r,
                None,
            ).completed.contains(x) by {
                assert(c.completed.contains(x));
            }
        }
    }
}

/// A chosen service that the scheduler does not launch is never passed by: with its skip flag set it
/// is stopped and left out, with a skip command the command is asked, and otherwise its dependencies
/// are looked at one by one from the first, and without any it is replaced.
pub proof fn law_chosen_service_is_taken_up(plan: Seq<BootService>, r: RestartView)
    requires
        0 <= r.cursor < plan.len(),
        r.selected.contains(plan[r.cursor].name@),
        !plan[r.cursor].cron,
    ensures
        plan[r.cursor].skip == Some(SkipConfig::Flag(true)) ==> run_on(plan, r, None) == (
        RestartView {
            pending: RestartAction::StopSkipped { service: r.cursor as usize },
            ..r
        }),
        plan[r.cursor].skip is Some && plan[r.cursor].skip->0 is Command ==> run_on(plan, r, None)
            == (RestartView {
            pending: RestartAction::EvaluateSkip { service: r.cursor as usize },
            ..r
        }),
        (plan[r.cursor].skip is None || plan[r.cursor].skip == Some(SkipConfig::Flag(false)))
            && plan[r.cursor].depends_on@.len() == 0 ==> run_on(plan, r, None) == (RestartView {
            pending: RestartAction::Restart { service: r.cursor as usize },
            ..r
        }),
        (plan[r.cursor].skip is None || plan[r.cursor].skip == Some(SkipConfig::Flag(false)))
            && plan[r.cursor].depends_on@.len() > 0 ==> run_on(plan, r, None) == (RestartView {
            pending: RestartAction::Observe { service: r.cursor as usize, dependency: 0 },
            ..r
        }),
{
}

/// A dependency stands in the way exactly when it failed in this restart, was chosen and is not up
/// again, or, not being chosen nor bound to complete, is not alive: then the service is given up on
/// and the dependency named, unless there is an earlier error. One that was skipped, now or on
/// record, has the service stopped and left out. One that has yet to complete is waited for. After
/// any other the next dependency is looked at, and after the last one the service is replaced.
pub proof fn law_dependencies_are_judged(
    plan: Seq<BootService>,
    r: RestartView,
    k: int,
    recorded_skipped: bool,
    alive: bool,
)
    requires
        0 <= r.cursor < plan.len(),
        0 <= k < plan[r.cursor].depends_on@.len() <= usize::MAX,
    ensures
        ({
            let s = plan[r.cursor];
            let d = s.depends_on@[k];
            let x = d.service@;
            let n = judged(plan, r, k, recorded_skipped, alive);
            let out = r.skipped.contains(x) || recorded_skipped;
            let completes = d.condition == DependsOnCondition::Completed;
            let ready = {
                &&& !r.failed.contains(x)
                &&& r.selected.contains(x) ==> r.healthy.contains(x)
                &&& !r.selected.contains(x) && !completes ==> alive
            };
            &&& out ==> n == (RestartView {
                pending: RestartAction::StopSkipped { service: r.cursor as usize },
                ..r
            })
            &&& !out && !ready ==> n == run_on(
                plan,
                RestartView {
                    cursor: r.cursor + 1,
                    failed: r.failed.insert(s.name@),
                    error: if r.error is Some {
                        r.error
                    } else {
                        Some(
                            ProcessManagerError::DependencyFailed {
                                service: s.name,
                                dependency: d.service,
                            },
                        )
                    },
                    ..r
                },
                None,
            )
            &&& !out && ready && completes && !r.completed.contains(x) ==> n == (RestartView {
                pending: RestartAction::AwaitCompletion {
                    service: r.cursor as usize,
                    dependency: k as usize,
                },
                ..r
            })
            &&& !out && ready && (completes ==> r.completed.contains(x)) && k + 1
                < s.depends_on@.len() ==> n == (RestartView {
                pending: RestartAction::Observe {
                    service: r.cursor as usize,
                    dependency: (k + 1) as usize,
                },
                ..r
            })
            &&& !out && ready && (completes ==> r.completed.contains(x)) && k + 1
                == s.depends_on@.len() ==> n == (RestartView {
                pending: RestartAction::Restart { service: r.cursor as usize },
                ..r
            })
        }),
{
}

} // verus!
