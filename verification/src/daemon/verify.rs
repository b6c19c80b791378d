//! Restarting one service, and checking that services are still up shortly after a restart.

use vstd::prelude::*;

use crate::config::DeploymentStrategy;
use crate::daemon::monitor::ServiceProbe;
use crate::daemon::state_file::{ServiceLifecycleStatus, ServiceReadyState};
use crate::error::ProcessManagerError;
use crate::text::texts;

verus! {

/// What was seen of one restarted service.
pub struct RestartLook {
    /// Whether the restart saw it run to completion.
    pub completed: bool,
    /// Whether it is configured.
    pub configured: bool,
    /// Its recorded status. Another restart may have seen it complete.
    pub recorded: Option<ServiceLifecycleStatus>,
    /// Whether it is meant to stay up.
    pub meant_to_stay: bool,
    /// The looks at its process, first to last.
    pub probes: Vec<ServiceProbe>,
}

impl RestartLook {
    /// Whether the service need not be up.
    pub open spec fn is_exempt(&self) -> bool {
        self.completed || !self.configured || self.recorded == Some(
            ServiceLifecycleStatus::ExitedSuccessfully,
        ) || !self.meant_to_stay
    }

    /// Whether every look found the service running.
    pub open spec fn is_stable(&self) -> bool {
        forall|i: int| 0 <= i < self.probes@.len() ==> (#[trigger] self.probes@[i]) is Running
    }

    /// Whether another look is due: `attempts` are taken as long as the service is up.
    pub open spec fn looks_again(&self, attempts: usize) -> bool {
        !self.is_exempt() && self.is_stable() && self.probes@.len() < attempts
    }

    fn exempt(&self) -> (r: bool)
        ensures
            r == self.is_exempt(),
    {
        let finished = match self.recorded {
            Some(s) => s == ServiceLifecycleStatus::ExitedSuccessfully,
            None => false,
        };
        self.completed || !self.configured || finished || !self.meant_to_stay
    }

    fn stable(&self) -> (r: bool)
        ensures
            r == self.is_stable(),
    {
        let mut i: usize = 0;
        while i < self.probes.len()
            invariant
                i <= self.probes.len(),
                forall|j: int| 0 <= j < i ==> (#[trigger] self.probes@[j]) is Running,
            decreases self.probes.len() - i,
        {
            match self.probes[i] {
                ServiceProbe::Running => {},
                _ => {
                    assert(!(self.probes@[i as int] is Running));
                    return false;
                },
            }
            i = i + 1;
        }
        true
    }

    /// Whether another look is due.
    pub fn wants_probe(&self, attempts: usize) -> (r: bool)
        ensures
            r == self.looks_again(attempts),
    {
        !self.exempt() && self.stable() && self.probes.len() < attempts
    }
}

/// The services that should be up and are not.
pub open spec fn not_up(services: Seq<Seq<char>>, looks: Seq<RestartLook>) -> Seq<Seq<char>>
    decreases services.len(),
{
    if services.len() == 0 {
        seq![]
    } else {
        let before = not_up(services.drop_last(), looks.drop_last());
        if !looks.last().is_exempt() && !looks.last().is_stable() {
            before.push(services.last())
        } else {
            before
        }
    }
}

/// Verifies that the restarted services stay up; fails with those that do not.
pub fn verify_services_running(
    services: &Vec<String>,
    looks: &Vec<RestartLook>,
    attempts: usize,
) -> (r: Result<(), ProcessManagerError>)
    requires
        services@.len() == looks@.len(),
        forall|i: int| 0 <= i < looks@.len() ==> !(#[trigger] looks@[i]).looks_again(attempts),
    ensures
        match r {
            Ok(()) => not_up(texts(services@), looks@).len() == 0,
            Err(ProcessManagerError::ServicesNotRunning { services: failed }) => {
                &&& failed@.len() > 0
                &&& texts(failed@) == not_up(texts(services@), looks@)
            },
            Err(_) => false,
        },
{
    let ghost names = texts(services@);
    let mut failed: Vec<String> = Vec::new();
    let mut i: usize = 0;
    assert(names.take(0) =~= Seq::<Seq<char>>::empty());
    assert(texts(failed@) =~= Seq::<Seq<char>>::empty());
    while i < services.len()
        invariant
            i <= services.len(),
            services@.len() == looks@.len(),
            names == texts(services@),
            texts(failed@) == not_up(names.take(i as int), looks@.take(i as int)),
        decreases services.len() - i,
    {
        assert(names.take(i + 1).drop_last() =~= names.take(i as int));
        assert(looks@.take(i + 1).drop_last() =~= looks@.take(i as int));
        if !looks[i].exempt() && !looks[i].stable() {
            let ghost before = texts(failed@);
            failed.push(services[i].clone());
            assert(texts(failed@) =~= before.push(names[i as int]));
        }
        i = i + 1;
    }
    assert(names.take(names.len() as int) =~= names);
    assert(looks@.take(looks@.len() as int) =~= looks@);
    if failed.len() == 0 {
        Ok(())
    } else {
        Err(ProcessManagerError::ServicesNotRunning { services: failed })
    }
}

/// The next thing that restarting one service needs done.
#[derive(Debug, Clone, Copy, PartialEq, Eq, Structural)]
pub enum ServiceRestartAction {
    /// Replace the instance while the old one keeps running.
    Roll,
    /// Stop the service without ruling restarts out.
    Stop,
    /// Start the service.
    Start,
    /// Check that the service stays up.
    Verify {
        /// Whether it ran to completion.
        completed: bool,
    },
    /// Nothing: the restart is over.
    Done,
}

/// The restart of one service in progress.
pub struct ServiceRestart {
    /// What to do next.
    pub pending: ServiceRestartAction,
    /// Why the restart failed.
    pub error: Option<ProcessManagerError>,
    /// How the service is deployed and what was done so far.
    pub journal: Ghost<ServiceRestartJournal>,
}

/// How a service is deployed and what was done of its restart.
#[verifier::ext_equal]
pub struct ServiceRestartJournal {
    /// How it is deployed.
    pub strategy: DeploymentStrategy,
    /// What was reported as done, in order.
    pub done: Seq<ServiceRestartAction>,
    /// What was reported as failed.
    pub fell_at: Option<ServiceRestartAction>,
    /// How the service came up.
    pub came_up: Option<ServiceReadyState>,
}

/// What holds in every state of a restart that went through its methods.
pub open spec fn restart_sound(r: ServiceRestart) -> bool {
    let j = r.journal@;
    let replaced = match j.strategy {
        DeploymentStrategy::Rolling => Seq::empty().push(ServiceRestartAction::Roll),
        DeploymentStrategy::Immediate => Seq::empty().push(ServiceRestartAction::Stop).push(
            ServiceRestartAction::Start,
        ),
    };
    &&& r.error is Some <==> j.fell_at is Some
    &&& j.fell_at is Some ==> r.pending is Done
    &&& match r.pending {
        ServiceRestartAction::Roll => j.strategy is Rolling && j.done == Seq::<
            ServiceRestartAction,
        >::empty(),
        ServiceRestartAction::Stop => j.strategy is Immediate && j.done == Seq::<
            ServiceRestartAction,
        >::empty(),
        ServiceRestartAction::Start => j.strategy is Immediate && j.done == Seq::empty().push(
            ServiceRestartAction::Stop,
        ),
        ServiceRestartAction::Verify { completed } => {
            &&& j.done == replaced
            &&& j.came_up is Some
            &&& completed == (j.came_up->0 is CompletedSuccess)
        },
        ServiceRestartAction::Done => j.fell_at is None ==> {
            &&& j.came_up is Some
            &&& j.done == replaced.push(
                ServiceRestartAction::Verify { completed: j.came_up->0 is CompletedSuccess },
            )
        },
    }
}

impl ServiceRestart {
    /// Begins to restart a service the way it is deployed.
    pub fn begin(strategy: DeploymentStrategy) -> (r: Self)
        ensures
            restart_sound(r),
            r.journal@.strategy == strategy,
            r.error is None,
            r.pending == (match strategy {
                DeploymentStrategy::Rolling => ServiceRestartAction::Roll,
                DeploymentStrategy::Immediate => ServiceRestartAction::Stop,
            }),
    {
        ServiceRestart {
            pending: match strategy {
                DeploymentStrategy::Rolling => ServiceRestartAction::Roll,
                DeploymentStrategy::Immediate => ServiceRestartAction::Stop,
            },
            error: None,
            journal: Ghost(
                ServiceRestartJournal {
                    strategy,
                    done: Seq::empty(),
                    fell_at: None,
                    came_up: None,
                },
            ),
        }
    }

    /// The journal once the pending action was reported on, as done or as failed.
    pub open spec fn noted(self, done: bool) -> ServiceRestartJournal {
        if done {
            ServiceRestartJournal { done: self.journal@.done.push(self.pending), ..self.journal@ }
        } else {
            ServiceRestartJournal { fell_at: Some(self.pending), ..self.journal@ }
        }
    }

    /// Reports how the stop went. A service that could not be stopped is not started.
    pub fn stopped(&mut self, result: Result<(), ProcessManagerError>)
        requires
            old(self).pending is Stop,
        ensures
            restart_sound(*old(self)) ==> restart_sound(*final(self)),
            final(self).journal@ == old(self).noted(result is Ok),
            match result {
                Ok(()) => final(self).pending == ServiceRestartAction::Start && final(self).error
                    == old(self).error,
                Err(e) => final(self).pending == ServiceRestartAction::Done && final(self).error
                    == Some(e),
            },
    {
        let ghost j = self.noted(result is Ok);
        self.journal = Ghost(j);
        match result {
            Ok(()) => {
                self.pending = ServiceRestartAction::Start;
            },
            Err(e) => {
                self.pending = ServiceRestartAction::Done;
                self.error = Some(e);
            },
        }
    }

    /// Reports how the start or the rolling replacement went.
    pub fn started(&mut self, result: Result<ServiceReadyState, ProcessManagerError>)
        requires
            old(self).pending is Roll || old(self).pending is Start,
        ensures
            restart_sound(*old(self)) ==> restart_sound(*final(self)),
            final(self).journal@ == (match result {
                Ok(state) => (ServiceRestartJournal {
                    came_up: Some(state),
                    ..old(self).noted(true)
                }),
                Err(_) => old(self).noted(false),
            }),
            match result {
                Ok(state) => final(self).pending == (ServiceRestartAction::Verify {
                    completed: state is CompletedSuccess,
                }) && final(self).error == old(self).error,
                Err(e) => final(self).pending == ServiceRestartAction::Done && final(self).error
                    == Some(e),
            },
    {
        let ghost j = match result {
            Ok(state) => ServiceRestartJournal { came_up: Some(state), ..self.noted(true) },
            Err(_) => self.noted(false),
        };
        self.journal = Ghost(j);
        match result {
            Ok(state) => {
                let completed = state == ServiceReadyState::CompletedSuccess;
                self.pending = ServiceRestartAction::Verify { completed };
            },
            Err(e) => {
                self.pending = ServiceRestartAction::Done;
                self.error = Some(e);
            },
        }
    }

    /// Reports whether the service stayed up.
    pub fn verified(&mut self, result: Result<(), ProcessManagerError>)
        requires
            old(self).pending is Verify,
        ensures
            restart_sound(*old(self)) ==> restart_sound(*final(self)),
            final(self).journal@ == old(self).noted(result is Ok),
            final(self).pending is Done,
            final(self).error == (match result {
                Ok(()) => old(self).error,
                Err(e) => Some(e),
            }),
    {
        let ghost j = self.noted(result is Ok);
        self.journal = Ghost(j);
        self.pending = ServiceRestartAction::Done;
        match result {
            Ok(()) => {},
            Err(e) => {
                self.error = Some(e);
            },
        }
    }

    /// How the restart went.
    pub fn outcome(self) -> (r: Result<(), ProcessManagerError>)
        requires
            self.pending is Done,
        ensures
            r == (match self.error {
                Some(e) => Err::<(), ProcessManagerError>(e),
                None => Ok(()),
            }),
    {
        match self.error {
            Some(e) => Err(e),
            None => Ok(()),
        }
    }
}

/// A service that was restarted is reported exactly when it had to be up and some look did not find
/// it running. It need not be up when it ran to completion, is not configured, or is not meant to
/// stay.
pub proof fn law_down_services_are_reported(
    services: Seq<Seq<char>>,
    looks: Seq<RestartLook>,
    name: Seq<char>,
)
    requires
        services.len() == looks.len(),
    ensures
        not_up(services, looks).contains(name) <==> exists|i: int|
            0 <= i < services.len() && #[trigger] services[i] == name && {
                let l = looks[i];
                &&& !l.completed
                &&& l.configured
                &&& l.recorded != Some(ServiceLifecycleStatus::ExitedSuccessfully)
                &&& l.meant_to_stay
                &&& exists|k: int| 0 <= k < l.probes@.len() && !((#[trigger] l.probes@[k]) is Running)
            },
    decreases services.len(),
{
    if services.len() > 0 {
        let front = services.drop_last();
        let rest = looks.drop_last();
        law_down_services_are_reported(front, rest, name);
        let before = not_up(front, rest);
        let n = services.len() - 1;
        assert(forall|i: int| 0 <= i < n ==> front[i] == services[i] && rest[i] == looks[i]);
        let l = looks.last();
        if before.contains(name) {
            let k = choose|k: int| 0 <= k < before.len() && before[k] == name;
            assert(before.push(services.last())[k] == name);
            let i = choose|i: int|
                0 <= i < front.len() && #[trigger] front[i] == name && !rest[i].completed
                    && rest[i].configured && rest[i].recorded != Some(
                    ServiceLifecycleStatus::ExitedSuccessfully,
                ) && rest[i].meant_to_stay && exists|k: int|
                    0 <= k < rest[i].probes@.len() && !((#[trigger] rest[i].probes@[k]) is Running);
            assert(services[i] == name);
        }
        if !l.is_exempt() && !l.is_stable() {
            assert(before.push(services.last())[before.len() as int] == services.last());
            if before.push(services.last()).contains(name) && !before.contains(name) {
                let k = choose|k: int|
                    0 <= k < before.len() + 1 && before.push(services.last())[k] == name;
                if k < before.len() {
                    assert(before[k] == name);
                }
                assert(services[n] == name);
            }
        }
    }
}

/// Another look is taken as long as the service has to be up, every look found it running, and fewer
/// looks were taken than are wanted.
pub proof fn law_looks_go_on_while_up(l: RestartLook, attempts: usize)
    ensures
        l.looks_again(attempts) ==> l.probes@.len() < attempts && !l.completed && l.configured
            && l.meant_to_stay,
        !l.completed && l.configured && l.meant_to_stay && l.recorded != Some(
            ServiceLifecycleStatus::ExitedSuccessfully,
        ) && l.probes@.len() < attempts && (forall|i: int|
            0 <= i < l.probes@.len() ==> (#[trigger] l.probes@[i]) is Running)
            ==> l.looks_again(attempts),
{
}

/// A service that is rolled is replaced without a stop; any other is stopped before it is started.
/// Either way the restart ends well only after the service was seen to stay up, and a step that
/// failed is its last.
pub proof fn law_restart_goes_by_strategy(r: ServiceRestart)
    requires
        restart_sound(r),
    ensures
        r.pending is Start ==> r.journal@.done == seq![ServiceRestartAction::Stop],
        r.pending is Verify && r.journal@.strategy is Rolling ==> r.journal@.done == seq![
            ServiceRestartAction::Roll,
        ],
        r.pending is Verify && r.journal@.strategy is Immediate ==> r.journal@.done == seq![
            ServiceRestartAction::Stop,
            ServiceRestartAction::Start,
        ],
        r.pending is Done && r.error is None ==> r.journal@.done.len() > 0
            && r.journal@.done.last() is Verify,
        r.pending is Done && r.error is None && r.journal@.strategy is Immediate
            ==> r.journal@.done[0] == ServiceRestartAction::Stop && r.journal@.done[1]
            == ServiceRestartAction::Start && r.journal@.done.len() == 3,
        r.journal@.fell_at is Some ==> r.pending is Done && r.error is Some,
{
}

} // verus!
