//! One pass of the monitor over all services, and stopping many services.

use vstd::prelude::*;

use crate::daemon::monitor::ExitVerdict;
use crate::error::ProcessManagerError;
use crate::text::texts;

verus! {

// ---------------------------------------------------------------------------
// The monitor
// ---------------------------------------------------------------------------

/// The next thing a pass of the monitor needs done. Services go by their position.
#[derive(Debug, Clone, Copy, PartialEq, Eq, Structural)]
pub enum PassAction {
    /// Take in the exit of a service.
    TakeExit {
        /// Which of the exits.
        exited: usize,
    },
    /// Stop what depends on a service that failed.
    StopDependents {
        /// Which of the failed services.
        failed: usize,
    },
    /// Bring back what fell with a dependency that is well again.
    ReviveFallen,
    /// Correct what is recorded of a configured service.
    ClearStale {
        /// The service.
        service: usize,
    },
    /// Look whether a configured service is lost.
    LookForLost {
        /// The service.
        service: usize,
    },
    /// Restart a service.
    Restart {
        /// Which of the restarts.
        due: usize,
    },
    /// Nothing until the next pass.
    Rest,
}

/// A restart that is due.
#[derive(Debug, PartialEq, Eq)]
pub struct DueRestart {
    /// The service.
    pub name: String,
    /// The process group that was recorded for it.
    pub group: Option<i32>,
}

/// A pass of the monitor in progress: exits first, then the dependents of what failed, then what can
/// be revived, then what is recorded wrongly, then what is lost, and restarts last.
pub struct MonitorPass {
    /// The services that were seen to exit.
    pub exited: Vec<String>,
    /// The configured services.
    pub services: Vec<String>,
    /// The services that failed.
    pub failed: Vec<String>,
    /// The restarts that are due.
    pub due: Vec<DueRestart>,
    /// What to do next.
    pub pending: PassAction,
    /// What was reported so far.
    pub journal: Ghost<PassJournal>,
}

/// What was reported to a pass.
#[verifier::ext_equal]
pub struct PassJournal {
    /// What each exit amounted to, with the process group that was recorded.
    pub exits: Seq<(Option<ExitVerdict>, Option<i32>)>,
    /// Of how many failed services the dependents were stopped.
    pub stopped: nat,
    /// Of how many services the record was corrected.
    pub corrected: nat,
    /// Whether each service was lost and claimed, with the process group that was recorded.
    pub looks: Seq<(bool, Option<i32>)>,
    /// How many restarts were begun.
    pub begun: nat,
}

/// Whether an exit is that of a service that failed.
pub open spec fn is_crash(exit: (Option<ExitVerdict>, Option<i32>)) -> bool {
    exit.0 is Some && exit.0->0 is Crashed
}

/// Whether an exit calls for a restart.
pub open spec fn is_due(exit: (Option<ExitVerdict>, Option<i32>)) -> bool {
    exit.0 == Some(ExitVerdict::Crashed { restart: true })
}

/// A restart that is due, as names and numbers.
pub open spec fn due_of(v: Seq<DueRestart>) -> Seq<(Seq<char>, Option<i32>)> {
    v.map_values(|d: DueRestart| (d.name@, d.group))
}

/// What comes after the first `n` exits.
pub open spec fn after_exits(exited: int, failed: int, n: int) -> PassAction {
    if n < exited {
        PassAction::TakeExit { exited: n as usize }
    } else {
        after_failures(failed, 0)
    }
}

/// What comes after the dependents of the first `n` failed services.
pub open spec fn after_failures(failed: int, n: int) -> PassAction {
    if n < failed {
        PassAction::StopDependents { failed: n as usize }
    } else {
        PassAction::ReviveFallen
    }
}

/// What comes after the records of the first `n` configured services.
pub open spec fn after_records(services: int, due: int, n: int) -> PassAction {
    if n < services {
        PassAction::ClearStale { service: n as usize }
    } else {
        after_looks(services, due, 0)
    }
}

/// What comes after the looks at the first `n` configured services.
pub open spec fn after_looks(services: int, due: int, n: int) -> PassAction {
    if n < services {
        PassAction::LookForLost { service: n as usize }
    } else {
        after_restarts(due, 0)
    }
}

/// What comes after the first `n` restarts.
pub open spec fn after_restarts(due: int, n: int) -> PassAction {
    if n < due {
        PassAction::Restart { due: n as usize }
    } else {
        PassAction::Rest
    }
}

fn exits_next(exited: usize, failed: usize, n: usize) -> (r: PassAction)
    ensures
        r == after_exits(exited as int, failed as int, n as int),
{
    if n < exited {
        PassAction::TakeExit { exited: n }
    } else {
        failures_next(failed, 0)
    }
}

fn failures_next(failed: usize, n: usize) -> (r: PassAction)
    ensures
        r == after_failures(failed as int, n as int),
{
    if n < failed {
        PassAction::StopDependents { failed: n }
    } else {
        PassAction::ReviveFallen
    }
}

fn looks_next(services: usize, due: usize, n: usize) -> (r: PassAction)
    ensures
        r == after_looks(services as int, due as int, n as int),
{
    if n < services {
        PassAction::LookForLost { service: n }
    } else {
        restarts_next(due, 0)
    }
}

fn records_next(services: usize, due: usize, n: usize) -> (r: PassAction)
    ensures
        r == after_records(services as int, due as int, n as int),
{
    if n < services {
        PassAction::ClearStale { service: n }
    } else {
        looks_next(services, due, 0)
    }
}

fn restarts_next(due: usize, n: usize) -> (r: PassAction)
    ensures
        r == after_restarts(due as int, n as int),
{
    if n < due {
        PassAction::Restart { due: n }
    } else {
        PassAction::Rest
    }
}

/// Whether the lists hold what was reported: every failed service, and every service that is to be
/// restarted because it failed or was lost, and nothing else.
pub open spec fn lists_fit(
    exited: Seq<Seq<char>>,
    services: Seq<Seq<char>>,
    failed: Seq<Seq<char>>,
    due: Seq<(Seq<char>, Option<i32>)>,
    exits: Seq<(Option<ExitVerdict>, Option<i32>)>,
    looks: Seq<(bool, Option<i32>)>,
) -> bool {
    &&& exits.len() <= exited.len()
    &&& looks.len() <= services.len()
    &&& forall|i: int|
        0 <= i < exits.len() && is_crash(#[trigger] exits[i]) ==> failed.contains(exited[i])
    &&& forall|n: Seq<char>| #[trigger]
        failed.contains(n) ==> exists|i: int|
            0 <= i < exits.len() && is_crash(#[trigger] exits[i]) && exited[i] == n
    &&& forall|i: int|
        0 <= i < exits.len() && is_due(#[trigger] exits[i]) ==> due.contains(
            (exited[i], exits[i].1),
        )
    &&& forall|i: int|
        0 <= i < looks.len() && (#[trigger] looks[i]).0 ==> due.contains((services[i], looks[i].1))
    &&& forall|d: (Seq<char>, Option<i32>)| #[trigger]
        due.contains(d) ==> ({
            ||| exists|i: int|
                0 <= i < exits.len() && is_due(#[trigger] exits[i]) && d == (exited[i], exits[i].1)
            ||| exists|i: int|
                0 <= i < looks.len() && (#[trigger] looks[i]).0 && d == (services[i], looks[i].1)
        })
}

proof fn lemma_push_contains<T>(s: Seq<T>, x: T)
    ensures
        forall|y: T| #[trigger] s.push(x).contains(y) <==> s.contains(y) || y == x,
{
    assert forall|y: T| #[trigger] s.push(x).contains(y) <==> s.contains(y) || y == x by {
        if s.contains(y) {
            let k = choose|k: int| 0 <= k < s.len() && s[k] == y;
            assert(s.push(x)[k] == y);
        }
        assert(s.push(x)[s.len() as int] == x);
        if s.push(x).contains(y) {
            let k = choose|k: int| 0 <= k < s.push(x).len() && s.push(x)[k] == y;
            if k < s.len() {
                assert(s[k] == y);
            }
        }
    }
}

proof fn lemma_exit_listed(
    exited: Seq<Seq<char>>,
    services: Seq<Seq<char>>,
    failed: Seq<Seq<char>>,
    due: Seq<(Seq<char>, Option<i32>)>,
    exits: Seq<(Option<ExitVerdict>, Option<i32>)>,
    looks: Seq<(bool, Option<i32>)>,
    exit: (Option<ExitVerdict>, Option<i32>),
)
    requires
        lists_fit(exited, services, failed, due, exits, looks),
        exits.len() < exited.len(),
    ensures
        lists_fit(
            exited,
            services,
            if is_crash(exit) {
                failed.push(exited[exits.len() as int])
            } else {
                failed
            },
            if is_due(exit) {
                due.push((exited[exits.len() as int], exit.1))
            } else {
                due
            },
            exits.push(exit),
            looks,
        ),
{
    let name = exited[exits.len() as int];
    let all = exits.push(exit);
    let n = exits.len() as int;
    lemma_push_contains(failed, name);
    lemma_push_contains(due, (name, exit.1));
    assert(forall|i: int| 0 <= i < n ==> all[i] == exits[i]);
    assert(all[n] == exit);
    let failed2 = if is_crash(exit) {
        failed.push(name)
    } else {
        failed
    };
    let due2 = if is_due(exit) {
        due.push((name, exit.1))
    } else {
        due
    };
    assert forall|x: Seq<char>| #[trigger] failed2.contains(x) implies exists|i: int|
        0 <= i < all.len() && is_crash(#[trigger] all[i]) && exited[i] == x by {
        if failed.contains(x) {
            let i = choose|i: int|
                0 <= i < exits.len() && is_crash(#[trigger] exits[i]) && exited[i] == x;
            assert(all[i] == exits[i]);
        } else {
            assert(is_crash(all[n]) && exited[n] == x);
        }
    }
    assert forall|d: (Seq<char>, Option<i32>)| #[trigger] due2.contains(d) implies ({
        ||| exists|i: int|
            0 <= i < all.len() && is_due(#[trigger] all[i]) && d == (exited[i], all[i].1)
        ||| exists|i: int|
            0 <= i < looks.len() && (#[trigger] looks[i]).0 && d == (services[i], looks[i].1)
    }) by {
        if due.contains(d) {
            if exists|i: int|
                0 <= i < exits.len() && is_due(#[trigger] exits[i]) && d == (
                    exited[i],
                    exits[i].1,
                ) {
                let i = choose|i: int|
                    0 <= i < exits.len() && is_due(#[trigger] exits[i]) && d == (
                        exited[i],
                        exits[i].1,
                    );
                assert(all[i] == exits[i]);
            }
        } else {
            assert(is_due(all[n]) && d == (exited[n], all[n].1));
        }
    }
}

proof fn lemma_look_listed(
    exited: Seq<Seq<char>>,
    services: Seq<Seq<char>>,
    failed: Seq<Seq<char>>,
    due: Seq<(Seq<char>, Option<i32>)>,
    exits: Seq<(Option<ExitVerdict>, Option<i32>)>,
    looks: Seq<(bool, Option<i32>)>,
    look: (bool, Option<i32>),
)
    requires
        lists_fit(exited, services, failed, due, exits, looks),
        looks.len() < services.len(),
    ensures
        lists_fit(
            exited,
            services,
            failed,
            if look.0 {
                due.push((services[looks.len() as int], look.1))
            } else {
                due
            },
            exits,
            looks.push(look),
        ),
{
    let name = services[looks.len() as int];
    let all = looks.push(look);
    let n = looks.len() as int;
    lemma_push_contains(due, (name, look.1));
    assert(forall|i: int| 0 <= i < n ==> all[i] == looks[i]);
    assert(all[n] == look);
    let due2 = if look.0 {
        due.push((name, look.1))
    } else {
        due
    };
    assert forall|d: (Seq<char>, Option<i32>)| #[trigger] due2.contains(d) implies ({
        ||| exists|i: int|
            0 <= i < exits.len() && is_due(#[trigger] exits[i]) && d == (exited[i], exits[i].1)
        ||| exists|i: int|
            0 <= i < all.len() && (#[trigger] all[i]).0 && d == (services[i], all[i].1)
    }) by {
        if due.contains(d) {
            if exists|i: int|
                0 <= i < looks.len() && (#[trigger] looks[i]).0 && d == (
                    services[i],
                    looks[i].1,
                ) {
                let i = choose|i: int|
                    0 <= i < looks.len() && (#[trigger] looks[i]).0 && d == (
                        services[i],
                        looks[i].1,
                    );
                assert(all[i] == looks[i]);
            }
        } else {
            assert(all[n].0 && d == (services[n], all[n].1));
        }
    }
}

impl MonitorPass {
    /// Whether the pass has lists that only grow, and points into them.
    pub open spec fn sound(&self) -> bool {
        &&& match self.pending {
            PassAction::TakeExit { exited } => exited < self.exited@.len(),
            PassAction::StopDependents { failed } => failed < self.failed@.len(),
            PassAction::ReviveFallen => true,
            PassAction::ClearStale { service } => service < self.services@.len(),
            PassAction::LookForLost { service } => service < self.services@.len(),
            PassAction::Restart { due } => due < self.due@.len(),
            PassAction::Rest => true,
        }
        &&& self.is_on_course()
        &&& lists_fit(
            texts(self.exited@),
            texts(self.services@),
            texts(self.failed@),
            due_of(self.due@),
            self.journal@.exits,
            self.journal@.looks,
        )
    }

    /// Whether what was reported fits where the pass stands.
    pub open spec fn is_on_course(&self) -> bool {
        let j = self.journal@;
        let exits = j.exits.len() == self.exited@.len();
        let stopped = j.stopped == self.failed@.len();
        let corrected = j.corrected == self.services@.len();
        let looked = j.looks.len() == self.services@.len();
        match self.pending {
            PassAction::TakeExit { exited } => j.exits.len() == exited && j.looks.len() == 0
                && j.stopped == 0 && j.corrected == 0 && j.begun == 0,
            PassAction::StopDependents { failed } => exits && j.stopped == failed && j.looks.len()
                == 0 && j.corrected == 0 && j.begun == 0,
            PassAction::ReviveFallen => exits && stopped && j.looks.len() == 0 && j.corrected == 0
                && j.begun == 0,
            PassAction::ClearStale { service } => exits && stopped && j.corrected == service
                && j.looks.len() == 0 && j.begun == 0,
            PassAction::LookForLost { service } => exits && stopped && corrected && j.looks.len()
                == service && j.begun == 0,
            PassAction::Restart { due } => exits && stopped && corrected && looked && j.begun
                == due,
            PassAction::Rest => exits && stopped && corrected && looked && j.begun
                == self.due@.len(),
        }
    }

    /// Begins a pass over the services that exited and those that are configured.
    pub fn begin(exited: Vec<String>, services: Vec<String>) -> (r: Self)
        ensures
            r.sound(),
            r.exited == exited,
            r.services == services,
            r.failed@.len() == 0,
            r.due@.len() == 0,
            r.pending == after_exits(exited@.len() as int, 0, 0),
    {
        let pending = exits_next(exited.len(), 0, 0);
        MonitorPass {
            exited,
            services,
            failed: Vec::new(),
            due: Vec::new(),
            pending,
            journal: Ghost(
                PassJournal {
                    exits: Seq::empty(),
                    stopped: 0,
                    corrected: 0,
                    looks: Seq::empty(),
                    begun: 0,
                },
            ),
        }
    }

    /// Takes in what an exit amounted to; none when it could not be looked at. A failed service
    /// takes its dependents down, and is restarted when that is due. `group` is the process group
    /// that was recorded for it.
    pub fn exit_taken(&mut self, verdict: Option<ExitVerdict>, group: Option<i32>)
        requires
            old(self).sound(),
            old(self).pending is TakeExit,
        ensures
            final(self).journal@ == (PassJournal { exits: old(self).journal@.exits.push((verdict, group)), ..old(self).journal@ }),
            final(self).sound(),
            final(self).exited == old(self).exited,
            final(self).services == old(self).services,
            ({
                let i = old(self).pending->exited;
                let name = old(self).exited@[i as int]@;
                let crashed = verdict is Some && verdict->0 is Crashed;
                let restart = crashed && verdict->0->restart;
                &&& texts(final(self).failed@) == (if crashed {
                    texts(old(self).failed@).push(name)
                } else {
                    texts(old(self).failed@)
                })
                &&& due_of(final(self).due@) == (if restart {
                    due_of(old(self).due@).push((name, group))
                } else {
                    due_of(old(self).due@)
                })
                &&& final(self).pending == after_exits(
                    old(self).exited@.len() as int,
                    final(self).failed@.len() as int,
                    i + 1,
                )
            }),
    {
        proof {
            lemma_exit_listed(
                texts(self.exited@),
                texts(self.services@),
                texts(self.failed@),
                due_of(self.due@),
                self.journal@.exits,
                self.journal@.looks,
                (verdict, group),
            );
        }
        let ghost j = PassJournal { exits: self.journal@.exits.push((verdict, group)), ..self.journal@ };
        self.journal = Ghost(j);
        let i: usize = match self.pending {
            PassAction::TakeExit { exited } => exited,
            _ => 0,
        };
        let ghost failed0 = texts(self.failed@);
        let ghost due0 = due_of(self.due@);
        if let Some(ExitVerdict::Crashed { restart }) = verdict {
            let name = self.exited[i].clone();
            self.failed.push(name);
            assert(texts(self.failed@) =~= failed0.push(self.exited@[i as int]@));
            if restart {
                let name = self.exited[i].clone();
                self.due.push(DueRestart { name, group });
                assert(due_of(self.due@) =~= due0.push((self.exited@[i as int]@, group)));
            }
        }
        let n: usize = self.exited.len();
        self.pending = exits_next(n, self.failed.len(), i + 1);
    }

    /// Goes on once the dependents of a failed service are stopped.
    pub fn dependents_stopped(&mut self)
        requires
            old(self).sound(),
            old(self).pending is StopDependents,
        ensures
            final(self).journal@ == (PassJournal { stopped: old(self).journal@.stopped + 1, ..old(self).journal@ }),
            final(self).sound(),
            final(self).exited == old(self).exited,
            final(self).services == old(self).services,
            final(self).failed == old(self).failed,
            final(self).due == old(self).due,
            final(self).pending == after_failures(
                old(self).failed@.len() as int,
                old(self).pending->failed + 1,
            ),
    {
        let ghost j = PassJournal { stopped: self.journal@.stopped + 1, ..self.journal@ };
        self.journal = Ghost(j);
        let i: usize = match self.pending {
            PassAction::StopDependents { failed } => failed,
            _ => 0,
        };
        let n: usize = self.failed.len();
        self.pending = failures_next(n, i + 1);
    }

    /// Goes on once fallen services were revived.
    pub fn revived(&mut self)
        requires
            old(self).sound(),
            old(self).pending is ReviveFallen,
        ensures
            final(self).journal@ == old(self).journal@,
            final(self).sound(),
            final(self).exited == old(self).exited,
            final(self).services == old(self).services,
            final(self).failed == old(self).failed,
            final(self).due == old(self).due,
            final(self).pending == after_records(
                old(self).services@.len() as int,
                old(self).due@.len() as int,
                0,
            ),
    {
        self.pending = records_next(self.services.len(), self.due.len(), 0);
    }

    /// Goes on once what is recorded of a service was corrected.
    pub fn record_corrected(&mut self)
        requires
            old(self).sound(),
            old(self).pending is ClearStale,
        ensures
            final(self).journal@ == (PassJournal { corrected: old(self).journal@.corrected + 1, ..old(self).journal@ }),
            final(self).sound(),
            final(self).exited == old(self).exited,
            final(self).services == old(self).services,
            final(self).failed == old(self).failed,
            final(self).due == old(self).due,
            final(self).pending == after_records(
                old(self).services@.len() as int,
                old(self).due@.len() as int,
                old(self).pending->ClearStale_service + 1,
            ),
    {
        let ghost j = PassJournal { corrected: self.journal@.corrected + 1, ..self.journal@ };
        self.journal = Ghost(j);
        let i: usize = match self.pending {
            PassAction::ClearStale { service } => service,
            _ => 0,
        };
        let n: usize = self.services.len();
        self.pending = records_next(n, self.due.len(), i + 1);
    }

    /// Takes in whether a service is lost and was claimed for a restart. `group` is the process
    /// group that was recorded for it.
    pub fn looked(&mut self, claimed: bool, group: Option<i32>)
        requires
            old(self).sound(),
            old(self).pending is LookForLost,
        ensures
            final(self).journal@ == (PassJournal { looks: old(self).journal@.looks.push((claimed, group)), ..old(self).journal@ }),
            final(self).sound(),
            final(self).exited == old(self).exited,
            final(self).services == old(self).services,
            final(self).failed == old(self).failed,
            ({
                let i = old(self).pending->LookForLost_service;
                &&& due_of(final(self).due@) == (if claimed {
                    due_of(old(self).due@).push((old(self).services@[i as int]@, group))
                } else {
                    due_of(old(self).due@)
                })
                &&& final(self).pending == after_looks(
                    old(self).services@.len() as int,
                    final(self).due@.len() as int,
                    i + 1,
                )
            }),
    {
        proof {
            lemma_look_listed(
                texts(self.exited@),
                texts(self.services@),
                texts(self.failed@),
                due_of(self.due@),
                self.journal@.exits,
                self.journal@.looks,
                (claimed, group),
            );
        }
        let ghost j = PassJournal { looks: self.journal@.looks.push((claimed, group)), ..self.journal@ };
        self.journal = Ghost(j);
        let i: usize = match self.pending {
            PassAction::LookForLost { service } => service,
            _ => 0,
        };
        let ghost due0 = due_of(self.due@);
        if claimed {
            let name = self.services[i].clone();
            self.due.push(DueRestart { name, group });
            assert(due_of(self.due@) =~= due0.push((self.services@[i as int]@, group)));
        }
        let n: usize = self.services.len();
        self.pending = looks_next(n, self.due.len(), i + 1);
    }

    /// Goes on once a restart is under way.
    pub fn restart_begun(&mut self)
        requires
            old(self).sound(),
            old(self).pending is Restart,
        ensures
            final(self).journal@ == (PassJournal { begun: old(self).journal@.begun + 1, ..old(self).journal@ }),
            final(self).sound(),
            final(self).exited == old(self).exited,
            final(self).services == old(self).services,
            final(self).failed == old(self).failed,
            final(self).due == old(self).due,
            final(self).pending == after_restarts(
                old(self).due@.len() as int,
                old(self).pending->due + 1,
            ),
    {
        let ghost j = PassJournal { begun: self.journal@.begun + 1, ..self.journal@ };
        self.journal = Ghost(j);
        let i: usize = match self.pending {
            PassAction::Restart { due } => due,
            _ => 0,
        };
        let n: usize = self.due.len();
        self.pending = restarts_next(n, i + 1);
    }
}

/// How far along a pass is: the phases come one after the other, and each goes through its list
/// from the front.
pub open spec fn progress(a: PassAction) -> (int, int) {
    match a {
        PassAction::TakeExit { exited } => (0, exited as int),
        PassAction::StopDependents { failed } => (1, failed as int),
        PassAction::ReviveFallen => (2, 0),
        PassAction::ClearStale { service } => (3, service as int),
        PassAction::LookForLost { service } => (4, service as int),
        PassAction::Restart { due } => (5, due as int),
        PassAction::Rest => (6, 0),
    }
}

/// A pass never goes back: after the exit, failure, record, look or restart at position `n`, what
/// comes next is the following one or a later phase. So every pass ends.
pub proof fn law_a_pass_goes_forward(exited: int, failed: int, services: int, due: int, n: int)
    requires
        0 <= n < usize::MAX,
        0 <= exited <= usize::MAX,
        0 <= failed <= usize::MAX,
        0 <= services <= usize::MAX,
        0 <= due <= usize::MAX,
    ensures
        progress(after_exits(exited, failed, n + 1)).0 > 0 || progress(
            after_exits(exited, failed, n + 1),
        ).1 == n + 1,
        progress(after_failures(failed, n + 1)).0 > 1 || progress(
            after_failures(failed, n + 1),
        ).1 == n + 1,
        progress(after_records(services, due, n + 1)).0 > 3 || progress(
            after_records(services, due, n + 1),
        ).1 == n + 1,
        progress(after_looks(services, due, n + 1)).0 > 4 || progress(
            after_looks(services, due, n + 1),
        ).1 == n + 1,
        progress(after_restarts(due, n + 1)).0 > 5 || progress(after_restarts(due, n + 1)).1 == n
            + 1,
{
}

/// Whether what is left of a service's recorded process group goes before a restart.
pub open spec fn is_reaped(recorded: Option<i32>, current: Option<i32>, has_child: bool) -> bool {
    !(recorded is Some && recorded == current && has_child)
}

/// What is left of a recorded group goes before a restart, unless an instance runs by now in that
/// very group.
pub proof fn law_fresh_instance_is_spared(group: i32, current: Option<i32>, has_child: bool)
    ensures
        is_reaped(Some(group), Some(group), true) == false,
        current != Some(group) ==> is_reaped(Some(group), current, has_child),
        is_reaped(Some(group), current, false),
{
}

/// Whether what is left of a service's recorded process group goes before a restart: not when the
/// group is that of an instance that runs by now.
pub fn reaps_before_restart(recorded: Option<i32>, current: Option<i32>, has_child: bool) -> (r: bool)
    ensures
        r == is_reaped(recorded, current, has_child),
        r == !(recorded is Some && recorded == current && has_child),
{
    match (recorded, current) {
        (Some(a), Some(b)) => !(a == b && has_child),
        _ => true,
    }
}

// ---------------------------------------------------------------------------
// Stopping many services
// ---------------------------------------------------------------------------

/// Stopping one service after the other. A failure does not keep the others from being stopped; the
/// first one is reported in the end.
pub struct StopAll {
    /// The services.
    pub services: Vec<String>,
    /// The next one.
    pub cursor: usize,
    /// The first failure.
    pub error: Option<ProcessManagerError>,
    /// How stopping each service went.
    pub journal: Ghost<Seq<Result<(), ProcessManagerError>>>,
}

impl StopAll {
    /// Whether the next service is one of the list, or the list is through, and the first failure is
    /// kept.
    pub open spec fn sound(&self) -> bool {
        &&& self.cursor <= self.services@.len()
        &&& self.journal@.len() == self.cursor
        &&& self.error is None ==> forall|i: int|
            0 <= i < self.journal@.len() ==> (#[trigger] self.journal@[i]) is Ok
        &&& self.error is Some ==> exists|i: int|
            0 <= i < self.journal@.len() && #[trigger] self.journal@[i] == Err::<
                (),
                ProcessManagerError,
            >(self.error->0) && forall|j: int|
                0 <= j < i ==> (#[trigger] self.journal@[j]) is Ok
    }

    /// Begins to stop services.
    pub fn begin(services: Vec<String>) -> (r: Self)
        ensures
            r.sound(),
            r.services == services,
            r.cursor == 0,
            r.error is None,
    {
        StopAll { services, cursor: 0, error: None, journal: Ghost(Seq::empty()) }
    }

    /// The next service to stop.
    pub fn next(&self) -> (r: Option<&String>)
        requires
            self.sound(),
        ensures
            match r {
                Some(s) => self.cursor < self.services@.len() && *s
                    == self.services@[self.cursor as int],
                None => self.cursor == self.services@.len(),
            },
    {
        if self.cursor < self.services.len() {
            Some(&self.services[self.cursor])
        } else {
            None
        }
    }

    /// Takes in how stopping the next service went.
    pub fn stopped(&mut self, result: Result<(), ProcessManagerError>)
        requires
            old(self).sound(),
            old(self).cursor < old(self).services@.len(),
        ensures
            final(self).sound(),
            final(self).services == old(self).services,
            final(self).journal@ == old(self).journal@.push(result),
            final(self).cursor == old(self).cursor + 1,
            final(self).error == (match (old(self).error, result) {
                (None, Err(e)) => Some(e),
                _ => old(self).error,
            }),
    {
        let n: usize = self.services.len();
        assert(self.cursor < n);
        let ghost before = self.journal@;
        let ghost j = before.push(result);
        self.journal = Ghost(j);
        proof {
            assert(j[before.len() as int] == result);
            assert(forall|i: int| 0 <= i < before.len() ==> j[i] == before[i]);
            if self.error is Some {
                let i = choose|i: int|
                    0 <= i < before.len() && #[trigger] before[i] == Err::<
                        (),
                        ProcessManagerError,
                    >(self.error->0) && forall|k: int|
                        0 <= k < i ==> (#[trigger] before[k]) is Ok;
                assert(j[i] == before[i]);
            }
        }
        self.cursor = self.cursor + 1;
        match result {
            Err(e) => {
                if self.error.is_none() {
                    self.error = Some(e);
                }
            },
            Ok(()) => {},
        }
    }

    /// How it all went.
    pub fn outcome(self) -> (r: Result<(), ProcessManagerError>)
        ensures
            match self.error {
                Some(e) => r == Err::<(), ProcessManagerError>(e),
                None => r is Ok,
            },
    {
        match self.error {
            Some(e) => Err(e),
            None => Ok(()),
        }
    }
}

/// A pass rests only when every exit was taken in, the dependents of every failed service were
/// stopped, every record was corrected, every service was looked at, and every restart that was due
/// was begun.
pub proof fn law_pass_leaves_nothing_out(p: MonitorPass)
    requires
        p.sound(),
        p.pending is Rest,
    ensures
        p.journal@.exits.len() == p.exited@.len(),
        p.journal@.stopped == p.failed@.len(),
        p.journal@.corrected == p.services@.len(),
        p.journal@.looks.len() == p.services@.len(),
        p.journal@.begun == p.due@.len(),
{
}

/// The dependents of a service are stopped exactly when its exit amounted to a failure.
pub proof fn law_failures_take_dependents_down(p: MonitorPass, name: Seq<char>)
    requires
        p.sound(),
    ensures
        texts(p.failed@).contains(name) <==> exists|i: int|
            0 <= i < p.journal@.exits.len() && #[trigger] p.journal@.exits[i].0 is Some
                && p.journal@.exits[i].0->0 is Crashed && texts(p.exited@)[i] == name,
{
    if texts(p.failed@).contains(name) {
        let i = choose|i: int|
            0 <= i < p.journal@.exits.len() && is_crash(#[trigger] p.journal@.exits[i]) && texts(
                p.exited@,
            )[i] == name;
        assert(p.journal@.exits[i].0 is Some);
    }
}

/// A service is restarted in a pass exactly when it failed and its failure calls for a restart, or it
/// was found lost and claimed.
pub proof fn law_restarts_have_a_reason(p: MonitorPass, name: Seq<char>, group: Option<i32>)
    requires
        p.sound(),
    ensures
        due_of(p.due@).contains((name, group)) <==> ({
            ||| exists|i: int|
                0 <= i < p.journal@.exits.len() && #[trigger] p.journal@.exits[i] == (
                    Some(ExitVerdict::Crashed { restart: true }),
                    group,
                ) && texts(p.exited@)[i] == name
            ||| exists|i: int|
                0 <= i < p.journal@.looks.len() && #[trigger] p.journal@.looks[i] == (true, group)
                    && texts(p.services@)[i] == name
        }),
{
    let j = p.journal@;
    let d = (name, group);
    if due_of(p.due@).contains(d) {
        if exists|i: int|
            0 <= i < j.exits.len() && is_due(#[trigger] j.exits[i]) && d == (
                texts(p.exited@)[i],
                j.exits[i].1,
            ) {
            let i = choose|i: int|
                0 <= i < j.exits.len() && is_due(#[trigger] j.exits[i]) && d == (
                    texts(p.exited@)[i],
                    j.exits[i].1,
                );
            assert(j.exits[i] == (Some(ExitVerdict::Crashed { restart: true }), group));
        } else {
            let i = choose|i: int|
                0 <= i < j.looks.len() && (#[trigger] j.looks[i]).0 && d == (
                    texts(p.services@)[i],
                    j.looks[i].1,
                );
            assert(j.looks[i] == (true, group));
        }
    }
}

/// When everything was to be stopped, every service was tried, whatever became of the others, and the
/// first failure, if there was one, is the one reported.
pub proof fn law_every_service_is_tried(s: StopAll)
    requires
        s.sound(),
        s.cursor == s.services@.len(),
    ensures
        s.journal@.len() == s.services@.len(),
        s.error is None <==> forall|i: int|
            0 <= i < s.journal@.len() ==> (#[trigger] s.journal@[i]) is Ok,
        forall|i: int|
            0 <= i < s.journal@.len() && #[trigger] s.journal@[i] is Err && (forall|j: int|
                0 <= j < i ==> (#[trigger] s.journal@[j]) is Ok) ==> s.error == Some(
                s.journal@[i]->Err_0,
            ),
{
    if s.error is Some {
        let i = choose|i: int|
            0 <= i < s.journal@.len() && #[trigger] s.journal@[i] == Err::<
                (),
                ProcessManagerError,
            >(s.error->0) && forall|j: int| 0 <= j < i ==> (#[trigger] s.journal@[j]) is Ok;
        assert(!(s.journal@[i] is Ok));
        assert forall|k: int|
            0 <= k < s.journal@.len() && #[trigger] s.journal@[k] is Err && (forall|j: int|
                0 <= j < k ==> (#[trigger] s.journal@[j]) is Ok) implies s.error == Some(
            s.journal@[k]->Err_0,
        ) by {
            if k < i {
                assert(s.journal@[k] is Ok);
            } else if i < k {
                assert(s.journal@[i] is Ok);
            }
        }
    }
}

} // verus!
