//! Watching services: what an exit means, which services are lost, and when one is restarted.

use vstd::prelude::*;

use crate::daemon::duration::{duration_secs, parse_duration};
use crate::daemon::flags::{Flags, FlagsView};
use crate::daemon::pid_file::{current, is_without, knows, lookup, without_pid, PidFile, PidView};
use crate::daemon::state_file::{
    on_record, status_of, ServiceLifecycleStatus, ServiceReadyState, ServiceStateEntry,
    ServiceStateFile,
};
use crate::daemon::stop::{Recorded, Sighting};
use crate::names::NameMap;
use crate::text::opt_text;

verus! {

/// How a process ended.
#[derive(Debug, Clone, Copy, PartialEq, Eq, Structural)]
pub struct Exit {
    /// Its exit code, when it exited.
    pub code: Option<i32>,
    /// The signal that ended it, when one did.
    pub signal: Option<i32>,
}

impl Exit {
    /// Whether the process exited with status zero.
    pub open spec fn is_clean(self) -> bool {
        self.code == Some(0i32)
    }

    /// Whether the process exited with status zero.
    pub fn success(self) -> (r: bool)
        ensures
            r == self.is_clean(),
    {
        match self.code {
            Some(c) => c == 0,
            None => false,
        }
    }
}

/// The status of a service that exited while it was marked as stopped or not to be restarted: one
/// that exited cleanly and is not meant to run again has completed.
pub open spec fn end_status(clean: bool, wants_restart: bool) -> ServiceLifecycleStatus {
    if clean && !wants_restart {
        ServiceLifecycleStatus::ExitedSuccessfully
    } else {
        ServiceLifecycleStatus::Stopped
    }
}

/// Chooses the terminal state for a service that exited while a manual-stop or restart-suppress
/// mark was set.
pub fn stopped_or_completed(exit_success: bool, wants_restart: bool) -> (r: ServiceLifecycleStatus)
    ensures
        r == end_status(exit_success, wants_restart),
{
    if exit_success && !wants_restart {
        ServiceLifecycleStatus::ExitedSuccessfully
    } else {
        ServiceLifecycleStatus::Stopped
    }
}

// ---------------------------------------------------------------------------
// One look at a child
// ---------------------------------------------------------------------------

/// What asking for a child's status said.
pub enum ChildPoll {
    /// There is no child handle.
    Absent,
    /// The child has ended.
    Exited(Exit),
    /// The child runs.
    Running,
    /// The child was already waited for elsewhere.
    Vanished {
        /// The process it was.
        pid: u32,
    },
}

/// What a look at a service says.
#[derive(Debug, Clone, Copy, PartialEq, Eq, Structural)]
pub enum ServiceProbe {
    /// It has no live child.
    NotStarted,
    /// Its child runs.
    Running,
    /// Its child ended just now.
    Exited(Exit),
}

/// The states once an exit was seen: only an entry still marked running is rewritten.
pub open spec fn exit_seen(
    states: Map<Seq<char>, ServiceStateEntry>,
    disk: Option<ServiceStateFile>,
    key: Seq<char>,
    exit: Exit,
) -> Map<Seq<char>, ServiceStateEntry> {
    if status_of(states, key) == Some(ServiceLifecycleStatus::Running) {
        on_record(disk).insert(
            key,
            ServiceStateEntry {
                status: if exit.is_clean() {
                    ServiceLifecycleStatus::ExitedSuccessfully
                } else {
                    ServiceLifecycleStatus::ExitedWithError
                },
                pid: None,
                exit_code: exit.code,
                signal: exit.signal,
            },
        )
    } else {
        states
    }
}

/// Records an exit that was just witnessed, so that the states never claim a process that is gone.
/// An entry that is no longer marked running holds a newer outcome and stays.
pub fn record_observed_exit(
    states: &mut ServiceStateFile,
    on_disk: Option<ServiceStateFile>,
    key: &str,
    exit: Exit,
)
    ensures
        final(states)@ == exit_seen(old(states)@, on_disk, key@, exit),
        final(states).store == old(states).store,
{
    let running = match states.get(key) {
        Some(entry) => entry.status == ServiceLifecycleStatus::Running,
        None => false,
    };
    if running {
        let status = if exit.success() {
            ServiceLifecycleStatus::ExitedSuccessfully
        } else {
            ServiceLifecycleStatus::ExitedWithError
        };
        states.set(on_disk, key, status, None, exit.code, exit.signal);
    }
}

/// Takes in what a look at a service's child said. An end is recorded: the process entry goes, and
/// with `key`, the state key of a configured service, the state says how it ended.
pub fn observe(
    poll: ChildPoll,
    service: &str,
    pids: &mut PidFile,
    pids_on_disk: Option<PidFile>,
    states: &mut ServiceStateFile,
    states_on_disk: Option<ServiceStateFile>,
    key: Option<&str>,
) -> (r: ServiceProbe)
    ensures
        final(pids).store == old(pids).store,
        final(states).store == old(states).store,
        match poll {
            ChildPoll::Absent => {
                &&& r == ServiceProbe::NotStarted
                &&& final(pids)@ == old(pids)@
                &&& final(states)@ == old(states)@
            },
            ChildPoll::Running => {
                &&& r == ServiceProbe::Running
                &&& final(pids)@ == old(pids)@
                &&& final(states)@ == old(states)@
            },
            ChildPoll::Exited(exit) => {
                &&& r == ServiceProbe::Exited(exit)
                &&& final(pids)@ == without_pid(current(old(pids)@, pids_on_disk), service@)
                &&& final(states)@ == match key {
                    Some(k) => exit_seen(old(states)@, states_on_disk, k@, exit),
                    None => old(states)@,
                }
            },
            ChildPoll::Vanished { pid } => {
                let now = current(old(pids)@, pids_on_disk);
                &&& r == ServiceProbe::NotStarted
                &&& final(pids)@ == (if lookup(now.services, service@) == Some(pid) {
                    without_pid(now, service@)
                } else {
                    now
                })
                &&& final(states)@ == old(states)@
            },
        },
{
    match poll {
        ChildPoll::Absent => ServiceProbe::NotStarted,
        ChildPoll::Running => ServiceProbe::Running,
        ChildPoll::Exited(exit) => {
            let _ = pids.clear_pid(pids_on_disk, service);
            match key {
                Some(k) => {
                    record_observed_exit(states, states_on_disk, k, exit);
                },
                None => {},
            }
            ServiceProbe::Exited(exit)
        },
        ChildPoll::Vanished { pid } => {
            let _ = pids.clear_pid_if_matches(pids_on_disk, service, pid);
            ServiceProbe::NotStarted
        },
    }
}

// ---------------------------------------------------------------------------
// An exit that the monitor saw
// ---------------------------------------------------------------------------

/// What the monitor knows of a service whose child ended.
pub struct ExitedService {
    /// The service name.
    pub name: String,
    /// The process that ended.
    pub pid: u32,
    /// How it ended.
    pub exit: Exit,
    /// The state key, when the service is configured.
    pub key: Option<String>,
    /// Whether the service runs again after a clean exit.
    pub wants_restart: bool,
    /// Whether the service runs again after a failure.
    pub retries: bool,
}

/// What an exit amounts to.
#[derive(Debug, Clone, Copy, PartialEq, Eq, Structural)]
pub enum ExitVerdict {
    /// The process is not the one recorded for the service; the exit changes nothing.
    Foreign,
    /// The service was stopped on purpose.
    Stopped,
    /// The service must not be restarted.
    Suppressed,
    /// The service failed.
    Crashed {
        /// Whether it is to be restarted now.
        restart: bool,
    },
    /// The service finished.
    Completed,
}

/// The daemon's books.
pub struct Books {
    /// Which process each service runs as.
    pub pids: PidFile,
    /// The last known state of each service.
    pub states: ServiceStateFile,
    /// The marks on services.
    pub flags: Flags,
    /// How often each service was restarted in a row.
    pub counts: NameMap<u32>,
}

/// What an exit amounts to, given the marks on the service.
pub open spec fn exit_verdict(owned: bool, f: FlagsView, e: ExitedService) -> ExitVerdict {
    if !owned {
        ExitVerdict::Foreign
    } else if f.manual.contains(e.name@) {
        ExitVerdict::Stopped
    } else if f.suppressed.contains(e.name@) {
        ExitVerdict::Suppressed
    } else if !e.exit.is_clean() {
        ExitVerdict::Crashed { restart: e.retries && !f.in_flight.contains(e.name@) }
    } else {
        ExitVerdict::Completed
    }
}

/// The entry that an exit leaves behind.
pub open spec fn exit_entry(v: ExitVerdict, e: ExitedService) -> ServiceStateEntry {
    match v {
        ExitVerdict::Stopped => ServiceStateEntry {
            status: end_status(e.exit.is_clean(), e.wants_restart),
            pid: None,
            exit_code: None,
            signal: None,
        },
        ExitVerdict::Suppressed => ServiceStateEntry {
            status: end_status(e.exit.is_clean(), e.wants_restart),
            pid: None,
            exit_code: e.exit.code,
            signal: e.exit.signal,
        },
        ExitVerdict::Crashed { .. } => ServiceStateEntry {
            status: ServiceLifecycleStatus::ExitedWithError,
            pid: None,
            exit_code: e.exit.code,
            signal: e.exit.signal,
        },
        _ => ServiceStateEntry {
            status: ServiceLifecycleStatus::ExitedSuccessfully,
            pid: None,
            exit_code: match e.exit.code {
                Some(c) => Some(c),
                None => Some(0i32),
            },
            signal: e.exit.signal,
        },
    }
}

/// Which stop hook an exit calls for: none after a stop on purpose, else one by how it ended.
pub open spec fn exit_hook(v: ExitVerdict, e: ExitedService) -> Option<bool> {
    match v {
        ExitVerdict::Foreign => None,
        ExitVerdict::Stopped => None,
        _ => if e.key is Some {
            Some(e.exit.is_clean())
        } else {
            None
        },
    }
}

/// The marks once an exit was taken in.
pub open spec fn marks_after_exit(f: FlagsView, v: ExitVerdict, name: Seq<char>) -> FlagsView {
    if v is Foreign {
        f
    } else {
        FlagsView {
            manual: f.manual.remove(name),
            in_flight: if v == (ExitVerdict::Crashed { restart: true }) {
                f.in_flight.insert(name)
            } else {
                f.in_flight
            },
            ..f
        }
    }
}

/// The restart counts once an exit was taken in.
pub open spec fn counts_after_exit(
    counts: Map<Seq<char>, u32>,
    v: ExitVerdict,
    name: Seq<char>,
) -> Map<Seq<char>, u32> {
    if v is Stopped || v is Suppressed {
        counts.remove(name)
    } else {
        counts
    }
}

impl Books {
    /// Takes in an exit that the monitor saw, and says what it amounts to and which stop hook is
    /// due.
    pub fn exited(
        &mut self,
        e: &ExitedService,
        pids_on_disk: Option<PidFile>,
        states_on_disk: Option<ServiceStateFile>,
    ) -> (r: (ExitVerdict, Option<bool>))
        ensures
            r.0 == exit_verdict(
                lookup(old(self).pids@.services, e.name@) == Some(e.pid),
                old(self).flags@,
                *e,
            ),
            r.1 == exit_hook(r.0, *e),
            r.0 is Foreign <==> lookup(old(self).pids@.services, e.name@) != Some(e.pid),
            r.0 == (ExitVerdict::Crashed { restart: true }) <==> {
                &&& lookup(old(self).pids@.services, e.name@) == Some(e.pid)
                &&& e.exit.code != Some(0i32)
                &&& e.retries
                &&& !old(self).flags@.manual.contains(e.name@)
                &&& !old(self).flags@.suppressed.contains(e.name@)
                &&& !old(self).flags@.in_flight.contains(e.name@)
            },
            final(self).pids.store == old(self).pids.store,
            final(self).states.store == old(self).states.store,
            r.0 is Foreign ==> final(self).pids@ == old(self).pids@ && final(self).states@
                == old(self).states@ && final(self).flags@ == old(self).flags@
                && final(self).counts@ == old(self).counts@,
            final(self).flags@ == marks_after_exit(old(self).flags@, r.0, e.name@),
            final(self).counts@ == counts_after_exit(old(self).counts@, r.0, e.name@),
            !(r.0 is Foreign) ==> {
                &&& final(self).flags@ == (FlagsView {
                    manual: old(self).flags@.manual.remove(e.name@),
                    in_flight: if r.0 == (ExitVerdict::Crashed { restart: true }) {
                        old(self).flags@.in_flight.insert(e.name@)
                    } else {
                        old(self).flags@.in_flight
                    },
                    ..old(self).flags@
                })
                &&& final(self).counts@ == (if r.0 is Stopped || r.0 is Suppressed {
                    old(self).counts@.remove(e.name@)
                } else {
                    old(self).counts@
                })
                &&& final(self).states@ == match e.key {
                    Some(k) => on_record(states_on_disk).insert(
                        k@,
                        exit_entry(r.0, *e),
                    ),
                    None => old(self).states@,
                }
                &&& ({
                    let now = current(old(self).pids@, pids_on_disk);
                    if r.0 is Stopped {
                        if knows(now, e.name@) {
                            exists|w: PidView|
                                #![trigger without_pid(w, e.name@)]
                                is_without(now, e.name@, w) && final(self).pids@ == without_pid(
                                    w,
                                    e.name@,
                                )
                        } else {
                            final(self).pids@ == without_pid(now, e.name@)
                        }
                    } else {
                        final(self).pids@ == without_pid(now, e.name@)
                    }
                })
            },
    {
        let name = e.name.as_str();
        let owned = match self.pids.get(name) {
            Some(pid) => pid == e.pid,
            None => false,
        };
        if !owned {
            return (ExitVerdict::Foreign, None);
        }
        let clean = e.exit.success();
        let manual = self.flags.manual.remove(name);
        let suppressed = self.flags.suppressed.has(name);
        let hook: Option<bool> = if !manual && e.key.is_some() {
            Some(clean)
        } else {
            None
        };
        let (verdict, status, code, signal): (
            ExitVerdict,
            ServiceLifecycleStatus,
            Option<i32>,
            Option<i32>,
        ) = if manual {
            let _ = self.counts.remove(name);
            (ExitVerdict::Stopped, stopped_or_completed(clean, e.wants_restart), None, None)
        } else if suppressed {
            let _ = self.counts.remove(name);
            (
                ExitVerdict::Suppressed,
                stopped_or_completed(clean, e.wants_restart),
                e.exit.code,
                e.exit.signal,
            )
        } else if !clean {
            let restart = e.retries && !self.flags.in_flight.has(name);
            if restart {
                let _ = self.flags.in_flight.insert(name);
            }
            (
                ExitVerdict::Crashed { restart },
                ServiceLifecycleStatus::ExitedWithError,
                e.exit.code,
                e.exit.signal,
            )
        } else {
            let code: Option<i32> = if e.exit.code.is_some() {
                e.exit.code
            } else {
                Some(0)
            };
            (
                ExitVerdict::Completed,
                ServiceLifecycleStatus::ExitedSuccessfully,
                code,
                e.exit.signal,
            )
        };
        match &e.key {
            Some(k) => {
                self.states.set(states_on_disk, k.as_str(), status, None, code, signal);
            },
            None => {},
        }
        if manual {
            let ghost now = current(self.pids@, pids_on_disk);
            let _ = self.pids.remove(pids_on_disk, name);
            let ghost w = self.pids@;
            let _ = self.pids.clear_pid(None, name);
            assert(self.pids@ == without_pid(w, name@));
            assert(knows(now, name@) ==> is_without(now, name@, w));
        } else {
            let _ = self.pids.clear_pid(pids_on_disk, name);
        }
        (verdict, hook)
    }
}

/// An exit leads to a restart only when the service failed, its policy retries, and nothing marks
/// it as stopped, not to be restarted, or being restarted already.
pub proof fn law_restart_only_after_failure(owned: bool, f: FlagsView, e: ExitedService)
    requires
        exit_verdict(owned, f, e) == (ExitVerdict::Crashed { restart: true }),
    ensures
        !e.exit.is_clean(),
        e.retries,
        !f.manual.contains(e.name@),
        !f.suppressed.contains(e.name@),
        !f.in_flight.contains(e.name@),
{
}

/// A service that exits cleanly and is not meant to run again is always recorded as completed,
/// whatever marks are on it.
pub proof fn law_clean_exit_is_completion(owned: bool, f: FlagsView, e: ExitedService)
    requires
        e.exit.is_clean(),
        !e.wants_restart,
        owned,
    ensures
        exit_entry(exit_verdict(owned, f, e), e).status
            == ServiceLifecycleStatus::ExitedSuccessfully,
{
}

// ---------------------------------------------------------------------------
// Records that no longer match the world
// ---------------------------------------------------------------------------

/// What to do about a recorded process.
#[derive(Debug, Clone, Copy, PartialEq, Eq, Structural)]
pub enum StaleVerdict {
    /// Leave the record alone.
    Keep,
    /// Forget the record.
    Forget,
    /// Terminate what is left of the group; forget the record if the group is gone afterwards.
    ReapGroup {
        /// The group.
        group: i32,
    },
}

/// What to do about a recorded process. A live process is never forgotten without proof that its
/// id was taken over, and a group is terminated only when its identity is known.
pub open spec fn stale_verdict(r: Recorded, s: Sighting) -> StaleVerdict {
    let live = r.pid is Some && s.pid_alive;
    if r.pid is None && r.pgid is None {
        StaleVerdict::Keep
    } else if live && (r.started is None || s.pid_started == r.started) {
        StaleVerdict::Keep
    } else if !live && r.pgid is Some && s.group_alive {
        if r.started is None {
            StaleVerdict::Keep
        } else if s.group_started is None || s.group_started == r.started {
            StaleVerdict::ReapGroup { group: r.pgid->0 }
        } else {
            StaleVerdict::Forget
        }
    } else {
        StaleVerdict::Forget
    }
}

/// Decides about a recorded process without ever signaling a reused process id.
pub fn judge_stale_entry(r: Recorded, s: Sighting) -> (v: StaleVerdict)
    ensures
        v == stale_verdict(r, s),
{
    if r.pid.is_none() && r.pgid.is_none() {
        return StaleVerdict::Keep;
    }
    let live = r.pid.is_some() && s.pid_alive;
    if live && (r.started.is_none() || s.pid_started == r.started) {
        return StaleVerdict::Keep;
    }
    match r.pgid {
        Some(group) => {
            if !live && s.group_alive {
                if r.started.is_none() {
                    return StaleVerdict::Keep;
                }
                if s.group_started.is_none() || s.group_started == r.started {
                    return StaleVerdict::ReapGroup { group };
                }
            }
        },
        None => {},
    }
    StaleVerdict::Forget
}

/// A verified live process keeps its record.
pub proof fn law_live_process_keeps_its_record(r: Recorded, s: Sighting)
    requires
        r.pid is Some,
        s.pid_alive,
        r.started is None || s.pid_started == r.started,
    ensures
        stale_verdict(r, s) == StaleVerdict::Keep,
{
}

/// Which group, if any, a dead service left members in.
pub open spec fn orphans_in(
    recorded: Option<i32>,
    supervisor_group: i32,
    survivors: usize,
) -> Option<i32> {
    match recorded {
        Some(g) => if g > 0 && g != supervisor_group && survivors > 0 {
            Some(g)
        } else {
            None
        },
        None => None,
    }
}

/// What a dead service left behind is cleared away exactly when its group is on record, is a
/// service's and not the supervisor's, and still has members.
pub proof fn law_orphans_are_cleared_away(g: i32, supervisor_group: i32, survivors: usize)
    ensures
        orphans_in(Some(g), supervisor_group, survivors) == Some(g) <==> g > 0 && g
            != supervisor_group && survivors > 0,
        orphans_in(None, supervisor_group, survivors) is None,
        orphans_in(Some(g), supervisor_group, survivors) is Some ==> orphans_in(
            Some(g),
            supervisor_group,
            survivors,
        ) == Some(g),
{
}

/// Which group, if any, a dead service left members in that must go before it is started again.
pub fn orphaned_group(recorded: Option<i32>, supervisor_group: i32, survivors: usize) -> (r: Option<
    i32,
>)
    ensures
        r == orphans_in(recorded, supervisor_group, survivors),
        r == (match recorded {
            Some(g) => if g > 0 && g != supervisor_group && survivors > 0 {
                Some(g)
            } else {
                None
            },
            None => None::<i32>,
        }),
{
    match recorded {
        Some(g) => if g > 0 && g != supervisor_group && survivors > 0 {
            Some(g)
        } else {
            None
        },
        None => None,
    }
}

/// Whether an entry says that a process runs which is gone and has no child handle.
pub open spec fn is_stale_running(
    states: Map<Seq<char>, ServiceStateEntry>,
    key: Seq<char>,
    pid_alive: bool,
    has_child: bool,
) -> bool {
    states.contains_key(key) && states[key].status == ServiceLifecycleStatus::Running
        && states[key].pid is Some && !pid_alive && !has_child
}

/// Corrects an entry that claims a running process that is gone. `pid_alive` says whether the
/// process the entry names is alive. A live child handle means that a fresh instance is on its
/// way, so the entry stays.
pub fn clear_stale_running_state(
    states: &mut ServiceStateFile,
    on_disk: Option<ServiceStateFile>,
    key: &str,
    pid_alive: bool,
    has_child: bool,
) -> (r: bool)
    ensures
        r == is_stale_running(old(states)@, key@, pid_alive, has_child),
        final(states).store == old(states).store,
        final(states)@ == if r {
            on_record(on_disk).insert(
                key@,
                (ServiceStateEntry {
                    status: ServiceLifecycleStatus::Stopped,
                    pid: None,
                    exit_code: None,
                    signal: None,
                }),
            )
        } else {
            old(states)@
        },
{
    let stale = match states.get(key) {
        Some(entry) => entry.status == ServiceLifecycleStatus::Running && entry.pid.is_some()
            && !pid_alive && !has_child,
        None => false,
    };
    if stale {
        states.set(on_disk, key, ServiceLifecycleStatus::Stopped, None, None, None);
    }
    stale
}

// ---------------------------------------------------------------------------
// Services that are down and should not be
// ---------------------------------------------------------------------------

/// What is seen of a configured service when lost ones are looked for.
#[derive(Debug, Clone, Copy, PartialEq, Eq, Structural)]
pub struct LostSighting {
    /// Whether it has a child handle.
    pub has_child: bool,
    /// Whether its recorded process is alive and still the same process.
    pub recovered: bool,
    /// Whether it is expected to be up.
    pub expected_up: bool,
    /// Its recorded status.
    pub status: Option<ServiceLifecycleStatus>,
    /// Whether it runs again after a failure.
    pub retries: bool,
    /// Whether a dependency is not as it should be.
    pub unmet: bool,
}

/// Whether a service is lost: it should be up, is not, and nothing explains why.
pub open spec fn is_lost(s: LostSighting, f: FlagsView, name: Seq<char>) -> bool {
    &&& !s.has_child
    &&& !s.recovered
    &&& s.expected_up
    &&& s.status != Some(ServiceLifecycleStatus::Skipped)
    &&& s.retries
    &&& !s.unmet
    &&& !f.manual.contains(name)
    &&& !f.suppressed.contains(name)
    &&& !f.in_flight.contains(name)
}

impl Flags {
    /// Whether a service is lost and is to be restarted; if so, it is marked as being restarted.
    pub fn claim_lost(&mut self, name: &str, s: LostSighting) -> (r: bool)
        ensures
            r == is_lost(s, old(self)@, name@),
            final(self)@ == if r {
                (FlagsView { in_flight: old(self)@.in_flight.insert(name@), ..old(self)@ })
            } else {
                old(self)@
            },
    {
        if s.has_child || s.recovered || !s.expected_up || !s.retries || s.unmet {
            return false;
        }
        let skipped = match s.status {
            Some(status) => status == ServiceLifecycleStatus::Skipped,
            None => false,
        };
        if skipped || self.manual.has(name) || self.suppressed.has(name) || self.in_flight.has(name) {
            return false;
        }
        let _ = self.in_flight.insert(name);
        true
    }
}

/// Claiming a lost service twice in a row restarts it once.
pub proof fn law_lost_is_claimed_once(s: LostSighting, f: FlagsView, name: Seq<char>)
    ensures
        !is_lost(s, FlagsView { in_flight: f.in_flight.insert(name), ..f }, name),
{
}

// ---------------------------------------------------------------------------
// Automatic restarts
// ---------------------------------------------------------------------------

/// Seconds to wait before a restart when the service does not say.
pub const DEFAULT_RESTART_BACKOFF: u64 = 5;

/// Whether an automatic restart goes ahead.
#[derive(Debug, Clone, Copy, PartialEq, Eq, Structural)]
pub enum RestartVerdict {
    /// A dependency is not as it should be.
    Deferred,
    /// The service was restarted often enough.
    GiveUp,
    /// Restart it after a wait.
    After {
        /// How long.
        seconds: u64,
    },
}

/// How often a service was restarted in a row.
pub open spec fn count_of(counts: Map<Seq<char>, u32>, name: Seq<char>) -> int {
    if counts.contains_key(name) {
        counts[name] as int
    } else {
        0
    }
}

/// The seconds to wait before a restart. A wait that cannot be read counts as the default.
pub open spec fn backoff_secs(backoff: Option<Seq<char>>) -> nat {
    match backoff {
        Some(raw) => match duration_secs(raw) {
            Some(n) => n,
            None => DEFAULT_RESTART_BACKOFF as nat,
        },
        None => DEFAULT_RESTART_BACKOFF as nat,
    }
}

/// Whether an automatic restart goes ahead.
pub open spec fn restart_verdict(
    count: int,
    unmet: bool,
    max_restarts: Option<u32>,
    backoff: Option<Seq<char>>,
) -> RestartVerdict {
    if unmet {
        RestartVerdict::Deferred
    } else if max_restarts is Some && count + 1 > max_restarts->0 {
        RestartVerdict::GiveUp
    } else {
        RestartVerdict::After { seconds: backoff_secs(backoff) as u64 }
    }
}

/// What became of a restart once the wait was over.
#[derive(Debug, Clone, Copy, PartialEq, Eq, Structural)]
pub enum WakeVerdict {
    /// The daemon is shutting down.
    ShuttingDown,
    /// The service must not be restarted any more.
    Suppressed,
    /// The service was stopped on purpose meanwhile.
    ManuallyStopped,
    /// A dependency is not as it should be.
    Deferred,
    /// Start it.
    Start,
}

/// What becomes of a restart once the wait is over.
pub open spec fn wake_verdict(running: bool, f: FlagsView, name: Seq<char>, unmet: bool) -> WakeVerdict {
    if !running {
        WakeVerdict::ShuttingDown
    } else if f.suppressed.contains(name) {
        WakeVerdict::Suppressed
    } else if f.manual.contains(name) {
        WakeVerdict::ManuallyStopped
    } else if unmet {
        WakeVerdict::Deferred
    } else {
        WakeVerdict::Start
    }
}

/// What follows a restart.
#[derive(Debug, Clone, Copy, PartialEq, Eq, Structural)]
pub enum AfterRestart {
    /// The daemon is shutting down: stop the service again.
    StopAgain,
    /// Nothing.
    Nothing,
    /// Run the restart hook, if there is one.
    Hook {
        /// Whether the restart worked.
        success: bool,
    },
}

/// What follows a restart.
pub open spec fn after_restart(running: bool, result: Option<ServiceReadyState>) -> AfterRestart {
    if !running {
        if result == Some(ServiceReadyState::Running) {
            AfterRestart::StopAgain
        } else {
            AfterRestart::Nothing
        }
    } else {
        AfterRestart::Hook { success: result is Some }
    }
}

/// The restart counts once the wait before a restart is over.
pub open spec fn counts_after_wake(
    counts: Map<Seq<char>, u32>,
    v: WakeVerdict,
    name: Seq<char>,
) -> Map<Seq<char>, u32> {
    if v is Suppressed || v is ManuallyStopped {
        counts.remove(name)
    } else {
        counts
    }
}

/// The marks once the wait before a restart is over.
pub open spec fn marks_after_wake(f: FlagsView, v: WakeVerdict, name: Seq<char>) -> FlagsView {
    if v is ManuallyStopped {
        FlagsView { manual: f.manual.remove(name), ..f }
    } else {
        f
    }
}

/// The restart counts once a restart is over.
pub open spec fn counts_after_restart(
    counts: Map<Seq<char>, u32>,
    a: AfterRestart,
    name: Seq<char>,
) -> Map<Seq<char>, u32> {
    if a == (AfterRestart::Hook { success: true }) {
        counts.insert(name, 0)
    } else {
        counts
    }
}

/// The restart counts once a restart was weighed: an attempt counts, a deferred one does not.
pub open spec fn counted(counts: Map<Seq<char>, u32>, name: Seq<char>, unmet: bool) -> Map<
    Seq<char>,
    u32,
> {
    if unmet {
        counts
    } else {
        counts.insert(name, (count_of(counts, name) + 1) as u32)
    }
}

impl Books {
    /// Decides whether an automatic restart goes ahead, counting the attempt. A restart that does
    /// not go ahead is no longer marked as going on.
    pub fn weigh_restart(
        &mut self,
        name: &str,
        unmet: bool,
        max_restarts: Option<u32>,
        backoff: &Option<String>,
    ) -> (r: RestartVerdict)
        requires
            count_of(old(self).counts@, name@) < u32::MAX,
        ensures
            r == restart_verdict(
                count_of(old(self).counts@, name@),
                unmet,
                max_restarts,
                opt_text(*backoff),
            ),
            final(self).pids == old(self).pids,
            final(self).states == old(self).states,
            final(self).counts@ == counted(old(self).counts@, name@, unmet),
            final(self).counts@ == if unmet {
                old(self).counts@
            } else {
                old(self).counts@.insert(
                    name@,
                    (count_of(old(self).counts@, name@) + 1) as u32,
                )
            },
            final(self).flags@ == if r is After {
                old(self).flags@
            } else {
                (FlagsView {
                    in_flight: old(self).flags@.in_flight.remove(name@),
                    ..old(self).flags@
                })
            },
    {
        if unmet {
            let _ = self.flags.in_flight.remove(name);
            return RestartVerdict::Deferred;
        }
        let before: u32 = match self.counts.get(name) {
            Some(c) => *c,
            None => 0,
        };
        let count: u32 = before + 1;
        self.counts.insert(name, count);
        match max_restarts {
            Some(max) => {
                if count > max {
                    let _ = self.flags.in_flight.remove(name);
                    return RestartVerdict::GiveUp;
                }
            },
            None => {},
        }
        let seconds: u64 = match backoff {
            Some(raw) => match parse_duration(raw.as_str()) {
                Ok(n) => n,
                Err(_) => DEFAULT_RESTART_BACKOFF,
            },
            None => DEFAULT_RESTART_BACKOFF,
        };
        RestartVerdict::After { seconds }
    }

    /// Decides, once the wait before a restart is over, whether the service is still to be
    /// started. A service that was stopped meanwhile starts over with its count.
    pub fn wake(&mut self, name: &str, running: bool, unmet: bool) -> (r: WakeVerdict)
        ensures
            r == wake_verdict(running, old(self).flags@, name@, unmet),
            final(self).counts@ == counts_after_wake(old(self).counts@, r, name@),
            final(self).flags@ == marks_after_wake(old(self).flags@, r, name@),
            final(self).pids == old(self).pids,
            final(self).states == old(self).states,
            final(self).counts@ == if r is Suppressed || r is ManuallyStopped {
                old(self).counts@.remove(name@)
            } else {
                old(self).counts@
            },
            final(self).flags@ == if r is ManuallyStopped {
                (FlagsView { manual: old(self).flags@.manual.remove(name@), ..old(self).flags@ })
            } else {
                old(self).flags@
            },
    {
        if !running {
            return WakeVerdict::ShuttingDown;
        }
        if self.flags.suppressed.has(name) {
            let _ = self.counts.remove(name);
            return WakeVerdict::Suppressed;
        }
        if self.flags.manual.has(name) {
            let _ = self.flags.manual.remove(name);
            let _ = self.counts.remove(name);
            return WakeVerdict::ManuallyStopped;
        }
        if unmet {
            return WakeVerdict::Deferred;
        }
        WakeVerdict::Start
    }

    /// Takes in how a restart went: one that worked resets the count.
    pub fn restarted(&mut self, name: &str, running: bool, result: Option<ServiceReadyState>) -> (r:
        AfterRestart)
        ensures
            r == after_restart(running, result),
            final(self).counts@ == counts_after_restart(old(self).counts@, r, name@),
            final(self).pids == old(self).pids,
            final(self).states == old(self).states,
            final(self).flags == old(self).flags,
            final(self).counts@ == if r == (AfterRestart::Hook { success: true }) {
                old(self).counts@.insert(name@, 0)
            } else {
                old(self).counts@
            },
    {
        if !running {
            return match result {
                Some(ServiceReadyState::Running) => AfterRestart::StopAgain,
                _ => AfterRestart::Nothing,
            };
        }
        let success = result.is_some();
        if success {
            self.counts.insert(name, 0);
        }
        AfterRestart::Hook { success }
    }

    /// Ends a restart: the service is no longer marked as being restarted.
    pub fn end_restart(&mut self, name: &str)
        ensures
            final(self).pids == old(self).pids,
            final(self).states == old(self).states,
            final(self).counts == old(self).counts,
            final(self).flags@ == (FlagsView {
                in_flight: old(self).flags@.in_flight.remove(name@),
                ..old(self).flags@
            }),
    {
        let _ = self.flags.in_flight.remove(name);
    }
}

/// A service that was restarted its maximum number of times in a row is given up on.
pub proof fn law_restarts_are_bounded(max: u32, count: int, backoff: Option<Seq<char>>)
    requires
        count >= max,
    ensures
        restart_verdict(count, false, Some(max), backoff) == RestartVerdict::GiveUp,
{
}

/// A recorded service that fails, whose policy restarts it after a failure, is restarted whenever
/// nothing marks it as stopped, not to be restarted, or being restarted already. What its policy
/// says of a clean exit makes no difference.
pub proof fn law_failure_is_restarted(f: FlagsView, e: ExitedService)
    requires
        e.exit.code != Some(0i32),
        e.retries,
        !f.manual.contains(e.name@),
        !f.suppressed.contains(e.name@),
        !f.in_flight.contains(e.name@),
    ensures
        exit_verdict(true, f, e) == (ExitVerdict::Crashed { restart: true }),
{
}

/// What an exit amounts to, one case at a time: a process that is not the recorded one changes
/// nothing, a stop on purpose comes before everything else, and a clean exit is never a crash, nor
/// a failure ever a completion.
pub proof fn law_exit_has_one_meaning(owned: bool, f: FlagsView, e: ExitedService)
    ensures
        !owned <==> exit_verdict(owned, f, e) == ExitVerdict::Foreign,
        owned && f.manual.contains(e.name@) <==> exit_verdict(owned, f, e) == ExitVerdict::Stopped,
        owned && !f.manual.contains(e.name@) && f.suppressed.contains(e.name@) <==> exit_verdict(
            owned,
            f,
            e,
        ) == ExitVerdict::Suppressed,
        owned && !f.manual.contains(e.name@) && !f.suppressed.contains(e.name@) && e.exit.code
            == Some(0i32) <==> exit_verdict(owned, f, e) == ExitVerdict::Completed,
        owned && !f.manual.contains(e.name@) && !f.suppressed.contains(e.name@) && e.exit.code
            != Some(0i32) <==> exit_verdict(owned, f, e) is Crashed,
        exit_verdict(owned, f, e) == (ExitVerdict::Crashed { restart: true }) ==> e.retries,
{
}

/// What an exit leaves on record: no process; a failure with its code and signal, unless the service
/// was stopped or is not to be restarted; a completion with its code, zero when it has none.
pub proof fn law_exit_is_recorded_as_it_was(f: FlagsView, e: ExitedService)
    ensures
        ({
            let entry = exit_entry(exit_verdict(true, f, e), e);
            let clean = e.exit.code == Some(0i32);
            &&& entry.pid is None
            &&& f.manual.contains(e.name@) ==> entry.exit_code is None && entry.signal is None
            &&& !f.manual.contains(e.name@) ==> entry.signal == e.exit.signal && entry.exit_code
                == e.exit.code
            &&& f.manual.contains(e.name@) || f.suppressed.contains(e.name@) ==> (entry.status
                == ServiceLifecycleStatus::ExitedSuccessfully <==> clean && !e.wants_restart)
            &&& f.manual.contains(e.name@) || f.suppressed.contains(e.name@) ==> (entry.status
                == ServiceLifecycleStatus::Stopped <==> !clean || e.wants_restart)
            &&& !f.manual.contains(e.name@) && !f.suppressed.contains(e.name@) && clean
                ==> entry.status == ServiceLifecycleStatus::ExitedSuccessfully
            &&& !f.manual.contains(e.name@) && !f.suppressed.contains(e.name@) && !clean
                ==> entry.status == ServiceLifecycleStatus::ExitedWithError
        }),
{
}

/// The stop hook of a configured service is due after every exit of its own process but one after a
/// stop on purpose, and is told whether the exit was clean.
pub proof fn law_exit_runs_its_hook(owned: bool, f: FlagsView, e: ExitedService)
    ensures
        owned && !f.manual.contains(e.name@) && e.key is Some ==> exit_hook(
            exit_verdict(owned, f, e),
            e,
        ) == Some(e.exit.code == Some(0i32)),
        !owned || f.manual.contains(e.name@) || e.key is None ==> exit_hook(
            exit_verdict(owned, f, e),
            e,
        ) is None,
{
}

/// An exit is written down only where the record still says that the service runs; every other
/// service keeps its record.
pub proof fn law_seen_exit_is_recorded(
    states: Map<Seq<char>, ServiceStateEntry>,
    disk: Option<ServiceStateFile>,
    key: Seq<char>,
    exit: Exit,
)
    ensures
        status_of(states, key) == Some(ServiceLifecycleStatus::Running) ==> {
            let after = exit_seen(states, disk, key, exit);
            &&& after.contains_key(key)
            &&& after[key].pid is None
            &&& after[key].exit_code == exit.code
            &&& after[key].signal == exit.signal
            &&& exit.code == Some(0i32) ==> after[key].status
                == ServiceLifecycleStatus::ExitedSuccessfully
            &&& exit.code != Some(0i32) ==> after[key].status
                == ServiceLifecycleStatus::ExitedWithError
            &&& after.remove(key) == on_record(disk).remove(key)
        },
        status_of(states, key) != Some(ServiceLifecycleStatus::Running) ==> exit_seen(
            states,
            disk,
            key,
            exit,
        ) == states,
{
}

/// A record is forgotten only when its process is gone or its id was taken over, and nothing of the
/// recorded group can still be there.
pub proof fn law_forgotten_only_when_gone(r: Recorded, s: Sighting)
    ensures
        stale_verdict(r, s) == StaleVerdict::Forget <==> {
            ||| r.pid is Some && s.pid_alive && r.started is Some && s.pid_started != r.started
            ||| !(r.pid is Some && s.pid_alive) && r.pgid is Some && s.group_alive && r.started
                is Some && s.group_started is Some && s.group_started != r.started
            ||| r.pid is Some && !s.pid_alive && !(r.pgid is Some && s.group_alive)
            ||| r.pid is None && r.pgid is Some && !s.group_alive
        },
{
}

/// What is left of a recorded group is terminated exactly when its leader is gone, the group is
/// alive, a start time is on record, and no other process holds the group's id.
pub proof fn law_orphans_are_reaped_by_identity(r: Recorded, s: Sighting, g: i32)
    ensures
        stale_verdict(r, s) == (StaleVerdict::ReapGroup { group: g }) <==> {
            &&& r.pgid == Some(g)
            &&& s.group_alive
            &&& r.pid is None || !s.pid_alive
            &&& r.started is Some
            &&& s.group_started is None || s.group_started == r.started
        },
{
}

/// A service that should be up, has neither a child nor a live recorded process, was not skipped,
/// restarts after failures, has its dependencies met and bears no mark is lost; each of these is
/// needed.
pub proof fn law_lost_services_are_found(s: LostSighting, f: FlagsView, name: Seq<char>)
    ensures
        s.expected_up && !s.has_child && !s.recovered && s.retries && !s.unmet && s.status != Some(
            ServiceLifecycleStatus::Skipped,
        ) && !f.manual.contains(name) && !f.suppressed.contains(name) && !f.in_flight.contains(name)
            ==> is_lost(s, f, name),
        is_lost(s, f, name) ==> s.expected_up && !s.has_child && !s.recovered && s.retries
            && !s.unmet,
        is_lost(s, f, name) ==> s.status != Some(ServiceLifecycleStatus::Skipped),
        is_lost(s, f, name) ==> !f.manual.contains(name) && !f.suppressed.contains(name)
            && !f.in_flight.contains(name),
{
}

/// A restart whose dependencies are met goes ahead as long as the service was restarted fewer times
/// than it may be, and always without a limit, after the wait that the service asks for.
pub proof fn law_restart_goes_ahead_below_its_limit(
    count: int,
    max: Option<u32>,
    backoff: Option<Seq<char>>,
)
    requires
        max is Some ==> count < max->0,
    ensures
        restart_verdict(count, false, max, backoff) == (RestartVerdict::After {
            seconds: match backoff {
                Some(raw) => match duration_secs(raw) {
                    Some(n) => n as u64,
                    None => 5u64,
                },
                None => 5u64,
            },
        }),
        restart_verdict(count, true, max, backoff) == RestartVerdict::Deferred,
{
}

/// After the wait a service is started exactly when the daemon still runs, nothing marks the service
/// as stopped or not to be restarted, and its dependencies are met.
pub proof fn law_wake_starts_what_is_wanted(
    running: bool,
    f: FlagsView,
    name: Seq<char>,
    unmet: bool,
)
    ensures
        wake_verdict(running, f, name, unmet) == WakeVerdict::Start <==> running
            && !f.suppressed.contains(name) && !f.manual.contains(name) && !unmet,
        !running <==> wake_verdict(running, f, name, unmet) == WakeVerdict::ShuttingDown,
        running && f.suppressed.contains(name) <==> wake_verdict(running, f, name, unmet)
            == WakeVerdict::Suppressed,
        running && !f.suppressed.contains(name) && f.manual.contains(name) <==> wake_verdict(
            running,
            f,
            name,
            unmet,
        ) == WakeVerdict::ManuallyStopped,
{
}

/// A service that came up while the daemon was shutting down is stopped again; otherwise the restart
/// hook learns whether the restart worked.
pub proof fn law_restart_is_followed_up(running: bool, result: Option<ServiceReadyState>)
    ensures
        running && result is Some ==> after_restart(running, result) == (AfterRestart::Hook {
            success: true,
        }),
        running && result is None ==> after_restart(running, result) == (AfterRestart::Hook {
            success: false,
        }),
        after_restart(running, result) == AfterRestart::StopAgain <==> !running && result == Some(
            ServiceReadyState::Running,
        ),
{
}

/// A record that says a process runs is corrected exactly when that process is gone and no child is
/// held.
pub proof fn law_stale_claims_are_found(
    states: Map<Seq<char>, ServiceStateEntry>,
    key: Seq<char>,
    entry: ServiceStateEntry,
    pid_alive: bool,
    has_child: bool,
)
    requires
        states.contains_key(key),
        states[key] == entry,
    ensures
        is_stale_running(states, key, pid_alive, has_child) <==> entry.status
            == ServiceLifecycleStatus::Running && entry.pid is Some && !pid_alive && !has_child,
{
}

/// Every attempt to restart a service counts once, and only for that service; one that is deferred
/// does not count.
pub proof fn law_attempts_are_counted(
    counts: Map<Seq<char>, u32>,
    name: Seq<char>,
    other: Seq<char>,
)
    requires
        count_of(counts, name) < u32::MAX,
    ensures
        count_of(counted(counts, name, false), name) == count_of(counts, name) + 1,
        counted(counts, name, true) == counts,
        other != name ==> count_of(counted(counts, name, false), other) == count_of(counts, other),
        count_of(Map::<Seq<char>, u32>::empty(), name) == 0,
{
}

/// An exit uses up the mark of a stop on purpose; one that calls for a restart marks the restart as
/// going on. A stop or a ban on restarts resets the count. The process of another instance changes
/// nothing.
pub proof fn law_exit_settles_the_marks(
    f: FlagsView,
    counts: Map<Seq<char>, u32>,
    v: ExitVerdict,
    name: Seq<char>,
    other: Seq<char>,
)
    ensures
        v is Foreign ==> marks_after_exit(f, v, name) == f && counts_after_exit(counts, v, name)
            == counts,
        !(v is Foreign) ==> !marks_after_exit(f, v, name).manual.contains(name),
        v == (ExitVerdict::Crashed { restart: true }) ==> marks_after_exit(
            f,
            v,
            name,
        ).in_flight.contains(name),
        v != (ExitVerdict::Crashed { restart: true }) ==> marks_after_exit(f, v, name).in_flight
            == f.in_flight,
        marks_after_exit(f, v, name).suppressed == f.suppressed,
        marks_after_exit(f, v, name).casualties == f.casualties,
        v is Stopped || v is Suppressed ==> count_of(counts_after_exit(counts, v, name), name) == 0,
        v is Crashed || v is Completed ==> counts_after_exit(counts, v, name) == counts,
        other != name ==> (marks_after_exit(f, v, name).manual.contains(other)
            <==> f.manual.contains(other)) && count_of(counts_after_exit(counts, v, name), other)
            == count_of(counts, other),
{
}

/// A service that was stopped or banned while it waited starts over with its count, and the mark of
/// the stop is used up; otherwise the wait changes nothing.
pub proof fn law_wait_ends_without_a_trace(
    f: FlagsView,
    counts: Map<Seq<char>, u32>,
    v: WakeVerdict,
    name: Seq<char>,
    other: Seq<char>,
)
    ensures
        v is Suppressed || v is ManuallyStopped ==> count_of(
            counts_after_wake(counts, v, name),
            name,
        ) == 0,
        v is ShuttingDown || v is Deferred || v is Start ==> counts_after_wake(counts, v, name)
            == counts && marks_after_wake(f, v, name) == f,
        v is ManuallyStopped ==> !marks_after_wake(f, v, name).manual.contains(name),
        v is Suppressed ==> marks_after_wake(f, v, name) == f,
        other != name ==> count_of(counts_after_wake(counts, v, name), other) == count_of(
            counts,
            other,
        ) && (marks_after_wake(f, v, name).manual.contains(other) <==> f.manual.contains(other)),
{
}

/// A restart that worked resets the count of its service; one that did not leaves all counts alone.
pub proof fn law_success_resets_the_count(
    counts: Map<Seq<char>, u32>,
    result: Option<ServiceReadyState>,
    name: Seq<char>,
    other: Seq<char>,
)
    ensures
        result is Some ==> count_of(
            counts_after_restart(counts, after_restart(true, result), name),
            name,
        ) == 0,
        result is None ==> counts_after_restart(counts, after_restart(true, result), name) == counts,
        counts_after_restart(counts, after_restart(false, result), name) == counts,
        other != name ==> count_of(
            counts_after_restart(counts, after_restart(true, result), name),
            other,
        ) == count_of(counts, other),
{
}

} // verus!
