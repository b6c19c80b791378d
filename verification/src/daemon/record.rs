//! Writing down what became of a service, and reading back whether it still has to be started.

use vstd::prelude::*;

use crate::config::{restarts_after_success, wants_more, SkipConfig};
use crate::daemon::monitor::Books;
use crate::daemon::pid_file::{current, is_without, knows, with_service, PidFile};
use crate::daemon::state_file::{
    on_record, ServiceLifecycleStatus, ServiceStateEntry, ServiceStateFile,
};
use crate::daemon::stop::{Recorded, Sighting};
use crate::text::opt_text;

verus! {

/// The states once a configured service's entry was written; a service that is not configured has
/// no key and leaves no trace.
pub open spec fn written(
    states: Map<Seq<char>, ServiceStateEntry>,
    disk: Option<ServiceStateFile>,
    key: Option<&str>,
    entry: ServiceStateEntry,
) -> Map<Seq<char>, ServiceStateEntry> {
    match key {
        Some(k) => on_record(disk).insert(k@, entry),
        None => states,
    }
}

impl Books {
    /// Writes a service's state. `key` is the state key of a configured service.
    pub fn update_state(
        &mut self,
        states_on_disk: Option<ServiceStateFile>,
        key: Option<&str>,
        status: ServiceLifecycleStatus,
        pid: Option<u32>,
        exit_code: Option<i32>,
        signal: Option<i32>,
    )
        ensures
            final(self).pids == old(self).pids,
            final(self).flags == old(self).flags,
            final(self).counts == old(self).counts,
            final(self).states.store == old(self).states.store,
            final(self).states@ == written(
                old(self).states@,
                states_on_disk,
                key,
                ServiceStateEntry { status, pid, exit_code, signal },
            ),
    {
        match key {
            Some(k) => {
                self.states.set(states_on_disk, k, status, pid, exit_code, signal);
            },
            None => {},
        }
    }

    /// Marks a service as running, in the states and in the record of its process. `started` is the
    /// start time observed for `pid`.
    pub fn mark_running(
        &mut self,
        pids_on_disk: Option<PidFile>,
        states_on_disk: Option<ServiceStateFile>,
        service: &str,
        key: Option<&str>,
        pid: u32,
        started: Option<u64>,
    )
        ensures
            final(self).pids@ == with_service(
                current(old(self).pids@, pids_on_disk),
                service@,
                pid,
                None,
                started,
            ),
            final(self).pids.store == old(self).pids.store,
            final(self).flags == old(self).flags,
            final(self).counts == old(self).counts,
            final(self).states.store == old(self).states.store,
            final(self).states@ == written(
                old(self).states@,
                states_on_disk,
                key,
                ServiceStateEntry {
                    status: ServiceLifecycleStatus::Running,
                    pid: Some(pid),
                    exit_code: None,
                    signal: None,
                },
            ),
    {
        self.pids.insert(pids_on_disk, service, pid, started);
        self.update_state(
            states_on_disk,
            key,
            ServiceLifecycleStatus::Running,
            Some(pid),
            None,
            None,
        );
    }

    /// Marks a service as skipped, forgetting any process recorded for it.
    pub fn mark_service_skipped(
        &mut self,
        pids_on_disk: Option<PidFile>,
        states_on_disk: Option<ServiceStateFile>,
        service: &str,
        key: Option<&str>,
    )
        ensures
            final(self).flags == old(self).flags,
            final(self).counts == old(self).counts,
            final(self).pids.store == old(self).pids.store,
            if knows(current(old(self).pids@, pids_on_disk), service@) {
                is_without(current(old(self).pids@, pids_on_disk), service@, final(self).pids@)
            } else {
                final(self).pids@ == current(old(self).pids@, pids_on_disk)
            },
            final(self).states.store == old(self).states.store,
            final(self).states@ == written(
                old(self).states@,
                states_on_disk,
                key,
                ServiceStateEntry {
                    status: ServiceLifecycleStatus::Skipped,
                    pid: None,
                    exit_code: None,
                    signal: None,
                },
            ),
    {
        let _ = self.pids.remove(pids_on_disk, service);
        self.update_state(
            states_on_disk,
            key,
            ServiceLifecycleStatus::Skipped,
            None,
            None,
            None,
        );
    }
}

/// What is known of one configured service when asking whether a project still has to be started.
pub struct Candidate {
    /// Whether it runs on a schedule.
    pub cron: bool,
    /// What the PID file records.
    pub recorded: Recorded,
    /// What is seen of the recorded process.
    pub seen: Sighting,
    /// Its recorded status.
    pub status: Option<ServiceLifecycleStatus>,
    /// When it is left out.
    pub skip: Option<SkipConfig>,
    /// Its restart policy.
    pub restart_policy: Option<String>,
}

/// Whether the recorded process is alive and still the same one.
pub open spec fn is_up(r: Recorded, s: Sighting) -> bool {
    r.pid is Some && r.started is Some && s.pid_alive && s.pid_started == r.started
}

/// Whether a service still has to be started: it is not scheduled, it is not up, and neither was it
/// skipped for good nor did it finish for good.
pub open spec fn still_to_start(c: Candidate) -> bool {
    !c.cron && !is_up(c.recorded, c.seen) && match c.status {
        Some(ServiceLifecycleStatus::Skipped) => match c.skip {
            Some(SkipConfig::Command(_)) => true,
            _ => false,
        },
        Some(ServiceLifecycleStatus::ExitedSuccessfully) => wants_more(opt_text(c.restart_policy)),
        _ => true,
    }
}

impl Candidate {
    /// Whether this service still has to be started.
    pub fn needs_start(&self) -> (r: bool)
        ensures
            r == still_to_start(*self),
    {
        if self.cron {
            return false;
        }
        if self.recorded.pid.is_some() && self.recorded.started.is_some() && self.seen.pid_alive
            && self.seen.pid_started == self.recorded.started {
            return false;
        }
        match self.status {
            Some(ServiceLifecycleStatus::Skipped) => match &self.skip {
                Some(SkipConfig::Command(_)) => true,
                _ => false,
            },
            Some(ServiceLifecycleStatus::ExitedSuccessfully) => restarts_after_success(
                &self.restart_policy,
            ),
            _ => true,
        }
    }
}

/// Whether any configured service still has to be started.
pub fn needs_start(services: &Vec<Candidate>) -> (r: bool)
    ensures
        r == (exists|i: int| 0 <= i < services@.len() && still_to_start(#[trigger] services@[i])),
{
    let mut i: usize = 0;
    while i < services.len()
        invariant
            i <= services.len(),
            forall|j: int| 0 <= j < i ==> !still_to_start(#[trigger] services@[j]),
        decreases services.len() - i,
    {
        if services[i].needs_start() {
            return true;
        }
        i = i + 1;
    }
    false
}

/// A service counts as up exactly when its recorded process is alive and started when the record
/// says; without a recorded start time nothing does.
pub proof fn law_up_means_the_same_process(r: Recorded, s: Sighting)
    ensures
        is_up(r, s) ==> r.pid is Some && s.pid_alive && r.started is Some && s.pid_started
            == r.started,
        r.pid is Some && s.pid_alive && r.started is Some && s.pid_started == r.started ==> is_up(
            r,
            s,
        ),
{
}

/// What still has to be started: never what the scheduler launches or what is up. Of the rest, what
/// was skipped only if a command decides about it, what completed only if its policy starts it again
/// after a clean exit, and everything else.
pub proof fn law_what_is_down_is_started(c: Candidate)
    ensures
        c.cron ==> !still_to_start(c),
        c.recorded.pid is Some && c.seen.pid_alive && c.recorded.started is Some
            && c.seen.pid_started == c.recorded.started ==> !still_to_start(c),
        !c.cron && (c.recorded.pid is None || !c.seen.pid_alive || c.recorded.started is None
            || c.seen.pid_started != c.recorded.started) ==> {
            &&& c.status == Some(ServiceLifecycleStatus::Skipped) ==> (still_to_start(c)
                <==> c.skip is Some && c.skip->0 is Command)
            &&& c.status == Some(ServiceLifecycleStatus::ExitedSuccessfully) ==> (still_to_start(c)
                <==> c.restart_policy is Some && c.restart_policy->0@ == "always"@)
            &&& c.status != Some(ServiceLifecycleStatus::Skipped) && c.status != Some(
                ServiceLifecycleStatus::ExitedSuccessfully,
            ) ==> still_to_start(c)
        },
{
}

/// Writing a service's entry touches no other service's; a service without a key leaves no trace.
pub proof fn law_write_touches_one_entry(
    states: Map<Seq<char>, ServiceStateEntry>,
    disk: Option<ServiceStateFile>,
    key: &str,
    entry: ServiceStateEntry,
)
    ensures
        written(states, disk, Some(key), entry).contains_key(key@),
        written(states, disk, Some(key), entry)[key@] == entry,
        written(states, disk, Some(key), entry).remove(key@) == on_record(disk).remove(key@),
        written(states, disk, None, entry) == states,
{
}

} // verus!
