//! The last known lifecycle state of every service, keyed by configuration hash.

use vstd::prelude::*;

use crate::names::NameMap;
use crate::state_store::StateStore;

verus! {

/// Service lifecycle states.
#[derive(Debug, Clone, Copy, PartialEq, Eq, Structural)]
pub enum ServiceLifecycleStatus {
    /// Currently running.
    Running,
    /// Skipped via config.
    Skipped,
    /// Clean exit (code 0).
    ExitedSuccessfully,
    /// Error exit (non-zero/signal).
    ExitedWithError,
    /// Manually stopped.
    Stopped,
}

/// Service runtime metadata.
#[derive(Debug, Clone, Copy, PartialEq, Eq, Structural)]
pub struct ServiceStateEntry {
    /// Current lifecycle status of the service.
    pub status: ServiceLifecycleStatus,
    /// Process ID when the service is running.
    pub pid: Option<u32>,
    /// Exit code when the service has exited.
    pub exit_code: Option<i32>,
    /// Signal number if the service was terminated by a signal.
    pub signal: Option<i32>,
}

/// Whether starting a service left it up or finished.
#[derive(Debug, Clone, Copy, PartialEq, Eq, Structural)]
pub enum ServiceReadyState {
    /// The process stays up.
    Running,
    /// The process ran to completion with status zero.
    CompletedSuccess,
}

/// The service has no recorded state.
#[derive(Debug, Clone, Copy, PartialEq, Eq, Structural)]
pub enum ServiceStateError {
    /// The service is not in the state file.
    ServiceNotFound,
}

/// Persistent record of the last-known state for every managed service.
pub struct ServiceStateFile {
    /// Configuration hash to state.
    pub services: NameMap<ServiceStateEntry>,
    /// The project state directory this file is bound to. Never written out.
    pub store: StateStore,
}

impl View for ServiceStateFile {
    type V = Map<Seq<char>, ServiceStateEntry>;

    open spec fn view(&self) -> Map<Seq<char>, ServiceStateEntry> {
        self.services@
    }
}

/// What a write starts from: the states on disk. A missing file holds none.
pub open spec fn on_record(disk: Option<ServiceStateFile>) -> Map<Seq<char>, ServiceStateEntry> {
    match disk {
        Some(d) => d@,
        None => Map::empty(),
    }
}

impl ServiceStateFile {
    /// An empty record bound to `store`.
    pub fn empty(store: StateStore) -> (r: Self)
        ensures
            r@ == Map::<Seq<char>, ServiceStateEntry>::empty(),
            r.store == store,
    {
        ServiceStateFile { services: NameMap::new(), store }
    }

    /// The project store this file is bound to.
    pub fn store(&self) -> (r: StateStore)
        ensures
            r == self.store,
    {
        self.store.clone()
    }

    /// Binds this file to a project store.
    pub fn set_store(&mut self, store: StateStore)
        ensures
            final(self).store == store,
            final(self)@ == old(self)@,
    {
        self.store = store;
    }

    /// Takes over the states read from disk, keeping the bound store. A missing file is treated as
    /// empty.
    pub fn reload_locked(&mut self, on_disk: Option<ServiceStateFile>)
        ensures
            final(self)@ == on_record(on_disk),
            final(self).store == old(self).store,
    {
        match on_disk {
            Some(disk) => {
                let store = self.store.clone();
                *self = disk;
                self.store = store;
            },
            None => {
                self.services = NameMap::new();
            },
        }
    }

    /// Sets a service's state in memory only.
    pub fn set_in_memory(
        &mut self,
        service_hash: &str,
        status: ServiceLifecycleStatus,
        pid: Option<u32>,
        exit_code: Option<i32>,
        signal: Option<i32>,
    )
        ensures
            final(self)@ == old(self)@.insert(
                service_hash@,
                (ServiceStateEntry { status, pid, exit_code, signal }),
            ),
            final(self).store == old(self).store,
    {
        self.services.insert(service_hash, ServiceStateEntry { status, pid, exit_code, signal });
    }

    /// The states of all services, keyed by configuration hash.
    pub fn services(&self) -> (r: &NameMap<ServiceStateEntry>)
        ensures
            r@ == self@,
    {
        &self.services
    }

    /// The state of one service.
    pub fn get(&self, service_hash: &str) -> (r: Option<&ServiceStateEntry>)
        ensures
            match r {
                Some(e) => self@.contains_key(service_hash@) && *e == self@[service_hash@],
                None => !self@.contains_key(service_hash@),
            },
    {
        self.services.get(service_hash)
    }

    /// Sets the state of one service on top of what is on disk, so that no other writer's entry
    /// is lost.
    pub fn set(
        &mut self,
        on_disk: Option<ServiceStateFile>,
        service_hash: &str,
        status: ServiceLifecycleStatus,
        pid: Option<u32>,
        exit_code: Option<i32>,
        signal: Option<i32>,
    )
        ensures
            final(self)@ == on_record(on_disk).insert(
                service_hash@,
                (ServiceStateEntry { status, pid, exit_code, signal }),
            ),
            final(self).store == old(self).store,
    {
        self.reload_locked(on_disk);
        self.set_in_memory(service_hash, status, pid, exit_code, signal);
    }

    /// Forgets the state of one service, starting from what is on disk.
    pub fn remove(&mut self, on_disk: Option<ServiceStateFile>, service_hash: &str) -> (r: Result<
        (),
        ServiceStateError,
    >)
        ensures
            final(self)@ == on_record(on_disk).remove(service_hash@),
            final(self).store == old(self).store,
            r is Ok <==> on_record(on_disk).contains_key(service_hash@),
            r is Err ==> r->Err_0 == ServiceStateError::ServiceNotFound,
    {
        self.reload_locked(on_disk);
        if self.services.remove(service_hash).is_some() {
            Ok(())
        } else {
            Err(ServiceStateError::ServiceNotFound)
        }
    }
}

/// The status recorded for a key.
pub open spec fn status_of(
    states: Map<Seq<char>, ServiceStateEntry>,
    key: Seq<char>,
) -> Option<ServiceLifecycleStatus> {
    if states.contains_key(key) {
        Some(states[key].status)
    } else {
        None
    }
}

/// Two writers that each start from what is on disk lose no state, whatever each had in memory: a
/// writer that finds `disk`, the outcome of another's write, keeps the other's state and every
/// state that was there before.
pub proof fn law_no_lost_state(
    before: Map<Seq<char>, ServiceStateEntry>,
    disk: ServiceStateFile,
    first: Seq<char>,
    second: Seq<char>,
    a: ServiceStateEntry,
    b: ServiceStateEntry,
)
    requires
        first != second,
        disk@ == before.insert(first, a),
    ensures
        ({
            let after = on_record(Some(disk)).insert(second, b);
            &&& after.contains_key(first) && after[first] == a
            &&& after.contains_key(second) && after[second] == b
            &&& forall|other: Seq<char>|
                before.contains_key(other) && other != first && other != second
                    ==> #[trigger] after.contains_key(other) && after[other] == before[other]
        }),
{
}

} // verus!
