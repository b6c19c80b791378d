//! The order in which the daemon's locks are taken.

use vstd::prelude::*;

use crate::text::{decimal, push_decimal};

verus! {

/// The daemon's locks.
#[derive(Debug, Clone, Copy, PartialEq, Eq, Structural)]
pub enum DaemonLock {
    /// The running children.
    Processes,
    /// The PID file.
    PidFile,
    /// The state file.
    StateFile,
    /// The restart counts.
    RestartCounts,
    /// The services stopped on purpose.
    ManualStopFlags,
    /// The services that must not be restarted.
    RestartSuppressed,
    /// The services being restarted.
    RestartInFlight,
    /// The services that fell with a dependency.
    StoppedForDependency,
}

impl DaemonLock {
    /// The rank of a lock: locks are taken in ascending order of rank.
    pub open spec fn rank(self) -> u8 {
        match self {
            DaemonLock::Processes => 1u8,
            DaemonLock::PidFile => 2u8,
            DaemonLock::StateFile => 3u8,
            DaemonLock::RestartCounts => 4u8,
            DaemonLock::ManualStopFlags => 5u8,
            DaemonLock::RestartSuppressed => 6u8,
            DaemonLock::RestartInFlight => 7u8,
            DaemonLock::StoppedForDependency => 8u8,
        }
    }

    /// The name of a lock.
    pub open spec fn name(self) -> Seq<char> {
        match self {
            DaemonLock::Processes => "Processes"@,
            DaemonLock::PidFile => "PidFile"@,
            DaemonLock::StateFile => "StateFile"@,
            DaemonLock::RestartCounts => "RestartCounts"@,
            DaemonLock::ManualStopFlags => "ManualStopFlags"@,
            DaemonLock::RestartSuppressed => "RestartSuppressed"@,
            DaemonLock::RestartInFlight => "RestartInFlight"@,
            DaemonLock::StoppedForDependency => "StoppedForDependency"@,
        }
    }

    /// The rank of a lock: locks are taken in ascending order of rank.
    pub fn priority(self) -> (r: u8)
        ensures
            r == self.rank(),
    {
        match self {
            DaemonLock::Processes => 1,
            DaemonLock::PidFile => 2,
            DaemonLock::StateFile => 3,
            DaemonLock::RestartCounts => 4,
            DaemonLock::ManualStopFlags => 5,
            DaemonLock::RestartSuppressed => 6,
            DaemonLock::RestartInFlight => 7,
            DaemonLock::StoppedForDependency => 8,
        }
    }

    fn label(self) -> (r: &'static str)
        ensures
            r@ == self.name(),
    {
        match self {
            DaemonLock::Processes => "Processes",
            DaemonLock::PidFile => "PidFile",
            DaemonLock::StateFile => "StateFile",
            DaemonLock::RestartCounts => "RestartCounts",
            DaemonLock::ManualStopFlags => "ManualStopFlags",
            DaemonLock::RestartSuppressed => "RestartSuppressed",
            DaemonLock::RestartInFlight => "RestartInFlight",
            DaemonLock::StoppedForDependency => "StoppedForDependency",
        }
    }
}

/// Whether the locks held were taken in ascending order, each once.
pub open spec fn in_order(held: Seq<DaemonLock>) -> bool {
    forall|i: int, j: int|
        #![trigger held[i], held[j]]
        0 <= i < j < held.len() ==> held[i].rank() < held[j].rank()
}

/// How taking a lock out of order is reported.
pub open spec fn violation(wanted: DaemonLock, existing: DaemonLock) -> Seq<char> {
    "lock order violation: "@ + wanted.name() + " ("@ + decimal(wanted.rank() as nat) + ") after "@
        + existing.name() + " ("@ + decimal(existing.rank() as nat) + ")"@
}

/// Takes a lock, in the order held, or says which held lock forbids it: the first whose rank is not
/// below the wanted one's.
pub fn acquire_lock(held: &mut Vec<DaemonLock>, wanted: DaemonLock) -> (r: Result<(), String>)
    ensures
        r is Ok <==> forall|i: int|
            0 <= i < old(held)@.len() ==> (#[trigger] old(held)@[i]).rank() < wanted.rank(),
        r is Ok ==> final(held)@ == old(held)@.push(wanted),
        r is Ok && in_order(old(held)@) ==> in_order(final(held)@),
        r is Err ==> final(held)@ == old(held)@,
        r is Err ==> exists|i: int|
            {
                &&& 0 <= i < old(held)@.len()
                &&& (#[trigger] old(held)@[i]).rank() >= wanted.rank()
                &&& forall|j: int|
                    0 <= j < i ==> (#[trigger] old(held)@[j]).rank() < wanted.rank()
                &&& r->Err_0@ == violation(wanted, old(held)@[i])
            },
{
    let mut i: usize = 0;
    while i < held.len()
        invariant
            i <= held.len(),
            held@ == old(held)@,
            forall|j: int| 0 <= j < i ==> (#[trigger] held@[j]).rank() < wanted.rank(),
        decreases held.len() - i,
    {
        let existing = held[i];
        if wanted.priority() <= existing.priority() {
            let mut m = "lock order violation: ".to_owned();
            m.append(wanted.label());
            m.append(" (");
            push_decimal(&mut m, wanted.priority() as u64);
            m.append(") after ");
            m.append(existing.label());
            m.append(" (");
            push_decimal(&mut m, existing.priority() as u64);
            m.append(")");
            assert(m@ =~= violation(wanted, existing));
            assert(old(held)@[i as int].rank() >= wanted.rank());
            return Err(m);
        }
        i = i + 1;
    }
    held.push(wanted);
    Ok(())
}

/// Gives a lock back. What is still held stays in order.
pub fn release_lock(held: &mut Vec<DaemonLock>, lock: DaemonLock)
    requires
        in_order(old(held)@),
    ensures
        in_order(final(held)@),
        forall|l: DaemonLock| #[trigger]
            final(held)@.contains(l) <==> old(held)@.contains(l) && l != lock,
{
    let ghost before = held@;
    let mut i: usize = 0;
    while i < held.len() && held[i] != lock
        invariant
            i <= held.len(),
            held@ == before,
            forall|j: int| 0 <= j < i ==> held@[j] != lock,
        decreases held.len() - i,
    {
        i = i + 1;
    }
    if i < held.len() {
        let _ = held.remove(i);
        proof {
            assert(held@ =~= before.remove(i as int));
            assert forall|l: DaemonLock| #[trigger] held@.contains(l) <==> before.contains(l) && l
                != lock by {
                if held@.contains(l) {
                    let k = choose|k: int| 0 <= k < held@.len() && held@[k] == l;
                    let o = if k < i {
                        k
                    } else {
                        k + 1
                    };
                    assert(before[o] == l);
                    assert(before[i as int] == lock);
                }
                if before.contains(l) && l != lock {
                    let k = choose|k: int| 0 <= k < before.len() && before[k] == l;
                    let n = if k < i {
                        k
                    } else {
                        k - 1
                    };
                    assert(held@[n] == l);
                }
            }
        }
    }
}

/// The locks have a fixed order: processes, process records, states, restart counts, manual stops,
/// suppressed restarts, restarts going on, and fallen services.
pub proof fn law_locks_have_one_order(a: DaemonLock, b: DaemonLock)
    ensures
        a.rank() == b.rank() <==> a == b,
        DaemonLock::Processes.rank() < DaemonLock::PidFile.rank(),
        DaemonLock::PidFile.rank() < DaemonLock::StateFile.rank(),
        DaemonLock::StateFile.rank() < DaemonLock::RestartCounts.rank(),
        DaemonLock::RestartCounts.rank() < DaemonLock::ManualStopFlags.rank(),
        DaemonLock::ManualStopFlags.rank() < DaemonLock::RestartSuppressed.rank(),
        DaemonLock::RestartSuppressed.rank() < DaemonLock::RestartInFlight.rank(),
        DaemonLock::RestartInFlight.rank() < DaemonLock::StoppedForDependency.rank(),
{
}

} // verus!
