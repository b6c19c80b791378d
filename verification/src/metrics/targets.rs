//! Which units are sampled.

use vstd::prelude::*;

use crate::daemon::pid_file::{lookup, PidFile, PidView};
use crate::daemon::state_file::{ServiceStateEntry, ServiceStateFile};
use crate::text::same;

verus! {

/// A unit to sample.
#[derive(Debug, PartialEq, Eq)]
pub struct UnitTarget {
    /// The unit's hash.
    pub hash: String,
    /// Its process, when it has one.
    pub pid: Option<u32>,
}

/// A configured service and its state key.
pub struct ConfiguredUnit {
    /// The service.
    pub service: String,
    /// Its state key.
    pub hash: String,
}

/// The process of a configured service: the one its state names, or else the one recorded for it.
pub open spec fn unit_pid(
    states: Map<Seq<char>, ServiceStateEntry>,
    pids: PidView,
    service: Seq<char>,
    hash: Seq<char>,
) -> Option<u32> {
    if states.contains_key(hash) && states[hash].pid is Some {
        states[hash].pid
    } else {
        lookup(pids.services, service)
    }
}

/// Whether a configured service has this key.
pub open spec fn is_configured(units: Seq<ConfiguredUnit>, hash: Seq<char>) -> bool {
    exists|i: int| 0 <= i < units.len() && (#[trigger] units[i]).hash@ == hash
}

/// The states among the first `n` that belong to no configured service.
pub open spec fn unconfigured(
    units: Seq<ConfiguredUnit>,
    keys: Seq<Seq<char>>,
    states: Seq<ServiceStateEntry>,
    n: int,
) -> Seq<(Seq<char>, Option<u32>)>
    decreases n,
{
    if n <= 0 {
        seq![]
    } else {
        let before = unconfigured(units, keys, states, n - 1);
        if is_configured(units, keys[n - 1]) {
            before
        } else {
            before.push((keys[n - 1], states[n - 1].pid))
        }
    }
}

/// What targets say.
pub open spec fn targets_of(v: Seq<UnitTarget>) -> Seq<(Seq<char>, Option<u32>)> {
    v.map_values(|t: UnitTarget| (t.hash@, t.pid))
}

fn configured_with(units: &Vec<ConfiguredUnit>, hash: &str) -> (r: bool)
    ensures
        r == is_configured(units@, hash@),
{
    let mut i: usize = 0;
    while i < units.len()
        invariant
            i <= units.len(),
            forall|j: int| 0 <= j < i ==> (#[trigger] units@[j]).hash@ != hash@,
        decreases units.len() - i,
    {
        if same(units[i].hash.as_str(), hash) {
            assert(units@[i as int].hash@ == hash@);
            return true;
        }
        i = i + 1;
    }
    false
}

/// The units to sample: every configured service, then every other unit with a recorded state.
pub fn gather_unit_targets(
    units: &Vec<ConfiguredUnit>,
    pids: &PidFile,
    states: &ServiceStateFile,
) -> (r: Vec<UnitTarget>)
    ensures
        targets_of(r@) == units@.map_values(
            |u: ConfiguredUnit| (u.hash@, unit_pid(states@, pids@, u.service@, u.hash@)),
        ) + unconfigured(
            units@,
            states.services.names(),
            states.services.values(),
            states.services.names().len() as int,
        ),
{
    let ghost f = |u: ConfiguredUnit| (u.hash@, unit_pid(states@, pids@, u.service@, u.hash@));
    let mut out: Vec<UnitTarget> = Vec::new();
    let mut i: usize = 0;
    while i < units.len()
        invariant
            i <= units.len(),
            f == (|u: ConfiguredUnit| (u.hash@, unit_pid(states@, pids@, u.service@, u.hash@))),
            targets_of(out@) =~= units@.take(i as int).map_values(f),
        decreases units.len() - i,
    {
        let u = &units[i];
        let from_state: Option<u32> = match states.get(u.hash.as_str()) {
            Some(e) => e.pid,
            None => None,
        };
        let pid = match from_state {
            Some(p) => Some(p),
            None => pids.pid_for(u.service.as_str()),
        };
        let ghost before = targets_of(out@);
        out.push(UnitTarget { hash: u.hash.clone(), pid });
        proof {
            assert(targets_of(out@) =~= before.push(f(units@[i as int])));
            assert(units@.take(i + 1).map_values(f) =~= units@.take(i as int).map_values(f).push(
                f(units@[i as int]),
            ));
        }
        i = i + 1;
    }
    assert(units@.take(units@.len() as int) =~= units@);
    let ghost first = targets_of(out@);
    let n: usize = states.services.len();
    let ghost ks = states.services.names();
    let ghost vs = states.services.values();
    let mut k: usize = 0;
    assert(first + Seq::<(Seq<char>, Option<u32>)>::empty() =~= first);
    while k < n
        invariant
            k <= n,
            n == ks.len(),
            n == vs.len(),
            ks == states.services.names(),
            vs == states.services.values(),
            targets_of(out@) == first + unconfigured(units@, ks, vs, k as int),
        decreases n - k,
    {
        let hash = states.services.name_at(k);
        let entry = states.services.value_at(k);
        if !configured_with(units, hash.as_str()) {
            let ghost before = targets_of(out@);
            out.push(UnitTarget { hash: hash.clone(), pid: entry.pid });
            proof {
                assert(targets_of(out@) =~= before.push((ks[k as int], vs[k as int].pid)));
                assert(first + unconfigured(units@, ks, vs, k + 1) =~= before.push(
                    (ks[k as int], vs[k as int].pid),
                ));
            }
        }
        k = k + 1;
    }
    out
}

/// The process that a service's state names is the one measured; the recorded process only where the
/// state names none.
pub proof fn law_state_names_the_process(
    states: Map<Seq<char>, ServiceStateEntry>,
    pids: PidView,
    service: Seq<char>,
    hash: Seq<char>,
)
    ensures
        states.contains_key(hash) && states[hash].pid is Some ==> unit_pid(
            states,
            pids,
            service,
            hash,
        ) == states[hash].pid,
        !states.contains_key(hash) || states[hash].pid is None ==> unit_pid(
            states,
            pids,
            service,
            hash,
        ) == (if pids.services.contains_key(service) {
            Some(pids.services[service])
        } else {
            None
        }),
{
}

/// A state is measured on its own exactly when it belongs to no configured service.
pub proof fn law_other_states_are_measured_too(
    units: Seq<ConfiguredUnit>,
    keys: Seq<Seq<char>>,
    states: Seq<ServiceStateEntry>,
    n: int,
    key: Seq<char>,
    pid: Option<u32>,
)
    requires
        0 <= n <= keys.len(),
    ensures
        unconfigured(units, keys, states, n).contains((key, pid)) <==> exists|i: int|
            0 <= i < n && #[trigger] keys[i] == key && states[i].pid == pid && (forall|k: int|
                0 <= k < units.len() ==> (#[trigger] units[k]).hash@ != key),
    decreases n,
{
    if n > 0 {
        law_other_states_are_measured_too(units, keys, states, n - 1, key, pid);
        let before = unconfigured(units, keys, states, n - 1);
        let x = (keys[n - 1], states[n - 1].pid);
        let all = before.push(x);
        assert(all[before.len() as int] == x);
        if before.contains((key, pid)) {
            let k = choose|k: int| 0 <= k < before.len() && before[k] == (key, pid);
            assert(all[k] == (key, pid));
        }
        if all.contains((key, pid)) && !before.contains((key, pid)) {
            let k = choose|k: int| 0 <= k < all.len() && all[k] == (key, pid);
            if k < before.len() {
                assert(before[k] == (key, pid));
            }
            assert(keys[n - 1] == key);
        }
    }
}

} // verus!
