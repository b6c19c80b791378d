//! Handing a running workload over to a replacement supervisor.

use vstd::prelude::*;

use crate::daemon::flags::FlagsView;
use crate::daemon::monitor::Books;
use crate::daemon::pid_file::{lookup, PidFile, PidView};
use crate::daemon::start::{start_error, start_failure};
use crate::daemon::stop::set_names;
use crate::error::{FaultKind, ProcessManagerError};
use crate::names::{ascending, NameMap, NameSet};
use crate::text::{decimal, push_decimal, push_signed, signed_decimal, texts};

verus! {

/// A process that changes hands, with everything that identifies it.
#[derive(Debug, PartialEq, Eq)]
pub struct HandoffProcess {
    /// The service it runs.
    pub service: String,
    /// The process.
    pub pid: u32,
    /// Its process group.
    pub pgid: i32,
    /// When it started.
    pub started: u64,
}

/// What is seen of a process that the supervisor holds or is about to hold.
#[derive(Debug, Clone, Copy, PartialEq, Eq, Structural)]
pub struct HeldProcess {
    /// The process.
    pub pid: u32,
    /// Whether it is alive.
    pub alive: bool,
    /// When the process of that id started.
    pub started: Option<u64>,
    /// The process group it belongs to.
    pub group: Option<i32>,
}

/// Why a held process cannot be handed over, if it cannot: it must be the recorded one in every
/// respect.
pub open spec fn handoff_fault(v: PidView, service: Seq<char>, h: HeldProcess) -> Option<Seq<char>> {
    if lookup(v.services, service) != Some(h.pid) {
        Some("PID file does not own process "@ + decimal(h.pid as nat))
    } else if lookup(v.starts, service) is None {
        Some("process start identity is missing"@)
    } else if !h.alive || h.started != lookup(v.starts, service) {
        Some("process "@ + decimal(h.pid as nat) + " is no longer the recorded instance"@)
    } else if lookup(v.groups, service) is None {
        Some("process group identity is missing"@)
    } else if h.group != lookup(v.groups, service) {
        Some(
            "process "@ + decimal(h.pid as nat) + " no longer belongs to group "@ + signed_decimal(
                v.groups[service] as int,
            ),
        )
    } else {
        None
    }
}

fn numbered(before: &str, pid: u32, after: &str) -> (r: String)
    ensures
        r@ == before@ + decimal(pid as nat) + after@,
{
    let mut m = before.to_owned();
    push_decimal(&mut m, pid as u64);
    m.append(after);
    m
}

fn find_fault(pids: &PidFile, service: &str, h: HeldProcess) -> (r: Result<HandoffProcess, String>)
    ensures
        match r {
            Err(m) => handoff_fault(pids@, service@, h) == Some(m@),
            Ok(p) => {
                &&& handoff_fault(pids@, service@, h) is None
                &&& is_snapshot(p, pids@, service@, h)
            },
        },
{
    match pids.get(service) {
        Some(p) if p == h.pid => {},
        _ => {
            let m = numbered("PID file does not own process ", h.pid, "");
            assert(""@ =~= Seq::<char>::empty()) by {
                reveal_strlit("");
            }
            assert(m@ =~= "PID file does not own process "@ + decimal(h.pid as nat));
            return Err(m);
        },
    }
    let started: u64 = match pids.start_for(service) {
        Some(s) => s,
        None => {
            return Err("process start identity is missing".to_owned());
        },
    };
    let same_start = match h.started {
        Some(s) => s == started,
        None => false,
    };
    if !h.alive || !same_start {
        return Err(numbered("process ", h.pid, " is no longer the recorded instance"));
    }
    let pgid: i32 = match pids.pgid_for(service) {
        Some(g) => g,
        None => {
            return Err("process group identity is missing".to_owned());
        },
    };
    let same_group = match h.group {
        Some(g) => g == pgid,
        None => false,
    };
    if !same_group {
        let mut m = numbered("process ", h.pid, " no longer belongs to group ");
        push_signed(&mut m, pgid as i64);
        return Err(m);
    }
    Ok(HandoffProcess { service: service.to_owned(), pid: h.pid, pgid, started })
}

/// Whether `p` is what is handed over for a faultless process.
pub open spec fn is_snapshot(
    p: HandoffProcess,
    v: PidView,
    service: Seq<char>,
    h: HeldProcess,
) -> bool {
    p.service@ == service && p.pid == h.pid && lookup(v.groups, service) == Some(p.pgid)
        && lookup(v.starts, service) == Some(p.started)
}

/// How a live recorded process that the supervisor does not hold is reported.
pub open spec fn unheld(pid: u32) -> Seq<char> {
    "live process "@ + decimal(pid as nat) + " has no waitable supervisor handle"@
}

/// Whether the process of the `i`-th recorded service is alive and not held.
pub open spec fn escapes(
    pids: NameMap<u32>,
    held: NameMap<HeldProcess>,
    alive: Set<Seq<char>>,
    i: int,
) -> bool {
    alive.contains(pids.names()[i]) && !held@.contains_key(pids.names()[i])
}

/// Whether `e` names a held process that is not the recorded one, or, when each of those is, a live
/// recorded process that is not held.
pub open spec fn names_fault(
    e: ProcessManagerError,
    held: NameMap<HeldProcess>,
    pids: PidFile,
    alive: Set<Seq<char>>,
) -> bool {
    ||| exists|i: int|
        {
            &&& 0 <= i < held.names().len()
            &&& handoff_fault(pids@, #[trigger] held.names()[i], held.values()[i]) matches Some(m)
            &&& start_failure(e, held.names()[i], FaultKind::Other, m)
        }
    ||| {
        &&& forall|k: int|
            0 <= k < held.names().len() ==> handoff_fault(
                pids@,
                #[trigger] held.names()[k],
                held.values()[k],
            ) is None
        &&& exists|i: int|
            {
                &&& 0 <= i < pids.services.names().len()
                &&& #[trigger] escapes(pids.services, held, alive, i)
                &&& start_failure(
                    e,
                    pids.services.names()[i],
                    FaultKind::Other,
                    unheld(pids.services.values()[i]),
                )
            }
    }
}

/// Captures the verified identity of every process the supervisor holds, in service order. `alive`
/// holds the recorded services whose process is alive.
pub fn handoff_processes(held: &NameMap<HeldProcess>, pids: &PidFile, alive: &NameSet) -> (r: Result<
    Vec<HandoffProcess>,
    ProcessManagerError,
>)
    ensures
        match r {
            Ok(list) => {
                &&& list@.len() == held.names().len()
                &&& forall|i: int|
                    0 <= i < list@.len() ==> {
                        &&& handoff_fault(
                            pids@,
                            #[trigger] held.names()[i],
                            held.values()[i],
                        ) is None
                        &&& is_snapshot(list@[i], pids@, held.names()[i], held.values()[i])
                    }
                &&& forall|i: int|
                    0 <= i < pids.services.names().len() ==> !(#[trigger] escapes(
                        pids.services,
                        *held,
                        alive@,
                        i,
                    ))
            },
            Err(e) => names_fault(e, *held, *pids, alive@),
        },
{
    let mut list: Vec<HandoffProcess> = Vec::new();
    let n: usize = held.len();
    let mut i: usize = 0;
    while i < n
        invariant
            i <= n,
            n == held.names().len(),
            n == held.values().len(),
            list@.len() == i,
            forall|j: int|
                0 <= j < i ==> {
                    &&& handoff_fault(pids@, #[trigger] held.names()[j], held.values()[j]) is None
                    &&& is_snapshot(list@[j], pids@, held.names()[j], held.values()[j])
                },
        decreases n - i,
    {
        let service = held.name_at(i);
        let h = *held.value_at(i);
        match find_fault(pids, service.as_str(), h) {
            Ok(p) => {
                list.push(p);
            },
            Err(m) => {
                assert(handoff_fault(pids@, held.names()[i as int], held.values()[i as int])
                    == Some(m@));
                return Err(start_error(service.as_str(), FaultKind::Other, m));
            },
        }
        i = i + 1;
    }
    let k: usize = pids.services.len();
    let mut j: usize = 0;
    while j < k
        invariant
            j <= k,
            k == pids.services.names().len(),
            k == pids.services.values().len(),
            forall|p: int|
                0 <= p < held.names().len() ==> handoff_fault(
                    pids@,
                    #[trigger] held.names()[p],
                    held.values()[p],
                ) is None,
            forall|q: int|
                0 <= q < j ==> !(#[trigger] escapes(pids.services, *held, alive@, q)),
        decreases k - j,
    {
        let service = pids.services.name_at(j);
        if alive.has(service.as_str()) && !held.has(service.as_str()) {
            let pid: u32 = *pids.services.value_at(j);
            assert(escapes(pids.services, *held, alive@, j as int));
            let m = numbered("live process ", pid, " has no waitable supervisor handle");
            return Err(start_error(service.as_str(), FaultKind::Other, m));
        }
        j = j + 1;
    }
    Ok(list)
}

/// Whether a handed-over process is still exactly the recorded one.
pub open spec fn unchanged(v: PidView, p: HandoffProcess, h: HeldProcess) -> bool {
    &&& lookup(v.services, p.service@) == Some(p.pid)
    &&& lookup(v.starts, p.service@) == Some(p.started)
    &&& lookup(v.groups, p.service@) == Some(p.pgid)
    &&& h.alive
    &&& h.started == Some(p.started)
    &&& h.group == Some(p.pgid)
}

fn is_unchanged(pids: &PidFile, p: &HandoffProcess, h: HeldProcess) -> (r: bool)
    ensures
        r == unchanged(pids@, *p, h),
{
    let s = p.service.as_str();
    pids.get(s) == Some(p.pid) && pids.start_for(s) == Some(p.started) && pids.pgid_for(s) == Some(
        p.pgid,
    ) && h.alive && h.started == Some(p.started) && h.group == Some(p.pgid)
}

/// Why the `i`-th handed-over process cannot be adopted after those before it, if it cannot.
pub open spec fn adoption_fault(
    expected: Seq<HandoffProcess>,
    configured: Set<Seq<char>>,
    v: PidView,
    seen: Seq<HeldProcess>,
    i: int,
) -> Option<Seq<char>> {
    if !configured.contains(expected[i].service@) {
        Some("service is absent from the handed-off manifest"@)
    } else if !unchanged(v, expected[i], seen[i]) {
        Some(
            "process "@ + decimal(expected[i].pid as nat)
                + " changed before the replacement supervisor resumed"@,
        )
    } else if exists|j: int| 0 <= j < i && (#[trigger] expected[j]).service@ == expected[i].service@ {
        Some("handoff contains the service more than once"@)
    } else {
        None
    }
}

/// Decides whether the handed-over processes may be adopted by a supervisor that holds none yet
/// (`holds_none`), given what is seen of each. All are adopted, or the first that cannot be is
/// reported.
pub fn adopt_handoff_processes(
    holds_none: bool,
    expected: &Vec<HandoffProcess>,
    configured: &NameSet,
    pids: &PidFile,
    seen: &Vec<HeldProcess>,
) -> (r: Result<(), ProcessManagerError>)
    requires
        expected@.len() == seen@.len(),
    ensures
        !holds_none ==> r is Err && start_failure(
            r->Err_0,
            "supervisor"@,
            FaultKind::Other,
            "process map was not empty before handoff adoption"@,
        ),
        holds_none ==> (r is Ok <==> forall|i: int|
            0 <= i < expected@.len() ==> (#[trigger] adoption_fault(
                expected@,
                configured@,
                pids@,
                seen@,
                i,
            )) is None),
        holds_none && r is Err ==> exists|i: int|
            {
                &&& 0 <= i < expected@.len()
                &&& (#[trigger] adoption_fault(expected@, configured@, pids@, seen@, i)) matches Some(m)
                &&& start_failure(r->Err_0, expected@[i].service@, FaultKind::Other, m)
                &&& forall|j: int|
                    0 <= j < i ==> (#[trigger] adoption_fault(
                        expected@,
                        configured@,
                        pids@,
                        seen@,
                        j,
                    )) is None
            },
{
    if !holds_none {
        return Err(
            start_error(
                "supervisor",
                FaultKind::Other,
                "process map was not empty before handoff adoption".to_owned(),
            ),
        );
    }
    let mut taken = NameSet::new();
    let mut i: usize = 0;
    while i < expected.len()
        invariant
            i <= expected.len(),
            holds_none,
            expected@.len() == seen@.len(),
            forall|j: int|
                0 <= j < i ==> (#[trigger] adoption_fault(
                    expected@,
                    configured@,
                    pids@,
                    seen@,
                    j,
                )) is None,
            forall|s: Seq<char>| #[trigger]
                taken@.contains(s) <==> exists|j: int|
                    0 <= j < i && (#[trigger] expected@[j]).service@ == s,
        decreases expected.len() - i,
    {
        let p = &expected[i];
        let s = p.service.as_str();
        let ghost fault = adoption_fault(expected@, configured@, pids@, seen@, i as int);
        if !configured.has(s) {
            assert(fault is Some);
            return Err(
                start_error(
                    s,
                    FaultKind::Other,
                    "service is absent from the handed-off manifest".to_owned(),
                ),
            );
        }
        if !is_unchanged(pids, p, seen[i]) {
            assert(fault is Some);
            let m = numbered(
                "process ",
                p.pid,
                " changed before the replacement supervisor resumed",
            );
            return Err(start_error(s, FaultKind::Other, m));
        }
        let ghost before = taken@;
        if !taken.insert(s) {
            assert(fault is Some);
            return Err(
                start_error(
                    s,
                    FaultKind::Other,
                    "handoff contains the service more than once".to_owned(),
                ),
            );
        }
        assert(fault is None);
        proof {
            assert forall|x: Seq<char>| #[trigger] taken@.contains(x) <==> exists|j: int|
                0 <= j < i + 1 && (#[trigger] expected@[j]).service@ == x by {
                if before.contains(x) {
                    let j = choose|j: int| 0 <= j < i && (#[trigger] expected@[j]).service@ == x;
                    assert(0 <= j < i + 1 && expected@[j].service@ == x);
                }
                if x == s@ {
                    assert(expected@[i as int].service@ == x);
                }
            }
        }
        i = i + 1;
    }
    Ok(())
}

/// Everything a replacement supervisor needs to go on supervising the same workload.
pub struct HandoffDaemonState {
    /// The processes that change hands.
    pub processes: Vec<HandoffProcess>,
    /// The services stopped on purpose, in order.
    pub manual_stops: Vec<String>,
    /// The services not to be restarted, in order.
    pub restart_suppressed: Vec<String>,
    /// How often each service was restarted.
    pub restart_counts: NameMap<u32>,
    /// The services that fell with a dependency, with the dependencies that felled them.
    pub stopped_for_dependency: NameMap<Vec<String>>,
}

/// The service sets that a map of name lists stands for.
pub open spec fn name_sets(m: NameMap<Vec<String>>) -> Map<Seq<char>, Set<Seq<char>>> {
    m@.map_values(|v: Vec<String>| texts(v@).to_set())
}

/// Whether `s` holds the daemon's marks `f` and restart counts `counts`, every list of names in
/// ascending order.
pub open spec fn captures(s: HandoffDaemonState, f: FlagsView, counts: Map<Seq<char>, u32>) -> bool {
    &&& ascending(texts(s.manual_stops@))
    &&& texts(s.manual_stops@).to_set() == f.manual
    &&& ascending(texts(s.restart_suppressed@))
    &&& texts(s.restart_suppressed@).to_set() == f.suppressed
    &&& s.restart_counts@ == counts
    &&& forall|k: Seq<char>| #[trigger]
        s.stopped_for_dependency@.contains_key(k) ==> ascending(
            texts(s.stopped_for_dependency@[k]@),
        )
    &&& name_sets(s.stopped_for_dependency) == f.casualties
}

proof fn lemma_take_step(ns: Seq<Seq<char>>, i: int)
    requires
        0 <= i < ns.len(),
    ensures
        ns.take(i + 1).to_set() == ns.take(i).to_set().insert(ns[i]),
{
    let a = ns.take(i);
    let b = ns.take(i + 1);
    assert forall|k: Seq<char>| #[trigger] b.to_set().contains(k) <==> a.to_set().insert(
        ns[i],
    ).contains(k) by {
        if b.contains(k) {
            let q = choose|q: int| 0 <= q < b.len() && b[q] == k;
            if q < i {
                assert(a[q] == k);
            }
        }
        if a.contains(k) {
            let q = choose|q: int| 0 <= q < a.len() && a[q] == k;
            assert(b[q] == k);
        }
        assert(b[i] == ns[i]);
    }
    assert(b.to_set() =~= a.to_set().insert(ns[i]));
}

fn copy_counts(m: &NameMap<u32>) -> (r: NameMap<u32>)
    ensures
        r@ == m@,
{
    let n: usize = m.len();
    let mut r: NameMap<u32> = NameMap::new();
    let mut i: usize = 0;
    assert(r@.dom() =~= m.names().take(0).to_set());
    while i < n
        invariant
            i <= n,
            n == m.names().len(),
            r@.dom() == m.names().take(i as int).to_set(),
            forall|k: Seq<char>| #[trigger] r@.contains_key(k) ==> r@[k] == m@[k],
        decreases n - i,
    {
        r.insert(m.name_at(i).as_str(), *m.value_at(i));
        proof {
            lemma_take_step(m.names(), i as int);
            assert(r@.dom() =~= m.names().take(i + 1).to_set());
        }
        i = i + 1;
    }
    assert(m.names().take(n as int) =~= m.names());
    assert(r@ =~= m@);
    r
}

fn list_sets(m: &NameMap<NameSet>) -> (r: NameMap<Vec<String>>)
    ensures
        forall|k: Seq<char>| #[trigger] r@.contains_key(k) ==> ascending(texts(r@[k]@)),
        name_sets(r) == m@.map_values(|s: NameSet| s@),
{
    let n: usize = m.len();
    let mut r: NameMap<Vec<String>> = NameMap::new();
    let mut i: usize = 0;
    assert(r@.dom() =~= m.names().take(0).to_set());
    while i < n
        invariant
            i <= n,
            n == m.names().len(),
            r@.dom() == m.names().take(i as int).to_set(),
            forall|k: Seq<char>| #[trigger]
                r@.contains_key(k) ==> ascending(texts(r@[k]@)) && texts(r@[k]@).to_set() == m@[k]@,
        decreases n - i,
    {
        r.insert(m.name_at(i).as_str(), set_names(m.value_at(i)));
        proof {
            lemma_take_step(m.names(), i as int);
            assert(r@.dom() =~= m.names().take(i + 1).to_set());
        }
        i = i + 1;
    }
    assert(m.names().take(n as int) =~= m.names());
    assert(name_sets(r) =~= m@.map_values(|s: NameSet| s@));
    r
}

fn set_of(names: &Vec<String>) -> (r: NameSet)
    ensures
        r@ == texts(names@).to_set(),
{
    let ghost ns = texts(names@);
    let mut r = NameSet::new();
    let mut i: usize = 0;
    assert(r@ =~= ns.take(0).to_set());
    while i < names.len()
        invariant
            i <= names.len(),
            ns == texts(names@),
            r@ == ns.take(i as int).to_set(),
        decreases names.len() - i,
    {
        let _ = r.insert(names[i].as_str());
        proof {
            lemma_take_step(ns, i as int);
        }
        i = i + 1;
    }
    assert(ns.take(ns.len() as int) =~= ns);
    r
}

fn unlist_sets(m: &NameMap<Vec<String>>) -> (r: NameMap<NameSet>)
    ensures
        r@.map_values(|s: NameSet| s@) == name_sets(*m),
{
    let n: usize = m.len();
    let mut r: NameMap<NameSet> = NameMap::new();
    let mut i: usize = 0;
    assert(r@.dom() =~= m.names().take(0).to_set());
    while i < n
        invariant
            i <= n,
            n == m.names().len(),
            r@.dom() == m.names().take(i as int).to_set(),
            forall|k: Seq<char>| #[trigger]
                r@.contains_key(k) ==> r@[k]@ == texts(m@[k]@).to_set(),
        decreases n - i,
    {
        r.insert(m.name_at(i).as_str(), set_of(m.value_at(i)));
        proof {
            lemma_take_step(m.names(), i as int);
            assert(r@.dom() =~= m.names().take(i + 1).to_set());
        }
        i = i + 1;
    }
    assert(m.names().take(n as int) =~= m.names());
    assert(r@.map_values(|s: NameSet| s@) =~= name_sets(*m));
    r
}

/// Captures all the bookkeeping that a replacement supervisor needs. Refused while a deployment
/// replaces a service or a restart is under way.
pub fn handoff_state(
    replacements: &NameSet,
    books: &Books,
    held: &NameMap<HeldProcess>,
    alive: &NameSet,
) -> (r: Result<HandoffDaemonState, ProcessManagerError>)
    ensures
        match r {
            Ok(s) => {
                &&& replacements@.is_empty()
                &&& books.flags@.in_flight.is_empty()
                &&& captures(s, books.flags@, books.counts@)
                &&& s.processes@.len() == held.names().len()
                &&& forall|i: int|
                    0 <= i < s.processes@.len() ==> {
                        &&& handoff_fault(
                            books.pids@,
                            #[trigger] held.names()[i],
                            held.values()[i],
                        ) is None
                        &&& is_snapshot(s.processes@[i], books.pids@, held.names()[i], held.values()[i])
                    }
                &&& forall|i: int|
                    0 <= i < books.pids.services.names().len() ==> !(#[trigger] escapes(
                        books.pids.services,
                        *held,
                        alive@,
                        i,
                    ))
            },
            Err(e) => if !replacements@.is_empty() {
                start_failure(
                    e,
                    replacements.names()[0],
                    FaultKind::Other,
                    "a deployment replacement is still active"@,
                )
            } else if !books.flags@.in_flight.is_empty() {
                start_failure(
                    e,
                    books.flags.in_flight.names()[0],
                    FaultKind::Other,
                    "an automatic restart is still active"@,
                )
            } else {
                names_fault(e, *held, books.pids, alive@)
            },
        },
{
    let busy: usize = replacements.len();
    if busy > 0 {
        let s = replacements.name_at(0);
        assert(replacements@.contains(s@));
        return Err(
            start_error(
                s.as_str(),
                FaultKind::Other,
                "a deployment replacement is still active".to_owned(),
            ),
        );
    }
    assert(replacements@ =~= Set::<Seq<char>>::empty());
    let restarting: usize = books.flags.in_flight.len();
    if restarting > 0 {
        let s = books.flags.in_flight.name_at(0);
        assert(books.flags.in_flight@.contains(s@));
        return Err(
            start_error(
                s.as_str(),
                FaultKind::Other,
                "an automatic restart is still active".to_owned(),
            ),
        );
    }
    assert(books.flags.in_flight@ =~= Set::<Seq<char>>::empty());
    let processes = match handoff_processes(held, &books.pids, alive) {
        Ok(list) => list,
        Err(e) => {
            return Err(e);
        },
    };
    let manual_stops = set_names(&books.flags.manual);
    let restart_suppressed = set_names(&books.flags.suppressed);
    let restart_counts = copy_counts(&books.counts);
    let stopped_for_dependency = list_sets(&books.flags.casualties);
    Ok(
        HandoffDaemonState {
            processes,
            manual_stops,
            restart_suppressed,
            restart_counts,
            stopped_for_dependency,
        },
    )
}

/// Whether `f` and `counts` are the marks and restart counts that `s` holds, with `before` telling
/// which restarts are under way.
pub open spec fn restores(
    s: HandoffDaemonState,
    before: FlagsView,
    f: FlagsView,
    counts: Map<Seq<char>, u32>,
) -> bool {
    &&& f.manual == texts(s.manual_stops@).to_set()
    &&& f.suppressed == texts(s.restart_suppressed@).to_set()
    &&& f.casualties == name_sets(s.stopped_for_dependency)
    &&& f.in_flight == before.in_flight
    &&& counts == s.restart_counts@
}

/// Restores the bookkeeping of the supervisor that handed over, once its processes may be adopted.
pub fn adopt_handoff_state(
    books: &mut Books,
    state: &HandoffDaemonState,
    holds_none: bool,
    configured: &NameSet,
    seen: &Vec<HeldProcess>,
) -> (r: Result<(), ProcessManagerError>)
    requires
        state.processes@.len() == seen@.len(),
    ensures
        r is Ok <==> holds_none && forall|i: int|
            0 <= i < state.processes@.len() ==> (#[trigger] adoption_fault(
                state.processes@,
                configured@,
                old(books).pids@,
                seen@,
                i,
            )) is None,
        final(books).pids == old(books).pids,
        final(books).states == old(books).states,
        r is Ok ==> restores(*state, old(books).flags@, final(books).flags@, final(books).counts@),
        r is Err ==> *final(books) == *old(books),
        !holds_none ==> r is Err && start_failure(
            r->Err_0,
            "supervisor"@,
            FaultKind::Other,
            "process map was not empty before handoff adoption"@,
        ),
        holds_none && r is Err ==> exists|i: int|
            {
                &&& 0 <= i < state.processes@.len()
                &&& (#[trigger] adoption_fault(
                    state.processes@,
                    configured@,
                    old(books).pids@,
                    seen@,
                    i,
                )) matches Some(m)
                &&& start_failure(r->Err_0, state.processes@[i].service@, FaultKind::Other, m)
                &&& forall|j: int|
                    0 <= j < i ==> (#[trigger] adoption_fault(
                        state.processes@,
                        configured@,
                        old(books).pids@,
                        seen@,
                        j,
                    )) is None
            },
{
    match adopt_handoff_processes(holds_none, &state.processes, configured, &books.pids, seen) {
        Ok(()) => {},
        Err(e) => {
            return Err(e);
        },
    }
    books.flags.manual = set_of(&state.manual_stops);
    books.flags.suppressed = set_of(&state.restart_suppressed);
    books.flags.casualties = unlist_sets(&state.stopped_for_dependency);
    books.counts = copy_counts(&state.restart_counts);
    Ok(())
}

/// A replacement supervisor that adopts what was captured goes on with the same marks and restart
/// counts.
pub proof fn law_handoff_round_trip(
    s: HandoffDaemonState,
    f: FlagsView,
    counts: Map<Seq<char>, u32>,
    fresh: FlagsView,
    g: FlagsView,
    counts_after: Map<Seq<char>, u32>,
)
    requires
        captures(s, f, counts),
        f.in_flight == Set::<Seq<char>>::empty(),
        fresh.in_flight == Set::<Seq<char>>::empty(),
        restores(s, fresh, g, counts_after),
    ensures
        g == f,
        counts_after == counts,
{
    assert(g =~= f);
}

/// Processes that are handed over and have not changed since are adopted without a fault, if the
/// manifest still has their services: what one supervisor gives, the next one takes.
pub proof fn law_unchanged_processes_are_adopted(
    list: Seq<HandoffProcess>,
    v: PidView,
    names: Seq<Seq<char>>,
    held: Seq<HeldProcess>,
    configured: Set<Seq<char>>,
)
    requires
        names.no_duplicates(),
        list.len() == names.len(),
        held.len() == names.len(),
        forall|i: int|
            0 <= i < names.len() ==> {
                &&& handoff_fault(v, #[trigger] names[i], held[i]) is None
                &&& is_snapshot(list[i], v, names[i], held[i])
                &&& configured.contains(names[i])
            },
    ensures
        forall|i: int|
            0 <= i < list.len() ==> (#[trigger] adoption_fault(list, configured, v, held, i)) is None,
{
    assert forall|i: int| 0 <= i < list.len() implies (#[trigger] adoption_fault(
        list,
        configured,
        v,
        held,
        i,
    )) is None by {
        assert(is_snapshot(list[i], v, names[i], held[i]));
        assert forall|j: int| 0 <= j < i implies (#[trigger] list[j]).service@ != list[i].service@ by {
            assert(names[j] != names[i]);
        }
    }
}

/// A held process is handed over exactly when it is the recorded one in every respect: by its id, its
/// start time and its group, and alive.
pub proof fn law_handover_needs_the_recorded_process(v: PidView, service: Seq<char>, h: HeldProcess)
    ensures
        handoff_fault(v, service, h) is None <==> {
            &&& lookup(v.services, service) == Some(h.pid)
            &&& h.alive
            &&& lookup(v.starts, service) is Some
            &&& h.started == lookup(v.starts, service)
            &&& lookup(v.groups, service) is Some
            &&& h.group == lookup(v.groups, service)
        },
{
}

/// A handed-over process is adopted exactly when its service is configured, it is still the recorded
/// one in every respect, and its service was not handed over before it.
pub proof fn law_adoption_needs_the_same_process(
    expected: Seq<HandoffProcess>,
    configured: Set<Seq<char>>,
    v: PidView,
    seen: Seq<HeldProcess>,
    i: int,
)
    requires
        0 <= i < expected.len(),
    ensures
        adoption_fault(expected, configured, v, seen, i) is None <==> {
            let p = expected[i];
            &&& configured.contains(p.service@)
            &&& lookup(v.services, p.service@) == Some(p.pid)
            &&& lookup(v.starts, p.service@) == Some(p.started)
            &&& lookup(v.groups, p.service@) == Some(p.pgid)
            &&& seen[i].alive
            &&& seen[i].started == Some(p.started)
            &&& seen[i].group == Some(p.pgid)
            &&& forall|j: int| 0 <= j < i ==> (#[trigger] expected[j]).service@ != p.service@
        },
{
}

} // verus!
