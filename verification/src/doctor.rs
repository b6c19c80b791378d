//! Checking what is recorded of a running world against what holds.

use vstd::prelude::*;

use crate::daemon::pid_file::PidFile;
use crate::daemon::state_file::{ServiceLifecycleStatus, ServiceStateEntry, ServiceStateFile};
use crate::daemon::stop::{service_of_key, service_part};
use crate::paths::{is_under, lies_under};
use crate::pids::PidSet;
use crate::text::{decimal, opt_text, push_decimal};

verus! {

/// How bad a finding is.
#[derive(Debug, Clone, Copy, PartialEq, Eq, Structural)]
pub enum Severity {
    /// The world is not safe.
    Error,
    /// Suspicious, but recoverable.
    Warn,
}

/// Something that does not hold.
#[derive(Debug, PartialEq, Eq)]
pub struct Finding {
    /// How bad it is.
    pub severity: Severity,
    /// Which rule is broken.
    pub rule: String,
    /// The project it is about.
    pub project: Option<String>,
    /// The service it is about.
    pub service: Option<String>,
    /// What is wrong.
    pub detail: String,
}

/// What a [`Finding`] says.
#[verifier::ext_equal]
pub struct FindingView {
    pub severity: Severity,
    pub rule: Seq<char>,
    pub project: Option<Seq<char>>,
    pub service: Option<Seq<char>>,
    pub detail: Seq<char>,
}

impl View for Finding {
    type V = FindingView;

    open spec fn view(&self) -> FindingView {
        FindingView {
            severity: self.severity,
            rule: self.rule@,
            project: opt_text(self.project),
            service: opt_text(self.service),
            detail: self.detail@,
        }
    }
}

/// What findings say.
pub open spec fn views(v: Seq<Finding>) -> Seq<FindingView> {
    v.map_values(|f: Finding| f@)
}

/// What a sweep found.
#[derive(Debug, PartialEq, Eq)]
pub struct WorldReport {
    /// The mode that was looked at.
    pub mode: String,
    /// How many projects were looked at.
    pub projects: usize,
    /// What does not hold, the worst first.
    pub findings: Vec<Finding>,
}

/// What a finding is about, as it is shown.
pub open spec fn scope_text(f: FindingView) -> Seq<char> {
    match (f.project, f.service) {
        (Some(p), Some(s)) => " ["@ + p + "/"@ + s + "]"@,
        (Some(p), None) => " ["@ + p + "]"@,
        _ => seq![],
    }
}

/// A finding as it is shown.
pub open spec fn finding_line(f: FindingView) -> Seq<char> {
    "  "@ + (match f.severity {
        Severity::Error => "error"@,
        Severity::Warn => "warn"@,
    }) + " "@ + f.rule + scope_text(f) + ": "@ + f.detail + "\n"@
}

/// Findings as they are shown, one after the other.
pub open spec fn finding_lines(fs: Seq<FindingView>) -> Seq<char>
    decreases fs.len(),
{
    if fs.len() == 0 {
        seq![]
    } else {
        finding_lines(fs.drop_last()) + finding_line(fs.last())
    }
}

fn push_finding(out: &mut String, f: &Finding)
    ensures
        final(out)@ == old(out)@ + finding_line(f@),
{
    let ghost before = out@;
    out.append("  ");
    match f.severity {
        Severity::Error => {
            out.append("error");
        },
        Severity::Warn => {
            out.append("warn");
        },
    }
    out.append(" ");
    out.append(f.rule.as_str());
    match (&f.project, &f.service) {
        (Some(p), Some(s)) => {
            out.append(" [");
            out.append(p.as_str());
            out.append("/");
            out.append(s.as_str());
            out.append("]");
        },
        (Some(p), None) => {
            out.append(" [");
            out.append(p.as_str());
            out.append("]");
        },
        _ => {},
    }
    out.append(": ");
    out.append(f.detail.as_str());
    out.append("\n");
    assert(out@ =~= before + finding_line(f@));
}

impl WorldReport {
    /// Whether anything is unsafe.
    pub fn has_errors(&self) -> (r: bool)
        ensures
            r == exists|i: int|
                0 <= i < self.findings@.len() && (#[trigger] self.findings@[i]).severity is Error,
    {
        let mut i: usize = 0;
        while i < self.findings.len()
            invariant
                i <= self.findings.len(),
                forall|j: int|
                    0 <= j < i ==> !((#[trigger] self.findings@[j]).severity is Error),
            decreases self.findings.len() - i,
        {
            match self.findings[i].severity {
                Severity::Error => {
                    assert(self.findings@[i as int].severity is Error);
                    return true;
                },
                Severity::Warn => {},
            }
            i = i + 1;
        }
        false
    }

    /// Whether everything holds.
    pub fn is_clean(&self) -> (r: bool)
        ensures
            r == (self.findings@.len() == 0),
    {
        self.findings.len() == 0
    }

    /// The report as it is shown.
    pub open spec fn shown(&self) -> Seq<char> {
        if self.findings@.len() == 0 {
            "doctor: "@ + decimal(self.projects as nat) + " project(s) consistent in "@ + self.mode@
                + " mode"@
        } else {
            "doctor: "@ + decimal(self.findings@.len()) + " finding(s) across "@ + decimal(
                self.projects as nat,
            ) + " project(s) in "@ + self.mode@ + " mode\n"@ + finding_lines(views(self.findings@))
        }
    }

    /// The report as it is shown.
    pub fn message(&self) -> (r: String)
        ensures
            r@ == self.shown(),
    {
        let mut out = "doctor: ".to_owned();
        if self.is_clean() {
            push_decimal(&mut out, self.projects as u64);
            out.append(" project(s) consistent in ");
            out.append(self.mode.as_str());
            out.append(" mode");
            return out;
        }
        push_decimal(&mut out, self.findings.len() as u64);
        out.append(" finding(s) across ");
        push_decimal(&mut out, self.projects as u64);
        out.append(" project(s) in ");
        out.append(self.mode.as_str());
        out.append(" mode\n");
        let ghost head = out@;
        let ghost all = views(self.findings@);
        let mut i: usize = 0;
        assert(all.take(0) =~= Seq::<FindingView>::empty());
        assert(head + finding_lines(all.take(0)) =~= head);
        while i < self.findings.len()
            invariant
                i <= self.findings.len(),
                all == views(self.findings@),
                out@ == head + finding_lines(all.take(i as int)),
            decreases self.findings.len() - i,
        {
            assert(all.take(i + 1).drop_last() =~= all.take(i as int));
            assert(all[i as int] == self.findings@[i as int]@);
            push_finding(&mut out, &self.findings[i]);
            assert(out@ =~= head + (finding_lines(all.take(i as int)) + finding_line(all[i as int])));
            i = i + 1;
        }
        assert(all.take(all.len() as int) =~= all);
        out
    }
}

// ---------------------------------------------------------------------------
// One project
// ---------------------------------------------------------------------------

/// What is wrong with a recorded state, if anything: a service that is recorded as running must
/// have a process that is there and not dead.
pub open spec fn state_finding(
    project: Seq<char>,
    key: Seq<char>,
    e: ServiceStateEntry,
    addressable: Set<u32>,
    zombies: Set<u32>,
) -> Option<FindingView> {
    let finding = |rule: Seq<char>, detail: Seq<char>|
        Some(
            FindingView {
                severity: Severity::Error,
                rule,
                project: Some(project),
                service: Some(service_part(key)),
                detail,
            },
        );
    if e.status != ServiceLifecycleStatus::Running {
        None
    } else {
        match e.pid {
            None => finding("running-without-pid"@, "recorded Running but has no pid"@),
            Some(pid) => if !addressable.contains(pid) {
                finding(
                    "running-pid-dead"@,
                    "recorded Running but pid "@ + decimal(pid as nat) + " is not alive"@,
                )
            } else if zombies.contains(pid) {
                finding(
                    "running-pid-zombie"@,
                    "recorded Running but pid "@ + decimal(pid as nat) + " is a zombie"@,
                )
            } else {
                None
            },
        }
    }
}

/// What is wrong with a recorded process, if anything: it must be there.
pub open spec fn pid_finding(
    project: Seq<char>,
    service: Seq<char>,
    pid: u32,
    addressable: Set<u32>,
) -> Option<FindingView> {
    if addressable.contains(pid) {
        None
    } else {
        Some(
            FindingView {
                severity: Severity::Warn,
                rule: "pidfile-stale-entry"@,
                project: Some(project),
                service: Some(service),
                detail: "pid map lists "@ + decimal(pid as nat) + " which is not alive"@,
            },
        )
    }
}

/// `fs`, and `f` when there is one.
pub open spec fn and_maybe(fs: Seq<FindingView>, f: Option<FindingView>) -> Seq<FindingView> {
    match f {
        Some(x) => fs.push(x),
        None => fs,
    }
}

/// What is wrong with the first `n` recorded states, in order.
pub open spec fn state_findings(
    project: Seq<char>,
    keys: Seq<Seq<char>>,
    states: Seq<ServiceStateEntry>,
    addressable: Set<u32>,
    zombies: Set<u32>,
    n: int,
) -> Seq<FindingView>
    decreases n,
{
    if n <= 0 {
        seq![]
    } else {
        and_maybe(
            state_findings(project, keys, states, addressable, zombies, n - 1),
            state_finding(project, keys[n - 1], states[n - 1], addressable, zombies),
        )
    }
}

/// What is wrong with the first `n` recorded processes, in order.
pub open spec fn pid_findings(
    project: Seq<char>,
    services: Seq<Seq<char>>,
    pids: Seq<u32>,
    addressable: Set<u32>,
    n: int,
) -> Seq<FindingView>
    decreases n,
{
    if n <= 0 {
        seq![]
    } else {
        and_maybe(
            pid_findings(project, services, pids, addressable, n - 1),
            pid_finding(project, services[n - 1], pids[n - 1], addressable),
        )
    }
}

/// What is wrong with a project.
pub open spec fn project_findings(
    project: Seq<char>,
    states: Option<&ServiceStateFile>,
    pids: Option<&PidFile>,
    addressable: Set<u32>,
    zombies: Set<u32>,
) -> Seq<FindingView> {
    (match states {
        Some(s) => state_findings(
            project,
            s.services.names(),
            s.services.values(),
            addressable,
            zombies,
            s.services.names().len() as int,
        ),
        None => seq![],
    }) + (match pids {
        Some(p) => pid_findings(
            project,
            p.services.names(),
            p.services.values(),
            addressable,
            p.services.names().len() as int,
        ),
        None => seq![],
    })
}

fn finding(severity: Severity, rule: &str, project: &str, service: &str, detail: String) -> (r:
    Finding)
    ensures
        r@ == (FindingView {
            severity,
            rule: rule@,
            project: Some(project@),
            service: Some(service@),
            detail: detail@,
        }),
{
    Finding {
        severity,
        rule: rule.to_owned(),
        project: Some(project.to_owned()),
        service: Some(service.to_owned()),
        detail,
    }
}

fn about_pid(before: &str, pid: u32, after: &str) -> (r: String)
    ensures
        r@ == before@ + decimal(pid as nat) + after@,
{
    let mut s = before.to_owned();
    push_decimal(&mut s, pid as u64);
    s.append(after);
    s
}

fn find_in_state(
    project: &str,
    key: &str,
    e: &ServiceStateEntry,
    addressable: &PidSet,
    zombies: &PidSet,
) -> (r: Option<Finding>)
    ensures
        match r {
            Some(f) => state_finding(project@, key@, *e, addressable@, zombies@) == Some(f@),
            None => state_finding(project@, key@, *e, addressable@, zombies@) is None,
        },
{
    if e.status != ServiceLifecycleStatus::Running {
        return None;
    }
    let service = service_of_key(key);
    match e.pid {
        None => Some(
            finding(
                Severity::Error,
                "running-without-pid",
                project,
                service.as_str(),
                "recorded Running but has no pid".to_owned(),
            ),
        ),
        Some(pid) => {
            if !addressable.has(pid) {
                let detail = about_pid("recorded Running but pid ", pid, " is not alive");
                Some(finding(Severity::Error, "running-pid-dead", project, service.as_str(), detail))
            } else if zombies.has(pid) {
                let detail = about_pid("recorded Running but pid ", pid, " is a zombie");
                Some(
                    finding(Severity::Error, "running-pid-zombie", project, service.as_str(), detail),
                )
            } else {
                None
            }
        },
    }
}

/// Checks what is recorded of a project. `addressable` and `zombies` tell which processes are there
/// and which of them are dead.
pub fn check_project(
    project: &str,
    states: Option<&ServiceStateFile>,
    pids: Option<&PidFile>,
    addressable: &PidSet,
    zombies: &PidSet,
    findings: &mut Vec<Finding>,
)
    ensures
        views(final(findings)@) == views(old(findings)@) + project_findings(
            project@,
            states,
            pids,
            addressable@,
            zombies@,
        ),
{
    let ghost base = views(findings@);
    let ghost mut first: Seq<FindingView> = seq![];
    assert(base + first =~= base);
    if let Some(file) = states {
        let n: usize = file.services.len();
        let ghost ks = file.services.names();
        let ghost vs = file.services.values();
        let mut i: usize = 0;
        while i < n
            invariant
                i <= n,
                n == ks.len(),
                n == vs.len(),
                ks == file.services.names(),
                vs == file.services.values(),
                first == state_findings(project@, ks, vs, addressable@, zombies@, i as int),
                views(findings@) == base + first,
            decreases n - i,
        {
            let ghost before = views(findings@);
            let key = file.services.name_at(i);
            let entry = file.services.value_at(i);
            match find_in_state(project, key.as_str(), entry, addressable, zombies) {
                Some(f) => {
                    findings.push(f);
                    assert(views(findings@) =~= before.push(f@));
                    assert(before.push(f@) =~= base + first.push(f@));
                },
                None => {},
            }
            proof {
                first = state_findings(project@, ks, vs, addressable@, zombies@, i + 1);
            }
            i = i + 1;
        }
    }
    let ghost mid = views(findings@);
    let ghost mut second: Seq<FindingView> = seq![];
    assert(mid + second =~= mid);
    if let Some(file) = pids {
        let n: usize = file.services.len();
        let ghost ks = file.services.names();
        let ghost vs = file.services.values();
        let mut i: usize = 0;
        while i < n
            invariant
                i <= n,
                n == ks.len(),
                n == vs.len(),
                ks == file.services.names(),
                vs == file.services.values(),
                second == pid_findings(project@, ks, vs, addressable@, i as int),
                views(findings@) == mid + second,
            decreases n - i,
        {
            let ghost before = views(findings@);
            let service = file.services.name_at(i);
            let pid: u32 = *file.services.value_at(i);
            if !addressable.has(pid) {
                let detail = about_pid("pid map lists ", pid, " which is not alive");
                let f = finding(
                    Severity::Warn,
                    "pidfile-stale-entry",
                    project,
                    service.as_str(),
                    detail,
                );
                findings.push(f);
                assert(views(findings@) =~= before.push(f@));
                assert(before.push(f@) =~= mid + second.push(f@));
            }
            proof {
                second = pid_findings(project@, ks, vs, addressable@, i + 1);
            }
            i = i + 1;
        }
    }
    assert(base + (first + second) =~= (base + first) + second);
}

// ---------------------------------------------------------------------------
// The world
// ---------------------------------------------------------------------------

/// Whether a directory is one of the system's own.
pub open spec fn is_system_dir(dir: Seq<char>) -> bool {
    lies_under(dir, "/var/lib"@) || lies_under(dir, "/Library"@)
}

/// What is wrong with where a supervisor keeps its state, if anything: one that runs for the whole
/// system must keep it under the system's own directories. `shown_dir` is the directory as it is
/// shown.
pub fn check_state_dir(system_mode: bool, state_dir: &str, shown_dir: &str) -> (r: Option<Finding>)
    ensures
        match r {
            Some(f) => system_mode && !is_system_dir(state_dir@) && f@ == (FindingView {
                severity: Severity::Error,
                rule: "system-mode-user-path"@,
                project: None,
                service: None,
                detail: "system-mode state dir is "@ + shown_dir@ + ", not a system path"@,
            }),
            None => !system_mode || is_system_dir(state_dir@),
        },
{
    if system_mode && !is_under(state_dir, "/var/lib") && !is_under(state_dir, "/Library") {
        let mut detail = "system-mode state dir is ".to_owned();
        detail.append(shown_dir);
        detail.append(", not a system path");
        Some(
            Finding {
                severity: Severity::Error,
                rule: "system-mode-user-path".to_owned(),
                project: None,
                service: None,
                detail,
            },
        )
    } else {
        None
    }
}

/// The findings of one severity, in order.
pub open spec fn of_severity(fs: Seq<FindingView>, s: Severity) -> Seq<FindingView>
    decreases fs.len(),
{
    if fs.len() == 0 {
        seq![]
    } else {
        let before = of_severity(fs.drop_last(), s);
        if fs.last().severity == s {
            before.push(fs.last())
        } else {
            before
        }
    }
}

/// Reports on a sweep, the worst findings first and otherwise in the order they were made.
pub fn report(system_mode: bool, projects: usize, findings: Vec<Finding>) -> (r: WorldReport)
    ensures
        r.mode@ == if system_mode {
            "system"@
        } else {
            "user"@
        },
        r.projects == projects,
        views(r.findings@) == of_severity(views(findings@), Severity::Error) + of_severity(
            views(findings@),
            Severity::Warn,
        ),
{
    let ghost all = views(findings@);
    let mut errors: Vec<Finding> = Vec::new();
    let mut warns: Vec<Finding> = Vec::new();
    let mut rest = findings;
    let n: usize = rest.len();
    let mut i: usize = 0;
    assert(all.take(0) =~= Seq::<FindingView>::empty());
    assert(views(errors@) =~= seq![]);
    assert(views(warns@) =~= seq![]);
    assert(all.skip(0) =~= all);
    while i < n
        invariant
            i <= n == all.len(),
            views(rest@) == all.skip(i as int),
            views(errors@) == of_severity(all.take(i as int), Severity::Error),
            views(warns@) == of_severity(all.take(i as int), Severity::Warn),
        decreases n - i,
    {
        let ghost rest0 = rest@;
        assert(rest0.len() == views(rest0).len());
        assert(views(rest0)[0] == rest0[0]@);
        let f = rest.remove(0);
        assert(views(rest@) =~= views(rest0).drop_first());
        assert(views(rest@) =~= all.skip(i + 1));
        assert(all[i as int] == f@);
        assert(all.take(i + 1).drop_last() =~= all.take(i as int));
        match f.severity {
            Severity::Error => {
                let ghost before = views(errors@);
                errors.push(f);
                assert(views(errors@) =~= before.push(f@));
            },
            Severity::Warn => {
                let ghost before = views(warns@);
                warns.push(f);
                assert(views(warns@) =~= before.push(f@));
            },
        }
        i = i + 1;
    }
    assert(all.take(n as int) =~= all);
    let ghost e = views(errors@);
    let ghost w = views(warns@);
    errors.append(&mut warns);
    assert(views(errors@) =~= e + w);
    let mode = if system_mode {
        "system".to_owned()
    } else {
        "user".to_owned()
    };
    WorldReport { mode, projects, findings: errors }
}

/// A service that is recorded as running with a live process is never found fault with, and neither
/// is one that is not recorded as running.
pub proof fn law_healthy_services_are_clean(
    project: Seq<char>,
    key: Seq<char>,
    e: ServiceStateEntry,
    addressable: Set<u32>,
    zombies: Set<u32>,
)
    ensures
        state_finding(project, key, e, addressable, zombies) is None <==> (e.status
            != ServiceLifecycleStatus::Running || (e.pid is Some && addressable.contains(e.pid->0)
            && !zombies.contains(e.pid->0))),
{
}

/// A recorded state is found fault with exactly when it says that the service runs and its process is
/// missing, gone or a zombie; a recorded process exactly when it is gone.
pub proof fn law_faults_are_found(
    project: Seq<char>,
    key: Seq<char>,
    e: ServiceStateEntry,
    pid: u32,
    addressable: Set<u32>,
    zombies: Set<u32>,
)
    ensures
        state_finding(project, key, e, addressable, zombies) is Some <==> e.status
            == ServiceLifecycleStatus::Running && (e.pid is None || !addressable.contains(e.pid->0)
            || zombies.contains(e.pid->0)),
        state_finding(project, key, e, addressable, zombies) is Some ==> state_finding(
            project,
            key,
            e,
            addressable,
            zombies,
        )->0.severity == Severity::Error,
        pid_finding(project, key, pid, addressable) is Some <==> !addressable.contains(pid),
        pid_finding(project, key, pid, addressable) is Some ==> pid_finding(
            project,
            key,
            pid,
            addressable,
        )->0.severity == Severity::Warn,
{
}

/// The findings of one severity are just those, in order.
pub proof fn law_findings_are_sorted_by_severity(fs: Seq<FindingView>, s: Severity)
    ensures
        of_severity(fs, s) == fs.filter(|f: FindingView| f.severity == s),
    decreases fs.len(),
{
    reveal(Seq::filter);
    if fs.len() > 0 {
        law_findings_are_sorted_by_severity(fs.drop_last(), s);
    }
}

/// What is wrong with a recorded state is among the findings, and nothing else is.
pub proof fn law_every_state_is_examined(
    project: Seq<char>,
    keys: Seq<Seq<char>>,
    states: Seq<ServiceStateEntry>,
    addressable: Set<u32>,
    zombies: Set<u32>,
    n: int,
    f: FindingView,
)
    requires
        0 <= n <= keys.len(),
    ensures
        state_findings(project, keys, states, addressable, zombies, n).contains(f) <==> exists|i: int|
            0 <= i < n && state_finding(
                project,
                #[trigger] keys[i],
                states[i],
                addressable,
                zombies,
            ) == Some(f),
    decreases n,
{
    if n > 0 {
        law_every_state_is_examined(project, keys, states, addressable, zombies, n - 1, f);
        let before = state_findings(project, keys, states, addressable, zombies, n - 1);
        let x = state_finding(project, keys[n - 1], states[n - 1], addressable, zombies);
        if x is Some {
            let all = before.push(x->0);
            assert(all[before.len() as int] == x->0);
            if before.contains(f) {
                let k = choose|k: int| 0 <= k < before.len() && before[k] == f;
                assert(all[k] == f);
            }
            if all.contains(f) && !before.contains(f) {
                let k = choose|k: int| 0 <= k < all.len() && all[k] == f;
                if k < before.len() {
                    assert(before[k] == f);
                }
                assert(keys[n - 1] == keys[n - 1]);
            }
        }
    }
}

/// What is wrong with a recorded process is among the findings, and nothing else is.
pub proof fn law_every_process_is_examined(
    project: Seq<char>,
    services: Seq<Seq<char>>,
    pids: Seq<u32>,
    addressable: Set<u32>,
    n: int,
    f: FindingView,
)
    requires
        0 <= n <= services.len(),
    ensures
        pid_findings(project, services, pids, addressable, n).contains(f) <==> exists|i: int|
            0 <= i < n && pid_finding(project, #[trigger] services[i], pids[i], addressable)
                == Some(f),
    decreases n,
{
    if n > 0 {
        law_every_process_is_examined(project, services, pids, addressable, n - 1, f);
        let before = pid_findings(project, services, pids, addressable, n - 1);
        let x = pid_finding(project, services[n - 1], pids[n - 1], addressable);
        if x is Some {
            let all = before.push(x->0);
            assert(all[before.len() as int] == x->0);
            if before.contains(f) {
                let k = choose|k: int| 0 <= k < before.len() && before[k] == f;
                assert(all[k] == f);
            }
            if all.contains(f) && !before.contains(f) {
                let k = choose|k: int| 0 <= k < all.len() && all[k] == f;
                if k < before.len() {
                    assert(before[k] == f);
                }
                assert(services[n - 1] == services[n - 1]);
            }
        }
    }
}

/// What is wrong with a project is what is wrong with its states and then with its processes; without
/// records nothing is.
pub proof fn law_project_is_examined_whole(
    project: Seq<char>,
    states: &ServiceStateFile,
    pids: &PidFile,
    addressable: Set<u32>,
    zombies: Set<u32>,
)
    ensures
        project_findings(project, None, None, addressable, zombies) == Seq::<FindingView>::empty(),
        project_findings(project, Some(states), Some(pids), addressable, zombies)
            == project_findings(project, Some(states), None, addressable, zombies)
            + project_findings(project, None, Some(pids), addressable, zombies),
        project_findings(project, Some(states), None, addressable, zombies) == state_findings(
            project,
            states.services.names(),
            states.services.values(),
            addressable,
            zombies,
            states.services.names().len() as int,
        ),
{
    let a = project_findings(project, Some(states), None, addressable, zombies);
    let b = project_findings(project, None, Some(pids), addressable, zombies);
    assert(project_findings(project, None, None, addressable, zombies) =~= Seq::<
        FindingView,
    >::empty());
    assert(project_findings(project, Some(states), Some(pids), addressable, zombies) =~= a + b);
    assert(a =~= state_findings(
        project,
        states.services.names(),
        states.services.values(),
        addressable,
        zombies,
        states.services.names().len() as int,
    ));
}

} // verus!
