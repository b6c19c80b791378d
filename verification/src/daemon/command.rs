//! Helper commands: pre-start commands, skip conditions and hooks, and what their ends mean.

use vstd::prelude::*;

use crate::logs::bytes::last_n;
use crate::daemon::duration::{duration_secs, parse_duration};
use crate::daemon::monitor::{Books, Exit};
use crate::daemon::pid_file::lookup;
use crate::daemon::ready::logs_command;
use crate::daemon::start::{interrupted, is_interruption, start_error, start_failure};
use crate::daemon::state_file::{
    on_record, ServiceLifecycleStatus, ServiceStateEntry, ServiceStateFile,
};
use crate::diag::{Diagnostic, DiagnosticView, OriginView, SgCode};
use crate::error::{Fault, FaultKind, ProcessManagerError};
use crate::text::{decimal, opt_str, opt_text, parse_number, parsed, push_decimal, texts, trim, trimmed};

verus! {

/// Maximum pre-start output lines retained for failure diagnostics.
pub const PRE_START_TAIL_LINES: usize = 12;

/// Maximum bytes retained from each helper-command output stream.
pub const COMMAND_OUTPUT_LIMIT_BYTES: usize = 1048576;

// ---------------------------------------------------------------------------
// Project boots
// ---------------------------------------------------------------------------

/// Which project boot is going on, and whether it was called off.
#[derive(Debug, Clone, Copy, PartialEq, Eq, Structural)]
pub struct BootEpoch {
    /// Counts boots and cancellations.
    pub epoch: u64,
    /// Whether the boot was called off.
    pub cancelled: bool,
}

impl BootEpoch {
    /// With a new boot begun.
    pub open spec fn renewed(self) -> BootEpoch {
        BootEpoch { epoch: self.epoch.wrapping_add(1), cancelled: false }
    }

    /// With the current boot called off.
    pub open spec fn called_off(self) -> BootEpoch {
        BootEpoch { epoch: self.epoch.wrapping_add(1), cancelled: true }
    }

    /// Whether work begun under token `epoch` must stop.
    pub open spec fn is_stale(self, epoch: u64) -> bool {
        self.cancelled || self.epoch != epoch
    }

    /// Starts a new boot and returns its token.
    pub fn begin_boot(&mut self) -> (r: u64)
        ensures
            r == old(self).epoch.wrapping_add(1),
            *final(self) == (BootEpoch { epoch: r, cancelled: false }),
            *final(self) == old(self).renewed(),
            r == old(self).renewed().epoch,
    {
        self.cancelled = false;
        self.epoch = self.epoch.wrapping_add(1);
        self.epoch
    }

    /// Calls the current boot off.
    pub fn cancel_boot(&mut self)
        ensures
            *final(self) == old(self).called_off(),
            *final(self) == (BootEpoch {
                epoch: old(self).epoch.wrapping_add(1),
                cancelled: true,
            }),
    {
        self.cancelled = true;
        self.epoch = self.epoch.wrapping_add(1);
    }

    /// Whether the boot with token `epoch` is still the current one.
    pub fn boot_active(&self, epoch: u64) -> (r: bool)
        ensures
            r == (self.epoch == epoch),
    {
        self.epoch == epoch
    }

    /// Whether the current boot was called off.
    pub fn boot_cancelled(&self) -> (r: bool)
        ensures
            r == self.cancelled,
    {
        self.cancelled
    }

    /// Whether work begun under token `epoch` must stop.
    pub fn stale(&self, epoch: u64) -> (r: bool)
        ensures
            r == (self.cancelled || self.epoch != epoch),
            r == self.is_stale(epoch),
    {
        self.cancelled || self.epoch != epoch
    }
}

/// Neither a new boot nor a cancellation leaves the current token active.
pub proof fn law_tokens_expire(e: BootEpoch)
    ensures
        e.epoch.wrapping_add(1) != e.epoch,
{
}

/// What one look at a helper command says.
#[derive(Debug, Clone, Copy, PartialEq, Eq, Structural)]
pub enum WaitStep {
    /// Give up on it: the boot was called off or the time is over.
    GiveUp,
    /// It ended.
    Ended(Exit),
    /// Look again after a pause.
    Poll,
}

/// What one look at a helper command says.
pub open spec fn step_of(stale: bool, ended: Option<Exit>, overdue: bool) -> WaitStep {
    if stale {
        WaitStep::GiveUp
    } else {
        match ended {
            Some(exit) => WaitStep::Ended(exit),
            None => if overdue {
                WaitStep::GiveUp
            } else {
                WaitStep::Poll
            },
        }
    }
}

/// Judges one look at a helper command. An end is taken even when the time is just over, but not
/// when the boot was called off.
pub fn wait_step(stale: bool, ended: Option<Exit>, overdue: bool) -> (r: WaitStep)
    ensures
        r == step_of(stale, ended, overdue),
        r == (if stale {
            WaitStep::GiveUp
        } else {
            match ended {
                Some(exit) => WaitStep::Ended(exit),
                None => if overdue {
                    WaitStep::GiveUp
                } else {
                    WaitStep::Poll
                },
            }
        }),
{
    if stale {
        return WaitStep::GiveUp;
    }
    match ended {
        Some(exit) => WaitStep::Ended(exit),
        None => if overdue {
            WaitStep::GiveUp
        } else {
            WaitStep::Poll
        },
    }
}

/// The seconds that a setting gives, where it is a number.
pub open spec fn seconds_set(setting: Option<Seq<char>>, default: u64) -> nat {
    match setting {
        Some(raw) => match parsed(trimmed(raw), u64::MAX as nat) {
            Some(n) => n,
            None => default as nat,
        },
        None => default as nat,
    }
}

/// The seconds that a hook may take.
pub open spec fn hook_seconds(limit: Option<Seq<char>>, default: u64) -> nat {
    match limit {
        Some(raw) => match duration_secs(raw) {
            Some(n) => n,
            None => default as nat,
        },
        None => default as nat,
    }
}

/// The seconds a helper command may take: what the environment says, where that is a number.
pub fn command_timeout(setting: Option<&str>, default: u64) -> (r: u64)
    ensures
        r as nat == seconds_set(opt_str(setting), default),
        r as nat == (match opt_str(setting) {
            Some(raw) => match parsed(trimmed(raw), u64::MAX as nat) {
                Some(n) => n,
                None => default as nat,
            },
            None => default as nat,
        }),
{
    match setting {
        Some(raw) => {
            let t = trim(raw);
            match parse_number(t.as_str(), u64::MAX) {
                Some(n) => n,
                None => default,
            }
        },
        None => default,
    }
}

/// The seconds a hook may take: its own limit, where that can be read.
pub fn hook_timeout(limit: &Option<String>, default: u64) -> (r: u64)
    ensures
        r as nat == hook_seconds(opt_text(*limit), default),
        r as nat == (match opt_text(*limit) {
            Some(raw) => match duration_secs(raw) {
                Some(n) => n,
                None => default as nat,
            },
            None => default as nat,
        }),
{
    match limit {
        Some(raw) => match parse_duration(raw.as_str()) {
            Ok(n) => n,
            Err(_) => default,
        },
        None => default,
    }
}

// ---------------------------------------------------------------------------
// Bounded output
// ---------------------------------------------------------------------------

/// Adds a chunk of output, keeping only the last `limit` bytes.
pub fn keep_tail(kept: &mut Vec<u8>, chunk: &[u8], limit: usize)
    requires
        old(kept).len() + chunk.len() <= usize::MAX,
    ensures
        final(kept)@ == last_n(old(kept)@ + chunk@, limit as nat),
{
    let ghost whole = kept@ + chunk@;
    let total: usize = kept.len() + chunk.len();
    let skip: usize = if total > limit {
        total - limit
    } else {
        0
    };
    let mut r: Vec<u8> = Vec::new();
    let mut i: usize = skip;
    while i < total
        invariant
            skip <= i <= total,
            total == kept.len() + chunk.len(),
            whole == kept@ + chunk@,
            r@ == whole.subrange(skip as int, i as int),
        decreases total - i,
    {
        if i < kept.len() {
            r.push(kept[i]);
        } else {
            r.push(chunk[i - kept.len()]);
        }
        i = i + 1;
        assert(r@ =~= whole.subrange(skip as int, i as int));
    }
    *kept = r;
    assert(kept@ =~= last_n(whole, limit as nat));
}

/// Adds a line of output, keeping only the last [`PRE_START_TAIL_LINES`] lines.
pub fn push_tail(tail: &mut Vec<String>, line: String)
    requires
        old(tail).len() <= PRE_START_TAIL_LINES,
    ensures
        final(tail)@ == last_n(old(tail)@.push(line), PRE_START_TAIL_LINES as nat),
        final(tail).len() <= PRE_START_TAIL_LINES,
{
    if tail.len() >= PRE_START_TAIL_LINES {
        let _ = tail.remove(0);
    }
    tail.push(line);
    assert(tail@ =~= last_n(old(tail)@.push(line), PRE_START_TAIL_LINES as nat));
}

/// Feeding output in two chunks keeps the same tail as feeding it in one.
pub proof fn law_tail_ignores_chunking(a: Seq<u8>, b: Seq<u8>, c: Seq<u8>, limit: nat)
    ensures
        last_n(last_n(a + b, limit) + c, limit) == last_n(a + (b + c), limit),
{
    assert(last_n(last_n(a + b, limit) + c, limit) =~= last_n(a + (b + c), limit));
}

// ---------------------------------------------------------------------------
// Skip conditions
// ---------------------------------------------------------------------------

/// How running a helper command ended.
pub enum CommandEnd {
    /// It ended by itself.
    Exited(Exit),
    /// It was given up on and terminated.
    GivenUp,
    /// Waiting for it failed.
    Broke(Fault),
}

/// What is said of a skip condition that was given up on.
pub open spec fn skip_complaint(service: Seq<char>, active: bool, timeout: u64) -> Seq<char> {
    "skip condition for '"@ + service + "' "@ + (if active {
        "exceeded "@ + decimal(timeout as nat) + "s"@
    } else {
        "was cancelled"@
    })
}

/// Whether a service is skipped, given how its skip command ended: an exit with status zero means
/// skip. `active` says whether the boot was still going on.
pub fn skip_answer(service: &str, end: CommandEnd, active: bool, timeout: u64) -> (r: Result<
    bool,
    ProcessManagerError,
>)
    ensures
        match end {
            CommandEnd::Exited(exit) => r == Ok::<bool, ProcessManagerError>(exit.is_clean()) && (
            r->Ok_0 <==> exit.code == Some(0i32)),
            CommandEnd::GivenUp => r is Err && start_failure(
                r->Err_0,
                service@,
                FaultKind::TimedOut,
                skip_complaint(service@, active, timeout),
            ),
            CommandEnd::Broke(f) => r is Err && start_failure(
                r->Err_0,
                service@,
                f.kind,
                f.message@,
            ),
        },
{
    match end {
        CommandEnd::Exited(exit) => Ok(exit.success()),
        CommandEnd::GivenUp => {
            let mut m = "skip condition for '".to_owned();
            m.append(service);
            m.append("' ");
            if active {
                m.append("exceeded ");
                push_decimal(&mut m, timeout);
                m.append("s");
            } else {
                m.append("was cancelled");
            }
            assert(m@ =~= skip_complaint(service@, active, timeout));
            Err(start_error(service, FaultKind::TimedOut, m))
        },
        CommandEnd::Broke(f) => {
            Err(start_error(service, f.kind, f.message))
        },
    }
}

// ---------------------------------------------------------------------------
// Pre-start commands
// ---------------------------------------------------------------------------

/// A line about a pre-start command, as it is written to the service's logs.
pub fn pre_start_line(line: &str) -> (r: String)
    ensures
        r@ == "[pre_start] "@ + line@,
{
    let mut s = "[pre_start] ".to_owned();
    s.append(line);
    s
}

/// The line that announces a pre-start command.
pub fn pre_start_announcement(command: &str) -> (r: String)
    ensures
        r@ == "\u{25b6} running: "@ + command@,
{
    let mut s = "\u{25b6} running: ".to_owned();
    s.append(command);
    s
}

/// What a pre-start command was, and what is known once it is over.
pub struct PreStart {
    /// The service.
    pub service: String,
    /// Its project.
    pub project: String,
    /// The command.
    pub command: String,
    /// Seconds it was allowed.
    pub timeout: u64,
    /// Seconds it took.
    pub elapsed: u64,
    /// How it ended, as the system words it.
    pub status_text: String,
    /// Its last lines of output.
    pub tail: Vec<String>,
}

/// What the end of a pre-start command leads to.
pub struct PreStartResult {
    /// Whether the service may be launched.
    pub result: Result<(), ProcessManagerError>,
    /// The line to write to the service's logs.
    pub marker: Option<String>,
    /// The end to record as a failed start.
    pub failure: Option<Exit>,
}

/// The place in the manifest that a pre-start report points to.
pub open spec fn pre_start_place(service: Seq<char>) -> Seq<char> {
    "services."@ + service + ".deployment.pre_start"@
}

/// A pre-start report up to its notes.
pub open spec fn pre_start_head(code: SgCode, title: Seq<char>, service: Seq<char>) -> DiagnosticView {
    DiagnosticView {
        origin: Some(OriginView { file: pre_start_place(service), line: None, key: None }),
        ..DiagnosticView::bare(code, title)
    }
}

/// The report on a pre-start command that outlived its limit.
pub open spec fn pre_start_timeout_report(p: PreStart) -> DiagnosticView {
    pre_start_head(
        SgCode::PreStartTimeout,
        "pre_start for `"@ + p.service@ + "` timed out"@,
        p.service@,
    ).noted(
        "`"@ + p.command@ + "` did not finish within "@ + decimal(p.timeout as nat)
            + "s and its process tree was terminated"@,
    ).noted("the service was not launched"@).evidenced(
        "pre_start output"@,
        texts(p.tail@),
    ).helped("view logs"@, logs_command(p.service@, p.project@)).linked()
}

/// The report on a pre-start command that failed.
pub open spec fn pre_start_failure_report(p: PreStart) -> DiagnosticView {
    pre_start_head(
        SgCode::PreStartFailed,
        "pre_start for `"@ + p.service@ + "` failed"@,
        p.service@,
    ).noted(
        "`"@ + p.command@ + "` exited with "@ + p.status_text@ + " after "@ + decimal(
            p.elapsed as nat,
        ) + "s"@,
    ).noted("the service was not started because its pre_start command failed"@).evidenced(
        "pre_start output"@,
        texts(p.tail@),
    ).helped("view logs"@, logs_command(p.service@, p.project@)).linked()
}

fn place_text(service: &str) -> (r: String)
    ensures
        r@ == pre_start_place(service@),
{
    let mut s = "services.".to_owned();
    s.append(service);
    s.append(".deployment.pre_start");
    s
}

fn logs_text(service: &str, project: &str) -> (r: String)
    ensures
        r@ == logs_command(service@, project@),
{
    let mut s = "sysg logs -s ".to_owned();
    s.append(service);
    s.append(" -p ");
    s.append(project);
    s
}

fn timeout_report(p: &PreStart) -> (r: Diagnostic)
    ensures
        r@ == pre_start_timeout_report(*p),
{
    let mut title = "pre_start for `".to_owned();
    title.append(p.service.as_str());
    title.append("` timed out");
    let mut note = "`".to_owned();
    note.append(p.command.as_str());
    note.append("` did not finish within ");
    push_decimal(&mut note, p.timeout);
    note.append("s and its process tree was terminated");
    let place = place_text(p.service.as_str());
    let logs = logs_text(p.service.as_str(), p.project.as_str());
    Diagnostic::error(SgCode::PreStartTimeout, title.as_str()).origin(
        place.as_str(),
        None,
        None,
    ).note(note.as_str()).note("the service was not launched").evidence(
        "pre_start output",
        crate::text::copy_texts(&p.tail),
    ).help_cmd("view logs", logs.as_str()).help_docs()
}

fn failure_report(p: &PreStart) -> (r: Diagnostic)
    ensures
        r@ == pre_start_failure_report(*p),
{
    let mut title = "pre_start for `".to_owned();
    title.append(p.service.as_str());
    title.append("` failed");
    let mut note = "`".to_owned();
    note.append(p.command.as_str());
    note.append("` exited with ");
    note.append(p.status_text.as_str());
    note.append(" after ");
    push_decimal(&mut note, p.elapsed);
    note.append("s");
    let place = place_text(p.service.as_str());
    let logs = logs_text(p.service.as_str(), p.project.as_str());
    Diagnostic::error(SgCode::PreStartFailed, title.as_str()).origin(
        place.as_str(),
        None,
        None,
    ).note(note.as_str()).note(
        "the service was not started because its pre_start command failed",
    ).evidence("pre_start output", crate::text::copy_texts(&p.tail)).help_cmd(
        "view logs",
        logs.as_str(),
    ).help_docs()
}

/// Judges the end of a pre-start command: whether the service may be launched, what to tell its
/// logs, and what to record. `active` says whether the boot was still going on.
pub fn settle_pre_start(p: &PreStart, end: CommandEnd, active: bool) -> (r: PreStartResult)
    ensures
        match end {
            CommandEnd::Exited(exit) => if exit.is_clean() {
                &&& r.result is Ok
                &&& opt_text(r.marker) == Some(
                    "\u{2714} completed in "@ + decimal(p.elapsed as nat) + "s (exit 0)"@,
                )
                &&& r.failure is None
            } else {
                &&& r.result matches Err(ProcessManagerError::Diag(d)) && d@
                    == pre_start_failure_report(*p)
                &&& opt_text(r.marker) == Some(
                    "\u{2716} failed after "@ + decimal(p.elapsed as nat) + "s ("@ + p.status_text@
                        + ")"@,
                )
                &&& r.failure == Some(exit)
            },
            CommandEnd::GivenUp => if active {
                &&& r.result matches Err(ProcessManagerError::Diag(d)) && d@
                    == pre_start_timeout_report(*p)
                &&& opt_text(r.marker) == Some(
                    "\u{2716} pre-start timed out after "@ + decimal(p.timeout as nat)
                        + "s; killed"@,
                )
                &&& r.failure == Some(Exit { code: None, signal: None })
            } else {
                &&& r.result is Err && is_interruption(r.result->Err_0, p.service@)
                &&& opt_text(r.marker) == Some("\u{2716} pre-start was cancelled; killed"@)
                &&& r.failure is None
            },
            CommandEnd::Broke(f) => {
                &&& r.result is Err && start_failure(
                    r.result->Err_0,
                    p.service@,
                    f.kind,
                    f.message@,
                )
                &&& r.marker is None
                &&& r.failure is None
            },
        },
{
    match end {
        CommandEnd::Exited(exit) => {
            if exit.success() {
                let mut m = "\u{2714} completed in ".to_owned();
                push_decimal(&mut m, p.elapsed);
                m.append("s (exit 0)");
                PreStartResult { result: Ok(()), marker: Some(m), failure: None }
            } else {
                let mut m = "\u{2716} failed after ".to_owned();
                push_decimal(&mut m, p.elapsed);
                m.append("s (");
                m.append(p.status_text.as_str());
                m.append(")");
                let report = failure_report(p);
                PreStartResult {
                    result: Err(ProcessManagerError::Diag(Box::new(report))),
                    marker: Some(m),
                    failure: Some(exit),
                }
            }
        },
        CommandEnd::GivenUp => {
            if active {
                let mut m = "\u{2716} pre-start timed out after ".to_owned();
                push_decimal(&mut m, p.timeout);
                m.append("s; killed");
                let report = timeout_report(p);
                PreStartResult {
                    result: Err(ProcessManagerError::Diag(Box::new(report))),
                    marker: Some(m),
                    failure: Some(Exit { code: None, signal: None }),
                }
            } else {
                PreStartResult {
                    result: Err(interrupted(p.service.as_str())),
                    marker: Some("\u{2716} pre-start was cancelled; killed".to_owned()),
                    failure: None,
                }
            }
        },
        CommandEnd::Broke(f) => {
            PreStartResult {
                result: Err(start_error(p.service.as_str(), f.kind, f.message)),
                marker: None,
                failure: None,
            }
        },
    }
}

impl Books {
    /// Records a start that failed, unless the service still has a process. `key` is the state key
    /// of a configured service.
    pub fn record_start_failure(
        &mut self,
        states_on_disk: Option<ServiceStateFile>,
        service: &str,
        key: Option<&str>,
        exit: Exit,
    )
        ensures
            final(self).pids == old(self).pids,
            final(self).flags == old(self).flags,
            final(self).counts == old(self).counts,
            final(self).states.store == old(self).states.store,
            final(self).states@ == (if lookup(old(self).pids@.services, service@) is Some
                || key is None {
                old(self).states@
            } else {
                on_record(states_on_disk).insert(
                    key->0@,
                    (ServiceStateEntry {
                        status: ServiceLifecycleStatus::ExitedWithError,
                        pid: None,
                        exit_code: exit.code,
                        signal: exit.signal,
                    }),
                )
            }),
    {
        if self.pids.pid_for(service).is_some() {
            return;
        }
        match key {
            Some(k) => {
                self.states.set(
                    states_on_disk,
                    k,
                    ServiceLifecycleStatus::ExitedWithError,
                    None,
                    exit.code,
                    exit.signal,
                );
            },
            None => {},
        }
    }
}

/// A helper command that ended is taken at its end, though its time is over; one that goes on is
/// given up on exactly when its time is over; and any is given up on when the boot was called off.
pub proof fn law_helper_is_given_its_time(stale: bool, ended: Option<Exit>, overdue: bool)
    ensures
        stale ==> step_of(stale, ended, overdue) == WaitStep::GiveUp,
        !stale && ended is Some ==> step_of(stale, ended, overdue) == WaitStep::Ended(ended->0),
        !stale && ended is None ==> (step_of(stale, ended, overdue) == WaitStep::GiveUp <==> overdue),
        !stale && ended is None ==> (step_of(stale, ended, overdue) == WaitStep::Poll <==> !overdue),
{
}

/// The token of a new boot is good and the one before it is not; once the boot is called off no token
/// is.
pub proof fn law_boot_tokens_are_good_for_one_boot(e: BootEpoch, token: u64)
    ensures
        !e.renewed().is_stale(e.renewed().epoch),
        e.renewed().is_stale(e.epoch),
        e.called_off().is_stale(token),
        !e.cancelled ==> !e.is_stale(e.epoch),
        token != e.epoch ==> e.is_stale(token),
{
}

/// A limit that can be read counts, whatever the default, and the default counts where there is none
/// or it cannot be read.
pub proof fn law_limits_override_defaults(raw: Seq<char>, n: nat, default: u64)
    requires
        n <= u64::MAX,
    ensures
        seconds_set(None, default) == default,
        hook_seconds(None, default) == default,
        seconds_set(Some(decimal(n)), default) == n,
        duration_secs(raw) is Some ==> Some(hook_seconds(Some(raw), default)) == duration_secs(raw),
        duration_secs(raw) is None ==> hook_seconds(Some(raw), default) == default,
        parsed(trimmed(raw), u64::MAX as nat) is None ==> seconds_set(Some(raw), default) == default,
{
    crate::text::law_decimal_round_trip(n, u64::MAX as nat);
    crate::text::lemma_decimal_digits(n);
    let d = decimal(n);
    assert(crate::text::is_digit(d[0]) && crate::text::is_digit(d.last()));
    assert(trimmed(d) == d);
}

} // verus!
