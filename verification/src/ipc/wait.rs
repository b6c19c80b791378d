//! Waiting for the supervisor's answer for as long as it is alive.

use vstd::prelude::*;
use vstd::utf8::{decode_utf8, valid_utf8};

use crate::error::{Fault, FaultKind};
use crate::ipc::command::{io_error, is_io, ControlError};
use crate::logs::bytes::{find_newline, newline_at, part};
use crate::logs::utf8::{strict_text, utf8_complaint};
use crate::text::{trim, trimmed};

verus! {

/// The most bytes that an answer may have.
pub const MAX_RESPONSE_BYTES: usize = 67108864;

/// How long a client waits, and on what terms; times in milliseconds.
#[derive(Debug, Clone, Copy, PartialEq, Eq, Structural)]
pub struct WaitPolicy {
    /// How long one read waits before the supervisor is probed.
    pub slice: u64,
    /// How long one probe may take.
    pub probe_window: u64,
    /// How long every probe may fail before the wait is over.
    pub unresponsive_grace: u64,
    /// How long the whole wait may take; forever when absent.
    pub budget: Option<u64>,
}

impl WaitPolicy {
    /// The policy with a given budget.
    pub fn current(budget: Option<u64>) -> (r: Self)
        ensures
            r == (WaitPolicy {
                slice: 5000,
                probe_window: 5000,
                unresponsive_grace: 30000,
                budget,
            }),
    {
        WaitPolicy { slice: 5000, probe_window: 5000, unresponsive_grace: 30000, budget }
    }
}

/// The budget, in milliseconds, that a configured number of seconds gives: no limit when it is zero,
/// the default when nothing is configured.
pub fn command_wait_budget(seconds: Option<u64>, default_budget: u64) -> (r: Option<u64>)
    ensures
        r == budget_of(seconds, default_budget),
        r == (match seconds {
            None => Some(default_budget),
            Some(n) => if n == 0 {
                None
            } else if n * 1000 > u64::MAX {
                Some(u64::MAX)
            } else {
                Some((n * 1000) as u64)
            },
        }),
{
    match seconds {
        None => Some(default_budget),
        Some(n) => {
            if n == 0 {
                None
            } else {
                match n.checked_mul(1000) {
                    Some(ms) => Some(ms),
                    None => Some(u64::MAX),
                }
            }
        },
    }
}

/// What one read gave.
pub enum SliceRead<'a> {
    /// Bytes; none at the end of the connection.
    Bytes(&'a [u8]),
    /// Nothing within the slice.
    Silent,
    /// A failure.
    Failed(Fault),
}

/// What to do next.
#[derive(Debug, PartialEq, Eq)]
pub enum WaitStep {
    /// Read again.
    Read,
    /// Probe whether the supervisor is alive.
    Probe,
    /// The answer is there.
    Finished,
    /// The wait failed.
    Failed(ControlError),
}

/// A wait in progress. Times are milliseconds of one clock.
pub struct CommandWait {
    /// The terms.
    pub policy: WaitPolicy,
    /// When the wait began.
    pub started: u64,
    /// What has been read of the answer.
    pub response: Vec<u8>,
    /// Since when every probe failed.
    pub unresponsive_since: Option<u64>,
}

/// How much of what was read belongs to the answer: up to its newline.
pub open spec fn taken(buffered: Seq<u8>) -> Seq<u8> {
    let i = newline_at(buffered);
    if i < buffered.len() {
        buffered.take(i + 1)
    } else {
        buffered
    }
}

/// Whether `later` is at least `span` after `earlier`.
pub open spec fn passed(earlier: u64, later: u64, span: u64) -> bool {
    later - earlier >= span
}

/// What to do after a sign of life.
pub open spec fn after_life(policy: WaitPolicy, started: u64, now: u64) -> WaitStep {
    if policy.budget is Some && passed(started, now, policy.budget->0) {
        WaitStep::Failed(ControlError::StillRunning)
    } else {
        WaitStep::Read
    }
}

/// What to do after a probe. `since` says since when every probe failed.
pub open spec fn after_probe(
    policy: WaitPolicy,
    started: u64,
    since: Option<u64>,
    answered: bool,
    now: u64,
) -> WaitStep {
    if answered {
        after_life(policy, started, now)
    } else if passed(
        match since {
            Some(t) => t,
            None => now,
        },
        now,
        policy.unresponsive_grace,
    ) {
        WaitStep::Failed(ControlError::Timeout)
    } else {
        WaitStep::Read
    }
}

/// The budget, in milliseconds, that a number of seconds gives.
pub open spec fn budget_of(seconds: Option<u64>, default_budget: u64) -> Option<u64> {
    match seconds {
        None => Some(default_budget),
        Some(n) => if n == 0 {
            None
        } else if n * 1000 > u64::MAX {
            Some(u64::MAX)
        } else {
            Some((n * 1000) as u64)
        },
    }
}

impl CommandWait {
    /// Begins to wait.
    pub fn begin(policy: WaitPolicy, now: u64) -> (r: Self)
        ensures
            r.policy == policy,
            r.started == now,
            r.response@ == Seq::<u8>::empty(),
            r.unresponsive_since is None,
    {
        CommandWait { policy, started: now, response: Vec::new(), unresponsive_since: None }
    }

    fn live(&mut self, now: u64) -> (r: WaitStep)
        ensures
            r == after_life(old(self).policy, old(self).started, now),
            final(self).policy == old(self).policy,
            final(self).started == old(self).started,
            final(self).response == old(self).response,
            final(self).unresponsive_since is None,
    {
        self.unresponsive_since = None;
        match self.policy.budget {
            Some(budget) => {
                if now >= self.started && now - self.started >= budget {
                    return WaitStep::Failed(ControlError::StillRunning);
                }
                if now < self.started {
                    assert(!passed(self.started, now, budget));
                }
            },
            None => {},
        }
        WaitStep::Read
    }

    /// Takes in what one read gave, and says how much of it was taken and what to do next. The
    /// answer ends with a newline or with the connection. Bytes are a sign of life; silence calls
    /// for a probe.
    pub fn slice(&mut self, read: SliceRead<'_>, now: u64) -> (r: (usize, WaitStep))
        ensures
            final(self).policy == old(self).policy,
            final(self).started == old(self).started,
            match read {
                SliceRead::Bytes(b) => {
                    let t = taken(b@);
                    &&& r.0 == t.len()
                    &&& final(self).response@ == old(self).response@ + t
                    &&& if b@.len() == 0 || newline_at(b@) < b@.len() {
                        r.1 == WaitStep::Finished && final(self).unresponsive_since == old(
                            self,
                        ).unresponsive_since
                    } else if final(self).response@.len() > MAX_RESPONSE_BYTES {
                        r.1 is Failed && is_too_long(r.1->Failed_0)
                    } else {
                        final(self).unresponsive_since is None && r.1 == after_life(
                            old(self).policy,
                            old(self).started,
                            now,
                        )
                    }
                },
                SliceRead::Silent => {
                    &&& r.0 == 0
                    &&& final(self).response == old(self).response
                    &&& final(self).unresponsive_since == old(self).unresponsive_since
                    &&& if old(self).response@.len() > MAX_RESPONSE_BYTES {
                        r.1 is Failed && is_too_long(r.1->Failed_0)
                    } else {
                        r.1 == WaitStep::Probe
                    }
                },
                SliceRead::Failed(f) => {
                    &&& r.0 == 0
                    &&& r.1 == WaitStep::Failed(ControlError::Io(f))
                    &&& final(self).response == old(self).response
                },
            },
    {
        match read {
            SliceRead::Bytes(b) => {
                let n: usize = b.len();
                assert(b@.skip(0) =~= b@);
                let nl = find_newline(b, 0);
                let complete = nl < n;
                let take: usize = if complete {
                    nl + 1
                } else {
                    n
                };
                let chunk = part(b, 0, take);
                assert(chunk@ =~= taken(b@));
                self.response.extend_from_slice(chunk.as_slice());
                assert(self.response@ =~= old(self).response@ + taken(b@));
                if complete || n == 0 {
                    return (take, WaitStep::Finished);
                }
                if self.response.len() > MAX_RESPONSE_BYTES {
                    return (take, WaitStep::Failed(too_long()));
                }
                let step = self.live(now);
                (take, step)
            },
            SliceRead::Silent => {
                if self.response.len() > MAX_RESPONSE_BYTES {
                    return (0, WaitStep::Failed(too_long()));
                }
                (0, WaitStep::Probe)
            },
            SliceRead::Failed(f) => (0, WaitStep::Failed(ControlError::Io(f))),
        }
    }

    /// Takes in whether a probe was answered. The wait is given up when none has been for the whole
    /// grace period; only a supervisor that answers is said to be still working.
    pub fn probed(&mut self, answered: bool, now: u64) -> (r: WaitStep)
        ensures
            final(self).policy == old(self).policy,
            final(self).started == old(self).started,
            final(self).response == old(self).response,
            r == after_probe(
                old(self).policy,
                old(self).started,
                old(self).unresponsive_since,
                answered,
                now,
            ),
            if answered {
                final(self).unresponsive_since is None && r == after_life(
                    old(self).policy,
                    old(self).started,
                    now,
                )
            } else {
                let since = match old(self).unresponsive_since {
                    Some(t) => t,
                    None => now,
                };
                &&& final(self).unresponsive_since == Some(since)
                &&& r == if passed(since, now, old(self).policy.unresponsive_grace) {
                    WaitStep::Failed(ControlError::Timeout)
                } else {
                    WaitStep::Read
                }
            },
    {
        if answered {
            return self.live(now);
        }
        let since: u64 = match self.unresponsive_since {
            Some(t) => t,
            None => now,
        };
        self.unresponsive_since = Some(since);
        if now >= since && now - since >= self.policy.unresponsive_grace {
            WaitStep::Failed(ControlError::Timeout)
        } else {
            WaitStep::Read
        }
    }

    /// The text of the answer.
    pub fn finish(&self) -> (r: Result<String, ControlError>)
        ensures
            if !valid_utf8(self.response@) {
                r is Err && is_io(
                    r->Err_0,
                    FaultKind::InvalidData,
                    utf8_complaint(self.response@),
                )
            } else if trimmed(decode_utf8(self.response@)).len() == 0 {
                r == Err::<String, ControlError>(ControlError::NotAvailable)
            } else {
                r is Ok && r->Ok_0@ == trimmed(decode_utf8(self.response@))
            },
    {
        let text = match strict_text(self.response.as_slice()) {
            Ok(s) => s,
            Err(m) => {
                return Err(io_error(FaultKind::InvalidData, m));
            },
        };
        let t = trim(text.as_str());
        if t.as_str().unicode_len() == 0 {
            return Err(ControlError::NotAvailable);
        }
        Ok(t)
    }
}

/// Whether `e` says that the answer is too long.
pub open spec fn is_too_long(e: ControlError) -> bool {
    is_io(e, FaultKind::InvalidData, "supervisor response exceeded the maximum size"@)
}

fn too_long() -> (r: ControlError)
    ensures
        is_too_long(r),
{
    io_error(
        FaultKind::InvalidData,
        "supervisor response exceeded the maximum size".to_owned(),
    )
}

/// A wait without a budget is only ever given up on a supervisor that has not answered for the
/// whole grace period: however slow, a supervisor that answers its probes is waited for.
pub proof fn law_live_supervisor_is_awaited(policy: WaitPolicy, started: u64, now: u64)
    requires
        policy.budget is None,
    ensures
        after_life(policy, started, now) is Read,
{
}

/// An answer that arrives in two pieces is the answer that would have arrived in one.
pub proof fn law_split_answer_is_resumed(first: Seq<u8>, second: Seq<u8>)
    requires
        newline_at(first) == first.len(),
    ensures
        taken(first + second) == taken(first) + taken(second),
{
    crate::logs::bytes::lemma_newline_at(first);
    crate::logs::bytes::lemma_newline_at(second);
    let whole = first + second;
    let i = first.len() + newline_at(second);
    assert forall|j: int| 0 <= j < i implies whole[j] != crate::logs::bytes::NEWLINE by {
        if j < first.len() {
            assert(whole[j] == first[j]);
        } else {
            assert(whole[j] == second[j - first.len()]);
        }
    }
    crate::logs::bytes::lemma_newline_is(whole, i);
    assert(taken(whole) =~= taken(first) + taken(second));
}

/// A supervisor that shows life is waited for until the time allowed for the command is over, and
/// not a moment longer.
pub proof fn law_wait_ends_with_its_budget(policy: WaitPolicy, started: u64, now: u64)
    requires
        policy.budget is Some,
    ensures
        started + policy.budget->0 <= now <==> after_life(policy, started, now) is Failed,
        started + policy.budget->0 <= now ==> after_life(policy, started, now) == WaitStep::Failed(
            ControlError::StillRunning,
        ),
        now < started + policy.budget->0 ==> after_life(policy, started, now) is Read,
{
}

/// An answer ends with its first newline; what has none belongs to it whole.
pub proof fn law_answer_ends_with_its_newline(line: Seq<u8>, rest: Seq<u8>)
    requires
        !line.contains(crate::logs::bytes::NEWLINE),
    ensures
        taken(line.push(crate::logs::bytes::NEWLINE) + rest) == line.push(
            crate::logs::bytes::NEWLINE,
        ),
        taken(line) == line,
{
    let whole = line.push(crate::logs::bytes::NEWLINE) + rest;
    assert forall|j: int| 0 <= j < line.len() implies whole[j] != crate::logs::bytes::NEWLINE
        && line[j] != crate::logs::bytes::NEWLINE by {
        assert(line.contains(line[j]));
    }
    crate::logs::bytes::lemma_newline_is(whole, line.len() as int);
    crate::logs::bytes::lemma_newline_is(line, line.len() as int);
    assert(taken(whole) =~= line.push(crate::logs::bytes::NEWLINE));
}

/// A supervisor that does not answer is given up on exactly when no probe was answered for the whole
/// grace period, and one that answers is never said to be gone.
pub proof fn law_silent_supervisor_is_given_up_on(
    policy: WaitPolicy,
    started: u64,
    since: u64,
    now: u64,
)
    ensures
        after_probe(policy, started, Some(since), false, now) == WaitStep::Failed(
            ControlError::Timeout,
        ) <==> since + policy.unresponsive_grace <= now,
        now < since + policy.unresponsive_grace ==> after_probe(
            policy,
            started,
            Some(since),
            false,
            now,
        ) is Read,
        policy.unresponsive_grace > 0 ==> after_probe(policy, started, None, false, now) is Read,
        after_probe(policy, started, Some(since), true, now) != WaitStep::Failed(
            ControlError::Timeout,
        ),
        after_probe(policy, started, Some(since), true, now) == after_probe(
            policy,
            started,
            None,
            true,
            now,
        ),
{
}

/// A configured number of seconds is the budget, none at all stands for the default, and zero for no
/// limit.
pub proof fn law_budget_is_what_is_configured(n: u64, default_budget: u64)
    ensures
        budget_of(None, default_budget) == Some(default_budget),
        budget_of(Some(0), default_budget) is None,
        0 < n && n * 1000 <= u64::MAX ==> budget_of(Some(n), default_budget) == Some(
            (n * 1000) as u64,
        ),
        n > 0 ==> budget_of(Some(n), default_budget) is Some,
{
}

} // verus!
