//! Process trees: reading process records, finding descendants, and terminating whole trees.

use vstd::prelude::*;

use crate::daemon::stop::stop_failure;
use crate::error::{Fault, FaultKind, ProcessManagerError};
use crate::pids::PidSet;
use crate::text::{
    after_last, chars_of, decimal, ends, ends_with, last_of, lemma_last_of, parse_i32, parse_number,
    parsed, parsed_signed, push_decimal, texts, trim_bounds, trim_front, words, words_from,
    words_of,
};

verus! {

/// Zero-based field that holds the start time, counted after the executable name in a Linux
/// process record.
pub const LINUX_PROC_START_TIME_INDEX: usize = 19;

// ---------------------------------------------------------------------------
// Process records
// ---------------------------------------------------------------------------

/// The fields of a Linux process record that follow the executable name. The name stands in
/// parentheses and may itself hold parentheses and spaces.
pub open spec fn stat_fields(stat: Seq<char>) -> Option<Seq<Seq<char>>> {
    let close = last_of(stat, ')');
    if close < 0 {
        None
    } else {
        Some(words_of(stat.skip(close + 1)))
    }
}

fn fields_after_name(stat: &str) -> (r: Option<Vec<String>>)
    ensures
        match r {
            Some(f) => stat_fields(stat@) == Some(texts(f@)),
            None => stat_fields(stat@) is None,
        },
{
    let v = chars_of(stat);
    let a = after_last(&v, ')');
    if a == 0 {
        return None;
    }
    Some(words_from(&v, a))
}

/// The start time in a Linux process record.
pub open spec fn stat_start_time(stat: Seq<char>) -> Option<nat> {
    match stat_fields(stat) {
        Some(f) => if f.len() > LINUX_PROC_START_TIME_INDEX {
            parsed(f[LINUX_PROC_START_TIME_INDEX as int], u64::MAX as nat)
        } else {
            None
        },
        None => None,
    }
}

/// The start time in a Linux process record, which together with the id identifies a process.
pub fn process_start_time(stat: &str) -> (r: Option<u64>)
    ensures
        match r {
            Some(n) => stat_start_time(stat@) == Some(n as nat),
            None => stat_start_time(stat@) is None,
        },
{
    match fields_after_name(stat) {
        Some(f) => {
            if f.len() > LINUX_PROC_START_TIME_INDEX {
                assert(texts(f@)[LINUX_PROC_START_TIME_INDEX as int]
                    == f@[LINUX_PROC_START_TIME_INDEX as int]@);
                parse_number(f[LINUX_PROC_START_TIME_INDEX].as_str(), u64::MAX)
            } else {
                None
            }
        },
        None => None,
    }
}

/// The first character of `s`.
pub open spec fn first_char(s: Seq<char>) -> Option<char> {
    if s.len() > 0 {
        Some(s[0])
    } else {
        None
    }
}

fn initial(s: &str) -> (r: Option<char>)
    ensures
        r == first_char(s@),
{
    let v = chars_of(s);
    if v.len() > 0 {
        Some(v[0])
    } else {
        None
    }
}

/// Whether a process state letter says that the process is dead.
pub open spec fn is_dead_state(state: Option<char>) -> bool {
    state == Some('Z') || state == Some('X')
}

/// Whether a process state letter says that the process is dead.
pub fn dead_state(state: Option<char>) -> (r: bool)
    ensures
        r == is_dead_state(state),
{
    match state {
        Some(c) => c == 'Z' || c == 'X',
        None => false,
    }
}

/// Whether a Linux process record is that of a live member of process group `pgid`.
pub open spec fn stat_in_group(stat: Seq<char>, pgid: i32) -> bool {
    match stat_fields(stat) {
        Some(f) => {
            &&& !(f.len() > 0 && is_dead_state(first_char(f[0])))
            &&& f.len() > 2
            &&& parsed_signed(f[2], i32::MIN as int, i32::MAX as int) == Some(pgid as int)
        },
        None => false,
    }
}

/// Whether a Linux process record is that of a live member of process group `pgid`.
pub fn is_group_member(stat: &str, pgid: i32) -> (r: bool)
    ensures
        r == stat_in_group(stat@, pgid),
{
    match fields_after_name(stat) {
        Some(f) => {
            let ghost fs = texts(f@);
            if f.len() > 0 {
                assert(fs[0] == f@[0]@);
                if dead_state(initial(f[0].as_str())) {
                    return false;
                }
            }
            if f.len() <= 2 {
                return false;
            }
            assert(fs[2] == f@[2]@);
            match parse_i32(f[2].as_str()) {
                Some(g) => g == pgid,
                None => false,
            }
        },
        None => false,
    }
}

/// The position, at or after `i`, of the first word that closes the executable name.
pub open spec fn name_end(w: Seq<Seq<char>>, i: int) -> int
    decreases w.len() - i,
{
    if i >= w.len() || ends(w[i], ")"@) {
        i
    } else {
        name_end(w, i + 1)
    }
}

/// The state letter in a Linux process record.
pub open spec fn stat_state(stat: Seq<char>) -> Option<char> {
    let w = words_of(stat);
    if w.len() < 2 {
        None
    } else {
        let e = name_end(w, 1);
        if e + 1 < w.len() {
            first_char(w[e + 1])
        } else {
            None
        }
    }
}

/// The state letter in a Linux process record: running, sleeping, zombie and so on.
pub fn read_proc_state(stat: &str) -> (r: Option<char>)
    ensures
        r == stat_state(stat@),
{
    let w = words(stat);
    let ghost ws = texts(w@);
    if w.len() < 2 {
        return None;
    }
    let mut e: usize = 1;
    while e < w.len() && !ends_with(w[e].as_str(), ")")
        invariant
            1 <= e <= w.len(),
            ws == texts(w@),
            name_end(ws, 1) == name_end(ws, e as int),
        decreases w.len() - e,
    {
        assert(ws[e as int] == w@[e as int]@);
        e = e + 1;
    }
    if e < w.len() {
        assert(ws[e as int] == w@[e as int]@);
    }
    if e < w.len() - 1 {
        assert(ws[e + 1] == w@[e + 1]@);
        initial(w[e + 1].as_str())
    } else {
        None
    }
}

/// Whether a Linux process record is that of a zombie or dead process.
pub open spec fn stat_is_zombie(stat: Seq<char>) -> bool {
    let close = last_of(stat, ')');
    close >= 0 && is_dead_state(first_char(trim_front(stat.skip(close + 1))))
}

/// Whether a Linux process record is that of a zombie or dead process.
pub fn pid_is_zombie(stat: &str) -> (r: bool)
    ensures
        r == stat_is_zombie(stat@),
{
    let v = chars_of(stat);
    let a = after_last(&v, ')');
    if a == 0 {
        return false;
    }
    let rest = crate::text::string_of(&v, a, v.len());
    assert(rest@ =~= stat@.skip(a as int));
    let rv = chars_of(rest.as_str());
    let (b, _) = trim_bounds(&rv);
    if b < rv.len() {
        assert(trim_front(rest@)[0] == rv@[b as int]);
        dead_state(Some(rv[b]))
    } else {
        false
    }
}

// ---------------------------------------------------------------------------
// Descendants
// ---------------------------------------------------------------------------

/// A process and its parent, as seen in one look at the system.
#[derive(Debug, Clone, Copy, PartialEq, Eq, Structural)]
pub struct ProcessLink {
    /// The process.
    pub pid: u32,
    /// Its parent.
    pub parent: u32,
}

/// Whether `s` holds every child of `root` and of anything it holds.
pub open spec fn holds_children(links: Seq<ProcessLink>, root: u32, s: Set<u32>) -> bool {
    forall|i: int|
        #![trigger links[i]]
        0 <= i < links.len() && (links[i].parent == root || s.contains(links[i].parent))
            ==> s.contains(links[i].pid)
}

/// Whether `s` is the set of all descendants of `root`: the least set that holds every child of
/// `root` and of anything in it.
pub open spec fn is_descendants(links: Seq<ProcessLink>, root: u32, s: Set<u32>) -> bool {
    holds_children(links, root, s) && forall|t: Set<u32>| #[trigger]
        holds_children(links, root, t) ==> s.subset_of(t)
}

/// The ids of the first `n` links.
spec fn link_ids(links: Seq<ProcessLink>, n: int) -> Set<u32>
    decreases n,
{
    if n <= 0 {
        Set::empty()
    } else {
        link_ids(links, n - 1).insert(links[n - 1].pid)
    }
}

proof fn lemma_link_ids(links: Seq<ProcessLink>, n: int, i: int)
    requires
        0 <= i < n <= links.len(),
    ensures
        link_ids(links, n).contains(links[i].pid),
    decreases n,
{
    if i < n - 1 {
        lemma_link_ids(links, n - 1, i);
    }
}

proof fn lemma_link_ids_finite(links: Seq<ProcessLink>, n: int)
    ensures
        link_ids(links, n).finite(),
    decreases n,
{
    if n > 0 {
        lemma_link_ids_finite(links, n - 1);
    }
}

/// All descendants of a process.
pub fn collect_descendants(links: &Vec<ProcessLink>, root: u32) -> (r: PidSet)
    ensures
        is_descendants(links@, root, r@),
{
    let mut found = PidSet::new();
    let mut stack: Vec<u32> = Vec::new();
    stack.push(root);
    let ghost universe = link_ids(links@, links@.len() as int);
    proof {
        lemma_link_ids_finite(links@, links@.len() as int);
        assert forall|i: int|
            #![trigger links@[i]]
            0 <= i < links@.len() && (links@[i].parent == root || found@.contains(
                links@[i].parent,
            )) implies found@.contains(links@[i].pid) || stack@.contains(links@[i].parent) by {
            assert(stack@[0] == root);
        }
    }
    while stack.len() > 0
        invariant
            universe == link_ids(links@, links@.len() as int),
            universe.finite(),
            forall|x: u32| #[trigger] stack@.contains(x) ==> x == root || found@.contains(x),
            forall|i: int|
                #![trigger links@[i]]
                0 <= i < links@.len() && (links@[i].parent == root || found@.contains(
                    links@[i].parent,
                )) ==> found@.contains(links@[i].pid) || stack@.contains(links@[i].parent),
            forall|t: Set<u32>| #[trigger] holds_children(links@, root, t) ==> found@.subset_of(t),
        decreases universe.difference(found@).len(), stack.len(),
    {
        let ghost stack0 = stack@;
        let ghost found0 = found@;
        let cur: u32 = stack.pop().unwrap();
        let ghost rest = stack@;
        assert(stack0 =~= rest.push(cur));
        assert(stack0[stack0.len() - 1] == cur);
        assert(stack0.contains(cur));
        let mut i: usize = 0;
        while i < links.len()
            invariant
                i <= links.len(),
                universe == link_ids(links@, links@.len() as int),
                universe.finite(),
                cur == root || found0.contains(cur),
                found0.subset_of(found@),
                forall|x: u32| rest.contains(x) ==> stack@.contains(x),
                forall|x: u32| #[trigger] stack@.contains(x) ==> rest.contains(x) || found@.contains(x),
                forall|x: u32| #[trigger]
                    found@.contains(x) ==> found0.contains(x) || stack@.contains(x),
                forall|j: int|
                    #![trigger links@[j]]
                    0 <= j < i && links@[j].parent == cur ==> found@.contains(links@[j].pid),
                forall|t: Set<u32>| #[trigger]
                    holds_children(links@, root, t) ==> found@.subset_of(t),
                stack@.len() >= rest.len(),
                found@ == found0 ==> stack@ == rest,
                found@ != found0 ==> universe.difference(found@).len() < universe.difference(
                    found0,
                ).len(),
            decreases links.len() - i,
        {
            if links[i].parent == cur {
                let child: u32 = links[i].pid;
                let ghost before = found@;
                let ghost stack1 = stack@;
                let new = found.insert(child);
                if new {
                    stack.push(child);
                }
                proof {
                    lemma_link_ids(links@, links@.len() as int, i as int);
                    assert forall|t: Set<u32>| #[trigger]
                        holds_children(links@, root, t) implies found@.subset_of(t) by {
                        assert(before.subset_of(t));
                        assert(found0.subset_of(t));
                        assert(links@[i as int].parent == root || t.contains(
                            links@[i as int].parent,
                        ));
                        assert(t.contains(child));
                    }
                    if new {
                        assert forall|x: u32| stack1.contains(x) implies stack@.contains(x) by {
                            let k = choose|k: int| 0 <= k < stack1.len() && stack1[k] == x;
                            assert(stack@[k] == x);
                        }
                        assert(stack@[stack1.len() as int] == child);
                        assert forall|x: u32| #[trigger] stack@.contains(x) implies rest.contains(x)
                            || found@.contains(x) by {
                            let k = choose|k: int| 0 <= k < stack@.len() && stack@[k] == x;
                            if k < stack1.len() {
                                assert(stack1[k] == x);
                                assert(stack1.contains(x));
                            }
                        }
                        assert(universe.difference(found@) =~= universe.difference(before).remove(
                            child,
                        ));
                        assert(universe.difference(before).contains(child));
                        assert(found@.contains(child) && !found0.contains(child));
                    } else {
                        assert(found@ =~= before);
                    }
                }
            }
            i = i + 1;
        }
        proof {
            assert forall|x: u32| #[trigger] stack@.contains(x) implies x == root || found@.contains(x) by {
                if rest.contains(x) {
                    let k = choose|k: int| 0 <= k < rest.len() && rest[k] == x;
                    assert(stack0[k] == x);
                    assert(stack0.contains(x));
                }
            }
            assert forall|j: int|
                #![trigger links@[j]]
                0 <= j < links@.len() && (links@[j].parent == root || found@.contains(
                    links@[j].parent,
                )) implies found@.contains(links@[j].pid) || stack@.contains(links@[j].parent) by {
                let p = links@[j].parent;
                if p == cur {
                } else if p == root || found0.contains(p) {
                    if !found0.contains(links@[j].pid) {
                        assert(stack0.contains(p));
                        let k = choose|k: int| 0 <= k < stack0.len() && stack0[k] == p;
                        assert(rest[k] == p);
                        assert(rest.contains(p));
                    }
                } else {
                    assert(stack@.contains(p));
                }
            }
        }
    }
    assert(holds_children(links@, root, found@)) by {
        assert forall|i: int|
            #![trigger links@[i]]
            0 <= i < links@.len() && (links@[i].parent == root || found@.contains(
                links@[i].parent,
            )) implies found@.contains(links@[i].pid) by {
            assert(!stack@.contains(links@[i].parent));
        }
    }
    found
}

// ---------------------------------------------------------------------------
// Terminating a tree
// ---------------------------------------------------------------------------

/// The group to signal along with a tree.
pub open spec fn group_of_tree(
    hint: Option<i32>,
    own: Option<i32>,
    root_gone: bool,
    root: u32,
) -> Option<i32> {
    match hint {
        Some(g) => Some(g),
        None => match own {
            Some(g) => Some(g),
            None => if root_gone && root <= i32::MAX {
                Some(root as i32)
            } else {
                None
            },
        },
    }
}

/// Whether a group may be signalled.
pub open spec fn may_signal(group: i32, supervisor_group: i32) -> bool {
    group > 0 && group != supervisor_group
}

/// A tree's group is the one handed in where there is one, else the root's own; only the group that a
/// root which is gone would have led is guessed.
pub proof fn law_group_of_a_tree_is_told_not_guessed(
    hint: Option<i32>,
    own: Option<i32>,
    root_gone: bool,
    root: u32,
)
    ensures
        hint is Some ==> group_of_tree(hint, own, root_gone, root) == hint,
        hint is None && own is Some ==> group_of_tree(hint, own, root_gone, root) == own,
        hint is None && own is None && !root_gone ==> group_of_tree(hint, own, root_gone, root)
            is None,
        hint is None && own is None && root_gone && root <= i32::MAX ==> group_of_tree(
            hint,
            own,
            root_gone,
            root,
        ) == Some(root as i32),
{
}

/// The supervisor never signals its own group, nor one that stands for many.
pub proof fn law_own_group_is_never_signalled(group: i32, supervisor_group: i32)
    ensures
        !may_signal(supervisor_group, supervisor_group),
        group <= 0 ==> !may_signal(group, supervisor_group),
        group > 0 && group != supervisor_group ==> may_signal(group, supervisor_group),
{
}

/// The group to signal along with a tree: the one handed in, or else the root's own; when the root
/// is gone, the one it would have led.
pub fn group_target(hint: Option<i32>, own: Option<i32>, root_gone: bool, root: u32) -> (r: Option<i32>)
    ensures
        r == group_of_tree(hint, own, root_gone, root),
        r == (match hint {
            Some(g) => Some(g),
            None => match own {
                Some(g) => Some(g),
                None => if root_gone && root <= i32::MAX {
                    Some(root as i32)
                } else {
                    None
                },
            },
        }),
{
    match hint {
        Some(g) => Some(g),
        None => match own {
            Some(g) => Some(g),
            None => if root_gone && root <= 2147483647 {
                Some(root as i32)
            } else {
                None
            },
        },
    }
}

/// The group, if it is one that may be signalled: never the supervisor's own.
pub fn signalled_group(target: Option<i32>, supervisor_group: i32) -> (r: Option<i32>)
    ensures
        r is Some <==> target is Some && may_signal(target->0, supervisor_group),
        r is Some ==> r == target,
        r == (match target {
            Some(g) => if g > 0 && g != supervisor_group {
                Some(g)
            } else {
                None
            },
            None => None::<i32>,
        }),
{
    match target {
        Some(g) => if g > 0 && g != supervisor_group {
            Some(g)
        } else {
            None
        },
        None => None,
    }
}

/// The next thing that terminating a tree needs done.
#[derive(Debug, Clone, Copy, PartialEq, Eq, Structural)]
pub enum TerminationStep {
    /// Ask the group and every pending process to end.
    Ask,
    /// Wait for the pending processes to disappear.
    AwaitAsked,
    /// Kill the group and every pending process.
    Kill,
    /// Wait for the killed processes to disappear.
    AwaitKilled,
    /// Wait once more, for what turned up in the group meanwhile.
    AwaitStragglers,
    /// Nothing: the termination is over.
    Done,
}

/// The termination of a tree in progress.
pub struct Termination {
    /// The root of the tree.
    pub root: u32,
    /// The processes not known to be gone.
    pub pending: PidSet,
    /// What to do next.
    pub step: TerminationStep,
    /// What was reported as done, in order.
    pub journal: Ghost<Seq<TerminationStep>>,
}

/// What holds in every state of a termination that went through its methods.
pub open spec fn termination_sound(t: Termination) -> bool {
    let none = Seq::<TerminationStep>::empty();
    let asked = none.push(TerminationStep::Ask);
    let given_time = asked.push(TerminationStep::AwaitAsked);
    let killed = given_time.push(TerminationStep::Kill);
    let waited = killed.push(TerminationStep::AwaitKilled);
    match t.step {
        TerminationStep::Ask => t.journal@ == none,
        TerminationStep::AwaitAsked => t.journal@ == asked,
        TerminationStep::Kill => t.journal@ == given_time && !t.pending@.is_empty(),
        TerminationStep::AwaitKilled => t.journal@ == killed,
        TerminationStep::AwaitStragglers => t.journal@ == waited,
        TerminationStep::Done => t.journal@ == waited.push(TerminationStep::AwaitStragglers) || (
        t.journal@ == given_time && t.pending@.is_empty()),
    }
}

impl Termination {
    /// Begins to terminate the tree of `root`, with its descendants and the members of its group.
    pub fn begin(root: u32, descendants: PidSet, members: &PidSet) -> (r: Self)
        ensures
            termination_sound(r),
            r.root == root,
            r.step == TerminationStep::Ask,
            r.pending@ == descendants@.insert(root).union(members@),
    {
        let mut pending = descendants;
        let _ = pending.insert(root);
        pending.absorb(members);
        Termination { root, pending, step: TerminationStep::Ask, journal: Ghost(Seq::empty()) }
    }

    /// Reports which of the signalled processes were there to be signalled.
    pub fn signalled(&mut self, reached: PidSet)
        requires
            old(self).step is Ask || old(self).step is Kill,
        ensures
            termination_sound(*old(self)) ==> termination_sound(*final(self)),
            final(self).journal@ == old(self).journal@.push(old(self).step),
            final(self).root == old(self).root,
            final(self).pending@ == reached@,
            final(self).step == if old(self).step is Ask {
                TerminationStep::AwaitAsked
            } else {
                TerminationStep::AwaitKilled
            },
    {
        let ghost j = self.journal@.push(self.step);
        self.journal = Ghost(j);
        self.pending = reached;
        self.step = match self.step {
            TerminationStep::Ask => TerminationStep::AwaitAsked,
            _ => TerminationStep::AwaitKilled,
        };
    }

    /// Reports which processes are left after a wait, and which members the group has now.
    pub fn waited(&mut self, survivors: PidSet, members: &PidSet)
        requires
            old(self).step is AwaitAsked || old(self).step is AwaitKilled
                || old(self).step is AwaitStragglers,
        ensures
            termination_sound(*old(self)) ==> termination_sound(*final(self)),
            final(self).journal@ == old(self).journal@.push(old(self).step),
            final(self).root == old(self).root,
            final(self).pending@ == if old(self).step is AwaitStragglers {
                survivors@
            } else {
                survivors@.union(members@)
            },
            final(self).step == match old(self).step {
                TerminationStep::AwaitAsked => if final(self).pending@.is_empty() {
                    TerminationStep::Done
                } else {
                    TerminationStep::Kill
                },
                TerminationStep::AwaitKilled => TerminationStep::AwaitStragglers,
                _ => TerminationStep::Done,
            },
    {
        let ghost j = self.journal@.push(self.step);
        self.journal = Ghost(j);
        self.pending = survivors;
        match self.step {
            TerminationStep::AwaitAsked => {
                self.pending.absorb(members);
                self.step = if self.pending.is_empty() {
                    TerminationStep::Done
                } else {
                    TerminationStep::Kill
                };
            },
            TerminationStep::AwaitKilled => {
                self.pending.absorb(members);
                self.step = TerminationStep::AwaitStragglers;
            },
            _ => {
                self.step = TerminationStep::Done;
            },
        }
    }

    /// The outcome of a finished termination: an error when anything is left.
    pub fn outcome(&self, service: &str) -> (r: Result<(), ProcessManagerError>)
        requires
            self.step is Done,
        ensures
            r is Ok <==> self.pending@.is_empty(),
            r is Err ==> stop_failure(
                r->Err_0,
                service@,
                FaultKind::TimedOut,
                "Failed to terminate process tree rooted at PID "@ + decimal(self.root as nat)
                    + " for '"@ + service@ + "'"@,
            ),
    {
        if self.pending.is_empty() {
            return Ok(());
        }
        let mut m = "Failed to terminate process tree rooted at PID ".to_owned();
        push_decimal(&mut m, self.root as u64);
        m.append(" for '");
        m.append(service);
        m.append("'");
        Err(
            ProcessManagerError::ServiceStopError {
                service: service.to_owned(),
                source: Fault { kind: FaultKind::TimedOut, message: m },
            },
        )
    }
}

/// What stands in a process record is read after the last closing parenthesis, whatever the name of
/// the executable holds: the state first, the group third, and the start time twentieth.
pub proof fn law_executable_name_may_hold_anything(front: Seq<char>, rest: Seq<char>, pgid: i32)
    requires
        !rest.contains(')'),
    ensures
        ({
            let stat = front.push(')') + rest;
            let f = words_of(rest);
            &&& stat_fields(stat) == Some(f)
            &&& f.len() > 19 ==> stat_start_time(stat) == parsed(f[19], u64::MAX as nat)
            &&& f.len() <= 19 ==> stat_start_time(stat) is None
            &&& f.len() > 2 && f[0].len() > 0 ==> (stat_in_group(stat, pgid) <==> f[0][0] != 'Z'
                && f[0][0] != 'X' && parsed_signed(f[2], i32::MIN as int, i32::MAX as int) == Some(
                pgid as int,
            ))
            &&& f.len() <= 2 ==> !stat_in_group(stat, pgid)
            &&& trim_front(rest).len() > 0 ==> (stat_is_zombie(stat) <==> trim_front(rest)[0] == 'Z'
                || trim_front(rest)[0] == 'X')
        }),
{
    let stat = front.push(')') + rest;
    lemma_last_of(stat, ')');
    assert(stat[front.len() as int] == ')');
    let close = last_of(stat, ')');
    if close > front.len() {
        assert(rest[close - front.len() - 1] == ')');
    }
    assert(stat.skip(front.len() as int + 1) =~= rest);
}

/// Processes are asked to end and given time before any is killed, and killed only if some are left;
/// a termination is over when none are left after the asking, or after the kill and both waits.
pub proof fn law_killing_comes_last(t: Termination)
    requires
        termination_sound(t),
    ensures
        t.step is Kill ==> t.journal@ == seq![TerminationStep::Ask, TerminationStep::AwaitAsked]
            && !t.pending@.is_empty(),
        t.journal@.contains(TerminationStep::Kill) ==> t.journal@.len() >= 3 && t.journal@[0]
            == TerminationStep::Ask && t.journal@[1] == TerminationStep::AwaitAsked,
        t.step is Done && !t.pending@.is_empty() ==> t.journal@ == seq![
            TerminationStep::Ask,
            TerminationStep::AwaitAsked,
            TerminationStep::Kill,
            TerminationStep::AwaitKilled,
            TerminationStep::AwaitStragglers,
        ],
{
    if t.step is Kill {
        assert(t.journal@ =~= seq![TerminationStep::Ask, TerminationStep::AwaitAsked]);
    }
    if t.step is Done && !t.pending@.is_empty() {
        assert(t.journal@ =~= seq![
            TerminationStep::Ask,
            TerminationStep::AwaitAsked,
            TerminationStep::Kill,
            TerminationStep::AwaitKilled,
            TerminationStep::AwaitStragglers,
        ]);
    }
}

} // verus!
