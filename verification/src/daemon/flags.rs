//! What the daemon remembers about services between two looks at them: which were stopped on
//! purpose, which must not be restarted, and which fell with a dependency.

use vstd::prelude::*;

use crate::config::{DependsOn, DependsOnCondition, SkipConfig};
use crate::daemon::state_file::ServiceLifecycleStatus;
use crate::names::{NameMap, NameSet};
use crate::text::texts;

verus! {

/// The daemon's marks on services.
pub struct Flags {
    /// Services stopped on purpose.
    pub manual: NameSet,
    /// Services that must not be restarted automatically.
    pub suppressed: NameSet,
    /// Services stopped because a dependency failed, with the dependencies that felled them.
    pub casualties: NameMap<NameSet>,
    /// Services being restarted right now.
    pub in_flight: NameSet,
}

/// What [`Flags`] say.
#[verifier::ext_equal]
pub struct FlagsView {
    pub manual: Set<Seq<char>>,
    pub suppressed: Set<Seq<char>>,
    pub casualties: Map<Seq<char>, Set<Seq<char>>>,
    pub in_flight: Set<Seq<char>>,
}

impl View for Flags {
    type V = FlagsView;

    open spec fn view(&self) -> FlagsView {
        FlagsView {
            manual: self.manual@,
            suppressed: self.suppressed@,
            casualties: self.casualties@.map_values(|s: NameSet| s@),
            in_flight: self.in_flight@,
        }
    }
}

/// The dependencies that felled `service`.
pub open spec fn felled_by(f: FlagsView, service: Seq<char>) -> Set<Seq<char>> {
    if f.casualties.contains_key(service) {
        f.casualties[service]
    } else {
        Set::empty()
    }
}

/// The marks once `service` has fallen with `root`.
pub open spec fn fallen(f: FlagsView, service: Seq<char>, root: Seq<char>) -> FlagsView {
    FlagsView {
        manual: f.manual.insert(service),
        suppressed: f.suppressed.insert(service),
        casualties: f.casualties.insert(service, felled_by(f, service).insert(root)),
        ..f
    }
}

/// The marks once it turned out that `service` could not be stopped after all.
pub open spec fn unfallen(f: FlagsView, service: Seq<char>, root: Seq<char>) -> FlagsView {
    let left = felled_by(f, service).remove(root);
    FlagsView {
        manual: f.manual.remove(service),
        suppressed: f.suppressed.remove(service),
        casualties: if !f.casualties.contains_key(service) {
            f.casualties
        } else if left.is_empty() {
            f.casualties.remove(service)
        } else {
            f.casualties.insert(service, left)
        },
        ..f
    }
}

/// The marks once `service` is free to be restarted again.
pub open spec fn released(f: FlagsView, service: Seq<char>) -> FlagsView {
    FlagsView {
        manual: f.manual.remove(service),
        suppressed: f.suppressed.remove(service),
        casualties: f.casualties.remove(service),
        ..f
    }
}

fn set_is_empty(s: &NameSet) -> (r: bool)
    ensures
        r == s@.is_empty(),
{
    let n: usize = s.len();
    if n > 0 {
        let first = s.name_at(0);
        assert(s@.contains(first@));
        false
    } else {
        assert(s@ =~= Set::<Seq<char>>::empty());
        true
    }
}

/// What becomes of a service that fell with a dependency.
#[derive(Debug, Clone, Copy, PartialEq, Eq, Structural)]
pub enum Revival {
    /// It no longer counts as fallen, but stays down.
    Forget,
    /// A dependency is still not as it should be.
    Wait,
    /// It may be restarted.
    Revive,
}

/// What becomes of a fallen service: one that is no longer configured or is always skipped is
/// forgotten; any other comes back when all its dependencies are as they should be.
pub open spec fn revival(configured: bool, always_skipped: bool, unmet: bool) -> Revival {
    if !configured || always_skipped {
        Revival::Forget
    } else if unmet {
        Revival::Wait
    } else {
        Revival::Revive
    }
}

/// The marks once `service` is about to be stopped.
pub open spec fn stopping(f: FlagsView, service: Seq<char>, suppress: bool) -> FlagsView {
    FlagsView {
        manual: f.manual.insert(service),
        suppressed: if suppress {
            f.suppressed.insert(service)
        } else {
            f.suppressed
        },
        ..f
    }
}

/// The marks once a stop of `service` is over.
pub open spec fn stop_over(
    f: FlagsView,
    service: Seq<char>,
    suppress: bool,
    stopped: bool,
) -> FlagsView {
    if stopped {
        f
    } else {
        FlagsView {
            manual: f.manual.remove(service),
            suppressed: if suppress {
                f.suppressed.remove(service)
            } else {
                f.suppressed
            },
            ..f
        }
    }
}

/// The marks once `service` is about to be started on request.
pub open spec fn starting(f: FlagsView, service: Seq<char>) -> FlagsView {
    FlagsView {
        manual: f.manual.remove(service),
        suppressed: f.suppressed.remove(service),
        ..f
    }
}

/// The marks once it is decided about a fallen service.
pub open spec fn after_revival(f: FlagsView, service: Seq<char>, r: Revival) -> FlagsView {
    match r {
        Revival::Forget => FlagsView { casualties: f.casualties.remove(service), ..f },
        Revival::Wait => f,
        Revival::Revive => released(f, service),
    }
}

impl Flags {
    /// No marks at all.
    pub fn new() -> (r: Self)
        ensures
            r@.manual == Set::<Seq<char>>::empty(),
            r@.suppressed == Set::<Seq<char>>::empty(),
            r@.casualties == Map::<Seq<char>, Set<Seq<char>>>::empty(),
            r@.in_flight == Set::<Seq<char>>::empty(),
    {
        let r = Flags {
            manual: NameSet::new(),
            suppressed: NameSet::new(),
            casualties: NameMap::new(),
            in_flight: NameSet::new(),
        };
        assert(r@.casualties =~= Map::<Seq<char>, Set<Seq<char>>>::empty());
        r
    }

    /// Marks a service as stopped on purpose, and perhaps as not to be restarted, before it is
    /// stopped.
    pub fn begin_stop(&mut self, service: &str, suppress: bool)
        ensures
            final(self)@ == stopping(old(self)@, service@, suppress),
            final(self)@ == (FlagsView {
                manual: old(self)@.manual.insert(service@),
                suppressed: if suppress {
                    old(self)@.suppressed.insert(service@)
                } else {
                    old(self)@.suppressed
                },
                ..old(self)@
            }),
    {
        let _ = self.manual.insert(service);
        if suppress {
            let _ = self.suppressed.insert(service);
        }
    }

    /// Takes the marks of a failed stop back, and says whether the stop hook is due: only after a
    /// stop that worked, of a service that ran.
    pub fn end_stop(&mut self, service: &str, suppress: bool, stopped: bool, was_running: bool) -> (r:
        bool)
        ensures
            r == (stopped && was_running),
            final(self)@ == stop_over(old(self)@, service@, suppress, stopped),
            final(self)@ == if stopped {
                old(self)@
            } else {
                (FlagsView {
                    manual: old(self)@.manual.remove(service@),
                    suppressed: if suppress {
                        old(self)@.suppressed.remove(service@)
                    } else {
                        old(self)@.suppressed
                    },
                    ..old(self)@
                })
            },
    {
        if !stopped {
            let _ = self.manual.remove(service);
            if suppress {
                let _ = self.suppressed.remove(service);
            }
        }
        stopped && was_running
    }

    /// Clears the marks that keep a service down, before it is started on request.
    pub fn begin_start(&mut self, service: &str)
        ensures
            final(self)@ == starting(old(self)@, service@),
            final(self)@ == (FlagsView {
                manual: old(self)@.manual.remove(service@),
                suppressed: old(self)@.suppressed.remove(service@),
                ..old(self)@
            }),
    {
        let _ = self.suppressed.remove(service);
        let _ = self.manual.remove(service);
    }

    /// Marks a service as fallen with `root`.
    pub fn fall(&mut self, service: &str, root: &str)
        ensures
            final(self)@ == fallen(old(self)@, service@, root@),
    {
        let ghost f = self@;
        let _ = self.manual.insert(service);
        let _ = self.suppressed.insert(service);
        let mut roots = match self.casualties.remove(service) {
            Some(roots) => roots,
            None => NameSet::new(),
        };
        assert(roots@ =~= felled_by(f, service@));
        let _ = roots.insert(root);
        self.casualties.insert(service, roots);
        assert(self@.casualties =~= fallen(f, service@, root@).casualties);
    }

    /// Takes back that a service fell with `root`.
    pub fn unfall(&mut self, service: &str, root: &str)
        ensures
            final(self)@ == unfallen(old(self)@, service@, root@),
    {
        let ghost f = self@;
        let _ = self.manual.remove(service);
        let _ = self.suppressed.remove(service);
        match self.casualties.remove(service) {
            Some(roots) => {
                let mut roots = roots;
                assert(f.casualties[service@] == roots@);
                let _ = roots.remove(root);
                if !set_is_empty(&roots) {
                    self.casualties.insert(service, roots);
                    assert(self@.casualties =~= f.casualties.insert(service@, roots@));
                } else {
                    assert(self@.casualties =~= f.casualties.remove(service@));
                }
            },
            None => {
                assert(self@.casualties =~= f.casualties);
            },
        }
    }

    /// Decides about one fallen service and updates its marks.
    pub fn revive(&mut self, service: &str, configured: bool, always_skipped: bool, unmet: bool) -> (r:
        Revival)
        ensures
            r == revival(configured, always_skipped, unmet),
            final(self)@ == after_revival(old(self)@, service@, r),
            final(self)@ == match r {
                Revival::Forget => (FlagsView {
                    casualties: old(self)@.casualties.remove(service@),
                    ..old(self)@
                }),
                Revival::Wait => old(self)@,
                Revival::Revive => released(old(self)@, service@),
            },
    {
        if !configured || always_skipped {
            let _ = self.casualties.remove(service);
            assert(self@.casualties =~= old(self)@.casualties.remove(service@));
            return Revival::Forget;
        }
        if unmet {
            return Revival::Wait;
        }
        let _ = self.manual.remove(service);
        let _ = self.suppressed.remove(service);
        let _ = self.casualties.remove(service);
        assert(self@.casualties =~= old(self)@.casualties.remove(service@));
        Revival::Revive
    }
}

/// A service that fell and could not be stopped carries no mark of the fall if it had none before.
pub proof fn law_fall_can_be_taken_back(f: FlagsView, service: Seq<char>, root: Seq<char>)
    requires
        !f.manual.contains(service),
        !f.suppressed.contains(service),
        !f.casualties.contains_key(service),
    ensures
        unfallen(fallen(f, service, root), service, root) == f,
{
    let g = fallen(f, service, root);
    assert(g.manual.remove(service) =~= f.manual);
    assert(g.suppressed.remove(service) =~= f.suppressed);
    assert(felled_by(g, service).remove(root) =~= Set::<Seq<char>>::empty());
    assert(g.casualties.remove(service) =~= f.casualties);
}

// ---------------------------------------------------------------------------
// Who falls with whom
// ---------------------------------------------------------------------------

/// The dependents listed for `name`.
pub open spec fn dependents_of(reverse: Map<Seq<char>, Vec<String>>, name: Seq<char>) -> Seq<Seq<char>> {
    if reverse.contains_key(name) {
        texts(reverse[name]@)
    } else {
        seq![]
    }
}

/// The names of `listed`, first to last, that are not yet in `seen`, each once.
pub open spec fn fresh_names(listed: Seq<Seq<char>>, seen: Set<Seq<char>>) -> Seq<Seq<char>>
    decreases listed.len(),
{
    if listed.len() == 0 {
        seq![]
    } else {
        let before = fresh_names(listed.drop_last(), seen);
        if seen.contains(listed.last()) || before.contains(listed.last()) {
            before
        } else {
            before.push(listed.last())
        }
    }
}

/// Everything listed as a dependent by the first `n` lists.
pub open spec fn listed_in(lists: Seq<Vec<String>>, n: int) -> Set<Seq<char>>
    decreases n,
{
    if n <= 0 {
        Set::empty()
    } else {
        listed_in(lists, n - 1).union(texts(lists[n - 1]@).to_set())
    }
}

/// The order in which dependents fall: the top of `stack` first, then whatever depends on it and
/// was not seen before.
pub open spec fn falling(
    stack: Seq<Seq<char>>,
    seen: Set<Seq<char>>,
    reverse: Map<Seq<char>, Vec<String>>,
    fuel: nat,
) -> Option<Seq<Seq<char>>>
    decreases fuel,
{
    if stack.len() == 0 {
        Some(seq![])
    } else if fuel == 0 {
        None
    } else {
        let name = stack.last();
        let fresh = fresh_names(dependents_of(reverse, name), seen);
        match falling(
            stack.drop_last() + fresh,
            seen.union(fresh.to_set()),
            reverse,
            (fuel - 1) as nat,
        ) {
            Some(rest) => Some(seq![name] + rest),
            None => None,
        }
    }
}

proof fn lemma_listed_finite(lists: Seq<Vec<String>>, n: int)
    ensures
        listed_in(lists, n).finite(),
    decreases n,
{
    if n > 0 {
        lemma_listed_finite(lists, n - 1);
        vstd::seq_lib::seq_to_set_is_finite(texts(lists[n - 1]@));
    }
}

proof fn lemma_listed_covers(lists: Seq<Vec<String>>, n: int, i: int, x: Seq<char>)
    requires
        0 <= i < n <= lists.len(),
        texts(lists[i]@).contains(x),
    ensures
        listed_in(lists, n).contains(x),
    decreases n,
{
    if i < n - 1 {
        lemma_listed_covers(lists, n - 1, i, x);
    } else {
        assert(texts(lists[n - 1]@).to_set().contains(x));
    }
}

proof fn lemma_fresh_names(listed: Seq<Seq<char>>, seen: Set<Seq<char>>)
    ensures
        forall|x: Seq<char>|
            #[trigger] fresh_names(listed, seen).contains(x) <==> listed.contains(x)
                && !seen.contains(x),
    decreases listed.len(),
{
    if listed.len() > 0 {
        let before = fresh_names(listed.drop_last(), seen);
        lemma_fresh_names(listed.drop_last(), seen);
        let last = listed.last();
        assert forall|x: Seq<char>| #[trigger] fresh_names(listed, seen).contains(x) <==> listed.contains(x)
            && !seen.contains(x) by {
            if listed.drop_last().contains(x) {
                let i = choose|i: int| 0 <= i < listed.len() - 1 && listed.drop_last()[i] == x;
                assert(listed[i] == x);
            }
            if listed.contains(x) && x != last {
                let i = choose|i: int| 0 <= i < listed.len() && listed[i] == x;
                assert(listed.drop_last()[i] == x);
            }
            assert(listed[listed.len() - 1] == last);
            assert(before.contains(x) <==> listed.drop_last().contains(x) && !seen.contains(x));
            if !seen.contains(last) && !before.contains(last) {
                let n = before.push(last);
                if before.contains(x) {
                    let i = choose|i: int| 0 <= i < before.len() && before[i] == x;
                    assert(n[i] == x);
                }
                if x == last {
                    assert(n[before.len() as int] == x);
                }
                if n.contains(x) {
                    let i = choose|i: int| 0 <= i < n.len() && n[i] == x;
                    if i < before.len() {
                        assert(before[i] == x);
                    }
                }
            }
        }
    }
}

/// The services that fall when `root` fails, in the order they are to be stopped: everything that
/// depends on it, directly or through others.
pub fn dependents_in_order(root: &str, reverse: &NameMap<Vec<String>>) -> (r: Vec<String>)
    ensures
        exists|fuel: nat|
            falling(
                dependents_of(reverse@, root@),
                dependents_of(reverse@, root@).to_set(),
                reverse@,
                fuel,
            ) == Some(texts(r@)),
{
    let mut stack: Vec<String> = match reverse.get(root) {
        Some(names) => crate::text::copy_texts(names),
        None => Vec::new(),
    };
    let ghost first = dependents_of(reverse@, root@);
    assert(texts(stack@) =~= first);
    let mut seen = NameSet::new();
    let mut i: usize = 0;
    while i < stack.len()
        invariant
            i <= stack.len(),
            texts(stack@) == first,
            seen@ == first.take(i as int).to_set(),
        decreases stack.len() - i,
    {
        let _ = seen.insert(stack[i].as_str());
        i = i + 1;
        proof {
            lemma_take_set(first, i - 1);
        }
    }
    assert(first.take(i as int) =~= first);
    let mut r: Vec<String> = Vec::new();
    let n: usize = reverse.len();
    let ghost universe = listed_in(reverse.values(), n as int);
    let ghost mut spent: nat = 0;
    proof {
        lemma_listed_finite(reverse.values(), n as int);
        assert(universe.difference(seen@).finite());
    }
    let ghost states: Seq<(Seq<Seq<char>>, Set<Seq<char>>)> = seq![(texts(stack@), seen@)];
    let ghost mut trail = states;
    while stack.len() > 0
        invariant
            n == reverse.values().len(),
            n == reverse.names().len(),
            universe == listed_in(reverse.values(), n as int),
            universe.finite(),
            trail.len() == spent + 1,
            trail[0] == (first, first.to_set()),
            trail[spent as int] == (texts(stack@), seen@),
            texts(r@).len() == spent,
            forall|k: int|
                #![trigger trail[k]]
                0 <= k < spent ==> trail[k].0.len() > 0 && texts(r@)[k] == trail[k].0.last()
                    && trail[k + 1] == falling_step(trail[k], reverse@),
        decreases universe.difference(seen@).len(), stack.len(),
    {
        let ghost stack0 = texts(stack@);
        let ghost seen0 = seen@;
        let ghost r0 = texts(r@);
        let name = stack.pop().unwrap();
        assert(texts(stack@) =~= stack0.drop_last());
        assert(name@ == stack0.last());
        let ghost rest = texts(stack@);
        let ghost listed = dependents_of(reverse@, name@);
        match reverse.get(name.as_str()) {
            Some(children) => {
                let mut j: usize = 0;
                assert(texts(children@) == listed);
                assert(rest + fresh_names(listed.take(0), seen0) =~= rest);
                assert(seen0.union(fresh_names(listed.take(0), seen0).to_set()) =~= seen0);
                while j < children.len()
                    invariant
                        j <= children.len(),
                        listed == texts(children@),
                        texts(stack@) == rest + fresh_names(listed.take(j as int), seen0),
                        seen@ == seen0.union(fresh_names(listed.take(j as int), seen0).to_set()),
                    decreases children.len() - j,
                {
                    let ghost f0 = fresh_names(listed.take(j as int), seen0);
                    let ghost stack1 = texts(stack@);
                    let child = &children[j];
                    let new = seen.insert(child.as_str());
                    if new {
                        stack.push(child.clone());
                        assert(texts(stack@) =~= stack1.push(child@));
                    }
                    j = j + 1;
                    proof {
                        assert(listed.take(j as int).drop_last() =~= listed.take(j - 1));
                        assert(listed.take(j as int).last() == child@);
                        let f1 = fresh_names(listed.take(j as int), seen0);
                        assert(f0.to_set().contains(child@) == f0.contains(child@));
                        if new {
                            assert(f1 == f0.push(child@));
                            lemma_push_set(f0, child@);
                            assert(texts(stack@) =~= rest + f1);
                        } else {
                            assert(f1 == f0);
                        }
                        assert(seen@ =~= seen0.union(f1.to_set()));
                    }
                }
                assert(listed.take(j as int) =~= listed);
            },
            None => {
                assert(fresh_names(listed, seen0) =~= Seq::<Seq<char>>::empty());
                assert(rest + fresh_names(listed, seen0) =~= rest);
                assert(seen0.union(fresh_names(listed, seen0).to_set()) =~= seen0);
            },
        }
        r.push(name);
        proof {
            let f = fresh_names(listed, seen0);
            lemma_fresh_names(listed, seen0);
            assert(texts(r@) =~= r0.push(stack0.last()));
            trail = trail.push((texts(stack@), seen@));
            spent = spent + 1;
            assert(falling_step((stack0, seen0), reverse@) == (texts(stack@), seen@));
            assert forall|k: int|
                #![trigger trail[k]]
                0 <= k < spent implies trail[k].0.len() > 0 && texts(r@)[k] == trail[k].0.last()
                && trail[k + 1] == falling_step(trail[k], reverse@) by {
                if k < spent - 1 {
                    assert(texts(r@)[k] == r0[k]);
                }
            }
            if f.len() > 0 {
                let x = f[0];
                assert(f.contains(x));
                assert(reverse@.contains_key(stack0.last()));
                let p = reverse.names().index_of(stack0.last());
                assert(reverse.values()[p] == reverse@[stack0.last()]);
                lemma_listed_covers(reverse.values(), n as int, p, x);
                assert(universe.difference(seen0).contains(x));
                assert(seen@.contains(x)) by {
                    assert(f.to_set().contains(x));
                }
                assert(universe.difference(seen@).subset_of(universe.difference(seen0).remove(x)));
                vstd::set_lib::lemma_len_subset(
                    universe.difference(seen@),
                    universe.difference(seen0).remove(x),
                );
            } else {
                assert(f =~= Seq::<Seq<char>>::empty());
                assert(seen@ =~= seen0);
                assert(texts(stack@) =~= rest);
            }
        }
    }
    proof {
        lemma_trail(trail, texts(r@), reverse@, 0);
        assert(texts(r@).skip(0) =~= texts(r@));
    }
    r
}

/// One step of the fall.
spec fn falling_step(
    s: (Seq<Seq<char>>, Set<Seq<char>>),
    reverse: Map<Seq<char>, Vec<String>>,
) -> (Seq<Seq<char>>, Set<Seq<char>>) {
    let fresh = fresh_names(dependents_of(reverse, s.0.last()), s.1);
    (s.0.drop_last() + fresh, s.1.union(fresh.to_set()))
}

proof fn lemma_trail(
    trail: Seq<(Seq<Seq<char>>, Set<Seq<char>>)>,
    r: Seq<Seq<char>>,
    reverse: Map<Seq<char>, Vec<String>>,
    k: int,
)
    requires
        trail.len() == r.len() + 1,
        0 <= k <= r.len(),
        trail[r.len() as int].0.len() == 0,
        forall|k: int|
            #![trigger trail[k]]
            0 <= k < r.len() ==> trail[k].0.len() > 0 && r[k] == trail[k].0.last() && trail[k + 1]
                == falling_step(trail[k], reverse),
    ensures
        falling(trail[k].0, trail[k].1, reverse, (r.len() - k) as nat) == Some(r.skip(k)),
    decreases r.len() - k,
{
    if k < r.len() {
        lemma_trail(trail, r, reverse, k + 1);
        assert(trail[k + 1] == falling_step(trail[k], reverse));
        assert(r.skip(k) =~= seq![r[k]] + r.skip(k + 1));
    } else {
        assert(r.skip(k) =~= Seq::<Seq<char>>::empty());
    }
}

proof fn lemma_push_set(s: Seq<Seq<char>>, x: Seq<char>)
    ensures
        s.push(x).to_set() == s.to_set().insert(x),
{
    assert forall|y: Seq<char>| #[trigger] s.push(x).to_set().contains(y) == s.to_set().insert(x).contains(y) by {
        if s.contains(y) {
            let i = choose|i: int| 0 <= i < s.len() && s[i] == y;
            assert(s.push(x)[i] == y);
        }
        assert(s.push(x)[s.len() as int] == x);
    }
    assert(s.push(x).to_set() =~= s.to_set().insert(x));
}

proof fn lemma_take_set(s: Seq<Seq<char>>, i: int)
    requires
        0 <= i < s.len(),
    ensures
        s.take(i + 1).to_set() == s.take(i).to_set().insert(s[i]),
{
    assert(s.take(i + 1) =~= s.take(i).push(s[i]));
    lemma_push_set(s.take(i), s[i]);
}

proof fn lemma_falling_closed(
    stack: Seq<Seq<char>>,
    seen: Set<Seq<char>>,
    reverse: Map<Seq<char>, Vec<String>>,
    fuel: nat,
)
    requires
        falling(stack, seen, reverse, fuel) is Some,
    ensures
        ({
            let r = falling(stack, seen, reverse, fuel)->0;
            &&& forall|i: int| 0 <= i < stack.len() ==> r.contains(#[trigger] stack[i])
            &&& forall|x: Seq<char>, y: Seq<char>|
                #![trigger dependents_of(reverse, x).contains(y)]
                r.contains(x) && dependents_of(reverse, x).contains(y) ==> seen.contains(y)
                    || r.contains(y)
        }),
    decreases fuel,
{
    let r = falling(stack, seen, reverse, fuel)->0;
    if stack.len() > 0 {
        let name = stack.last();
        let fresh = fresh_names(dependents_of(reverse, name), seen);
        let rest = stack.drop_last();
        let tail = falling(
            rest + fresh,
            seen.union(fresh.to_set()),
            reverse,
            (fuel - 1) as nat,
        )->0;
        lemma_falling_closed(
            rest + fresh,
            seen.union(fresh.to_set()),
            reverse,
            (fuel - 1) as nat,
        );
        lemma_fresh_names(dependents_of(reverse, name), seen);
        assert(r == seq![name] + tail);
        assert(r[0] == name);
        assert forall|x: Seq<char>| tail.contains(x) implies r.contains(x) by {
            let i = choose|i: int| 0 <= i < tail.len() && tail[i] == x;
            assert(r[i + 1] == x);
        }
        assert forall|i: int| 0 <= i < stack.len() implies r.contains(#[trigger] stack[i]) by {
            if i < rest.len() {
                assert((rest + fresh)[i] == stack[i]);
            }
        }
        assert forall|x: Seq<char>, y: Seq<char>|
            #![trigger dependents_of(reverse, x).contains(y)]
            r.contains(x) && dependents_of(reverse, x).contains(y) implies seen.contains(y)
            || r.contains(y) by {
            if fresh.contains(y) {
                let i = choose|i: int| 0 <= i < fresh.len() && fresh[i] == y;
                assert((rest + fresh)[rest.len() + i] == y);
            }
            let i = choose|i: int| 0 <= i < r.len() && r[i] == x;
            if i > 0 {
                assert(tail[i - 1] == x);
                assert(tail.contains(x));
            }
        }
    }
}

/// Everything that depends on a failed service falls, and so does everything that depends on
/// something that falls.
pub proof fn law_fall_is_complete(
    root: Seq<char>,
    reverse: Map<Seq<char>, Vec<String>>,
    fuel: nat,
    r: Seq<Seq<char>>,
)
    requires
        falling(
            dependents_of(reverse, root),
            dependents_of(reverse, root).to_set(),
            reverse,
            fuel,
        ) == Some(r),
    ensures
        forall|y: Seq<char>| #[trigger] dependents_of(reverse, root).contains(y) ==> r.contains(y),
        forall|x: Seq<char>, y: Seq<char>|
            #![trigger dependents_of(reverse, x).contains(y)]
            r.contains(x) && dependents_of(reverse, x).contains(y) ==> r.contains(y),
{
    let first = dependents_of(reverse, root);
    lemma_falling_closed(first, first.to_set(), reverse, fuel);
    assert forall|y: Seq<char>| #[trigger] first.contains(y) implies r.contains(y) by {
        let i = choose|i: int| 0 <= i < first.len() && first[i] == y;
        assert(r.contains(first[i]));
    }
}

// ---------------------------------------------------------------------------
// Whether dependencies allow a restart
// ---------------------------------------------------------------------------

/// What is seen of one dependency.
#[derive(Debug, Clone, Copy, PartialEq, Eq, Structural)]
pub struct DependencySighting {
    /// Whether it is being restarted right now.
    pub restarting: bool,
    /// Whether its recorded process is alive and still the same process.
    pub alive: bool,
    /// Its recorded status.
    pub status: Option<ServiceLifecycleStatus>,
}

/// Whether a dependency has reached what its dependent needs before it may be restarted.
pub open spec fn dependency_ready(condition: DependsOnCondition, s: DependencySighting) -> bool {
    !s.restarting && match condition {
        DependsOnCondition::Started => s.alive,
        DependsOnCondition::Completed => s.status == Some(
            ServiceLifecycleStatus::ExitedSuccessfully,
        ),
    }
}

/// Whether one dependency has reached its declared restart readiness condition.
pub fn restart_dependency_ready(condition: DependsOnCondition, s: DependencySighting) -> (r: bool)
    ensures
        r == dependency_ready(condition, s),
{
    if s.restarting {
        return false;
    }
    match condition {
        DependsOnCondition::Started => s.alive,
        DependsOnCondition::Completed => match s.status {
            Some(status) => status == ServiceLifecycleStatus::ExitedSuccessfully,
            None => false,
        },
    }
}

/// The position of the first dependency that blocks an automatic restart. `seen` holds what is
/// seen of each dependency.
pub fn unmet_restart_dependency(deps: &Vec<DependsOn>, seen: &Vec<DependencySighting>) -> (r: Option<
    usize,
>)
    requires
        deps.len() == seen.len(),
    ensures
        match r {
            Some(i) => {
                &&& i < deps.len()
                &&& !dependency_ready(deps@[i as int].condition, seen@[i as int])
                &&& forall|j: int|
                    #![trigger deps@[j]]
                    0 <= j < i ==> dependency_ready(deps@[j].condition, seen@[j])
            },
            None => forall|j: int|
                #![trigger deps@[j]]
                0 <= j < deps.len() ==> dependency_ready(deps@[j].condition, seen@[j]),
        },
{
    let mut i: usize = 0;
    while i < deps.len()
        invariant
            i <= deps.len(),
            deps.len() == seen.len(),
            forall|j: int|
                #![trigger deps@[j]]
                0 <= j < i ==> dependency_ready(deps@[j].condition, seen@[j]),
        decreases deps.len() - i,
    {
        if !restart_dependency_ready(deps[i].condition, seen[i]) {
            return Some(i);
        }
        i = i + 1;
    }
    None
}

/// Whether the skip setting keeps a service down for good.
pub fn always_skipped(skip: &Option<SkipConfig>) -> (r: bool)
    ensures
        r == (*skip matches Some(SkipConfig::Flag(true))),
{
    match skip {
        Some(SkipConfig::Flag(true)) => true,
        _ => false,
    }
}

/// Whatever falls does so for a reason: it depends on the root, or on something else that fell.
pub proof fn law_only_dependents_fall(
    root: Seq<char>,
    reverse: Map<Seq<char>, Vec<String>>,
    fuel: nat,
    r: Seq<Seq<char>>,
    y: Seq<char>,
)
    requires
        falling(
            dependents_of(reverse, root),
            dependents_of(reverse, root).to_set(),
            reverse,
            fuel,
        ) == Some(r),
        r.contains(y),
    ensures
        dependents_of(reverse, root).contains(y) || exists|x: Seq<char>|
            r.contains(x) && #[trigger] dependents_of(reverse, x).contains(y),
{
    let first = dependents_of(reverse, root);
    lemma_falls_for_a_reason(first, first.to_set(), reverse, fuel, y);
}

proof fn lemma_falls_for_a_reason(
    stack: Seq<Seq<char>>,
    seen: Set<Seq<char>>,
    reverse: Map<Seq<char>, Vec<String>>,
    fuel: nat,
    y: Seq<char>,
)
    requires
        falling(stack, seen, reverse, fuel) is Some,
        falling(stack, seen, reverse, fuel)->0.contains(y),
    ensures
        stack.contains(y) || exists|x: Seq<char>|
            falling(stack, seen, reverse, fuel)->0.contains(x) && #[trigger] dependents_of(
                reverse,
                x,
            ).contains(y),
    decreases fuel,
{
    let r = falling(stack, seen, reverse, fuel)->0;
    if stack.len() > 0 {
        let name = stack.last();
        let fresh = fresh_names(dependents_of(reverse, name), seen);
        let next = stack.drop_last() + fresh;
        let rest = falling(next, seen.union(fresh.to_set()), reverse, (fuel - 1) as nat)->0;
        assert(r == seq![name] + rest);
        assert(r[0] == name);
        assert(stack[stack.len() - 1] == name);
        let i = choose|i: int| 0 <= i < r.len() && r[i] == y;
        if i > 0 {
            assert(rest[i - 1] == y);
            lemma_falls_for_a_reason(
                next,
                seen.union(fresh.to_set()),
                reverse,
                (fuel - 1) as nat,
                y,
            );
            if next.contains(y) {
                let k = choose|k: int| 0 <= k < next.len() && next[k] == y;
                if k < stack.len() - 1 {
                    assert(stack[k] == y);
                } else {
                    assert(fresh[k - (stack.len() - 1)] == y);
                    law_fresh_names_are_new(dependents_of(reverse, name), seen, y);
                    assert(r.contains(name));
                    assert(dependents_of(reverse, name).contains(y));
                }
            } else {
                let x = choose|x: Seq<char>|
                    rest.contains(x) && #[trigger] dependents_of(reverse, x).contains(y);
                let k = choose|k: int| 0 <= k < rest.len() && rest[k] == x;
                assert(r[k + 1] == x);
                assert(r.contains(x));
            }
        }
    }
}

/// Of listed names just those that were not seen before are new, and each is new once.
pub proof fn law_fresh_names_are_new(listed: Seq<Seq<char>>, seen: Set<Seq<char>>, name: Seq<char>)
    ensures
        fresh_names(listed, seen).contains(name) <==> listed.contains(name) && !seen.contains(name),
        fresh_names(listed, seen).no_duplicates(),
    decreases listed.len(),
{
    if listed.len() > 0 {
        let front = listed.drop_last();
        let last = listed.last();
        law_fresh_names_are_new(front, seen, name);
        law_fresh_names_are_new(front, seen, last);
        let before = fresh_names(front, seen);
        assert(listed =~= front.push(last));
        if listed.contains(name) {
            let k = choose|k: int| 0 <= k < listed.len() && listed[k] == name;
            if k < front.len() {
                assert(front[k] == name);
            }
        }
        if front.contains(name) {
            let k = choose|k: int| 0 <= k < front.len() && front[k] == name;
            assert(listed[k] == name);
        }
        assert(listed[listed.len() - 1] == last);
        if !(seen.contains(last) || before.contains(last)) {
            let all = before.push(last);
            assert(all[before.len() as int] == last);
            if before.contains(name) {
                let k = choose|k: int| 0 <= k < before.len() && before[k] == name;
                assert(all[k] == name);
            }
            if all.contains(name) {
                let k = choose|k: int| 0 <= k < all.len() && all[k] == name;
                if k < before.len() {
                    assert(before[k] == name);
                }
            }
            assert forall|i: int, j: int|
                0 <= i < all.len() && 0 <= j < all.len() && i != j implies all[i] != all[j] by {
                if i < before.len() {
                    assert(before.contains(before[i]));
                }
                if j < before.len() {
                    assert(before.contains(before[j]));
                }
            }
        }
    }
}

/// A service that falls is marked as stopped and not to be restarted, and what felled it is added to
/// what felled it before; no other service's marks change.
pub proof fn law_fall_marks_the_fallen(
    f: FlagsView,
    service: Seq<char>,
    root: Seq<char>,
    other: Seq<char>,
)
    ensures
        ({
            let g = fallen(f, service, root);
            &&& g.manual.contains(service)
            &&& g.suppressed.contains(service)
            &&& g.casualties.contains_key(service)
            &&& g.casualties[service].contains(root)
            &&& f.casualties.contains_key(service) && f.casualties[service].contains(other)
                ==> g.casualties[service].contains(other)
            &&& g.in_flight == f.in_flight
            &&& other != service ==> {
                &&& g.manual.contains(other) <==> f.manual.contains(other)
                &&& g.suppressed.contains(other) <==> f.suppressed.contains(other)
                &&& g.casualties.contains_key(other) <==> f.casualties.contains_key(other)
                &&& f.casualties.contains_key(other) ==> g.casualties[other]
                    == f.casualties[other]
            }
        }),
{
}

/// A service that is free again bears no mark but that of a restart going on; no other service's
/// marks change.
pub proof fn law_release_clears_the_marks(f: FlagsView, service: Seq<char>, other: Seq<char>)
    ensures
        ({
            let g = released(f, service);
            &&& !g.manual.contains(service)
            &&& !g.suppressed.contains(service)
            &&& !g.casualties.contains_key(service)
            &&& g.in_flight == f.in_flight
            &&& other != service ==> {
                &&& g.manual.contains(other) <==> f.manual.contains(other)
                &&& g.suppressed.contains(other) <==> f.suppressed.contains(other)
                &&& g.casualties.contains_key(other) <==> f.casualties.contains_key(other)
                &&& f.casualties.contains_key(other) ==> g.casualties[other]
                    == f.casualties[other]
            }
        }),
{
}

/// A fallen service comes back exactly when it is still configured, not always skipped, and all its
/// dependencies are as they should be; it is waited for only because of a dependency.
pub proof fn law_fallen_come_back(configured: bool, always_skipped: bool, unmet: bool)
    ensures
        revival(configured, always_skipped, unmet) == Revival::Revive <==> configured
            && !always_skipped && !unmet,
        revival(configured, always_skipped, unmet) == Revival::Wait <==> configured
            && !always_skipped && unmet,
        revival(configured, always_skipped, unmet) == Revival::Forget <==> !configured
            || always_skipped,
{
}

/// A dependency that only has to be up is ready when it is alive, one that has to complete when it is
/// on record as completed, and neither while it is being restarted.
pub proof fn law_dependency_is_ready_by_its_condition(s: DependencySighting)
    ensures
        dependency_ready(DependsOnCondition::Started, s) <==> s.alive && !s.restarting,
        dependency_ready(DependsOnCondition::Completed, s) <==> s.status == Some(
            ServiceLifecycleStatus::ExitedSuccessfully,
        ) && !s.restarting,
{
}

/// A service that is being stopped is marked as stopped on purpose, and as not to be restarted if
/// that is asked for; no other service's marks change. When the stop works the marks stay, and when
/// it fails they are taken back.
pub proof fn law_stop_marks_follow_its_outcome(
    f: FlagsView,
    service: Seq<char>,
    suppress: bool,
    other: Seq<char>,
)
    ensures
        stopping(f, service, suppress).manual.contains(service),
        suppress ==> stopping(f, service, suppress).suppressed.contains(service),
        !suppress ==> stopping(f, service, suppress).suppressed == f.suppressed,
        stopping(f, service, suppress).casualties == f.casualties,
        stopping(f, service, suppress).in_flight == f.in_flight,
        other != service ==> (stopping(f, service, suppress).manual.contains(other)
            <==> f.manual.contains(other)) && (stopping(f, service, suppress).suppressed.contains(
            other,
        ) <==> f.suppressed.contains(other)),
        stop_over(f, service, suppress, true) == f,
        !f.manual.contains(service) && !f.suppressed.contains(service) ==> stop_over(
            stopping(f, service, suppress),
            service,
            suppress,
            false,
        ) == f,
{
    if !f.manual.contains(service) && !f.suppressed.contains(service) {
        let g = stop_over(stopping(f, service, suppress), service, suppress, false);
        assert(g.manual =~= f.manual);
        assert(g.suppressed =~= f.suppressed);
    }
}

/// A service that is started on request is neither marked as stopped nor as not to be restarted any
/// more; no other mark changes.
pub proof fn law_start_lifts_the_marks(f: FlagsView, service: Seq<char>, other: Seq<char>)
    ensures
        !starting(f, service).manual.contains(service),
        !starting(f, service).suppressed.contains(service),
        starting(f, service).casualties == f.casualties,
        starting(f, service).in_flight == f.in_flight,
        other != service ==> (starting(f, service).manual.contains(other) <==> f.manual.contains(
            other,
        )) && (starting(f, service).suppressed.contains(other) <==> f.suppressed.contains(other)),
{
}

/// A service that comes back bears no mark of its fall; one that is waited for keeps them; one that
/// is forgotten no longer counts as fallen, but stays down.
pub proof fn law_revival_lifts_the_marks(f: FlagsView, service: Seq<char>)
    ensures
        !after_revival(f, service, Revival::Revive).manual.contains(service),
        !after_revival(f, service, Revival::Revive).suppressed.contains(service),
        !after_revival(f, service, Revival::Revive).casualties.contains_key(service),
        after_revival(f, service, Revival::Wait) == f,
        !after_revival(f, service, Revival::Forget).casualties.contains_key(service),
        after_revival(f, service, Revival::Forget).manual == f.manual,
        after_revival(f, service, Revival::Forget).suppressed == f.suppressed,
{
}

} // verus!
