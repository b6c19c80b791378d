//! Which services need which: the order in which they are started, and who goes down with whom.

use vstd::prelude::*;

use crate::config::DependsOn;
use crate::daemon::flags::dependents_of;
use crate::error::ProcessManagerError;
use crate::names::{ascending, lemma_precedes_total, NameMap, NameSet};
use crate::text::{join, joined, texts};

verus! {

// ---------------------------------------------------------------------------
// The order of a start
// ---------------------------------------------------------------------------

/// Whether `service` lists `dep` among its dependencies, and both are configured.
pub open spec fn needs(
    services: Map<Seq<char>, Vec<DependsOn>>,
    service: Seq<char>,
    dep: Seq<char>,
) -> bool {
    &&& services.contains_key(service)
    &&& services.contains_key(dep)
    &&& lists(services[service]@, dep)
}

/// Whether a list of dependencies names `dep`.
pub open spec fn lists(deps: Seq<DependsOn>, dep: Seq<char>) -> bool {
    exists|k: int| 0 <= k < deps.len() && (#[trigger] deps[k]).service@ == dep
}

/// Whether `order` has each of some configured services once, after everything that it needs.
pub open spec fn in_start_order(
    services: Map<Seq<char>, Vec<DependsOn>>,
    order: Seq<Seq<char>>,
) -> bool {
    &&& order.no_duplicates()
    &&& forall|i: int| 0 <= i < order.len() ==> services.contains_key(#[trigger] order[i])
    &&& forall|i: int, dep: Seq<char>|
        0 <= i < order.len() && #[trigger] needs(services, order[i], dep) ==> order.take(i).contains(dep)
}

/// Whether `order` has every configured service once, after everything that it needs.
pub open spec fn is_start_order(
    services: Map<Seq<char>, Vec<DependsOn>>,
    order: Seq<Seq<char>>,
) -> bool {
    &&& in_start_order(services, order)
    &&& forall|s: Seq<char>| #[trigger] services.contains_key(s) ==> order.contains(s)
}

/// Whether each of some services needs one of them, so that none can be the first.
pub open spec fn is_tangle(
    services: Map<Seq<char>, Vec<DependsOn>>,
    stuck: Seq<Seq<char>>,
) -> bool {
    &&& stuck.len() > 0
    &&& forall|i: int| 0 <= i < stuck.len() ==> needs_one_of(services, #[trigger] stuck[i], stuck)
}

/// Whether `service` needs one of `others`.
pub open spec fn needs_one_of(
    services: Map<Seq<char>, Vec<DependsOn>>,
    service: Seq<char>,
    others: Seq<Seq<char>>,
) -> bool {
    exists|j: int| 0 <= j < others.len() && needs(services, service, #[trigger] others[j])
}

/// What is said of services that cannot be put in order.
pub open spec fn tangle_text(stuck: Seq<Seq<char>>) -> Seq<char> {
    "services depend on each other: "@ + joined(stuck, ", "@)
}

/// Whether everything configured among `deps` is in `placed`.
pub open spec fn all_placed(
    services: Map<Seq<char>, Vec<DependsOn>>,
    deps: Seq<DependsOn>,
    placed: Set<Seq<char>>,
) -> bool {
    forall|k: int|
        0 <= k < deps.len() && services.contains_key((#[trigger] deps[k]).service@)
            ==> placed.contains(deps[k].service@)
}

fn is_ready(services: &NameMap<Vec<DependsOn>>, deps: &Vec<DependsOn>, placed: &NameSet) -> (r: bool)
    ensures
        r == all_placed(services@, deps@, placed@),
{
    let mut k: usize = 0;
    while k < deps.len()
        invariant
            k <= deps@.len(),
            forall|j: int|
                0 <= j < k && services@.contains_key((#[trigger] deps@[j]).service@)
                    ==> placed@.contains(deps@[j].service@),
        decreases deps@.len() - k,
    {
        let name = deps[k].service.as_str();
        if services.has(name) && !placed.has(name) {
            assert(services@.contains_key(deps@[k as int].service@));
            return false;
        }
        k = k + 1;
    }
    true
}

proof fn lemma_distinct(names: Seq<Seq<char>>)
    requires
        ascending(names),
    ensures
        names.no_duplicates(),
{
    assert forall|i: int, j: int| 0 <= i < names.len() && 0 <= j < names.len() && i != j implies names[i]
        != names[j] by {
        if i < j {
            lemma_precedes_total(names[i], names[j]);
        } else {
            lemma_precedes_total(names[j], names[i]);
        }
    }
}

/// The names at some places.
spec fn at_places(names: Seq<Seq<char>>, places: Seq<usize>) -> Seq<Seq<char>> {
    places.map_values(|p: usize| names[p as int])
}

/// Whether `left` has the places of just those names that are not in `placed`, each once.
spec fn are_left(names: Seq<Seq<char>>, left: Seq<usize>, placed: Set<Seq<char>>) -> bool {
    &&& left.no_duplicates()
    &&& forall|p: usize|
        #![trigger left.contains(p)]
        left.contains(p) <==> p < names.len() && !placed.contains(names[p as int])
}

/// A service is put in order once everything it needs is.
proof fn lemma_put_in_order(
    services: Map<Seq<char>, Vec<DependsOn>>,
    order: Seq<Seq<char>>,
    name: Seq<char>,
)
    requires
        in_start_order(services, order),
        services.contains_key(name),
        !order.contains(name),
        all_placed(services, services[name]@, order.to_set()),
    ensures
        in_start_order(services, order.push(name)),
        order.push(name).to_set() == order.to_set().insert(name),
{
    let after = order.push(name);
    assert(after.no_duplicates()) by {
        assert forall|i: int, j: int| 0 <= i < after.len() && 0 <= j < after.len() && i != j implies after[i]
            != after[j] by {
            if i == order.len() {
                assert(order.contains(order[j]));
            } else if j == order.len() {
                assert(order.contains(order[i]));
            }
        }
    }
    assert forall|i: int, dep: Seq<char>|
        0 <= i < after.len() && #[trigger] needs(services, after[i], dep) implies after.take(i).contains(
        dep,
    ) by {
        assert(after.take(i) =~= order.take(i));
        if i < order.len() {
            assert(needs(services, order[i], dep));
        } else {
            let k = choose|k: int|
                0 <= k < services[name]@.len() && (#[trigger] services[name]@[k]).service@ == dep;
            assert(services.contains_key(services[name]@[k].service@));
            assert(order.to_set().contains(dep));
            assert(order.take(i) =~= order);
        }
    }
    assert(after.to_set() =~= order.to_set().insert(name)) by {
        assert forall|s: Seq<char>| #[trigger] after.contains(s) <==> order.to_set().insert(name).contains(
            s,
        ) by {
            if order.contains(s) {
                let i = order.index_of(s);
                assert(after[i] == s);
            }
            if s == name {
                assert(after[order.len() as int] == s);
            }
        }
    }
}

/// The services so that each comes after everything that it needs. Those that need each other have
/// no such order.
pub fn service_start_order(services: &NameMap<Vec<DependsOn>>) -> (r: Result<
    Vec<String>,
    ProcessManagerError,
>)
    ensures
        match r {
            Ok(order) => is_start_order(services@, texts(order@)),
            Err(ProcessManagerError::ConfigParseError(m)) => exists|stuck: Seq<Seq<char>>|
                #[trigger] is_tangle(services@, stuck) && m@ == tangle_text(stuck),
            Err(_) => false,
        },
{
    let n: usize = services.len();
    let ghost names = services.names();
    proof {
        lemma_distinct(names);
    }
    let mut left: Vec<usize> = Vec::new();
    let mut i: usize = 0;
    while i < n
        invariant
            i <= n,
            left@.len() == i,
            forall|j: int| 0 <= j < i ==> left@[j] == j,
        decreases n - i,
    {
        left.push(i);
        i = i + 1;
    }
    let mut order: Vec<String> = Vec::new();
    let mut placed = NameSet::new();
    proof {
        assert(texts(order@) =~= Seq::<Seq<char>>::empty());
        assert(texts(order@).to_set() =~= Set::<Seq<char>>::empty());
        assert forall|p: usize| #![trigger left@.contains(p)] left@.contains(p) <==> p < names.len() by {
            if p < names.len() {
                assert(left@[p as int] == p);
            }
        }
    }
    while left.len() > 0
        invariant
            n == names.len(),
            names == services.names(),
            n == services.values().len(),
            names.no_duplicates(),
            placed@ == texts(order@).to_set(),
            are_left(names, left@, placed@),
            in_start_order(services@, texts(order@)),
        decreases left@.len(),
    {
        let at: usize = match find_ready(services, &left, &placed) {
            Some(at) => at,
            None => {
                assert forall|k: int| 0 <= k < left@.len() implies (#[trigger] left@[k]) < names.len() by {
                    assert(left@.contains(left@[k]));
                }
                let stuck = names_at(services, &left);
                proof {
                    lemma_stuck(*services, left@, placed@);
                }
                let mut m = "services depend on each other: ".to_owned();
                let list = join(&stuck, ", ");
                m.append(list.as_str());
                return Err(ProcessManagerError::ConfigParseError(m));
            },
        };
        let ghost before = left@;
        let ghost q = left@[at as int];
        let p: usize = left.remove(at);
        assert(before.contains(q));
        let name = services.name_at(p);
        proof {
            assert(!texts(order@).to_set().contains(name@));
            assert(!texts(order@).contains(name@));
            lemma_put_in_order(services@, texts(order@), name@);
        }
        let ghost earlier = texts(order@);
        order.push(name.as_str().to_owned());
        assert(texts(order@) =~= earlier.push(name@));
        let _ = placed.insert(name.as_str());
        proof {
            lemma_one_less(names, before, at as int, earlier.to_set());
        }
    }
    assert forall|s: Seq<char>| #[trigger] services@.contains_key(s) implies texts(order@).contains(s) by {
        let k = names.index_of(s);
        assert(names.contains(s));
        assert(!left@.contains(k as usize));
        assert(placed@.contains(names[k]));
    }
    Ok(order)
}

/// The first of the services that are left which needs nothing that is left.
fn find_ready(services: &NameMap<Vec<DependsOn>>, left: &Vec<usize>, placed: &NameSet) -> (r: Option<
    usize,
>)
    requires
        are_left(services.names(), left@, placed@),
    ensures
        match r {
            Some(at) => at < left@.len() && all_placed(
                services@,
                services@[services.names()[left@[at as int] as int]]@,
                placed@,
            ),
            None => forall|k: int|
                0 <= k < left@.len() ==> !all_placed(
                    services@,
                    services@[services.names()[(#[trigger] left@[k]) as int]]@,
                    placed@,
                ),
        },
{
    let mut at: usize = 0;
    while at < left.len()
        invariant
            at <= left@.len(),
            are_left(services.names(), left@, placed@),
            forall|k: int|
                0 <= k < at ==> !all_placed(
                    services@,
                    services@[services.names()[(#[trigger] left@[k]) as int]]@,
                    placed@,
                ),
        decreases left@.len() - at,
    {
        assert(left@.contains(left@[at as int]));
        if is_ready(services, services.value_at(left[at]), placed) {
            return Some(at);
        }
        at = at + 1;
    }
    None
}

fn names_at(services: &NameMap<Vec<DependsOn>>, left: &Vec<usize>) -> (r: Vec<String>)
    requires
        forall|k: int| 0 <= k < left@.len() ==> (#[trigger] left@[k]) < services.names().len(),
    ensures
        texts(r@) == at_places(services.names(), left@),
{
    let mut r: Vec<String> = Vec::new();
    let mut i: usize = 0;
    while i < left.len()
        invariant
            i <= left@.len(),
            forall|k: int| 0 <= k < left@.len() ==> (#[trigger] left@[k]) < services.names().len(),
            r@.len() == i,
            forall|k: int| 0 <= k < i ==> (#[trigger] r@[k])@ == services.names()[left@[k] as int],
        decreases left@.len() - i,
    {
        r.push(services.name_at(left[i]).as_str().to_owned());
        i = i + 1;
    }
    assert(texts(r@) =~= at_places(services.names(), left@));
    r
}

proof fn lemma_one_less(names: Seq<Seq<char>>, left: Seq<usize>, at: int, placed: Set<Seq<char>>)
    requires
        names.no_duplicates(),
        are_left(names, left, placed),
        0 <= at < left.len(),
    ensures
        are_left(names, left.remove(at), placed.insert(names[left[at] as int])),
{
    let less = left.remove(at);
    let q = left[at];
    assert(left.contains(q));
    assert(less.no_duplicates()) by {
        assert forall|i: int, j: int| 0 <= i < less.len() && 0 <= j < less.len() && i != j implies less[i]
            != less[j] by {
            let x = if i < at {
                i
            } else {
                i + 1
            };
            let y = if j < at {
                j
            } else {
                j + 1
            };
            assert(left[x] != left[y]);
        }
    }
    assert forall|p: usize| #![trigger less.contains(p)] less.contains(p) <==> p < names.len()
        && !placed.insert(names[q as int]).contains(names[p as int]) by {
        if less.contains(p) {
            let i = less.index_of(p);
            let x = if i < at {
                i
            } else {
                i + 1
            };
            assert(left[x] == p);
            assert(left.contains(p));
            assert(left[x] != left[at]);
        }
        if p < names.len() && !placed.insert(names[q as int]).contains(names[p as int]) {
            assert(left.contains(p));
            let x = left.index_of(p);
            assert(x != at);
            let i = if x < at {
                x
            } else {
                x - 1
            };
            assert(less[i] == p);
        }
    }
}

proof fn lemma_stuck(services: NameMap<Vec<DependsOn>>, left: Seq<usize>, placed: Set<Seq<char>>)
    requires
        are_left(services.names(), left, placed),
        services.names().len() <= usize::MAX,
        left.len() > 0,
        forall|k: int|
            0 <= k < left.len() ==> !all_placed(
                services@,
                services@[services.names()[(#[trigger] left[k]) as int]]@,
                placed,
            ),
    ensures
        is_tangle(services@, at_places(services.names(), left)),
{
    let names = services.names();
    let stuck = at_places(names, left);
    assert forall|i: int| 0 <= i < stuck.len() implies needs_one_of(
        services@,
        #[trigger] stuck[i],
        stuck,
    ) by {
        let p = left[i];
        assert(left.contains(p));
        let name = names[p as int];
        assert(names.contains(name));
        let deps = services@[name]@;
        let k = choose|k: int|
            0 <= k < deps.len() && services@.contains_key((#[trigger] deps[k]).service@)
                && !placed.contains(deps[k].service@);
        let dep = deps[k].service@;
        assert(names.contains(dep));
        let d = names.index_of(dep);
        assert(left.contains(d as usize));
        let j = left.index_of(d as usize);
        assert(stuck[j] == dep);
        assert(lists(deps, dep));
        assert(needs(services@, stuck[i], stuck[j]));
    }
}

/// Services that need each other can be put in no order, so that a start order is found if and only
/// if there is one.
pub proof fn law_tangle_has_no_order(
    services: Map<Seq<char>, Vec<DependsOn>>,
    stuck: Seq<Seq<char>>,
    order: Seq<Seq<char>>,
)
    requires
        is_tangle(services, stuck),
    ensures
        !is_start_order(services, order),
{
    if is_start_order(services, order) {
        lemma_never_reached(services, stuck, order, order.len() as int);
        let s = stuck[0];
        assert(needs_one_of(services, s, stuck));
        assert(order.contains(s));
        assert(stuck.contains(order[order.index_of(s)]));
    }
}

proof fn lemma_never_reached(
    services: Map<Seq<char>, Vec<DependsOn>>,
    stuck: Seq<Seq<char>>,
    order: Seq<Seq<char>>,
    n: int,
)
    requires
        is_tangle(services, stuck),
        in_start_order(services, order),
        0 <= n <= order.len(),
    ensures
        forall|i: int| 0 <= i < n ==> !stuck.contains(#[trigger] order[i]),
    decreases n,
{
    if n > 0 {
        lemma_never_reached(services, stuck, order, n - 1);
        if stuck.contains(order[n - 1]) {
            let i = stuck.index_of(order[n - 1]);
            assert(needs_one_of(services, stuck[i], stuck));
            let j = choose|j: int|
                0 <= j < stuck.len() && needs(services, stuck[i], #[trigger] stuck[j]);
            assert(needs(services, order[n - 1], stuck[j]));
            assert(order.take(n - 1).contains(stuck[j]));
            let k = order.take(n - 1).index_of(stuck[j]);
            assert(order[k] == stuck[j]);
            assert(stuck.contains(order[k]));
        }
    }
}

// ---------------------------------------------------------------------------
// Who depends on whom
// ---------------------------------------------------------------------------

/// `name`, once for each of the first `n` dependencies that is `dep`.
pub open spec fn mentions(name: Seq<char>, deps: Seq<DependsOn>, dep: Seq<char>, n: int) -> Seq<
    Seq<char>,
>
    decreases n,
{
    if n <= 0 {
        seq![]
    } else if deps[n - 1].service@ == dep {
        mentions(name, deps, dep, n - 1).push(name)
    } else {
        mentions(name, deps, dep, n - 1)
    }
}

/// Those of the first `n` services that list `dep`, in order, each as often as it lists it.
pub open spec fn dependents(
    names: Seq<Seq<char>>,
    deps: Seq<Vec<DependsOn>>,
    dep: Seq<char>,
    n: int,
) -> Seq<Seq<char>>
    decreases n,
{
    if n <= 0 {
        seq![]
    } else {
        dependents(names, deps, dep, n - 1) + mentions(
            names[n - 1],
            deps[n - 1]@,
            dep,
            deps[n - 1]@.len() as int,
        )
    }
}

fn list_under(m: &mut NameMap<Vec<String>>, key: &str, name: &str)
    ensures
        forall|k: Seq<char>| #[trigger]
            dependents_of(final(m)@, k) == if k == key@ {
                dependents_of(old(m)@, k).push(name@)
            } else {
                dependents_of(old(m)@, k)
            },
        final(m)@.dom() == old(m)@.dom().insert(key@),
{
    let mut list = match m.remove(key) {
        Some(list) => list,
        None => Vec::new(),
    };
    assert(texts(list@) =~= dependents_of(old(m)@, key@));
    let ghost before = texts(list@);
    list.push(name.to_owned());
    assert(texts(list@) =~= before.push(name@));
    m.insert(key, list);
    assert(m@.dom() =~= old(m)@.dom().insert(key@));
}

/// Who depends on each service: for everything that is listed as a dependency, those that list it,
/// in the order of their names.
pub fn reverse_dependencies(services: &NameMap<Vec<DependsOn>>) -> (r: NameMap<Vec<String>>)
    ensures
        forall|dep: Seq<char>|
            {
                let all = dependents(
                    services.names(),
                    services.values(),
                    dep,
                    services.names().len() as int,
                );
                &&& #[trigger] dependents_of(r@, dep) == all
                &&& r@.contains_key(dep) <==> all.len() > 0
            },
{
    let n: usize = services.len();
    let ghost names = services.names();
    let ghost deps = services.values();
    let mut r: NameMap<Vec<String>> = NameMap::new();
    let mut i: usize = 0;
    while i < n
        invariant
            i <= n,
            n == names.len(),
            n == deps.len(),
            names == services.names(),
            deps == services.values(),
            forall|dep: Seq<char>|
                {
                    &&& #[trigger] dependents_of(r@, dep) == dependents(names, deps, dep, i as int)
                    &&& r@.contains_key(dep) <==> dependents(names, deps, dep, i as int).len() > 0
                },
        decreases n - i,
    {
        let own = services.value_at(i);
        let name = services.name_at(i);
        let mut k: usize = 0;
        while k < own.len()
            invariant
                i < n,
                k <= own@.len(),
                n == names.len(),
                n == deps.len(),
                *own == deps[i as int],
                name@ == names[i as int],
                forall|dep: Seq<char>|
                    {
                        let so_far = dependents(names, deps, dep, i as int) + mentions(
                            name@,
                            own@,
                            dep,
                            k as int,
                        );
                        &&& #[trigger] dependents_of(r@, dep) == so_far
                        &&& r@.contains_key(dep) <==> so_far.len() > 0
                    },
            decreases own@.len() - k,
        {
            let ghost before = r@;
            let ghost d = own@[k as int].service@;
            list_under(&mut r, own[k].service.as_str(), name.as_str());
            proof {
                assert forall|dep: Seq<char>|
                    {
                        let so_far = dependents(names, deps, dep, i as int) + mentions(
                            name@,
                            own@,
                            dep,
                            k + 1,
                        );
                        &&& #[trigger] dependents_of(r@, dep) == so_far
                        &&& r@.contains_key(dep) <==> so_far.len() > 0
                    } by {
                    let old_list = dependents(names, deps, dep, i as int) + mentions(
                        name@,
                        own@,
                        dep,
                        k as int,
                    );
                    assert(dependents_of(before, dep) == old_list);
                    if dep == d {
                        assert(dependents(names, deps, dep, i as int) + mentions(
                            name@,
                            own@,
                            dep,
                            k + 1,
                        ) =~= old_list.push(name@));
                    }
                    assert(r@.dom().contains(dep) <==> before.dom().insert(d).contains(dep));
                }
            }
            k = k + 1;
        }
        i = i + 1;
    }
    r
}

/// Those that depend on a service are just those that list it among their dependencies.
pub proof fn law_dependents_list_their_dependency(
    names: Seq<Seq<char>>,
    deps: Seq<Vec<DependsOn>>,
    dep: Seq<char>,
    n: int,
    name: Seq<char>,
)
    requires
        0 <= n <= names.len(),
    ensures
        dependents(names, deps, dep, n).contains(name) <==> exists|i: int|
            0 <= i < n && #[trigger] names[i] == name && (exists|k: int|
                0 <= k < deps[i]@.len() && (#[trigger] deps[i]@[k]).service@ == dep),
    decreases n,
{
    if n > 0 {
        law_dependents_list_their_dependency(names, deps, dep, n - 1, name);
        let before = dependents(names, deps, dep, n - 1);
        let own = mentions(names[n - 1], deps[n - 1]@, dep, deps[n - 1]@.len() as int);
        let all = before + own;
        lemma_mentions(names[n - 1], deps[n - 1]@, dep, deps[n - 1]@.len() as int, name);
        if before.contains(name) {
            let k = choose|k: int| 0 <= k < before.len() && before[k] == name;
            assert(all[k] == name);
        }
        if own.contains(name) {
            let k = choose|k: int| 0 <= k < own.len() && own[k] == name;
            assert(all[before.len() + k] == name);
            assert(names[n - 1] == name);
        }
        if all.contains(name) {
            let k = choose|k: int| 0 <= k < all.len() && all[k] == name;
            if k < before.len() {
                assert(before[k] == name);
            } else {
                assert(own[k - before.len()] == name);
            }
        }
    }
}

proof fn lemma_mentions(
    own: Seq<char>,
    deps: Seq<DependsOn>,
    dep: Seq<char>,
    n: int,
    name: Seq<char>,
)
    requires
        0 <= n <= deps.len(),
    ensures
        mentions(own, deps, dep, n).contains(name) <==> name == own && exists|k: int|
            0 <= k < n && (#[trigger] deps[k]).service@ == dep,
    decreases n,
{
    if n > 0 {
        lemma_mentions(own, deps, dep, n - 1, name);
        let before = mentions(own, deps, dep, n - 1);
        let all = before.push(own);
        assert(all[before.len() as int] == own);
        if before.contains(name) {
            let k = choose|k: int| 0 <= k < before.len() && before[k] == name;
            assert(all[k] == name);
        }
        if all.contains(name) && !before.contains(name) {
            let k = choose|k: int| 0 <= k < all.len() && all[k] == name;
            if k < before.len() {
                assert(before[k] == name);
            }
        }
    }
}

} // verus!
