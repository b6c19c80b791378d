//! A map from names to values, walked in the order of the names.

use vstd::prelude::*;

use crate::text::{chars_of, texts};

verus! {

/// Whether `a` comes strictly before `b` in character order.
pub open spec fn precedes(a: Seq<char>, b: Seq<char>) -> bool
    decreases a.len(),
{
    if b.len() == 0 {
        false
    } else if a.len() == 0 {
        true
    } else if a[0] != b[0] {
        a[0] < b[0]
    } else {
        precedes(a.drop_first(), b.drop_first())
    }
}

pub proof fn lemma_precedes_total(a: Seq<char>, b: Seq<char>)
    ensures
        a != b ==> precedes(a, b) || precedes(b, a),
        !(precedes(a, b) && precedes(b, a)),
        !precedes(a, a),
    decreases a.len(),
{
    if a.len() > 0 && b.len() > 0 && a[0] == b[0] {
        lemma_precedes_total(a.drop_first(), b.drop_first());
        if a.drop_first() == b.drop_first() {
            assert(a =~= seq![a[0]] + a.drop_first());
            assert(b =~= seq![b[0]] + b.drop_first());
        }
    } else if a.len() == 0 && b.len() == 0 {
        assert(a =~= b);
    }
    if a.len() > 0 {
        lemma_precedes_total(a.drop_first(), a.drop_first());
    }
}

pub proof fn lemma_precedes_transitive(a: Seq<char>, b: Seq<char>, c: Seq<char>)
    requires
        precedes(a, b),
        precedes(b, c),
    ensures
        precedes(a, c),
    decreases a.len(),
{
    if a.len() > 0 && a[0] == b[0] && b[0] == c[0] {
        lemma_precedes_transitive(a.drop_first(), b.drop_first(), c.drop_first());
    }
}

/// Which of two texts comes first.
#[derive(Debug, Clone, Copy, PartialEq, Eq, Structural)]
pub enum Order {
    /// The first text comes first.
    Before,
    /// The texts are the same.
    Same,
    /// The second text comes first.
    After,
}

/// Compares two texts in character order.
pub fn order(a: &str, b: &str) -> (r: Order)
    ensures
        match r {
            Order::Before => precedes(a@, b@),
            Order::Same => a@ == b@,
            Order::After => precedes(b@, a@),
        },
{
    let av = chars_of(a);
    let bv = chars_of(b);
    let mut i: usize = 0;
    assert(av@.skip(0) =~= av@);
    assert(bv@.skip(0) =~= bv@);
    loop
        invariant
            i <= av.len(),
            i <= bv.len(),
            av@ == a@,
            bv@ == b@,
            av@.take(i as int) == bv@.take(i as int),
            precedes(av@.skip(i as int), bv@.skip(i as int)) == precedes(a@, b@),
            precedes(bv@.skip(i as int), av@.skip(i as int)) == precedes(b@, a@),
        decreases av.len() - i,
    {
        if i == av.len() || i == bv.len() {
            if i < bv.len() {
                return Order::Before;
            }
            if i < av.len() {
                return Order::After;
            }
            assert(av@.take(i as int) =~= av@);
            assert(bv@.take(i as int) =~= bv@);
            return Order::Same;
        }
        let ghost x = av@.skip(i as int);
        let ghost y = bv@.skip(i as int);
        assert(x[0] == av@[i as int]);
        assert(y[0] == bv@[i as int]);
        if av[i] < bv[i] {
            return Order::Before;
        }
        if bv[i] < av[i] {
            return Order::After;
        }
        assert(x.drop_first() =~= av@.skip(i + 1));
        assert(y.drop_first() =~= bv@.skip(i + 1));
        assert(av@.take(i + 1) =~= av@.take(i as int).push(av@[i as int]));
        assert(bv@.take(i + 1) =~= bv@.take(i as int).push(bv@[i as int]));
        i = i + 1;
    }
}

/// Whether the names are in strictly ascending order.
pub open spec fn ascending(names: Seq<Seq<char>>) -> bool {
    forall|i: int, j: int| 0 <= i < j < names.len() ==> precedes(#[trigger] names[i], #[trigger] names[j])
}

/// The names of a set, in ascending order.
pub open spec fn in_order(set: Set<Seq<char>>) -> Seq<Seq<char>> {
    choose|names: Seq<Seq<char>>|
        ascending(names) && forall|k: Seq<char>| #[trigger] names.contains(k) <==> set.contains(k)
}

pub proof fn lemma_ascending_unique(a: Seq<Seq<char>>, b: Seq<Seq<char>>)
    requires
        ascending(a),
        ascending(b),
        forall|k: Seq<char>| #[trigger] a.contains(k) <==> b.contains(k),
    ensures
        a == b,
    decreases a.len(),
{
    if a.len() == 0 {
        if b.len() > 0 {
            assert(b.contains(b[0]));
            assert(a.contains(b[0]));
        }
        assert(a =~= b);
    } else if b.len() == 0 {
        assert(a.contains(a[0]));
    } else {
        let x = a.last();
        let y = b.last();
        assert(a.contains(x) && b.contains(y));
        assert(b.contains(x) && a.contains(y));
        let i = b.index_of(x);
        let j = a.index_of(y);
        lemma_precedes_total(x, y);
        assert(x == y) by {
            if i < b.len() - 1 && j < a.len() - 1 {
                assert(precedes(b[i], b[b.len() - 1]));
                assert(precedes(a[j], a[a.len() - 1]));
            }
        }
        let c = a.drop_last();
        let d = b.drop_last();
        assert forall|k: Seq<char>| #[trigger] c.contains(k) <==> d.contains(k) by {
            lemma_precedes_total(k, k);
            if c.contains(k) {
                let n = c.index_of(k);
                assert(a[n] == k);
                assert(precedes(a[n], a[a.len() - 1]));
                assert(a.contains(k));
                let m = b.index_of(k);
                assert(b[m] == k);
                assert(m < b.len() - 1);
                assert(d[m] == k);
            }
            if d.contains(k) {
                let n = d.index_of(k);
                assert(b[n] == k);
                assert(precedes(b[n], b[b.len() - 1]));
                assert(b.contains(k));
                assert(a.contains(k));
                let m = a.index_of(k);
                assert(a[m] == k);
                assert(m < a.len() - 1);
                assert(c[m] == k);
            }
        }
        lemma_ascending_unique(c, d);
        assert(a =~= c.push(x));
        assert(b =~= d.push(y));
    }
}

pub proof fn lemma_in_order(names: Seq<Seq<char>>, set: Set<Seq<char>>)
    requires
        ascending(names),
        forall|k: Seq<char>| #[trigger] names.contains(k) <==> set.contains(k),
    ensures
        in_order(set) == names,
{
    lemma_ascending_unique(names, in_order(set));
}

/// Where a name belongs among ascending ones.
spec fn place(names: Seq<Seq<char>>, name: Seq<char>) -> int
    decreases names.len(),
{
    if names.len() == 0 || precedes(names.last(), name) {
        names.len() as int
    } else {
        place(names.drop_last(), name)
    }
}

proof fn lemma_place(names: Seq<Seq<char>>, name: Seq<char>)
    requires
        ascending(names),
        !names.contains(name),
    ensures
        0 <= place(names, name) <= names.len(),
        forall|j: int| 0 <= j < place(names, name) ==> precedes(#[trigger] names[j], name),
        forall|j: int| place(names, name) <= j < names.len() ==> precedes(name, #[trigger] names[j]),
    decreases names.len(),
{
    if names.len() == 0 {
    } else if precedes(names.last(), name) {
        assert forall|j: int| 0 <= j < names.len() implies precedes(#[trigger] names[j], name) by {
            if j < names.len() - 1 {
                assert(precedes(names[j], names[names.len() - 1]));
                lemma_precedes_transitive(names[j], names[names.len() - 1], name);
            }
        }
    } else {
        let front = names.drop_last();
        assert forall|j: int| 0 <= j < front.len() implies front[j] == names[j] by {}
        assert(!front.contains(name)) by {
            if front.contains(name) {
                let j = front.index_of(name);
                assert(names[j] == name);
            }
        }
        lemma_place(front, name);
        assert(names.contains(names[names.len() - 1]));
        lemma_precedes_total(names.last(), name);
        assert forall|j: int| place(names, name) <= j < names.len() implies precedes(
            name,
            #[trigger] names[j],
        ) by {
            if j < front.len() {
                assert(precedes(name, front[j]));
            }
        }
        assert forall|j: int| 0 <= j < place(names, name) implies precedes(
            #[trigger] names[j],
            name,
        ) by {
            assert(precedes(front[j], name));
        }
    }
}

pub proof fn lemma_in_order_exists(set: Set<Seq<char>>)
    requires
        set.finite(),
    ensures
        ascending(in_order(set)),
        forall|k: Seq<char>| #[trigger] in_order(set).contains(k) <==> set.contains(k),
    decreases set.len(),
{
    if set.len() == 0 {
        let none = Seq::<Seq<char>>::empty();
        assert(set =~= Set::<Seq<char>>::empty());
        lemma_in_order(none, set);
    } else {
        let name = set.choose();
        let rest = set.remove(name);
        lemma_in_order_exists(rest);
        let names = in_order(rest);
        assert(!names.contains(name));
        let i = place(names, name);
        lemma_place(names, name);
        lemma_insert_new(names, names, i, name, name);
        let all = names.insert(i, name);
        assert forall|k: Seq<char>| #[trigger] all.contains(k) <==> set.contains(k) by {
            if all.contains(k) {
                let j = all.index_of(k);
                if j < i {
                    assert(names[j] == k);
                    assert(names.contains(k));
                } else if j > i {
                    assert(names[j - 1] == k);
                    assert(names.contains(k));
                }
            }
            if set.contains(k) {
                if k == name {
                    assert(all[i] == k);
                } else {
                    assert(names.contains(k));
                    let j = names.index_of(k);
                    if j < i {
                        assert(all[j] == k);
                    } else {
                        assert(all[j + 1] == k);
                    }
                }
            }
        }
        lemma_in_order(all, set);
    }
}

/// A map from names to values.
pub struct NameMap<V> {
    names: Vec<String>,
    values: Vec<V>,
}

impl<V> NameMap<V> {
    #[verifier::type_invariant]
    spec fn well_formed(self) -> bool {
        self.names.len() == self.values.len() && ascending(texts(self.names@))
    }

    /// The names held, in ascending order.
    pub closed spec fn names(&self) -> Seq<Seq<char>> {
        texts(self.names@)
    }

    /// The values held, in the order of their names.
    pub closed spec fn values(&self) -> Seq<V> {
        self.values@
    }
}

/// The map whose `i`-th name is bound to the `i`-th value.
pub open spec fn paired<V>(names: Seq<Seq<char>>, values: Seq<V>) -> Map<Seq<char>, V> {
    Map::new(|k: Seq<char>| names.contains(k), |k: Seq<char>| values[names.index_of(k)])
}

impl<V> View for NameMap<V> {
    type V = Map<Seq<char>, V>;

    open spec fn view(&self) -> Map<Seq<char>, V> {
        paired(self.names(), self.values())
    }
}

proof fn lemma_index_of(names: Seq<Seq<char>>, i: int)
    requires
        ascending(names),
        0 <= i < names.len(),
    ensures
        names.index_of(names[i]) == i,
        names.contains(names[i]),
{
    let j = names.index_of(names[i]);
    assert(names.contains(names[i]));
    assert(names[j] == names[i]);
    lemma_precedes_total(names[i], names[i]);
    if j < i {
        assert(precedes(names[j], names[i]));
    } else if i < j {
        assert(precedes(names[i], names[j]));
    }
}

impl<V> NameMap<V> {
    /// An empty map.
    pub fn new() -> (r: Self)
        ensures
            r@ == Map::<Seq<char>, V>::empty(),
            r.names() == Seq::<Seq<char>>::empty(),
    {
        let r = NameMap { names: Vec::new(), values: Vec::new() };
        assert(r.names() =~= Seq::<Seq<char>>::empty());
        assert(r@ =~= Map::<Seq<char>, V>::empty());
        r
    }

    /// The number of names held.
    pub fn len(&self) -> (r: usize)
        ensures
            r == self.names().len(),
            r == self.values().len(),
            ascending(self.names()),
    {
        proof {
            use_type_invariant(self);
        }
        self.names.len()
    }

    /// The `i`-th name in ascending order.
    pub fn name_at(&self, i: usize) -> (r: &String)
        requires
            i < self.names().len(),
        ensures
            r@ == self.names()[i as int],
            self@.contains_key(r@),
    {
        proof {
            use_type_invariant(self);
            lemma_index_of(self.names(), i as int);
        }
        &self.names[i]
    }

    /// The value of the `i`-th name in ascending order.
    pub fn value_at(&self, i: usize) -> (r: &V)
        requires
            i < self.names().len(),
        ensures
            *r == self.values()[i as int],
            self@.contains_key(self.names()[i as int]),
            *r == self@[self.names()[i as int]],
    {
        proof {
            use_type_invariant(self);
            lemma_index_of(self.names(), i as int);
        }
        &self.values[i]
    }

    /// Where `name` stands, or where it would have to stand.
    fn position(&self, name: &str) -> (r: (usize, bool))
        ensures
            r.0 <= self.names().len(),
            r.1 ==> r.0 < self.names().len() && self.names()[r.0 as int] == name@,
            !r.1 ==> !self.names().contains(name@),
            forall|i: int| 0 <= i < r.0 ==> precedes(#[trigger] self.names()[i], name@),
            !r.1 ==> forall|i: int|
                r.0 <= i < self.names().len() ==> precedes(name@, #[trigger] self.names()[i]),
    {
        proof {
            use_type_invariant(self);
        }
        let ghost ns = self.names();
        let mut i: usize = 0;
        while i < self.names.len()
            invariant
                i <= self.names.len(),
                ns == self.names(),
                ns == texts(self.names@),
                ascending(ns),
                forall|j: int| 0 <= j < i ==> precedes(#[trigger] ns[j], name@),
            decreases self.names.len() - i,
        {
            assert(ns[i as int] == self.names@[i as int]@);
            match order(self.names[i].as_str(), name) {
                Order::Before => {
                    i = i + 1;
                },
                Order::Same => {
                    return (i, true);
                },
                Order::After => {
                    proof {
                        assert forall|j: int| i <= j < ns.len() implies precedes(
                            name@,
                            #[trigger] ns[j],
                        ) by {
                            if i < j {
                                lemma_precedes_transitive(name@, ns[i as int], ns[j]);
                            }
                        }
                        lemma_absent(ns, name@, i as int);
                    }
                    return (i, false);
                },
            }
        }
        proof {
            lemma_absent(ns, name@, i as int);
        }
        (i, false)
    }

    /// The value bound to `name`.
    pub fn get(&self, name: &str) -> (r: Option<&V>)
        ensures
            match r {
                Some(v) => self@.contains_key(name@) && *v == self@[name@],
                None => !self@.contains_key(name@),
            },
    {
        let (i, found) = self.position(name);
        proof {
            use_type_invariant(self);
        }
        if found {
            proof {
                lemma_index_of(self.names(), i as int);
            }
            Some(&self.values[i])
        } else {
            None
        }
    }

    /// Whether `name` is bound.
    pub fn has(&self, name: &str) -> (r: bool)
        ensures
            r == self@.contains_key(name@),
    {
        let (_, found) = self.position(name);
        found
    }

    /// Binds `name` to `value`, replacing any earlier value.
    pub fn insert(&mut self, name: &str, value: V)
        ensures
            final(self)@ == old(self)@.insert(name@, value),
    {
        let (i, found) = self.position(name);
        proof {
            use_type_invariant(&*self);
        }
        let ghost ns = self.names();
        let ghost vs = self.values();
        let mut me = NameMap { names: Vec::new(), values: Vec::new() };
        std::mem::swap(&mut me, self);
        let NameMap { names: mut names, values: mut values } = me;
        if found {
            values.set(i, value);
            proof {
                lemma_insert_found(ns, vs, i as int, value);
            }
        } else {
            names.insert(i, name.to_owned());
            values.insert(i, value);
            assert(texts(names@) =~= ns.insert(i as int, name@));
            proof {
                lemma_insert_new(ns, vs, i as int, name@, value);
            }
        }
        *self = NameMap { names, values };
    }

    /// Unbinds `name`, giving back what it was bound to.
    pub fn remove(&mut self, name: &str) -> (r: Option<V>)
        ensures
            final(self)@ == old(self)@.remove(name@),
            match r {
                Some(v) => old(self)@.contains_key(name@) && v == old(self)@[name@],
                None => !old(self)@.contains_key(name@),
            },
    {
        let (i, found) = self.position(name);
        proof {
            use_type_invariant(&*self);
        }
        if !found {
            assert(self@.remove(name@) =~= self@);
            return None;
        }
        let ghost ns = self.names();
        let ghost vs = self.values();
        let mut me = NameMap { names: Vec::new(), values: Vec::new() };
        std::mem::swap(&mut me, self);
        let NameMap { names: mut names, values: mut values } = me;
        let _ = names.remove(i);
        let v = values.remove(i);
        assert(texts(names@) =~= ns.remove(i as int));
        proof {
            lemma_index_of(ns, i as int);
            lemma_remove(ns, vs, i as int);
        }
        *self = NameMap { names, values };
        Some(v)
    }
}

proof fn lemma_absent(ns: Seq<Seq<char>>, name: Seq<char>, i: int)
    requires
        0 <= i <= ns.len(),
        forall|j: int| 0 <= j < i ==> precedes(#[trigger] ns[j], name),
        forall|j: int| i <= j < ns.len() ==> precedes(name, #[trigger] ns[j]),
    ensures
        !ns.contains(name),
{
    lemma_precedes_total(name, name);
    if ns.contains(name) {
        let k = choose|k: int| 0 <= k < ns.len() && ns[k] == name;
        assert(precedes(ns[k], name) || precedes(name, ns[k]));
    }
}

proof fn lemma_insert_found<V>(ns: Seq<Seq<char>>, vs: Seq<V>, i: int, value: V)
    requires
        ascending(ns),
        ns.len() == vs.len(),
        0 <= i < ns.len(),
    ensures
        paired(ns, vs.update(i, value)) == paired(ns, vs).insert(ns[i], value),
{
    lemma_index_of(ns, i);
    let a = paired(ns, vs.update(i, value));
    let b = paired(ns, vs).insert(ns[i], value);
    assert forall|k: Seq<char>| a.contains_key(k) implies a[k] == b[k] by {
        assert(ns[ns.index_of(k)] == k);
    }
    assert(a =~= b);
}

proof fn lemma_insert_new<V>(ns: Seq<Seq<char>>, vs: Seq<V>, i: int, name: Seq<char>, value: V)
    requires
        ascending(ns),
        ns.len() == vs.len(),
        0 <= i <= ns.len(),
        forall|j: int| 0 <= j < i ==> precedes(#[trigger] ns[j], name),
        forall|j: int| i <= j < ns.len() ==> precedes(name, #[trigger] ns[j]),
    ensures
        ascending(ns.insert(i, name)),
        paired(ns.insert(i, name), vs.insert(i, value)) == paired(ns, vs).insert(name, value),
{
    let ms = ns.insert(i, name);
    let us = vs.insert(i, value);
    assert forall|j: int, k: int| 0 <= j < k < ms.len() implies precedes(
        #[trigger] ms[j],
        #[trigger] ms[k],
    ) by {
        let jj = if j < i { j } else { j - 1 };
        let kk = if k < i { k } else { k - 1 };
        if j == i {
            assert(ms[k] == ns[kk]);
        } else if k == i {
            assert(ms[j] == ns[jj]);
        } else {
            assert(ms[j] == ns[jj]);
            assert(ms[k] == ns[kk]);
        }
    }
    lemma_absent(ns, name, i);
    let a = paired(ms, us);
    let b = paired(ns, vs).insert(name, value);
    assert forall|k: Seq<char>|
        #![trigger a.dom().contains(k)]
        #![trigger b.dom().contains(k)]
        #![trigger a[k]]
        a.dom().contains(k) == b.dom().contains(k) && (a.dom().contains(k) ==> a[k] == b[k]) by {
        assert(ms[i] == name);
        if ns.contains(k) {
            let p = ns.index_of(k);
            let q = if p < i { p } else { p + 1 };
            assert(ms[q] == k);
            lemma_index_of(ms, q);
        } else if ms.contains(k) {
            let q = ms.index_of(k);
            if q != i {
                let p = if q < i { q } else { q - 1 };
                assert(ns[p] == k);
            }
        }
        if k == name {
            lemma_index_of(ms, i);
        }
    }
    assert(a =~= b);
}

proof fn lemma_remove<V>(ns: Seq<Seq<char>>, vs: Seq<V>, i: int)
    requires
        ascending(ns),
        ns.len() == vs.len(),
        0 <= i < ns.len(),
    ensures
        ascending(ns.remove(i)),
        paired(ns.remove(i), vs.remove(i)) == paired(ns, vs).remove(ns[i]),
{
    let ms = ns.remove(i);
    let us = vs.remove(i);
    assert forall|j: int, k: int| 0 <= j < k < ms.len() implies precedes(
        #[trigger] ms[j],
        #[trigger] ms[k],
    ) by {
        let jj = if j < i { j } else { j + 1 };
        let kk = if k < i { k } else { k + 1 };
        assert(ms[j] == ns[jj]);
        assert(ms[k] == ns[kk]);
    }
    let a = paired(ms, us);
    let b = paired(ns, vs).remove(ns[i]);
    lemma_index_of(ns, i);
    assert forall|k: Seq<char>|
        #![trigger a.dom().contains(k)]
        #![trigger b.dom().contains(k)]
        #![trigger a[k]]
        a.dom().contains(k) == b.dom().contains(k) && (a.dom().contains(k) ==> a[k] == b[k]) by {
        if ns.contains(k) && k != ns[i] {
            let p = ns.index_of(k);
            assert(p != i);
            let q = if p < i { p } else { p - 1 };
            assert(ms[q] == k);
            lemma_index_of(ms, q);
        } else if ms.contains(k) {
            let q = ms.index_of(k);
            let p = if q < i { q } else { q + 1 };
            assert(ns[p] == k);
            lemma_index_of(ns, p);
        }
    }
    assert(a =~= b);
}

/// A set of names.
pub struct NameSet {
    map: NameMap<()>,
}

impl View for NameSet {
    type V = Set<Seq<char>>;

    closed spec fn view(&self) -> Set<Seq<char>> {
        self.map@.dom()
    }
}

impl NameSet {
    /// The names held, in ascending order.
    pub closed spec fn names(&self) -> Seq<Seq<char>> {
        self.map.names()
    }

    /// An empty set.
    pub fn new() -> (r: Self)
        ensures
            r@ == Set::<Seq<char>>::empty(),
    {
        let r = NameSet { map: NameMap::new() };
        assert(r@ =~= Set::<Seq<char>>::empty());
        r
    }

    /// Whether `name` is in the set.
    pub fn has(&self, name: &str) -> (r: bool)
        ensures
            r == self@.contains(name@),
    {
        self.map.has(name)
    }

    /// Adds `name`; says whether it was new.
    pub fn insert(&mut self, name: &str) -> (r: bool)
        ensures
            final(self)@ == old(self)@.insert(name@),
            r == !old(self)@.contains(name@),
    {
        let fresh = !self.map.has(name);
        self.map.insert(name, ());
        assert(self@ =~= old(self)@.insert(name@));
        fresh
    }

    /// Takes `name` out; says whether it was there.
    pub fn remove(&mut self, name: &str) -> (r: bool)
        ensures
            final(self)@ == old(self)@.remove(name@),
            r == old(self)@.contains(name@),
    {
        let there = self.map.remove(name).is_some();
        assert(self@ =~= old(self)@.remove(name@));
        there
    }

    /// The number of names.
    pub fn len(&self) -> (r: usize)
        ensures
            r == self.names().len(),
            ascending(self.names()),
            self@ == self.names().to_set(),
    {
        let n: usize = self.map.len();
        assert(self@ =~= self.names().to_set());
        n
    }

    /// The `i`-th name in ascending order.
    pub fn name_at(&self, i: usize) -> (r: &String)
        requires
            i < self.names().len(),
        ensures
            r@ == self.names()[i as int],
            self@.contains(r@),
    {
        self.map.name_at(i)
    }
}

} // verus!
