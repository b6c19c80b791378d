//! A map from process ids to values, walked in ascending order of the ids.

use vstd::prelude::*;

verus! {

/// Whether the ids are in strictly ascending order.
pub open spec fn ascending(keys: Seq<u32>) -> bool {
    forall|i: int, j: int| 0 <= i < j < keys.len() ==> #[trigger] keys[i] < #[trigger] keys[j]
}

/// A map from process ids to values.
pub struct PidMap<V> {
    keys: Vec<u32>,
    values: Vec<V>,
}

impl<V> PidMap<V> {
    #[verifier::type_invariant]
    spec fn well_formed(self) -> bool {
        self.keys.len() == self.values.len() && ascending(self.keys@)
    }

    /// The ids held, in ascending order.
    pub closed spec fn keys(&self) -> Seq<u32> {
        self.keys@
    }

    /// The values held, in the order of their ids.
    pub closed spec fn values(&self) -> Seq<V> {
        self.values@
    }
}

/// The map whose `i`-th id is bound to the `i`-th value.
pub open spec fn paired<V>(keys: Seq<u32>, values: Seq<V>) -> Map<u32, V> {
    Map::new(|k: u32| keys.contains(k), |k: u32| values[keys.index_of(k)])
}

impl<V> View for PidMap<V> {
    type V = Map<u32, V>;

    open spec fn view(&self) -> Map<u32, V> {
        paired(self.keys(), self.values())
    }
}

proof fn lemma_index_of(keys: Seq<u32>, i: int)
    requires
        ascending(keys),
        0 <= i < keys.len(),
    ensures
        keys.index_of(keys[i]) == i,
        keys.contains(keys[i]),
{
    let j = keys.index_of(keys[i]);
    assert(keys.contains(keys[i]));
    assert(keys[j] == keys[i]);
}

proof fn lemma_finite<V>(keys: Seq<u32>, values: Seq<V>)
    requires
        ascending(keys),
    ensures
        paired(keys, values).dom() == keys.to_set(),
        keys.to_set().finite(),
        keys.to_set().len() == keys.len(),
{
    assert(paired(keys, values).dom() =~= keys.to_set());
    assert(keys.no_duplicates());
    keys.unique_seq_to_set();
}

impl<V> PidMap<V> {
    /// An empty map.
    pub fn new() -> (r: Self)
        ensures
            r@ == Map::<u32, V>::empty(),
    {
        let r = PidMap { keys: Vec::new(), values: Vec::new() };
        assert(r@ =~= Map::<u32, V>::empty());
        r
    }

    /// The number of ids held.
    pub fn len(&self) -> (r: usize)
        ensures
            r == self.keys().len(),
            r == self.values().len(),
            ascending(self.keys()),
            self@.dom() == self.keys().to_set(),
            self@.dom().finite(),
            self@.dom().len() == r,
    {
        proof {
            use_type_invariant(self);
            lemma_finite(self.keys(), self.values());
        }
        self.keys.len()
    }

    /// The `i`-th id in ascending order.
    pub fn key_at(&self, i: usize) -> (r: u32)
        requires
            i < self.keys().len(),
        ensures
            r == self.keys()[i as int],
            self@.contains_key(r),
    {
        proof {
            use_type_invariant(self);
            lemma_index_of(self.keys(), i as int);
        }
        self.keys[i]
    }

    /// The value of the `i`-th id in ascending order.
    pub fn value_at(&self, i: usize) -> (r: &V)
        requires
            i < self.keys().len(),
        ensures
            *r == self.values()[i as int],
            self@.contains_key(self.keys()[i as int]),
            *r == self@[self.keys()[i as int]],
    {
        proof {
            use_type_invariant(self);
            lemma_index_of(self.keys(), i as int);
        }
        &self.values[i]
    }

    /// Where `key` stands, or where it would have to stand.
    fn position(&self, key: u32) -> (r: (usize, bool))
        ensures
            r.0 <= self.keys().len(),
            r.1 ==> r.0 < self.keys().len() && self.keys()[r.0 as int] == key,
            !r.1 ==> !self.keys().contains(key),
            forall|i: int| 0 <= i < r.0 ==> #[trigger] self.keys()[i] < key,
            !r.1 ==> forall|i: int| r.0 <= i < self.keys().len() ==> key < #[trigger] self.keys()[i],
    {
        proof {
            use_type_invariant(self);
        }
        let mut i: usize = 0;
        while i < self.keys.len() && self.keys[i] < key
            invariant
                i <= self.keys.len(),
                self.keys@ == self.keys(),
                forall|j: int| 0 <= j < i ==> #[trigger] self.keys()[j] < key,
            decreases self.keys.len() - i,
        {
            i = i + 1;
        }
        (i, i < self.keys.len() && self.keys[i] == key)
    }

    /// The value bound to `key`.
    pub fn get(&self, key: u32) -> (r: Option<&V>)
        ensures
            match r {
                Some(v) => self@.contains_key(key) && *v == self@[key],
                None => !self@.contains_key(key),
            },
    {
        let (i, found) = self.position(key);
        proof {
            use_type_invariant(self);
        }
        if found {
            proof {
                lemma_index_of(self.keys(), i as int);
            }
            Some(&self.values[i])
        } else {
            None
        }
    }

    /// Whether `key` is bound.
    pub fn has(&self, key: u32) -> (r: bool)
        ensures
            r == self@.contains_key(key),
    {
        let (_, found) = self.position(key);
        found
    }

    /// Binds `key` to `value`, replacing any earlier value.
    pub fn insert(&mut self, key: u32, value: V)
        ensures
            final(self)@ == old(self)@.insert(key, value),
    {
        let (i, found) = self.position(key);
        proof {
            use_type_invariant(&*self);
        }
        let ghost ks = self.keys();
        let ghost vs = self.values();
        let mut me = PidMap { keys: Vec::new(), values: Vec::new() };
        std::mem::swap(&mut me, self);
        let PidMap { keys: mut keys, values: mut values } = me;
        if found {
            values.set(i, value);
            proof {
                lemma_insert_found(ks, vs, i as int, value);
            }
        } else {
            keys.insert(i, key);
            values.insert(i, value);
            proof {
                lemma_insert_new(ks, vs, i as int, key, value);
            }
        }
        *self = PidMap { keys, values };
    }

    /// Unbinds `key`, giving back what it was bound to.
    pub fn remove(&mut self, key: u32) -> (r: Option<V>)
        ensures
            final(self)@ == old(self)@.remove(key),
            match r {
                Some(v) => old(self)@.contains_key(key) && v == old(self)@[key],
                None => !old(self)@.contains_key(key),
            },
    {
        let (i, found) = self.position(key);
        proof {
            use_type_invariant(&*self);
        }
        if !found {
            assert(self@.remove(key) =~= self@);
            return None;
        }
        let ghost ks = self.keys();
        let ghost vs = self.values();
        let mut me = PidMap { keys: Vec::new(), values: Vec::new() };
        std::mem::swap(&mut me, self);
        let PidMap { keys: mut keys, values: mut values } = me;
        let _ = keys.remove(i);
        let v = values.remove(i);
        proof {
            lemma_index_of(ks, i as int);
            lemma_remove(ks, vs, i as int);
        }
        *self = PidMap { keys, values };
        Some(v)
    }
}

proof fn lemma_insert_found<V>(ks: Seq<u32>, vs: Seq<V>, i: int, value: V)
    requires
        ascending(ks),
        ks.len() == vs.len(),
        0 <= i < ks.len(),
    ensures
        paired(ks, vs.update(i, value)) == paired(ks, vs).insert(ks[i], value),
{
    lemma_index_of(ks, i);
    let a = paired(ks, vs.update(i, value));
    let b = paired(ks, vs).insert(ks[i], value);
    assert forall|k: u32| a.contains_key(k) implies a[k] == b[k] by {
        assert(ks[ks.index_of(k)] == k);
    }
    assert(a =~= b);
}

proof fn lemma_insert_new<V>(ks: Seq<u32>, vs: Seq<V>, i: int, key: u32, value: V)
    requires
        ascending(ks),
        ks.len() == vs.len(),
        0 <= i <= ks.len(),
        forall|j: int| 0 <= j < i ==> #[trigger] ks[j] < key,
        forall|j: int| i <= j < ks.len() ==> key < #[trigger] ks[j],
    ensures
        ascending(ks.insert(i, key)),
        paired(ks.insert(i, key), vs.insert(i, value)) == paired(ks, vs).insert(key, value),
{
    let ms = ks.insert(i, key);
    let us = vs.insert(i, value);
    assert forall|j: int, k: int| 0 <= j < k < ms.len() implies #[trigger] ms[j] < #[trigger] ms[k] by {
        let jj = if j < i { j } else { j - 1 };
        let kk = if k < i { k } else { k - 1 };
        if j == i {
            assert(ms[k] == ks[kk]);
        } else if k == i {
            assert(ms[j] == ks[jj]);
        } else {
            assert(ms[j] == ks[jj]);
            assert(ms[k] == ks[kk]);
        }
    }
    let a = paired(ms, us);
    let b = paired(ks, vs).insert(key, value);
    assert forall|k: u32|
        #![trigger a.dom().contains(k)]
        #![trigger b.dom().contains(k)]
        #![trigger a[k]]
        a.dom().contains(k) == b.dom().contains(k) && (a.dom().contains(k) ==> a[k] == b[k]) by {
        assert(ms[i] == key);
        if ks.contains(k) {
            let p = ks.index_of(k);
            let q = if p < i { p } else { p + 1 };
            assert(ms[q] == k);
            lemma_index_of(ms, q);
        } else if ms.contains(k) {
            let q = ms.index_of(k);
            if q != i {
                let p = if q < i { q } else { q - 1 };
                assert(ks[p] == k);
            }
        }
        if k == key {
            lemma_index_of(ms, i);
        }
    }
    assert(a =~= b);
}

proof fn lemma_remove<V>(ks: Seq<u32>, vs: Seq<V>, i: int)
    requires
        ascending(ks),
        ks.len() == vs.len(),
        0 <= i < ks.len(),
    ensures
        ascending(ks.remove(i)),
        paired(ks.remove(i), vs.remove(i)) == paired(ks, vs).remove(ks[i]),
{
    let ms = ks.remove(i);
    let us = vs.remove(i);
    assert forall|j: int, k: int| 0 <= j < k < ms.len() implies #[trigger] ms[j] < #[trigger] ms[k] by {
        let jj = if j < i { j } else { j + 1 };
        let kk = if k < i { k } else { k + 1 };
        assert(ms[j] == ks[jj]);
        assert(ms[k] == ks[kk]);
    }
    let a = paired(ms, us);
    let b = paired(ks, vs).remove(ks[i]);
    lemma_index_of(ks, i);
    assert forall|k: u32|
        #![trigger a.dom().contains(k)]
        #![trigger b.dom().contains(k)]
        #![trigger a[k]]
        a.dom().contains(k) == b.dom().contains(k) && (a.dom().contains(k) ==> a[k] == b[k]) by {
        if ks.contains(k) && k != ks[i] {
            let p = ks.index_of(k);
            assert(p != i);
            let q = if p < i { p } else { p - 1 };
            assert(ms[q] == k);
            lemma_index_of(ms, q);
        } else if ms.contains(k) {
            let q = ms.index_of(k);
            let p = if q < i { q } else { q + 1 };
            assert(ks[p] == k);
            lemma_index_of(ks, p);
        }
    }
    assert(a =~= b);
}

/// A set of process ids.
pub struct PidSet {
    map: PidMap<()>,
}

impl View for PidSet {
    type V = Set<u32>;

    closed spec fn view(&self) -> Set<u32> {
        self.map@.dom()
    }
}

impl PidSet {
    /// The ids held, in ascending order.
    pub closed spec fn ids(&self) -> Seq<u32> {
        self.map.keys()
    }

    /// An empty set.
    pub fn new() -> (r: Self)
        ensures
            r@ == Set::<u32>::empty(),
    {
        let r = PidSet { map: PidMap::new() };
        assert(r@ =~= Set::<u32>::empty());
        r
    }

    /// Whether `pid` is in the set.
    pub fn has(&self, pid: u32) -> (r: bool)
        ensures
            r == self@.contains(pid),
    {
        self.map.has(pid)
    }

    /// Adds `pid`; says whether it was new.
    pub fn insert(&mut self, pid: u32) -> (r: bool)
        ensures
            final(self)@ == old(self)@.insert(pid),
            r == !old(self)@.contains(pid),
    {
        let fresh = !self.map.has(pid);
        self.map.insert(pid, ());
        assert(self@ =~= old(self)@.insert(pid));
        fresh
    }

    /// The number of ids.
    pub fn len(&self) -> (r: usize)
        ensures
            r == self.ids().len(),
            ascending(self.ids()),
            self@ == self.ids().to_set(),
            self@.finite(),
    {
        self.map.len()
    }

    /// Whether the set holds nothing.
    pub fn is_empty(&self) -> (r: bool)
        ensures
            r == self@.is_empty(),
    {
        let n: usize = self.len();
        if n > 0 {
            let ghost first = self.ids()[0];
            assert(self.ids().contains(first));
            assert(self@.contains(first));
            false
        } else {
            assert(self@ =~= Set::<u32>::empty());
            true
        }
    }

    /// The `i`-th id in ascending order.
    pub fn id_at(&self, i: usize) -> (r: u32)
        requires
            i < self.ids().len(),
        ensures
            r == self.ids()[i as int],
            self@.contains(r),
    {
        self.map.key_at(i)
    }

    /// Adds everything that `other` holds.
    pub fn absorb(&mut self, other: &PidSet)
        ensures
            final(self)@ == old(self)@.union(other@),
    {
        let n: usize = other.len();
        let ghost ids = other.ids();
        let ghost base = self@;
        let mut i: usize = 0;
        assert(base.union(ids.take(0).to_set()) =~= base);
        while i < n
            invariant
                i <= n,
                n == ids.len(),
                ids == other.ids(),
                self@ == base.union(ids.take(i as int).to_set()),
            decreases n - i,
        {
            let _ = self.insert(other.id_at(i));
            i = i + 1;
            proof {
                let a = ids.take(i as int);
                let b = ids.take(i - 1);
                assert(a =~= b.push(ids[i - 1]));
                assert forall|x: u32| #[trigger] a.to_set().contains(x) == (b.to_set().contains(x)
                    || x == ids[i - 1]) by {
                    if b.contains(x) {
                        let k = choose|k: int| 0 <= k < b.len() && b[k] == x;
                        assert(a[k] == x);
                    }
                    assert(a[i - 1] == ids[i - 1]);
                }
                assert(self@ =~= base.union(a.to_set()));
            }
        }
        assert(ids.take(n as int) =~= ids);
    }
}

} // verus!
