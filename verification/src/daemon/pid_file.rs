//! The record of which process each service runs as, and of the processes those spawned.

use vstd::prelude::*;

use crate::error::Fault;
use crate::names::NameMap;
use crate::pids::PidMap;
use crate::spawn::{PersistedSpawnChild, SpawnedExit};
use crate::state_store::StateStore;
use crate::text::{opt_text, same};

verus! {

/// The ways in which using the PID file fails.
#[derive(Debug, PartialEq, Eq)]
pub enum PidFileError {
    /// The file could not be read or written.
    ReadError(Fault),
    /// The file is not a PID file.
    ParseError(Fault),
    /// The service is not in the PID file.
    ServiceNotFound,
}

/// PID tracking file.
pub struct PidFile {
    /// Service name to process id.
    pub services: NameMap<u32>,
    /// Service name to process group id.
    pub service_groups: NameMap<i32>,
    /// Service name to process start time.
    pub service_starts: NameMap<u64>,
    /// Spawned child to its parent.
    pub parent_map: PidMap<u32>,
    /// Parent to its spawned children, in the order they were spawned.
    pub children_map: PidMap<Vec<u32>>,
    /// Process to its depth in the spawn tree.
    pub spawn_depth: PidMap<usize>,
    /// Spawned child to its record.
    pub spawn_metadata: PidMap<PersistedSpawnChild>,
    /// The project state directory this file is bound to. Never written out.
    pub store: StateStore,
}

/// What a [`PidFile`] records.
#[verifier::ext_equal]
pub struct PidView {
    pub services: Map<Seq<char>, u32>,
    pub groups: Map<Seq<char>, i32>,
    pub starts: Map<Seq<char>, u64>,
    pub parent: Map<u32, u32>,
    pub children: Map<u32, Seq<u32>>,
    pub depth: Map<u32, usize>,
    pub metadata: Map<u32, PersistedSpawnChild>,
}

impl View for PidFile {
    type V = PidView;

    open spec fn view(&self) -> PidView {
        PidView {
            services: self.services@,
            groups: self.service_groups@,
            starts: self.service_starts@,
            parent: self.parent_map@,
            children: self.children_map@.map_values(|v: Vec<u32>| v@),
            depth: self.spawn_depth@,
            metadata: self.spawn_metadata@,
        }
    }
}

/// The value of `key`, when bound.
pub open spec fn lookup<K, V>(m: Map<K, V>, key: K) -> Option<V> {
    if m.contains_key(key) {
        Some(m[key])
    } else {
        None
    }
}

/// `s` without any `x`.
pub open spec fn except(s: Seq<u32>, x: u32) -> Seq<u32>
    decreases s.len(),
{
    if s.len() == 0 {
        seq![]
    } else if s.last() == x {
        except(s.drop_last(), x)
    } else {
        except(s.drop_last(), x).push(s.last())
    }
}

fn without(s: &Vec<u32>, x: u32) -> (r: Vec<u32>)
    ensures
        r@ == except(s@, x),
{
    let mut r: Vec<u32> = Vec::new();
    let mut i: usize = 0;
    assert(s@.take(0) =~= Seq::<u32>::empty());
    while i < s.len()
        invariant
            i <= s.len(),
            r@ == except(s@.take(i as int), x),
        decreases s.len() - i,
    {
        if s[i] != x {
            r.push(s[i]);
        }
        i = i + 1;
        assert(s@.take(i as int).drop_last() =~= s@.take(i - 1));
    }
    assert(s@.take(s.len() as int) =~= s@);
    r
}

/// `children` with `child` taken out of the list of `parent`; an emptied list is dropped.
pub open spec fn unlinked(children: Map<u32, Seq<u32>>, parent: u32, child: u32) -> Map<
    u32,
    Seq<u32>,
> {
    if children.contains_key(parent) {
        let kept = except(children[parent], child);
        if kept.len() == 0 {
            children.remove(parent)
        } else {
            children.insert(parent, kept)
        }
    } else {
        children
    }
}

/// The processes met, first to last, when walking depth-first from the top of `stack`, where the
/// children of a process are taken only the first time it is met.
pub open spec fn walk(stack: Seq<u32>, children: Map<u32, Seq<u32>>) -> Seq<u32>
    decreases children.dom().len(), stack.len(),
    when children.dom().finite()
{
    if stack.len() == 0 {
        seq![]
    } else {
        let pid = stack.last();
        let rest = stack.drop_last();
        if children.contains_key(pid) {
            seq![pid] + walk(rest + children[pid].reverse(), children.remove(pid))
        } else {
            seq![pid] + walk(rest, children)
        }
    }
}

/// `m` without any of `keys`.
pub open spec fn dropped<V>(m: Map<u32, V>, keys: Seq<u32>) -> Map<u32, V> {
    m.remove_keys(keys.to_set())
}

/// Whether any spawn record mentions `pid`.
pub open spec fn mentions(v: PidView, pid: u32) -> bool {
    v.parent.contains_key(pid) || v.children.contains_key(pid) || v.metadata.contains_key(pid)
}

/// The processes that removing the subtree of `root` takes out, in order.
pub open spec fn subtree(v: PidView, root: u32) -> Seq<u32> {
    if mentions(v, root) {
        walk(seq![root], v.children)
    } else {
        seq![]
    }
}

/// The record without the subtree of `root`.
pub open spec fn pruned(v: PidView, root: u32) -> PidView {
    if mentions(v, root) {
        let gone = subtree(v, root);
        let left = dropped(v.children, gone);
        PidView {
            parent: dropped(v.parent, gone),
            children: match lookup(v.parent, root) {
                Some(parent) => unlinked(left, parent, root),
                None => left,
            },
            depth: dropped(v.depth, gone),
            metadata: dropped(v.metadata, gone),
            ..v
        }
    } else {
        v
    }
}

/// The record without the subtrees of `roots`, taken out one after another.
pub open spec fn pruned_all(v: PidView, roots: Seq<u32>) -> PidView
    decreases roots.len(),
{
    if roots.len() == 0 {
        v
    } else {
        pruned(pruned_all(v, roots.drop_last()), roots.last())
    }
}

impl PidFile {
    /// An empty record bound to `store`.
    pub fn empty(store: StateStore) -> (r: Self)
        ensures
            r@.services == Map::<Seq<char>, u32>::empty(),
            r@.groups == Map::<Seq<char>, i32>::empty(),
            r@.starts == Map::<Seq<char>, u64>::empty(),
            r@.parent == Map::<u32, u32>::empty(),
            r@.children == Map::<u32, Seq<u32>>::empty(),
            r@.depth == Map::<u32, usize>::empty(),
            r@.metadata == Map::<u32, PersistedSpawnChild>::empty(),
            r.store == store,
    {
        let r = PidFile {
            services: NameMap::new(),
            service_groups: NameMap::new(),
            service_starts: NameMap::new(),
            parent_map: PidMap::new(),
            children_map: PidMap::new(),
            spawn_depth: PidMap::new(),
            spawn_metadata: PidMap::new(),
            store,
        };
        assert(r@.children =~= Map::<u32, Seq<u32>>::empty());
        r
    }

    /// Removes a subtree rooted at `root_pid` from the tracking maps, giving back the processes
    /// taken out.
    pub fn remove_spawn_subtree_in_memory(&mut self, root_pid: u32) -> (removed: Vec<u32>)
        ensures
            final(self)@ == pruned(old(self)@, root_pid),
            final(self).store == old(self).store,
            removed@ == subtree(old(self)@, root_pid),
    {
        if !self.parent_map.has(root_pid) && !self.children_map.has(root_pid)
            && !self.spawn_metadata.has(root_pid) {
            return Vec::new();
        }
        let root_parent: Option<u32> = match self.parent_map.get(root_pid) {
            Some(p) => Some(*p),
            None => None,
        };
        let ghost v0 = self@;
        let mut removed: Vec<u32> = Vec::new();
        let mut stack: Vec<u32> = Vec::new();
        stack.push(root_pid);
        let _ = self.children_map.len();
        assert(stack@ =~= seq![root_pid]);
        assert(v0.children.dom() =~= self.children_map@.dom());
        assert(dropped(v0.parent, removed@) =~= v0.parent);
        assert(dropped(v0.children, removed@) =~= v0.children);
        assert(dropped(v0.depth, removed@) =~= v0.depth);
        assert(dropped(v0.metadata, removed@) =~= v0.metadata);
        while stack.len() > 0
            invariant
                v0.children.dom().finite(),
                self@.children.dom().finite(),
                self.store == old(self).store,
                self@.services == v0.services,
                self@.groups == v0.groups,
                self@.starts == v0.starts,
                self@.parent == dropped(v0.parent, removed@),
                self@.children == dropped(v0.children, removed@),
                self@.depth == dropped(v0.depth, removed@),
                self@.metadata == dropped(v0.metadata, removed@),
                removed@ + walk(stack@, self@.children) == walk(seq![root_pid], v0.children),
            decreases self@.children.dom().len(), stack.len(),
        {
            let ghost before = self@;
            let ghost stack0 = stack@;
            let ghost removed0 = removed@;
            let pid: u32 = stack.pop().unwrap();
            let ghost rest = stack@;
            assert(rest =~= stack0.drop_last());
            match self.children_map.remove(pid) {
                Some(children) => {
                    let mut k: usize = children.len();
                    assert(stack@ =~= rest + children@.reverse().take(0));
                    while k > 0
                        invariant
                            k <= children.len(),
                            stack@ == rest + children@.reverse().take(children.len() - k),
                        decreases k,
                    {
                        k = k - 1;
                        stack.push(children[k]);
                        assert(children@.reverse()[children.len() - k - 1] == children@[k as int]);
                        assert(stack@ =~= rest + children@.reverse().take(children.len() - k));
                    }
                    assert(children@.reverse().take(children.len() as int) =~= children@.reverse());
                    assert(before.children[pid] == children@);
                },
                None => {},
            }
            let _ = self.parent_map.remove(pid);
            let _ = self.spawn_depth.remove(pid);
            let _ = self.spawn_metadata.remove(pid);
            removed.push(pid);
            proof {
                assert(self@.children =~= before.children.remove(pid));
                lemma_dropped_push(v0.parent, removed0, pid);
                lemma_dropped_push(v0.children, removed0, pid);
                lemma_dropped_push(v0.depth, removed0, pid);
                lemma_dropped_push(v0.metadata, removed0, pid);
                if before.children.contains_key(pid) {
                    assert(stack@ == rest + before.children[pid].reverse());
                } else {
                    assert(before.children.remove(pid) =~= before.children);
                }
                assert(removed@ + walk(stack@, self@.children) =~= removed0 + walk(
                    stack0,
                    before.children,
                ));
            }
        }
        assert(removed@ =~= subtree(v0, root_pid));
        match root_parent {
            Some(parent_pid) => {
                let ghost left = self@;
                match self.children_map.remove(parent_pid) {
                    Some(children) => {
                        let kept = without(&children, root_pid);
                        assert(left.children[parent_pid] == children@);
                        if kept.len() > 0 {
                            self.children_map.insert(parent_pid, kept);
                            assert(self@.children =~= left.children.insert(parent_pid, kept@));
                        } else {
                            assert(self@.children =~= left.children.remove(parent_pid));
                        }
                    },
                    None => {
                        assert(self@.children =~= left.children);
                    },
                }
            },
            None => {},
        }
        assert(self@ =~= pruned(v0, root_pid));
        removed
    }
}

proof fn lemma_dropped_push<V>(m: Map<u32, V>, gone: Seq<u32>, pid: u32)
    ensures
        dropped(m, gone.push(pid)) == dropped(m, gone).remove(pid),
{
    assert forall|k: u32| gone.push(pid).to_set().contains(k) == (gone.to_set().contains(k) || k
        == pid) by {
        if gone.to_set().contains(k) {
            let i = choose|i: int| 0 <= i < gone.len() && gone[i] == k;
            assert(gone.push(pid)[i] == k);
        }
        if k == pid {
            assert(gone.push(pid)[gone.len() as int] == pid);
        }
    }
    assert(dropped(m, gone.push(pid)) =~= dropped(m, gone).remove(pid));
}

// ---------------------------------------------------------------------------
// Reading from disk and writing one entry
// ---------------------------------------------------------------------------

/// What a write starts from: the record on disk, or the one in memory when no file exists.
pub open spec fn current(memory: PidView, disk: Option<PidFile>) -> PidView {
    match disk {
        Some(d) => d@,
        None => memory,
    }
}

/// The record with a service bound to a process.
pub open spec fn with_service(
    v: PidView,
    service: Seq<char>,
    pid: u32,
    pgid: Option<i32>,
    started: Option<u64>,
) -> PidView {
    PidView {
        services: v.services.insert(service, pid),
        groups: match pgid {
            Some(g) => v.groups.insert(service, g),
            None => v.groups,
        },
        starts: match started {
            Some(s) => v.starts.insert(service, s),
            None => v.starts.remove(service),
        },
        ..v
    }
}

/// The record without the process of a service; its group stays.
pub open spec fn without_pid(v: PidView, service: Seq<char>) -> PidView {
    PidView { services: v.services.remove(service), ..v }
}

/// Whether anything is recorded of a service.
pub open spec fn knows(v: PidView, service: Seq<char>) -> bool {
    v.services.contains_key(service) || v.groups.contains_key(service) || v.starts.contains_key(
        service,
    )
}

/// The process at the root of a service's spawn tree: its process, or else its group leader.
pub open spec fn root_of(v: PidView, service: Seq<char>) -> Option<u32> {
    if v.services.contains_key(service) {
        Some(v.services[service])
    } else if v.groups.contains_key(service) && v.groups[service] > 0 {
        Some(v.groups[service] as u32)
    } else {
        None
    }
}

/// The spawned children whose record names `parent`, in ascending order of their keys.
pub open spec fn spawned_by(keys: Seq<u32>, metadata: Map<u32, PersistedSpawnChild>, parent: u32) -> Seq<
    u32,
>
    decreases keys.len(),
{
    if keys.len() == 0 {
        seq![]
    } else {
        let before = spawned_by(keys.drop_last(), metadata, parent);
        if metadata[keys.last()].parent_pid == parent {
            before.push(metadata[keys.last()].pid)
        } else {
            before
        }
    }
}

/// `keys` lists the bound ids of `m` in ascending order.
pub open spec fn lists<V>(keys: Seq<u32>, m: Map<u32, V>) -> bool {
    crate::pids::ascending(keys) && keys.to_set() == m.dom()
}

/// The record without the spawn trees of `root`.
pub open spec fn uprooted(v: PidView, root: u32, keys: Seq<u32>) -> PidView {
    let w = pruned(v, root);
    pruned_all(w, spawned_by(keys, w.metadata, root))
}

/// The record without a service; once no service is left, without any spawn record.
pub open spec fn unbound(v: PidView, service: Seq<char>) -> PidView {
    let services = v.services.remove(service);
    let groups = v.groups.remove(service);
    let starts = v.starts.remove(service);
    if services.dom().is_empty() && groups.dom().is_empty() {
        PidView {
            services,
            groups,
            starts,
            parent: Map::empty(),
            children: Map::empty(),
            depth: Map::empty(),
            metadata: Map::empty(),
        }
    } else {
        PidView { services, groups, starts, ..v }
    }
}

/// Whether `after` is `v` with `service` and its spawn trees taken out.
pub open spec fn is_without(v: PidView, service: Seq<char>, after: PidView) -> bool {
    match root_of(v, service) {
        Some(root) => exists|keys: Seq<u32>|
            #![trigger uprooted(v, root, keys)]
            lists(keys, pruned(v, root).metadata) && after == unbound(uprooted(v, root, keys), service),
        None => after == unbound(v, service),
    }
}

impl PidFile {
    /// Takes over the record read from disk, keeping the bound store. A missing file leaves the
    /// record as it is.
    pub fn reload_into(&mut self, on_disk: Option<PidFile>)
        ensures
            final(self)@ == current(old(self)@, on_disk),
            final(self).store == old(self).store,
    {
        match on_disk {
            Some(disk) => {
                let store = self.store.clone();
                *self = disk;
                self.store = store;
            },
            None => {},
        }
    }

    /// The service-name to process-id map.
    pub fn services(&self) -> (r: &NameMap<u32>)
        ensures
            r@ == self@.services,
    {
        &self.services
    }

    /// The service-name to process-group map for all recorded services.
    pub fn service_pgids(&self) -> (r: &NameMap<i32>)
        ensures
            r@ == self@.groups,
    {
        &self.service_groups
    }

    /// The project store this file is bound to.
    pub fn store(&self) -> (r: StateStore)
        ensures
            r == self.store,
    {
        self.store.clone()
    }

    /// Binds this file to a project store.
    pub fn set_store(&mut self, store: StateStore)
        ensures
            final(self).store == store,
            final(self)@ == old(self)@,
    {
        self.store = store;
    }

    /// The process id of a service.
    pub fn pid_for(&self, service: &str) -> (r: Option<u32>)
        ensures
            r == lookup(self@.services, service@),
    {
        match self.services.get(service) {
            Some(p) => Some(*p),
            None => None,
        }
    }

    /// The process id of a service.
    pub fn get(&self, service: &str) -> (r: Option<u32>)
        ensures
            r == lookup(self@.services, service@),
    {
        self.pid_for(service)
    }

    /// The process group id of a service.
    pub fn pgid_for(&self, service: &str) -> (r: Option<i32>)
        ensures
            r == lookup(self@.groups, service@),
    {
        match self.service_groups.get(service) {
            Some(p) => Some(*p),
            None => None,
        }
    }

    /// The recorded start time of a service's process.
    pub fn start_for(&self, service: &str) -> (r: Option<u64>)
        ensures
            r == lookup(self@.starts, service@),
    {
        match self.service_starts.get(service) {
            Some(p) => Some(*p),
            None => None,
        }
    }

    /// Records a service's process without anything else.
    pub fn insert_in_memory(&mut self, service: &str, pid: u32)
        ensures
            final(self)@ == (PidView {
                services: old(self)@.services.insert(service@, pid),
                ..old(self)@
            }),
            final(self).store == old(self).store,
    {
        self.services.insert(service, pid);
    }

    /// Records a service's process. `started` is the start time observed for `pid`.
    pub fn insert(
        &mut self,
        on_disk: Option<PidFile>,
        service: &str,
        pid: u32,
        started: Option<u64>,
    )
        ensures
            final(self)@ == with_service(
                current(old(self)@, on_disk),
                service@,
                pid,
                None,
                started,
            ),
            final(self).store == old(self).store,
    {
        self.insert_with_group(on_disk, service, pid, None, started);
    }

    /// Records a service's process and, when known, its process group. `started` is the start
    /// time observed for `pid`; without one, an earlier start time is forgotten.
    pub fn insert_with_group(
        &mut self,
        on_disk: Option<PidFile>,
        service: &str,
        pid: u32,
        pgid: Option<i32>,
        started: Option<u64>,
    )
        ensures
            final(self)@ == with_service(
                current(old(self)@, on_disk),
                service@,
                pid,
                pgid,
                started,
            ),
            final(self).store == old(self).store,
    {
        self.reload_into(on_disk);
        self.services.insert(service, pid);
        match pgid {
            Some(group) => {
                self.service_groups.insert(service, group);
            },
            None => {},
        }
        match started {
            Some(at) => {
                self.service_starts.insert(service, at);
            },
            None => {
                let _ = self.service_starts.remove(service);
            },
        }
    }

    /// Forgets a service's process while keeping its group.
    pub fn clear_pid(&mut self, on_disk: Option<PidFile>, service: &str) -> (r: Result<
        (),
        PidFileError,
    >)
        ensures
            final(self)@ == without_pid(current(old(self)@, on_disk), service@),
            final(self).store == old(self).store,
            r is Ok <==> current(old(self)@, on_disk).services.contains_key(service@),
            r is Err ==> r->Err_0 == PidFileError::ServiceNotFound,
    {
        self.reload_into(on_disk);
        if self.services.remove(service).is_none() {
            return Err(PidFileError::ServiceNotFound);
        }
        Ok(())
    }

    /// Forgets a service's process only when it still is `pid`.
    pub fn clear_pid_if_matches(&mut self, on_disk: Option<PidFile>, service: &str, pid: u32) -> (r:
        bool)
        ensures
            r == (lookup(current(old(self)@, on_disk).services, service@) == Some(pid)),
            final(self)@ == if r {
                without_pid(current(old(self)@, on_disk), service@)
            } else {
                current(old(self)@, on_disk)
            },
            final(self).store == old(self).store,
    {
        self.reload_into(on_disk);
        match self.pid_for(service) {
            Some(p) => {
                if p != pid {
                    return false;
                }
            },
            None => {
                return false;
            },
        }
        let _ = self.services.remove(service);
        true
    }

    /// Forgets a service and every process spawned below it.
    pub fn remove(&mut self, on_disk: Option<PidFile>, service: &str) -> (r: Result<
        (),
        PidFileError,
    >)
        ensures
            final(self).store == old(self).store,
            r is Ok <==> knows(current(old(self)@, on_disk), service@),
            r is Ok ==> is_without(current(old(self)@, on_disk), service@, final(self)@),
            r is Err ==> r->Err_0 == PidFileError::ServiceNotFound && final(self)@ == current(
                old(self)@,
                on_disk,
            ),
    {
        self.reload_into(on_disk);
        let ghost v0 = self@;
        let pid = self.pid_for(service);
        let group = self.pgid_for(service);
        if pid.is_none() && group.is_none() && !self.service_starts.has(service) {
            return Err(PidFileError::ServiceNotFound);
        }
        let root: Option<u32> = match pid {
            Some(p) => Some(p),
            None => match group {
                Some(g) => if g > 0 {
                    Some(g as u32)
                } else {
                    None
                },
                None => None,
            },
        };
        assert(root == root_of(v0, service@));
        match root {
            Some(root_pid) => {
                self.uproot(root_pid);
            },
            None => {},
        }
        let ghost v1 = self@;
        let _ = self.services.remove(service);
        let _ = self.service_groups.remove(service);
        let _ = self.service_starts.remove(service);
        assert(self@ =~= (PidView {
            services: v1.services.remove(service@),
            groups: v1.groups.remove(service@),
            starts: v1.starts.remove(service@),
            ..v1
        }));
        if name_map_empty(&self.services) && name_map_empty(&self.service_groups) {
            self.parent_map = PidMap::new();
            self.children_map = PidMap::new();
            self.spawn_depth = PidMap::new();
            self.spawn_metadata = PidMap::new();
            assert(self@.children =~= Map::<u32, Seq<u32>>::empty());
        }
        assert(self@ =~= unbound(v1, service@));
        Ok(())
    }

    fn uproot(&mut self, root: u32)
        ensures
            final(self).store == old(self).store,
            exists|keys: Seq<u32>|
                #![trigger uprooted(old(self)@, root, keys)]
                lists(keys, pruned(old(self)@, root).metadata) && final(self)@ == uprooted(
                    old(self)@,
                    root,
                    keys,
                ),
    {
        let ghost v0 = self@;
        let _ = self.remove_spawn_subtree_in_memory(root);
        let ghost w = self@;
        let count: usize = self.spawn_metadata.len();
        let ghost keys = self.spawn_metadata.keys();
        let mut stale: Vec<u32> = Vec::new();
        let mut i: usize = 0;
        while i < count
            invariant
                i <= count,
                count == self.spawn_metadata.keys().len(),
                keys == self.spawn_metadata.keys(),
                self.spawn_metadata@ == w.metadata,
                stale@ == spawned_by(keys.take(i as int), w.metadata, root),
            decreases count - i,
        {
            let meta = self.spawn_metadata.value_at(i);
            if meta.parent_pid == root {
                stale.push(meta.pid);
            }
            i = i + 1;
            assert(keys.take(i as int).drop_last() =~= keys.take(i - 1));
            assert(keys.take(i as int).last() == keys[i - 1]);
        }
        assert(keys.take(count as int) =~= keys);
        let mut j: usize = 0;
        assert(stale@.take(0) =~= Seq::<u32>::empty());
        while j < stale.len()
            invariant
                j <= stale.len(),
                self.store == old(self).store,
                self@ == pruned_all(w, stale@.take(j as int)),
            decreases stale.len() - j,
        {
            let _ = self.remove_spawn_subtree_in_memory(stale[j]);
            j = j + 1;
            assert(stale@.take(j as int).drop_last() =~= stale@.take(j - 1));
        }
        assert(stale@.take(j as int) =~= stale@);
        assert(self@ == uprooted(v0, root, keys));
    }
}

fn name_map_empty<V>(m: &NameMap<V>) -> (r: bool)
    ensures
        r == m@.dom().is_empty(),
{
    let n: usize = m.len();
    if n > 0 {
        let name = m.name_at(0);
        assert(m@.dom().contains(name@));
        false
    } else {
        assert(m@.dom() =~= Set::<Seq<char>>::empty());
        true
    }
}

// ---------------------------------------------------------------------------
// Spawned processes
// ---------------------------------------------------------------------------

/// The children listed for `parent`.
pub open spec fn children_of(children: Map<u32, Seq<u32>>, parent: u32) -> Seq<u32> {
    if children.contains_key(parent) {
        children[parent]
    } else {
        seq![]
    }
}

/// The record with one more spawned child.
pub open spec fn with_spawn(v: PidView, m: PersistedSpawnChild) -> PidView {
    PidView {
        parent: v.parent.insert(m.pid, m.parent_pid),
        children: v.children.insert(
            m.parent_pid,
            children_of(v.children, m.parent_pid).push(m.pid),
        ),
        depth: v.depth.insert(m.pid, m.depth),
        metadata: v.metadata.insert(m.pid, m),
        ..v
    }
}

/// The record with the end of a spawned child noted, when the child is known.
pub open spec fn with_exit(v: PidView, pid: u32, exit: SpawnedExit) -> PidView {
    if v.metadata.contains_key(pid) {
        PidView {
            metadata: v.metadata.insert(
                pid,
                PersistedSpawnChild { last_exit: Some(exit), ..v.metadata[pid] },
            ),
            ..v
        }
    } else {
        v
    }
}

/// The record without one spawned child; its own children stay.
pub open spec fn without_spawn(v: PidView, pid: u32) -> PidView {
    PidView {
        parent: v.parent.remove(pid),
        children: match lookup(v.parent, pid) {
            Some(parent) => unlinked(v.children, parent, pid),
            None => v.children,
        },
        depth: v.depth.remove(pid),
        metadata: v.metadata.remove(pid),
        ..v
    }
}

/// What walking down from the top of `stack` lists in at most `fuel` steps, or nothing when the
/// walk is not over by then.
pub open spec fn descend(stack: Seq<u32>, children: Map<u32, Seq<u32>>, fuel: nat) -> Option<Seq<u32>>
    decreases fuel,
{
    if stack.len() == 0 {
        Some(seq![])
    } else if fuel == 0 {
        None
    } else {
        let kids = children_of(children, stack.last());
        match descend(stack.drop_last() + kids, children, (fuel - 1) as nat) {
            Some(rest) => Some(kids + rest),
            None => None,
        }
    }
}

/// Whether walking down from `pid` comes to an end.
pub open spec fn walk_ends(children: Map<u32, Seq<u32>>, pid: u32) -> bool {
    exists|fuel: nat| descend(seq![pid], children, fuel) is Some
}

/// Whether a spawn record belongs to a service and its parent's does not.
pub open spec fn is_root_for(
    metadata: Map<u32, PersistedSpawnChild>,
    pid: u32,
    service_hash: Seq<char>,
) -> bool {
    &&& metadata.contains_key(pid)
    &&& opt_text(metadata[pid].service_hash) == Some(service_hash)
    &&& match lookup(metadata, metadata[pid].parent_pid) {
        Some(parent) => opt_text(parent.service_hash) != Some(service_hash),
        None => true,
    }
}

/// The keys of `keys`, in order, that satisfy `pick`.
pub open spec fn picked(keys: Seq<u32>, pick: spec_fn(u32) -> bool) -> Seq<u32>
    decreases keys.len(),
{
    if keys.len() == 0 {
        seq![]
    } else if pick(keys.last()) {
        picked(keys.drop_last(), pick).push(keys.last())
    } else {
        picked(keys.drop_last(), pick)
    }
}

impl PidFile {
    /// Records a spawned child.
    pub fn record_spawn_in_memory(&mut self, metadata: PersistedSpawnChild)
        ensures
            final(self)@ == with_spawn(old(self)@, metadata),
            final(self).store == old(self).store,
    {
        let child: u32 = metadata.pid;
        let parent: u32 = metadata.parent_pid;
        let depth: usize = metadata.depth;
        let ghost v0 = self@;
        self.parent_map.insert(child, parent);
        let mut kids: Vec<u32> = match self.children_map.remove(parent) {
            Some(kids) => kids,
            None => Vec::new(),
        };
        assert(kids@ =~= children_of(v0.children, parent));
        kids.push(child);
        self.children_map.insert(parent, kids);
        self.spawn_depth.insert(child, depth);
        self.spawn_metadata.insert(child, metadata);
        assert(self@.children =~= with_spawn(v0, metadata).children);
    }

    /// Records a spawned child on top of the record on disk.
    pub fn record_spawn(&mut self, on_disk: Option<PidFile>, metadata: PersistedSpawnChild)
        ensures
            final(self)@ == with_spawn(current(old(self)@, on_disk), metadata),
            final(self).store == old(self).store,
    {
        self.reload_into(on_disk);
        self.record_spawn_in_memory(metadata);
    }

    /// Notes how a spawned child ended.
    pub fn record_spawn_exit(&mut self, on_disk: Option<PidFile>, child_pid: u32, exit: SpawnedExit)
        ensures
            final(self)@ == with_exit(current(old(self)@, on_disk), child_pid, exit),
            final(self).store == old(self).store,
    {
        self.reload_into(on_disk);
        let ghost v0 = self@;
        match self.spawn_metadata.remove(child_pid) {
            Some(meta) => {
                let mut meta = meta;
                meta.last_exit = Some(exit);
                self.spawn_metadata.insert(child_pid, meta);
                assert(self@.metadata =~= with_exit(v0, child_pid, exit).metadata);
            },
            None => {
                assert(self@.metadata =~= v0.metadata);
            },
        }
    }

    /// Forgets one spawned child.
    pub fn remove_spawn(&mut self, on_disk: Option<PidFile>, child_pid: u32)
        ensures
            final(self)@ == without_spawn(current(old(self)@, on_disk), child_pid),
            final(self).store == old(self).store,
    {
        self.reload_into(on_disk);
        let ghost v0 = self@;
        match self.parent_map.remove(child_pid) {
            Some(parent) => {
                match self.children_map.remove(parent) {
                    Some(children) => {
                        let kept = without(&children, child_pid);
                        assert(v0.children[parent] == children@);
                        if kept.len() > 0 {
                            self.children_map.insert(parent, kept);
                            assert(self@.children =~= v0.children.insert(parent, kept@));
                        } else {
                            assert(self@.children =~= v0.children.remove(parent));
                        }
                    },
                    None => {
                        assert(self@.children =~= v0.children);
                    },
                }
            },
            None => {},
        }
        let _ = self.spawn_depth.remove(child_pid);
        let _ = self.spawn_metadata.remove(child_pid);
    }

    /// Forgets a spawned child and everything below it.
    pub fn remove_spawn_subtree(&mut self, on_disk: Option<PidFile>, root_pid: u32) -> (removed:
        Vec<u32>)
        ensures
            final(self)@ == pruned(current(old(self)@, on_disk), root_pid),
            final(self).store == old(self).store,
            removed@ == subtree(current(old(self)@, on_disk), root_pid),
    {
        self.reload_into(on_disk);
        self.remove_spawn_subtree_in_memory(root_pid)
    }

    /// The parent of a spawned child.
    pub fn get_parent(&self, child_pid: u32) -> (r: Option<u32>)
        ensures
            r == lookup(self@.parent, child_pid),
    {
        match self.parent_map.get(child_pid) {
            Some(p) => Some(*p),
            None => None,
        }
    }

    /// The children of a process.
    pub fn get_children(&self, parent_pid: u32) -> (r: Vec<u32>)
        ensures
            r@ == children_of(self@.children, parent_pid),
    {
        match self.children_map.get(parent_pid) {
            Some(v) => copy_pids(v),
            None => Vec::new(),
        }
    }

    /// The record of a spawned child.
    pub fn get_spawn_metadata(&self, pid: u32) -> (r: Option<&PersistedSpawnChild>)
        ensures
            match r {
                Some(m) => lookup(self@.metadata, pid) == Some(*m),
                None => lookup(self@.metadata, pid) is None,
            },
    {
        self.spawn_metadata.get(pid)
    }

    /// The depth of a process in the spawn tree.
    pub fn get_depth(&self, pid: u32) -> (r: Option<usize>)
        ensures
            r == lookup(self@.depth, pid),
    {
        match self.spawn_depth.get(pid) {
            Some(d) => Some(*d),
            None => None,
        }
    }

    /// The keys of the spawn records whose parent is `parent_pid`, ascending.
    pub fn spawn_children_for_parent(&self, parent_pid: u32) -> (r: Vec<u32>)
        ensures
            exists|keys: Seq<u32>|
                #![trigger lists(keys, self@.metadata)]
                lists(keys, self@.metadata) && r@ == picked(
                    keys,
                    |k: u32| self@.metadata[k].parent_pid == parent_pid,
                ),
    {
        let count: usize = self.spawn_metadata.len();
        let ghost keys = self.spawn_metadata.keys();
        let ghost pick = |k: u32| self@.metadata[k].parent_pid == parent_pid;
        let mut r: Vec<u32> = Vec::new();
        let mut i: usize = 0;
        while i < count
            invariant
                i <= count,
                count == self.spawn_metadata.keys().len(),
                keys == self.spawn_metadata.keys(),
                pick == (|k: u32| self@.metadata[k].parent_pid == parent_pid),
                r@ == picked(keys.take(i as int), pick),
            decreases count - i,
        {
            let meta = self.spawn_metadata.value_at(i);
            if meta.parent_pid == parent_pid {
                r.push(self.spawn_metadata.key_at(i));
            }
            i = i + 1;
            assert(keys.take(i as int).drop_last() =~= keys.take(i - 1));
            assert(keys.take(i as int).last() == keys[i - 1]);
        }
        assert(keys.take(count as int) =~= keys);
        assert(lists(keys, self@.metadata));
        r
    }

    /// The keys of the topmost spawn records of a service, ascending.
    pub fn spawn_roots_for_service(&self, service_hash: &str) -> (r: Vec<u32>)
        ensures
            exists|keys: Seq<u32>|
                #![trigger lists(keys, self@.metadata)]
                lists(keys, self@.metadata) && r@ == picked(
                    keys,
                    |k: u32| is_root_for(self@.metadata, k, service_hash@),
                ),
    {
        let count: usize = self.spawn_metadata.len();
        let ghost keys = self.spawn_metadata.keys();
        let ghost pick = |k: u32| is_root_for(self@.metadata, k, service_hash@);
        let mut r: Vec<u32> = Vec::new();
        let mut i: usize = 0;
        while i < count
            invariant
                i <= count,
                count == self.spawn_metadata.keys().len(),
                keys == self.spawn_metadata.keys(),
                pick == (|k: u32| is_root_for(self@.metadata, k, service_hash@)),
                r@ == picked(keys.take(i as int), pick),
            decreases count - i,
        {
            let meta = self.spawn_metadata.value_at(i);
            let own = hash_is(&meta.service_hash, service_hash);
            let inherited = match self.spawn_metadata.get(meta.parent_pid) {
                Some(parent) => hash_is(&parent.service_hash, service_hash),
                None => false,
            };
            if own && !inherited {
                r.push(self.spawn_metadata.key_at(i));
            }
            i = i + 1;
            assert(keys.take(i as int).drop_last() =~= keys.take(i - 1));
            assert(keys.take(i as int).last() == keys[i - 1]);
        }
        assert(keys.take(count as int) =~= keys);
        assert(lists(keys, self@.metadata));
        r
    }

    /// Everything below a process, as long as the spawn records hold no loop below it.
    pub fn get_descendants(&self, pid: u32) -> (r: Vec<u32>)
        requires
            walk_ends(self@.children, pid),
        ensures
            exists|fuel: nat| descend(seq![pid], self@.children, fuel) == Some(r@),
    {
        let ghost children = self@.children;
        let ghost total = choose|fuel: nat| descend(seq![pid], children, fuel) is Some;
        let ghost whole = descend(seq![pid], children, total)->0;
        let ghost mut fuel: nat = total;
        let mut r: Vec<u32> = Vec::new();
        let mut stack: Vec<u32> = Vec::new();
        stack.push(pid);
        assert(stack@ =~= seq![pid]);
        assert(r@ + descend(stack@, children, fuel)->0 =~= whole);
        while stack.len() > 0
            invariant
                children == self@.children,
                descend(stack@, children, fuel) is Some,
                r@ + descend(stack@, children, fuel)->0 == whole,
            decreases fuel,
        {
            let ghost stack0 = stack@;
            let ghost r0 = r@;
            let cur: u32 = stack.pop().unwrap();
            let kids = self.get_children(cur);
            assert(stack@ =~= stack0.drop_last());
            let ghost rest = stack@;
            let mut i: usize = 0;
            while i < kids.len()
                invariant
                    i <= kids.len(),
                    stack@ == rest + kids@.take(i as int),
                    r@ == r0 + kids@.take(i as int),
                decreases kids.len() - i,
            {
                stack.push(kids[i]);
                r.push(kids[i]);
                i = i + 1;
                assert(stack@ =~= rest + kids@.take(i as int));
                assert(r@ =~= r0 + kids@.take(i as int));
            }
            assert(kids@.take(i as int) =~= kids@);
            proof {
                fuel = (fuel - 1) as nat;
                assert(r@ + descend(stack@, children, fuel)->0 =~= whole);
            }
        }
        assert(r@ =~= whole);
        r
    }
}

fn hash_is(hash: &Option<String>, expected: &str) -> (r: bool)
    ensures
        r == (opt_text(*hash) == Some(expected@)),
{
    match hash {
        Some(h) => same(h.as_str(), expected),
        None => false,
    }
}

fn copy_pids(v: &Vec<u32>) -> (r: Vec<u32>)
    ensures
        r@ == v@,
{
    let mut r: Vec<u32> = Vec::new();
    let mut i: usize = 0;
    while i < v.len()
        invariant
            i <= v.len(),
            r@ == v@.take(i as int),
        decreases v.len() - i,
    {
        r.push(v[i]);
        i = i + 1;
        assert(r@ =~= v@.take(i as int));
    }
    assert(v@.take(v.len() as int) =~= v@);
    r
}

// ---------------------------------------------------------------------------
// Laws
// ---------------------------------------------------------------------------

/// A service bound to a process is read back as bound to it, and every other service as before.
pub proof fn law_insert_reads_back(
    v: PidView,
    service: Seq<char>,
    pid: u32,
    pgid: Option<i32>,
    started: Option<u64>,
    other: Seq<char>,
)
    ensures
        lookup(with_service(v, service, pid, pgid, started).services, service) == Some(pid),
        lookup(with_service(v, service, pid, pgid, started).starts, service) == started,
        pgid is Some ==> lookup(with_service(v, service, pid, pgid, started).groups, service)
            == pgid,
        other != service ==> lookup(
            with_service(v, service, pid, pgid, started).services,
            other,
        ) == lookup(v.services, other),
{
}

/// Two writers that each start from what is on disk lose no entry, whatever each had in memory: a
/// writer that finds `disk`, the outcome of another's write, keeps the other's entry and every
/// entry that was there before.
pub proof fn law_no_lost_update(
    before: PidView,
    disk: PidFile,
    memory: PidView,
    first: Seq<char>,
    second: Seq<char>,
    p: u32,
    q: u32,
    g: Option<i32>,
    s: Option<u64>,
    h: Option<i32>,
    u: Option<u64>,
)
    requires
        first != second,
        disk@ == with_service(before, first, p, g, s),
    ensures
        ({
            let after = with_service(current(memory, Some(disk)), second, q, h, u);
            &&& lookup(after.services, first) == Some(p)
            &&& lookup(after.starts, first) == s
            &&& g is Some ==> lookup(after.groups, first) == g
            &&& lookup(after.services, second) == Some(q)
            &&& forall|other: Seq<char>|
                other != first && other != second ==> #[trigger] lookup(after.services, other) == lookup(
                    before.services,
                    other,
                )
        }),
{
}

proof fn lemma_walk_members(stack: Seq<u32>, children: Map<u32, Seq<u32>>)
    requires
        children.dom().finite(),
    ensures
        forall|i: int| 0 <= i < stack.len() ==> walk(stack, children).contains(#[trigger] stack[i]),
        forall|p: u32, k: int|
            #![trigger children[p][k]]
            walk(stack, children).contains(p) && children.contains_key(p) && 0 <= k
                < children[p].len() ==> walk(stack, children).contains(children[p][k]),
    decreases children.dom().len(), stack.len(),
{
    if stack.len() > 0 {
        let pid = stack.last();
        let rest = stack.drop_last();
        let whole = walk(stack, children);
        if children.contains_key(pid) {
            let kids = children[pid].reverse();
            let left = children.remove(pid);
            let tail = walk(rest + kids, left);
            lemma_walk_members(rest + kids, left);
            assert(whole == seq![pid] + tail);
            assert(whole[0] == pid);
            assert forall|x: u32| tail.contains(x) implies whole.contains(x) by {
                let i = choose|i: int| 0 <= i < tail.len() && tail[i] == x;
                assert(whole[i + 1] == x);
            }
            assert forall|i: int| 0 <= i < stack.len() implies whole.contains(
                #[trigger] stack[i],
            ) by {
                if i < rest.len() {
                    assert((rest + kids)[i] == stack[i]);
                }
            }
            assert forall|p: u32, k: int|
                #![trigger children[p][k]]
                whole.contains(p) && children.contains_key(p) && 0 <= k < children[p].len() implies whole.contains(
                children[p][k],
            ) by {
                if p == pid {
                    let n = children[p].len();
                    assert(kids[n - 1 - k] == children[p][k]);
                    assert((rest + kids)[rest.len() + (n - 1 - k)] == children[p][k]);
                } else {
                    let i = choose|i: int| 0 <= i < whole.len() && whole[i] == p;
                    assert(tail[i - 1] == p);
                    assert(left[p][k] == children[p][k]);
                }
            }
        } else {
            let tail = walk(rest, children);
            lemma_walk_members(rest, children);
            assert(whole == seq![pid] + tail);
            assert(whole[0] == pid);
            assert forall|x: u32| tail.contains(x) implies whole.contains(x) by {
                let i = choose|i: int| 0 <= i < tail.len() && tail[i] == x;
                assert(whole[i + 1] == x);
            }
            assert forall|i: int| 0 <= i < stack.len() implies whole.contains(
                #[trigger] stack[i],
            ) by {
                if i < rest.len() {
                    assert(rest[i] == stack[i]);
                }
            }
            assert forall|p: u32, k: int|
                #![trigger children[p][k]]
                whole.contains(p) && children.contains_key(p) && 0 <= k < children[p].len() implies whole.contains(
                children[p][k],
            ) by {
                let i = choose|i: int| 0 <= i < whole.len() && whole[i] == p;
                assert(tail[i - 1] == p);
            }
        }
    }
}

/// Removing a known subtree takes out its root and, with every process taken out, all of that
/// process's children; nothing taken out is mentioned afterwards.
pub proof fn law_subtree_is_closed(v: PidView, root: u32)
    requires
        v.children.dom().finite(),
        mentions(v, root),
    ensures
        subtree(v, root).contains(root),
        forall|p: u32, k: int|
            #![trigger v.children[p][k]]
            subtree(v, root).contains(p) && v.children.contains_key(p) && 0 <= k
                < v.children[p].len() ==> subtree(v, root).contains(v.children[p][k]),
        forall|p: u32| #[trigger] subtree(v, root).contains(p) ==> !mentions(pruned(v, root), p),
        forall|p: u32|
            #[trigger] subtree(v, root).contains(p) ==> !pruned(v, root).depth.contains_key(p),
{
    lemma_walk_members(seq![root], v.children);
    assert(seq![root][0] == root);
    let gone = subtree(v, root);
    assert forall|p: u32| #[trigger] gone.contains(p) implies !mentions(pruned(v, root), p)
        && !pruned(v, root).depth.contains_key(p) by {
        assert(gone.to_set().contains(p));
        let left = dropped(v.children, gone);
        assert(!left.contains_key(p));
        if v.parent.contains_key(root) {
            let parent = v.parent[root];
            assert(!unlinked(left, parent, root).contains_key(p));
        }
    }
}

proof fn lemma_walk_origin(stack: Seq<u32>, children: Map<u32, Seq<u32>>, x: u32)
    requires
        children.dom().finite(),
        walk(stack, children).contains(x),
        !stack.contains(x),
    ensures
        exists|p: u32|
            #![trigger children.contains_key(p)]
            walk(stack, children).contains(p) && children.contains_key(p) && children[p].contains(x),
    decreases children.dom().len(), stack.len(),
{
    let whole = walk(stack, children);
    if stack.len() > 0 {
        let pid = stack.last();
        let rest = stack.drop_last();
        let has = children.contains_key(pid);
        let next = if has { rest + children[pid].reverse() } else { rest };
        let left = if has { children.remove(pid) } else { children };
        let tail = walk(next, left);
        assert(whole == seq![pid] + tail);
        let i = choose|i: int| 0 <= i < whole.len() && whole[i] == x;
        assert(stack[stack.len() - 1] == pid);
        assert(i > 0);
        assert(tail[i - 1] == x);
        assert(whole[0] == pid);
        if next.contains(x) {
            let j = choose|j: int| 0 <= j < next.len() && next[j] == x;
            if j < rest.len() {
                assert(stack[j] == x);
                assert(false);
            } else {
                let k = j - rest.len();
                assert(children[pid].reverse()[k] == x);
                assert(children[pid][children[pid].len() - 1 - k] == x);
                assert(children[pid].contains(x));
                assert(children.contains_key(pid));
            }
        } else {
            lemma_walk_origin(next, left, x);
            let p = choose|p: u32|
                #![trigger left.contains_key(p)]
                tail.contains(p) && left.contains_key(p) && left[p].contains(x);
            let q = choose|q: int| 0 <= q < tail.len() && tail[q] == p;
            assert(whole[q + 1] == p);
            assert(children.contains_key(p));
        }
    }
}

/// Removing a subtree takes out nothing but its root and children of processes taken out.
pub proof fn law_subtree_is_minimal(v: PidView, root: u32, x: u32)
    requires
        v.children.dom().finite(),
        subtree(v, root).contains(x),
        x != root,
    ensures
        exists|p: u32|
            #![trigger v.children.contains_key(p)]
            subtree(v, root).contains(p) && v.children.contains_key(p) && v.children[p].contains(x),
{
    assert(!seq![root].contains(x));
    lemma_walk_origin(seq![root], v.children, x);
}

/// Forgetting the process of a service keeps its group and start time, and everything else on record.
pub proof fn law_cleared_process_leaves_the_rest(v: PidView, service: Seq<char>, other: Seq<char>)
    ensures
        lookup(without_pid(v, service).services, service) is None,
        other != service ==> lookup(without_pid(v, service).services, other) == lookup(
            v.services,
            other,
        ),
        without_pid(v, service).groups == v.groups,
        without_pid(v, service).starts == v.starts,
        without_pid(v, service).parent == v.parent,
        without_pid(v, service).children == v.children,
        without_pid(v, service).depth == v.depth,
        without_pid(v, service).metadata == v.metadata,
{
}

/// The root of a service's spawn tree is its process, or, when that is not on record, the leader of
/// its group.
pub proof fn law_spawn_tree_has_its_root(v: PidView, service: Seq<char>)
    ensures
        v.services.contains_key(service) ==> root_of(v, service) == Some(v.services[service]),
        !v.services.contains_key(service) && v.groups.contains_key(service) && v.groups[service] > 0
            ==> root_of(v, service) == Some(v.groups[service] as u32),
        !v.services.contains_key(service) && (!v.groups.contains_key(service) || v.groups[service]
            <= 0) ==> root_of(v, service) is None,
{
}

/// A spawned child is on record under its parent, last of that parent's children, with its depth;
/// nothing else on record changes.
pub proof fn law_spawn_is_recorded(v: PidView, m: PersistedSpawnChild, other: u32)
    ensures
        ({
            let w = with_spawn(v, m);
            &&& lookup(w.parent, m.pid) == Some(m.parent_pid)
            &&& lookup(w.depth, m.pid) == Some(m.depth)
            &&& lookup(w.metadata, m.pid) == Some(m)
            &&& w.children.contains_key(m.parent_pid)
            &&& w.children[m.parent_pid].len() > 0
            &&& w.children[m.parent_pid].last() == m.pid
            &&& v.children.contains_key(m.parent_pid) ==> w.children[m.parent_pid].drop_last()
                == v.children[m.parent_pid]
            &&& !v.children.contains_key(m.parent_pid) ==> w.children[m.parent_pid].len() == 1
            &&& other != m.pid ==> lookup(w.parent, other) == lookup(v.parent, other) && lookup(
                w.depth,
                other,
            ) == lookup(v.depth, other) && lookup(w.metadata, other) == lookup(v.metadata, other)
            &&& other != m.parent_pid ==> lookup(w.children, other) == lookup(v.children, other)
            &&& w.services == v.services
            &&& w.groups == v.groups
            &&& w.starts == v.starts
        }),
{
    if v.children.contains_key(m.parent_pid) {
        assert(v.children[m.parent_pid].push(m.pid).drop_last() =~= v.children[m.parent_pid]);
    }
}

/// The end of a known spawned child is noted with the child, and changes nothing else; that of an
/// unknown one changes nothing at all.
pub proof fn law_spawned_exit_is_noted(v: PidView, pid: u32, exit: SpawnedExit, other: u32)
    ensures
        v.metadata.contains_key(pid) ==> ({
            let w = with_exit(v, pid, exit);
            &&& w.metadata.contains_key(pid)
            &&& w.metadata[pid].last_exit == Some(exit)
            &&& w.metadata[pid] == (PersistedSpawnChild {
                last_exit: Some(exit),
                ..v.metadata[pid]
            })
            &&& other != pid ==> lookup(w.metadata, other) == lookup(v.metadata, other)
            &&& w.parent == v.parent
            &&& w.children == v.children
            &&& w.depth == v.depth
            &&& w.services == v.services
        }),
        !v.metadata.contains_key(pid) ==> with_exit(v, pid, exit) == v,
{
}

/// Taking a process out of a list takes out just that process, and keeps the others in order.
pub proof fn law_except_keeps_the_others(s: Seq<u32>, x: u32, y: u32)
    ensures
        except(s, x).contains(y) <==> s.contains(y) && y != x,
        except(s, x) == s.filter(|z: u32| z != x),
    decreases s.len(),
{
    reveal(Seq::filter);
    if s.len() > 0 {
        let front = s.drop_last();
        law_except_keeps_the_others(front, x, y);
        assert(s =~= front.push(s.last()));
        if s.contains(y) {
            let k = choose|k: int| 0 <= k < s.len() && s[k] == y;
            if k < front.len() {
                assert(front[k] == y);
            }
        }
        if front.contains(y) {
            let k = choose|k: int| 0 <= k < front.len() && front[k] == y;
            assert(s[k] == y);
        }
        assert(s[s.len() - 1] == s.last());
        if s.last() != x {
            let kept = except(front, x);
            let all = kept.push(s.last());
            assert(all[kept.len() as int] == s.last());
            if kept.contains(y) {
                let k = choose|k: int| 0 <= k < kept.len() && kept[k] == y;
                assert(all[k] == y);
            }
            if all.contains(y) {
                let k = choose|k: int| 0 <= k < all.len() && all[k] == y;
                if k < kept.len() {
                    assert(kept[k] == y);
                }
            }
        }
    }
}

/// A spawned child that is taken out is no longer on record nor among its parent's children; its own
/// children and everything else stay.
pub proof fn law_spawn_is_taken_out_alone(v: PidView, pid: u32, other: u32)
    requires
        other != pid,
    ensures
        ({
            let w = without_spawn(v, pid);
            &&& !w.parent.contains_key(pid)
            &&& !w.depth.contains_key(pid)
            &&& !w.metadata.contains_key(pid)
            &&& lookup(w.parent, other) == lookup(v.parent, other)
            &&& lookup(w.depth, other) == lookup(v.depth, other)
            &&& lookup(w.metadata, other) == lookup(v.metadata, other)
            &&& v.parent.contains_key(pid) && w.children.contains_key(v.parent[pid])
                ==> !w.children[v.parent[pid]].contains(pid)
            &&& v.parent.contains_key(pid) && v.children.contains_key(v.parent[pid])
                && v.children[v.parent[pid]].contains(other) ==> w.children.contains_key(
                v.parent[pid],
            ) && w.children[v.parent[pid]].contains(other)
            &&& v.parent.contains_key(pid) && v.parent[pid] != other ==> lookup(w.children, other)
                == lookup(v.children, other)
            &&& w.services == v.services
            &&& w.groups == v.groups
            &&& w.starts == v.starts
        }),
{
    if v.parent.contains_key(pid) && v.children.contains_key(v.parent[pid]) {
        law_except_keeps_the_others(v.children[v.parent[pid]], pid, pid);
        law_except_keeps_the_others(v.children[v.parent[pid]], pid, other);
    }
}

/// A service that is taken off the record is not known any more, the others are as before, and the
/// last one takes all spawn records with it.
pub proof fn law_unbound_service_is_unknown(v: PidView, service: Seq<char>, other: Seq<char>)
    requires
        other != service,
    ensures
        !knows(unbound(v, service), service),
        knows(unbound(v, service), other) == knows(v, other),
        lookup(unbound(v, service).services, other) == lookup(v.services, other),
        lookup(unbound(v, service).groups, other) == lookup(v.groups, other),
        lookup(unbound(v, service).starts, other) == lookup(v.starts, other),
        v.services.contains_key(other) || v.groups.contains_key(other) ==> unbound(v, service).parent
            == v.parent && unbound(v, service).children == v.children && unbound(
            v,
            service,
        ).metadata == v.metadata && unbound(v, service).depth == v.depth,
        (forall|x: Seq<char>|
            x != service ==> !(#[trigger] v.services.contains_key(x)) && !v.groups.contains_key(x))
            ==> unbound(v, service).parent == Map::<u32, u32>::empty() && unbound(
            v,
            service,
        ).metadata == Map::<u32, PersistedSpawnChild>::empty(),
{
    let services = v.services.remove(service);
    let groups = v.groups.remove(service);
    if v.services.contains_key(other) {
        assert(services.dom().contains(other));
    }
    if v.groups.contains_key(other) {
        assert(groups.dom().contains(other));
    }
    if forall|x: Seq<char>|
        x != service ==> !(#[trigger] v.services.contains_key(x)) && !v.groups.contains_key(x) {
        assert forall|x: Seq<char>| !services.dom().contains(x) by {
            if x != service {
                assert(!v.services.contains_key(x));
            }
        }
        assert forall|x: Seq<char>| !groups.dom().contains(x) by {
            if x != service {
                assert(!v.services.contains_key(x));
            }
        }
        assert(services.dom() =~= Set::empty());
        assert(groups.dom() =~= Set::empty());
    }
}

/// The children that were spawned by a process are just those whose record names it as their parent.
pub proof fn law_spawned_are_found_by_parent(
    keys: Seq<u32>,
    metadata: Map<u32, PersistedSpawnChild>,
    parent: u32,
    pid: u32,
)
    ensures
        spawned_by(keys, metadata, parent).contains(pid) <==> exists|i: int|
            0 <= i < keys.len() && metadata[#[trigger] keys[i]].parent_pid == parent
                && metadata[keys[i]].pid == pid,
    decreases keys.len(),
{
    if keys.len() > 0 {
        let front = keys.drop_last();
        law_spawned_are_found_by_parent(front, metadata, parent, pid);
        let before = spawned_by(front, metadata, parent);
        let last = metadata[keys.last()];
        assert(forall|i: int| 0 <= i < front.len() ==> front[i] == keys[i]);
        assert(keys[keys.len() - 1] == keys.last());
        if before.contains(pid) {
            let i = choose|i: int|
                0 <= i < front.len() && metadata[#[trigger] front[i]].parent_pid == parent
                    && metadata[front[i]].pid == pid;
            assert(keys[i] == front[i]);
            let k = choose|k: int| 0 <= k < before.len() && before[k] == pid;
            assert(before.push(last.pid)[k] == pid);
        }
        if last.parent_pid == parent {
            let all = before.push(last.pid);
            assert(all[before.len() as int] == last.pid);
            if all.contains(pid) && !before.contains(pid) {
                let k = choose|k: int| 0 <= k < all.len() && all[k] == pid;
                if k < before.len() {
                    assert(before[k] == pid);
                }
            }
        }
    }
}

/// What is listed below a process is closed under being a child, and everything listed is a child of
/// that process or of something listed.
pub proof fn law_descendants_are_complete(
    pid: u32,
    children: Map<u32, Seq<u32>>,
    fuel: nat,
    r: Seq<u32>,
    x: u32,
    y: u32,
)
    requires
        descend(seq![pid], children, fuel) == Some(r),
    ensures
        children_of(children, pid).contains(y) ==> r.contains(y),
        r.contains(x) && children_of(children, x).contains(y) ==> r.contains(y),
        r.contains(y) ==> children_of(children, pid).contains(y) || exists|z: u32|
            r.contains(z) && #[trigger] children_of(children, z).contains(y),
{
    lemma_descend(seq![pid], children, fuel, x, y);
    assert(seq![pid][0] == pid);
    assert(seq![pid].contains(pid));
    if r.contains(y) {
        let z = choose|z: u32|
            (seq![pid].contains(z) || r.contains(z)) && #[trigger] children_of(
                children,
                z,
            ).contains(y);
        if seq![pid].contains(z) {
            assert(z == pid);
        }
    }
    if children_of(children, pid).contains(y) {
        lemma_descend(seq![pid], children, fuel, pid, y);
    }
}

proof fn lemma_descend(stack: Seq<u32>, children: Map<u32, Seq<u32>>, fuel: nat, x: u32, y: u32)
    requires
        descend(stack, children, fuel) is Some,
    ensures
        ({
            let r = descend(stack, children, fuel)->0;
            &&& (stack.contains(x) || r.contains(x)) && children_of(children, x).contains(y)
                ==> r.contains(y)
            &&& r.contains(y) ==> exists|z: u32|
                (stack.contains(z) || r.contains(z)) && #[trigger] children_of(
                    children,
                    z,
                ).contains(y)
        }),
    decreases fuel,
{
    let r = descend(stack, children, fuel)->0;
    if stack.len() > 0 {
        let top = stack.last();
        let kids = children_of(children, top);
        let next = stack.drop_last() + kids;
        let rest = descend(next, children, (fuel - 1) as nat)->0;
        assert(r == kids + rest);
        lemma_descend(next, children, (fuel - 1) as nat, x, y);
        assert(stack[stack.len() - 1] == top);
        assert forall|v: u32| kids.contains(v) implies r.contains(v) by {
            let k = choose|k: int| 0 <= k < kids.len() && kids[k] == v;
            assert(r[k] == v);
        }
        assert forall|v: u32| rest.contains(v) implies r.contains(v) by {
            let k = choose|k: int| 0 <= k < rest.len() && rest[k] == v;
            assert(r[kids.len() + k] == v);
        }
        assert forall|v: u32| r.contains(v) implies kids.contains(v) || rest.contains(v) by {
            let k = choose|k: int| 0 <= k < r.len() && r[k] == v;
            if k < kids.len() {
                assert(kids[k] == v);
            } else {
                assert(rest[k - kids.len()] == v);
            }
        }
        assert forall|v: u32| next.contains(v) implies stack.contains(v) || kids.contains(v) by {
            let k = choose|k: int| 0 <= k < next.len() && next[k] == v;
            if k < stack.len() - 1 {
                assert(stack[k] == v);
            } else {
                assert(kids[k - (stack.len() - 1)] == v);
            }
        }
        assert forall|v: u32| stack.contains(v) && v != top implies next.contains(v) by {
            let k = choose|k: int| 0 <= k < stack.len() && stack[k] == v;
            assert(next[k] == v);
        }
        assert forall|v: u32| kids.contains(v) implies next.contains(v) by {
            let k = choose|k: int| 0 <= k < kids.len() && kids[k] == v;
            assert(next[stack.len() - 1 + k] == v);
        }
        if r.contains(y) {
            if kids.contains(y) {
                assert(stack.contains(top));
                assert(children_of(children, top).contains(y));
            } else {
                let z = choose|z: u32|
                    (next.contains(z) || rest.contains(z)) && #[trigger] children_of(
                        children,
                        z,
                    ).contains(y);
                assert(stack.contains(z) || r.contains(z));
            }
        }
    }
}

/// A spawn record is a service's topmost one exactly when it belongs to the service and its parent's
/// record, if there is one, does not.
pub proof fn law_topmost_spawns_have_other_parents(
    metadata: Map<u32, PersistedSpawnChild>,
    pid: u32,
    hash: Seq<char>,
)
    requires
        metadata.contains_key(pid),
    ensures
        is_root_for(metadata, pid, hash) <==> opt_text(metadata[pid].service_hash) == Some(hash) && (
        !metadata.contains_key(metadata[pid].parent_pid) || opt_text(
            metadata[metadata[pid].parent_pid].service_hash,
        ) != Some(hash)),
{
}

/// The keys that are picked are just those that fit, in order.
pub proof fn law_picked_keys_fit(keys: Seq<u32>, pick: spec_fn(u32) -> bool)
    ensures
        picked(keys, pick) == keys.filter(pick),
    decreases keys.len(),
{
    reveal(Seq::filter);
    if keys.len() > 0 {
        law_picked_keys_fit(keys.drop_last(), pick);
    }
}

/// Removing a service takes it off the record together with the spawn tree of its process, and leaves
/// what is recorded of other services as it is.
pub proof fn law_removed_service_leaves_the_others(
    v: PidView,
    service: Seq<char>,
    after: PidView,
    other: Seq<char>,
)
    requires
        is_without(v, service, after),
    ensures
        !knows(after, service),
        other != service ==> lookup(after.services, other) == lookup(v.services, other) && lookup(
            after.groups,
            other,
        ) == lookup(v.groups, other) && lookup(after.starts, other) == lookup(v.starts, other),
{
    match root_of(v, service) {
        Some(root) => {
            let keys = choose|keys: Seq<u32>|
                #![trigger uprooted(v, root, keys)]
                lists(keys, pruned(v, root).metadata) && after == unbound(
                    uprooted(v, root, keys),
                    service,
                );
            let w = pruned(v, root);
            lemma_pruning_keeps_services(w, spawned_by(keys, w.metadata, root));
        },
        None => {},
    }
}

proof fn lemma_pruning_keeps_services(v: PidView, roots: Seq<u32>)
    ensures
        pruned_all(v, roots).services == v.services,
        pruned_all(v, roots).groups == v.groups,
        pruned_all(v, roots).starts == v.starts,
    decreases roots.len(),
{
    if roots.len() > 0 {
        lemma_pruning_keeps_services(v, roots.drop_last());
    }
}

} // verus!
