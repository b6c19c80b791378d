//! Which loose manifests, those without a project of their own, a supervisor manages.
//!
//! Each is kept under the path it was read from, so that one file never takes two places and all
//! of them come back after a restart.

use vstd::prelude::*;

use crate::error::Fault;
use crate::names::{
    lemma_precedes_total, lemma_precedes_transitive, order, paired, precedes, NameMap, Order,
};
use crate::paths::{join_path, joined_path};
use crate::status::ProjectRunMode;
use crate::text::{decimal, law_decimal_round_trip, push_decimal, same, texts};

verus! {

/// The name of the registry's file.
pub const REGISTRY_FILE_NAME: &'static str = "loose_registry.json";

/// The layout that this registry reads and writes.
pub const REGISTRY_VERSION: u32 = 1;

/// One loose manifest.
#[derive(Debug, PartialEq, Eq)]
pub struct LooseEntry {
    /// The path of the manifest.
    pub config_path: String,
    /// The project made of it.
    pub project_id: String,
    /// How the project was started.
    pub mode: ProjectRunMode,
}

/// The loose manifests, by path.
pub struct LooseRegistry {
    /// The layout of the file it was read from.
    pub version: u32,
    /// The manifests, by path.
    pub entries: NameMap<LooseEntry>,
}

impl View for LooseRegistry {
    type V = Map<Seq<char>, LooseEntry>;

    open spec fn view(&self) -> Map<Seq<char>, LooseEntry> {
        self.entries@
    }
}

/// Why a registry could not be read.
#[derive(Debug, PartialEq, Eq)]
pub enum RegistryError {
    /// The file is not a registry.
    Malformed(String),
    /// The file has a layout that is not understood.
    UnsupportedVersion(u32),
    /// The file could not be read or written.
    Io(Fault),
}

impl RegistryError {
    /// What the error says.
    pub open spec fn text(&self) -> Seq<char> {
        match self {
            RegistryError::Malformed(detail) => "loose registry is malformed: "@ + detail@,
            RegistryError::UnsupportedVersion(v) => "loose registry schema v"@ + decimal(*v as nat)
                + " is newer than supported v"@ + decimal(REGISTRY_VERSION as nat),
            RegistryError::Io(f) => "loose registry io error: "@ + f.message@,
        }
    }

    /// What the error says.
    pub fn message(&self) -> (r: String)
        ensures
            r@ == self.text(),
    {
        match self {
            RegistryError::Malformed(detail) => {
                let mut m = "loose registry is malformed: ".to_owned();
                m.append(detail.as_str());
                m
            },
            RegistryError::UnsupportedVersion(v) => {
                let mut m = "loose registry schema v".to_owned();
                push_decimal(&mut m, *v as u64);
                m.append(" is newer than supported v");
                push_decimal(&mut m, REGISTRY_VERSION as u64);
                m
            },
            RegistryError::Io(f) => {
                let mut m = "loose registry io error: ".to_owned();
                m.append(f.message.as_str());
                m
            },
        }
    }
}

/// Where the registry is kept.
pub fn registry_path(state_dir: &str) -> (r: String)
    ensures
        r@ == joined_path(state_dir@, REGISTRY_FILE_NAME@),
{
    join_path(state_dir, REGISTRY_FILE_NAME)
}

/// The name of the file that a writer fills before it takes the place of `name`.
pub open spec fn temp_name_of(name: Seq<char>, writer: u32) -> Seq<char> {
    "."@ + name + "."@ + decimal(writer as nat) + ".tmp"@
}

/// Two writers never fill the same file.
pub proof fn law_writers_never_share_a_file(name: Seq<char>, a: u32, b: u32)
    requires
        temp_name_of(name, a) == temp_name_of(name, b),
    ensures
        a == b,
{
    let front = "."@ + name + "."@;
    let end = ".tmp"@;
    let x = decimal(a as nat);
    let y = decimal(b as nat);
    let whole = front + x + end;
    assert(whole == front + y + end);
    assert(x.len() == y.len());
    assert(x =~= whole.subrange(front.len() as int, (front.len() + x.len()) as int));
    assert(y =~= (front + y + end).subrange(front.len() as int, (front.len() + y.len()) as int));
    law_decimal_round_trip(a as nat, u32::MAX as nat);
    law_decimal_round_trip(b as nat, u32::MAX as nat);
}

/// The name of the file that a writer fills before it takes the place of `name`. It carries the
/// writer's process id.
pub fn temp_name(name: &str, writer: u32) -> (r: String)
    ensures
        r@ == temp_name_of(name@, writer),
{
    let mut s = ".".to_owned();
    s.append(name);
    s.append(".");
    push_decimal(&mut s, writer as u64);
    s.append(".tmp");
    s
}

/// One manifest as it is written to the registry's file.
#[derive(Debug, PartialEq, Eq)]
pub struct LooseRecord {
    /// The path it is kept under.
    pub path: String,
    /// The manifest.
    pub entry: LooseEntry,
}

/// The manifests that records stand for; of two with one path the later one counts.
pub open spec fn gathered(rs: Seq<LooseRecord>) -> Map<Seq<char>, LooseEntry>
    decreases rs.len(),
{
    if rs.len() == 0 {
        Map::empty()
    } else {
        gathered(rs.drop_last()).insert(rs.last().path@, rs.last().entry)
    }
}

/// Whether records are what is written of a registry: each of its manifests once, in path order.
pub open spec fn is_written(rs: Seq<LooseRecord>, reg: LooseRegistry) -> bool {
    &&& rs.len() == reg.entries.names().len()
    &&& forall|i: int|
        0 <= i < rs.len() ==> {
            &&& (#[trigger] rs[i]).path@ == reg.entries.names()[i]
            &&& reg@.contains_key(rs[i].path@)
            &&& rs[i].entry == reg@[rs[i].path@]
        }
}

/// Whether a registry is what is read from records of a layout.
pub open spec fn is_read(reg: LooseRegistry, version: u32, rs: Seq<LooseRecord>) -> bool {
    reg.version == version && reg@ == gathered(rs)
}

/// What was found where the registry is kept.
pub enum RegistryFile {
    /// Nothing.
    Absent,
    /// A file that could not be read.
    Unreadable(Fault),
    /// A file that is no registry, and why.
    Malformed(String),
    /// A registry of some layout.
    Read(LooseRegistry),
}

/// The manifests that belong to another project.
pub open spec fn without_project(m: Map<Seq<char>, LooseEntry>, project_id: Seq<char>) -> Map<
    Seq<char>,
    LooseEntry,
> {
    Map::new(
        |k: Seq<char>| m.contains_key(k) && m[k].project_id@ != project_id,
        |k: Seq<char>| m[k],
    )
}

impl LooseRegistry {
    /// An empty registry of the current layout.
    pub fn empty() -> (r: Self)
        ensures
            r.version == REGISTRY_VERSION,
            r@ == Map::<Seq<char>, LooseEntry>::empty(),
    {
        LooseRegistry { version: REGISTRY_VERSION, entries: NameMap::new() }
    }

    /// Takes over what was found where the registry is kept. Nothing there is an empty registry; a
    /// file that is not understood is an error, never an empty registry, so that it is not
    /// overwritten.
    pub fn load(found: RegistryFile) -> (r: Result<Self, RegistryError>)
        ensures
            match found {
                RegistryFile::Absent => match r {
                    Ok(reg) => reg.version == REGISTRY_VERSION && reg@ == Map::<
                        Seq<char>,
                        LooseEntry,
                    >::empty(),
                    Err(_) => false,
                },
                RegistryFile::Unreadable(f) => r == Err::<LooseRegistry, RegistryError>(
                    RegistryError::Io(f),
                ),
                RegistryFile::Malformed(detail) => r == Err::<LooseRegistry, RegistryError>(
                    RegistryError::Malformed(detail),
                ),
                RegistryFile::Read(reg) => if reg.version == REGISTRY_VERSION {
                    r == Ok::<LooseRegistry, RegistryError>(reg)
                } else {
                    r == Err::<LooseRegistry, RegistryError>(
                        RegistryError::UnsupportedVersion(reg.version),
                    )
                },
            },
    {
        match found {
            RegistryFile::Absent => Ok(LooseRegistry::empty()),
            RegistryFile::Unreadable(f) => Err(RegistryError::Io(f)),
            RegistryFile::Malformed(detail) => Err(RegistryError::Malformed(detail)),
            RegistryFile::Read(reg) => {
                if reg.version != REGISTRY_VERSION {
                    Err(RegistryError::UnsupportedVersion(reg.version))
                } else {
                    Ok(reg)
                }
            },
        }
    }

    /// What is written of the registry.
    pub fn records(&self) -> (r: Vec<LooseRecord>)
        ensures
            is_written(r@, *self),
    {
        let n: usize = self.entries.len();
        let mut out: Vec<LooseRecord> = Vec::new();
        let mut i: usize = 0;
        while i < n
            invariant
                i <= n,
                n == self.entries.names().len(),
                out@.len() == i,
                forall|j: int|
                    0 <= j < i ==> {
                        &&& (#[trigger] out@[j]).path@ == self.entries.names()[j]
                        &&& self@.contains_key(out@[j].path@)
                        &&& out@[j].entry == self@[out@[j].path@]
                    },
            decreases n - i,
        {
            let entry = self.entries.value_at(i);
            out.push(
                LooseRecord {
                    path: self.entries.name_at(i).clone(),
                    entry: LooseEntry {
                        config_path: entry.config_path.clone(),
                        project_id: entry.project_id.clone(),
                        mode: entry.mode,
                    },
                },
            );
            i = i + 1;
        }
        out
    }

    /// The registry that records of a layout give.
    pub fn from_records(version: u32, records: Vec<LooseRecord>) -> (r: Self)
        ensures
            is_read(r, version, records@),
    {
        let mut rest = records;
        let ghost all = records@;
        let mut r = LooseRegistry { version, entries: NameMap::new() };
        let ghost mut k: int = 0;
        proof {
            assert(all.take(0) =~= Seq::<LooseRecord>::empty());
            assert(r@ =~= gathered(all.take(0)));
            assert(all.skip(0) =~= all);
        }
        while rest.len() > 0
            invariant
                0 <= k <= all.len(),
                rest@ == all.skip(k),
                r.version == version,
                r@ == gathered(all.take(k)),
            decreases rest.len(),
        {
            let record = rest.remove(0);
            r.entries.insert(record.path.as_str(), record.entry);
            proof {
                assert(record == all[k]);
                assert(rest@ =~= all.skip(k + 1));
                assert(all.take(k + 1).drop_last() =~= all.take(k));
                k = k + 1;
            }
        }
        assert(all.take(all.len() as int) =~= all);
        r
    }

    /// Records a manifest in the place of any with the same path.
    pub fn insert(&mut self, entry: LooseEntry)
        ensures
            final(self).version == old(self).version,
            final(self)@ == old(self)@.insert(entry.config_path@, entry),
    {
        let path = entry.config_path.clone();
        self.entries.insert(path.as_str(), entry);
    }

    /// Forgets the manifest at a path; says whether there was one.
    pub fn remove(&mut self, config_path: &str) -> (r: bool)
        ensures
            final(self).version == old(self).version,
            final(self)@ == old(self)@.remove(config_path@),
            r == old(self)@.contains_key(config_path@),
    {
        self.entries.remove(config_path).is_some()
    }

    fn paths_of(&self, project_id: &str) -> (r: Vec<String>)
        ensures
            forall|k: Seq<char>| #[trigger]
                texts(r@).contains(k) <==> self@.contains_key(k) && self@[k].project_id@
                    == project_id@,
    {
        let n: usize = self.entries.len();
        let ghost ns = self.entries.names();
        let mut out: Vec<String> = Vec::new();
        let mut i: usize = 0;
        assert(texts(out@) =~= Seq::<Seq<char>>::empty());
        while i < n
            invariant
                i <= n,
                n == ns.len(),
                ns == self.entries.names(),
                forall|k: Seq<char>| #[trigger]
                    texts(out@).contains(k) <==> exists|j: int|
                        0 <= j < i && k == (#[trigger] ns[j]) && self@[k].project_id@ == project_id@,
            decreases n - i,
        {
            let ghost before = texts(out@);
            let entry = self.entries.value_at(i);
            let name = self.entries.name_at(i);
            if same(entry.project_id.as_str(), project_id) {
                out.push(name.clone());
                assert(texts(out@) =~= before.push(name@));
            }
            proof {
                assert forall|k: Seq<char>| #[trigger] texts(out@).contains(k) <==> exists|j: int|
                    0 <= j < i + 1 && k == (#[trigger] ns[j]) && self@[k].project_id@ == project_id@ by {
                    lemma_pushed(before, name@, k);
                    if before.contains(k) {
                        let j = choose|j: int|
                            0 <= j < i && k == (#[trigger] ns[j]) && self@[k].project_id@
                                == project_id@;
                        assert(0 <= j < i + 1 && k == ns[j]);
                    }
                    if k == name@ {
                        assert(k == ns[i as int]);
                    }
                }
            }
            i = i + 1;
        }
        proof {
            assert forall|k: Seq<char>| #[trigger] texts(out@).contains(k) <==> self@.contains_key(k)
                && self@[k].project_id@ == project_id@ by {
                if texts(out@).contains(k) {
                    let j = choose|j: int|
                        0 <= j < n && k == (#[trigger] ns[j]) && self@[k].project_id@ == project_id@;
                    assert(ns.contains(k));
                }
                if self@.contains_key(k) {
                    assert(ns.contains(k));
                    let j = choose|j: int| 0 <= j < ns.len() && ns[j] == k;
                    assert(k == ns[j]);
                }
            }
        }
        out
    }

    /// Forgets every manifest of a project; says whether there was any.
    pub fn remove_project(&mut self, project_id: &str) -> (r: bool)
        ensures
            final(self).version == old(self).version,
            final(self)@ == without_project(old(self)@, project_id@),
            r == exists|k: Seq<char>| #[trigger]
                old(self)@.contains_key(k) && old(self)@[k].project_id@ == project_id@,
    {
        let doomed = self.paths_of(project_id);
        let ghost before = self@;
        let ghost ds = texts(doomed@);
        let mut i: usize = 0;
        while i < doomed.len()
            invariant
                i <= doomed.len(),
                ds == texts(doomed@),
                self.version == old(self).version,
                forall|k: Seq<char>| #[trigger]
                    self@.contains_key(k) <==> before.contains_key(k) && !ds.take(i as int).contains(
                        k,
                    ),
                forall|k: Seq<char>| #[trigger] self@.contains_key(k) ==> self@[k] == before[k],
            decreases doomed.len() - i,
        {
            let ghost mid = self@;
            let _ = self.entries.remove(doomed[i].as_str());
            proof {
                assert(ds[i as int] == doomed@[i as int]@);
                assert(ds.take(i + 1) =~= ds.take(i as int).push(ds[i as int]));
                assert forall|k: Seq<char>| #[trigger] self@.contains_key(k) <==> before.contains_key(
                    k,
                ) && !ds.take(i + 1).contains(k) by {
                    lemma_pushed(ds.take(i as int), ds[i as int], k);
                    assert(mid.contains_key(k) <==> before.contains_key(k) && !ds.take(
                        i as int,
                    ).contains(k));
                }
            }
            i = i + 1;
        }
        proof {
            assert(ds.take(ds.len() as int) =~= ds);
            assert(self@ =~= without_project(before, project_id@));
            if doomed.len() > 0 {
                assert(ds[0] == doomed@[0]@);
                assert(ds.contains(ds[0]));
                assert(before.contains_key(ds[0]));
            } else {
                assert forall|k: Seq<char>| #[trigger] before.contains_key(k) implies before[k].project_id@
                    != project_id@ by {
                    assert(!ds.contains(k));
                }
            }
        }
        doomed.len() > 0
    }

    /// The first manifest of a project, in path order.
    pub fn by_project(&self, project_id: &str) -> (r: Option<&LooseEntry>)
        ensures
            match r {
                Some(e) => exists|i: int|
                    {
                        &&& 0 <= i < self.entries.names().len()
                        &&& *e == #[trigger] self.entries.values()[i]
                        &&& e.project_id@ == project_id@
                        &&& forall|j: int|
                            0 <= j < i ==> (#[trigger] self.entries.values()[j]).project_id@
                                != project_id@
                    },
                None => forall|j: int|
                    0 <= j < self.entries.values().len() ==> (#[trigger] self.entries.values()[j]).project_id@
                        != project_id@,
            },
    {
        let n: usize = self.entries.len();
        let mut i: usize = 0;
        while i < n
            invariant
                i <= n,
                n == self.entries.names().len(),
                n == self.entries.values().len(),
                forall|j: int|
                    0 <= j < i ==> (#[trigger] self.entries.values()[j]).project_id@ != project_id@,
            decreases n - i,
        {
            let entry = self.entries.value_at(i);
            if same(entry.project_id.as_str(), project_id) {
                assert(*entry == self.entries.values()[i as int]);
                return Some(entry);
            }
            i = i + 1;
        }
        None
    }

    /// Every manifest, ordered by project id; those of one project come in path order.
    pub fn entries(&self) -> (r: Vec<&LooseEntry>)
        ensures
            exists|order: Seq<int>|
                {
                    &&& #[trigger] lists_by_project(order, self.entries.values())
                    &&& r@.len() == order.len()
                    &&& forall|i: int|
                        0 <= i < r@.len() ==> *(#[trigger] r@[i])
                            == self.entries.values()[order[i]]
                },
            self@ == paired(self.entries.names(), self.entries.values()),
    {
        let n: usize = self.entries.len();
        let ghost values = self.entries.values();
        let mut out: Vec<&LooseEntry> = Vec::new();
        let ghost mut order: Seq<int> = Seq::empty();
        let mut k: usize = 0;
        while k < n
            invariant
                k <= n,
                n == self.entries.names().len(),
                n == values.len(),
                values == self.entries.values(),
                lists_by_project(order, values.take(k as int)),
                out@.len() == k,
                forall|i: int| 0 <= i < k ==> *(#[trigger] out@[i]) == values[order[i]],
            decreases n - k,
        {
            let entry = self.entries.value_at(k);
            let ghost id = entry.project_id@;
            let mut p: usize = k;
            while p > 0 && is_after(out[p - 1].project_id.as_str(), entry.project_id.as_str())
                invariant
                    p <= k,
                    out@.len() == k,
                    id == entry.project_id@,
                    forall|i: int| p <= i < k ==> precedes(id, (#[trigger] out@[i]).project_id@),
                decreases p,
            {
                p = p - 1;
            }
            proof {
                let now = order.insert(p as int, k as int);
                let part = values.take(k as int);
                let more = values.take(k + 1);
                assert forall|i: int| 0 <= i < p implies #[trigger] ahead(more, order[i], k as int) by {
                    assert(0 <= order[i] < k);
                    assert(*out@[i] == values[order[i]]);
                    assert(*out@[p - 1] == values[order[p - 1]]);
                    lemma_precedes_total(out@[p - 1].project_id@, id);
                    if i < p - 1 {
                        assert(ahead(part, order[i], order[p - 1]));
                        if precedes(out@[i].project_id@, out@[p - 1].project_id@) && precedes(
                            out@[p - 1].project_id@,
                            id,
                        ) {
                            lemma_precedes_transitive(
                                out@[i].project_id@,
                                out@[p - 1].project_id@,
                                id,
                            );
                        }
                    }
                }
                assert forall|i: int| p <= i < k implies #[trigger] ahead(more, k as int, order[i]) by {
                    assert(0 <= order[i] < k);
                    assert(*out@[i] == values[order[i]]);
                }
                assert forall|i: int, j: int|
                    #![trigger now[i], now[j]]
                    0 <= i < j < now.len() implies ahead(more, now[i], now[j]) by {
                    if i < p && j < p {
                        assert(ahead(part, order[i], order[j]));
                    } else if i < p && j == p {
                        assert(ahead(more, order[i], k as int));
                    } else if i < p {
                        assert(ahead(part, order[i], order[j - 1]));
                    } else if i == p {
                        assert(ahead(more, k as int, order[j - 1]));
                    } else {
                        assert(ahead(part, order[i - 1], order[j - 1]));
                    }
                }
                order = now;
            }
            out.insert(p, entry);
            k = k + 1;
        }
        assert(values.take(n as int) =~= values);
        out
    }
}

/// Whether the manifest at one position is listed before that at another: by project id, and within
/// a project by path.
pub open spec fn ahead(values: Seq<LooseEntry>, i: int, j: int) -> bool {
    ||| precedes(values[i].project_id@, values[j].project_id@)
    ||| values[i].project_id@ == values[j].project_id@ && i < j
}

/// Whether `order` lists the position of each manifest once, ordered by project id. `values` are
/// the manifests in path order.
pub open spec fn lists_by_project(order: Seq<int>, values: Seq<LooseEntry>) -> bool {
    &&& order.len() == values.len()
    &&& forall|i: int| 0 <= i < order.len() ==> 0 <= #[trigger] order[i] < values.len()
    &&& forall|i: int, j: int|
        #![trigger order[i], order[j]]
        0 <= i < j < order.len() ==> ahead(values, order[i], order[j])
}

/// Every manifest is listed, and none twice.
pub proof fn law_each_manifest_is_listed_once(order: Seq<int>, values: Seq<LooseEntry>, k: int)
    requires
        lists_by_project(order, values),
        0 <= k < values.len(),
    ensures
        order.no_duplicates(),
        order.contains(k),
{
    assert forall|i: int, j: int| 0 <= i < j < order.len() implies order[i] != order[j] by {
        assert(ahead(values, order[i], order[j]));
        lemma_precedes_total(values[order[i]].project_id@, values[order[j]].project_id@);
    }
    let all = vstd::set_lib::set_int_range(0, values.len() as int);
    vstd::set_lib::lemma_int_range(0, values.len() as int);
    order.unique_seq_to_set();
    assert(order.to_set().subset_of(all)) by {
        assert forall|x: int| order.to_set().contains(x) implies all.contains(x) by {
            let i = choose|i: int| 0 <= i < order.len() && order[i] == x;
            assert(0 <= order[i] < values.len());
        }
    }
    vstd::set_lib::lemma_subset_equality(order.to_set(), all);
    assert(all.contains(k));
}

fn is_after(a: &str, b: &str) -> (r: bool)
    ensures
        r == precedes(b@, a@),
{
    proof {
        lemma_precedes_total(a@, b@);
    }
    match order(a, b) {
        Order::After => true,
        _ => false,
    }
}

proof fn lemma_pushed(s: Seq<Seq<char>>, x: Seq<char>, k: Seq<char>)
    ensures
        s.push(x).contains(k) <==> s.contains(k) || x == k,
{
    if s.contains(k) {
        let i = choose|i: int| 0 <= i < s.len() && s[i] == k;
        assert(s.push(x)[i] == k);
    }
    assert(s.push(x)[s.len() as int] == x);
    if s.push(x).contains(k) {
        let i = choose|i: int| 0 <= i < s.push(x).len() && s.push(x)[i] == k;
        if i < s.len() {
            assert(s[i] == k);
        }
    }
}

/// Two manifests at different paths never take each other's place, and recording one again only
/// replaces it.
pub proof fn law_one_place_per_path(
    m: Map<Seq<char>, LooseEntry>,
    a: LooseEntry,
    b: LooseEntry,
)
    ensures
        a.config_path@ != b.config_path@ ==> m.insert(a.config_path@, a).insert(b.config_path@, b)[a.config_path@]
            == a,
        a.config_path@ == b.config_path@ ==> m.insert(a.config_path@, a).insert(b.config_path@, b)
            == m.insert(b.config_path@, b),
{
    if a.config_path@ == b.config_path@ {
        assert(m.insert(a.config_path@, a).insert(b.config_path@, b) =~= m.insert(b.config_path@, b));
    }
}

/// What is written of a registry gives the registry back: as many manifests come back as were
/// saved, and the same ones.
pub proof fn law_saved_manifests_come_back(
    reg: LooseRegistry,
    rs: Seq<LooseRecord>,
    back: LooseRegistry,
)
    requires
        is_written(rs, reg),
        is_read(back, reg.version, rs),
    ensures
        back.version == reg.version,
        back@ == reg@,
{
    let names = reg.entries.names();
    lemma_gathered(rs, reg);
    assert forall|k: Seq<char>| #[trigger] reg@.contains_key(k) implies back@.contains_key(k) by {
        let i = choose|i: int| 0 <= i < names.len() && names[i] == k;
        assert(rs[i].path@ == k);
    }
    assert(back@ =~= reg@);
}

proof fn lemma_gathered(rs: Seq<LooseRecord>, reg: LooseRegistry)
    requires
        forall|i: int|
            0 <= i < rs.len() ==> reg@.contains_key((#[trigger] rs[i]).path@) && rs[i].entry
                == reg@[rs[i].path@],
    ensures
        forall|k: Seq<char>| #[trigger]
            gathered(rs).contains_key(k) ==> reg@.contains_key(k) && gathered(rs)[k] == reg@[k],
        forall|i: int| 0 <= i < rs.len() ==> gathered(rs).contains_key((#[trigger] rs[i]).path@),
    decreases rs.len(),
{
    if rs.len() > 0 {
        let front = rs.drop_last();
        assert(forall|i: int| 0 <= i < front.len() ==> #[trigger] front[i] == rs[i]);
        assert(rs[rs.len() - 1] == rs.last());
        lemma_gathered(front, reg);
        assert forall|k: Seq<char>| #[trigger] gathered(rs).contains_key(k) implies reg@.contains_key(
            k,
        ) && gathered(rs)[k] == reg@[k] by {
            if k != rs.last().path@ {
                assert(gathered(front).contains_key(k));
            }
        }
        assert forall|i: int| 0 <= i < rs.len() implies gathered(rs).contains_key(
            (#[trigger] rs[i]).path@,
        ) by {
            if i < front.len() {
                assert(gathered(front).contains_key(front[i].path@));
            }
        }
    }
}

/// Removing a project removes its manifests and no others.
pub proof fn law_only_the_project_goes(
    m: Map<Seq<char>, LooseEntry>,
    project_id: Seq<char>,
    path: Seq<char>,
)
    ensures
        without_project(m, project_id).contains_key(path) <==> m.contains_key(path)
            && m[path].project_id@ != project_id,
        without_project(m, project_id).contains_key(path) ==> without_project(m, project_id)[path]
            == m[path],
{
}

/// Of several records with one path the last one counts, and only a path on record is known.
pub proof fn law_last_record_counts(rs: Seq<LooseRecord>, i: int, path: Seq<char>)
    ensures
        0 <= i < rs.len() && rs[i].path@ == path && (forall|j: int|
            i < j < rs.len() ==> (#[trigger] rs[j]).path@ != path) ==> gathered(rs).contains_key(
            path,
        ) && gathered(rs)[path] == rs[i].entry,
        (forall|j: int| 0 <= j < rs.len() ==> (#[trigger] rs[j]).path@ != path) ==> !gathered(
            rs,
        ).contains_key(path),
    decreases rs.len(),
{
    if rs.len() > 0 {
        let front = rs.drop_last();
        law_last_record_counts(front, i, path);
        assert(forall|j: int| 0 <= j < front.len() ==> front[j] == rs[j]);
        assert(rs[rs.len() - 1] == rs.last());
    }
}

} // verus!
