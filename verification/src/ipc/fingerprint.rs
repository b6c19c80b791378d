//! Telling a changed manifest from one that was only rearranged.
//!
//! A fingerprint holds everything that a manifest says, in an order of its own. The parts are
//! written so that none of them holds a character that separates parts, so two manifests with one
//! fingerprint say the same.

use vstd::multiset::Multiset;
use vstd::prelude::*;
use vstd::relations::{sorted_by, total_ordering};
use vstd::seq_lib::lemma_sorted_unique;

use crate::names::{lemma_precedes_total, lemma_precedes_transitive, order, precedes, Order};
use crate::text::{chars_of, join, joined, texts};

verus! {

/// A service of a manifest and the hash of its configuration.
#[derive(Debug, PartialEq, Eq)]
pub struct ServiceHash {
    /// The service.
    pub name: String,
    /// The hash.
    pub hash: String,
}

/// A project of a manifest.
#[derive(Debug, PartialEq, Eq)]
pub struct ManifestProject {
    /// The project.
    pub id: String,
    /// Its services.
    pub services: Vec<ServiceHash>,
    /// Everything else that the manifest says of it, in one canonical form.
    pub rest: String,
}

/// The order of texts.
pub open spec fn up_to() -> spec_fn(Seq<char>, Seq<char>) -> bool {
    |a: Seq<char>, b: Seq<char>| a == b || precedes(a, b)
}

pub proof fn lemma_up_to()
    ensures
        total_ordering(up_to()),
{
    let le = up_to();
    assert forall|a: Seq<char>, b: Seq<char>| #[trigger] le(a, b) && #[trigger] le(b, a) implies a
        == b by {
        lemma_precedes_total(a, b);
    }
    assert forall|a: Seq<char>, b: Seq<char>, c: Seq<char>| #[trigger] le(a, b) && #[trigger] le(b, c) implies le(
        a,
        c,
    ) by {
        if a != b && b != c {
            lemma_precedes_transitive(a, b, c);
        }
    }
    assert forall|a: Seq<char>, b: Seq<char>| #[trigger] le(a, b) || #[trigger] le(b, a) by {
        lemma_precedes_total(a, b);
    }
}

/// Texts in ascending order.
pub open spec fn in_order(v: Seq<Seq<char>>) -> Seq<Seq<char>> {
    v.sort_by(up_to())
}

fn sort(v: Vec<String>) -> (r: Vec<String>)
    ensures
        texts(r@) == in_order(texts(v@)),
{
    let ghost all = texts(v@);
    let mut rest = v;
    let mut out: Vec<String> = Vec::new();
    let ghost le = up_to();
    proof {
        lemma_up_to();
        assert(texts(out@) =~= Seq::<Seq<char>>::empty());
        broadcast use vstd::seq_lib::group_to_multiset_ensures;
        broadcast use vstd::multiset::group_multiset_axioms;
        assert(texts(out@).to_multiset().add(texts(rest@).to_multiset()) =~= all.to_multiset());
    }
    while rest.len() > 0
        invariant
            le == up_to(),
            total_ordering(le),
            sorted_by(texts(out@), le),
            texts(out@).to_multiset().add(texts(rest@).to_multiset()) =~= all.to_multiset(),
        decreases rest.len(),
    {
        let ghost rest0 = texts(rest@);
        let ghost before = texts(out@);
        let x = rest.pop().unwrap();
        proof {
            assert(rest0 =~= texts(rest@).push(x@));
            vstd::seq_lib::to_multiset_build(texts(rest@), x@);
        }
        let mut p: usize = out.len();
        while p > 0 && is_after(&out[p - 1], &x)
            invariant
                p <= out.len(),
                le == up_to(),
                before == texts(out@),
                forall|i: int| p <= i < before.len() ==> precedes(x@, #[trigger] before[i]),
            decreases p,
        {
            assert(before[p - 1] == out@[p - 1]@);
            p = p - 1;
        }
        proof {
            if p > 0 {
                assert(before[p - 1] == out@[p - 1]@);
                lemma_precedes_total(x@, before[p - 1]);
            }
        }
        out.insert(p, x);
        proof {
            let after = texts(out@);
            assert(after =~= before.insert(p as int, x@));
            vstd::seq_lib::to_multiset_insert(before, p as int, x@);
            assert forall|i: int, j: int| 0 <= i < j < after.len() implies #[trigger] le(
                after[i],
                after[j],
            ) by {
                if i < p && j < p {
                    assert(le(before[i], before[j]));
                } else if i < p && j == p {
                    assert(le(before[p - 1], x@));
                    if i < p - 1 {
                        assert(le(before[i], before[p - 1]));
                    }
                } else if i < p {
                    assert(le(before[i], before[j - 1]));
                } else if i == p {
                    assert(precedes(x@, before[j - 1]));
                } else {
                    assert(le(before[i - 1], before[j - 1]));
                }
            }
        }
    }
    proof {
        let done = texts(out@);
        assert(texts(rest@) =~= Seq::<Seq<char>>::empty());
        broadcast use vstd::seq_lib::group_to_multiset_ensures;
        broadcast use vstd::multiset::group_multiset_axioms;
        assert(done.to_multiset() =~= all.to_multiset());
        all.lemma_sort_by_ensures(le);
        lemma_sorted_unique(done, in_order(all), le);
    }
    out
}

fn is_after(a: &String, b: &String) -> (r: bool)
    ensures
        r == precedes(b@, a@),
{
    proof {
        lemma_precedes_total(a@, b@);
    }
    match order(a.as_str(), b.as_str()) {
        Order::After => true,
        _ => false,
    }
}

/// How a character of a part is written: one that separates parts, or begins such a pair, as a pair
/// of a backslash and a letter.
pub open spec fn plain_char(c: char) -> Seq<char> {
    if c == '\\' {
        seq!['\\', '\\']
    } else if c == '\n' {
        seq!['\\', 'n']
    } else if c == ':' {
        seq!['\\', 'c']
    } else if c == '=' {
        seq!['\\', 'e']
    } else if c == ',' {
        seq!['\\', 's']
    } else {
        seq![c]
    }
}

/// A part as it is written, free of every character that separates parts.
pub open spec fn plain(part: Seq<char>) -> Seq<char>
    decreases part.len(),
{
    if part.len() == 0 {
        seq![]
    } else {
        plain_char(part[0]) + plain(part.drop_first())
    }
}

fn push_plain(out: &mut String, part: &str)
    ensures
        final(out)@ == old(out)@ + plain(part@),
{
    let cs = chars_of(part);
    let ghost before = out@;
    let mut i: usize = 0;
    assert(cs@.skip(0) =~= cs@);
    while i < cs.len()
        invariant
            i <= cs.len(),
            out@ + plain(cs@.skip(i as int)) == before + plain(cs@),
        decreases cs.len() - i,
    {
        let c = cs[i];
        let ghost sofar = out@;
        let ghost rest = cs@.skip(i as int);
        if c == '\\' {
            out.push('\\');
            out.push('\\');
        } else if c == '\n' {
            out.push('\\');
            out.push('n');
        } else if c == ':' {
            out.push('\\');
            out.push('c');
        } else if c == '=' {
            out.push('\\');
            out.push('e');
        } else if c == ',' {
            out.push('\\');
            out.push('s');
        } else {
            out.push(c);
        }
        i = i + 1;
        proof {
            assert(out@ =~= sofar + plain_char(c));
            assert(rest.drop_first() =~= cs@.skip(i as int));
            assert(plain(rest) == plain_char(c) + plain(cs@.skip(i as int)));
            assert(out@ + plain(cs@.skip(i as int)) =~= sofar + plain(rest));
        }
    }
    assert(cs@.skip(cs@.len() as int) =~= Seq::<char>::empty());
    assert(out@ =~= out@ + plain(Seq::<char>::empty()));
}

/// A service as it enters the fingerprint.
pub open spec fn service_line(s: ServiceHash) -> Seq<char> {
    plain(s.name@) + "="@ + plain(s.hash@)
}

/// The services of a project as they enter the fingerprint.
pub open spec fn service_lines(services: Seq<ServiceHash>) -> Seq<Seq<char>> {
    services.map_values(|s: ServiceHash| service_line(s))
}

/// A project as it enters the fingerprint.
pub open spec fn project_line(p: ManifestProject) -> Seq<char> {
    plain(p.id@) + ":"@ + joined(in_order(service_lines(p.services@)), ","@) + ":"@ + plain(p.rest@)
}

/// The projects of a manifest as they enter the fingerprint.
pub open spec fn project_lines(ps: Seq<ManifestProject>) -> Seq<Seq<char>> {
    ps.map_values(|p: ManifestProject| project_line(p))
}

/// The fingerprint of a manifest.
pub open spec fn fingerprint(ps: Seq<ManifestProject>) -> Seq<char> {
    joined(in_order(project_lines(ps)), "\n"@)
}

fn line_of(p: &ManifestProject) -> (r: String)
    ensures
        r@ == project_line(*p),
{
    let mut lines: Vec<String> = Vec::new();
    let mut i: usize = 0;
    while i < p.services.len()
        invariant
            i <= p.services.len(),
            texts(lines@) == service_lines(p.services@.take(i as int)),
        decreases p.services.len() - i,
    {
        let mut s = String::new();
        push_plain(&mut s, p.services[i].name.as_str());
        s.append("=");
        push_plain(&mut s, p.services[i].hash.as_str());
        assert(s@ =~= service_line(p.services@[i as int]));
        let ghost before = texts(lines@);
        lines.push(s);
        i = i + 1;
        assert(texts(lines@) =~= before.push(s@));
        assert(service_lines(p.services@.take(i as int)) =~= service_lines(
            p.services@.take(i - 1),
        ).push(service_line(p.services@[i - 1])));
    }
    assert(p.services@.take(p.services@.len() as int) =~= p.services@);
    let sorted = sort(lines);
    let all = join(&sorted, ",");
    let mut out = String::new();
    push_plain(&mut out, p.id.as_str());
    out.append(":");
    out.append(all.as_str());
    out.append(":");
    push_plain(&mut out, p.rest.as_str());
    assert(out@ =~= project_line(*p));
    out
}

/// Fingerprints a manifest by its projects, the configuration hashes of their services and whatever
/// else it says of them.
pub fn manifest_fingerprint(projects: &Vec<ManifestProject>) -> (r: String)
    ensures
        r@ == fingerprint(projects@),
{
    let mut lines: Vec<String> = Vec::new();
    let mut i: usize = 0;
    while i < projects.len()
        invariant
            i <= projects.len(),
            texts(lines@) == project_lines(projects@.take(i as int)),
        decreases projects.len() - i,
    {
        let ghost before = texts(lines@);
        let line = line_of(&projects[i]);
        lines.push(line);
        i = i + 1;
        assert(texts(lines@) =~= before.push(line@));
        assert(project_lines(projects@.take(i as int)) =~= project_lines(
            projects@.take(i - 1),
        ).push(project_line(projects@[i - 1])));
    }
    assert(projects@.take(projects@.len() as int) =~= projects@);
    let sorted = sort(lines);
    join(&sorted, "\n")
}

// ---------------------------------------------------------------------------
// What a fingerprint tells apart
// ---------------------------------------------------------------------------

/// What a manifest says of a project, whatever the order of its services.
#[verifier::ext_equal]
pub struct ProjectContent {
    /// The project.
    pub id: Seq<char>,
    /// Each service with the hash of its configuration.
    pub services: Multiset<(Seq<char>, Seq<char>)>,
    /// Everything else.
    pub rest: Seq<char>,
}

/// What a manifest says of a service.
pub open spec fn service_content() -> spec_fn(ServiceHash) -> (Seq<char>, Seq<char>) {
    |s: ServiceHash| (s.name@, s.hash@)
}

/// What a manifest says of a project.
pub open spec fn project_content(p: ManifestProject) -> ProjectContent {
    ProjectContent {
        id: p.id@,
        services: p.services@.map_values(service_content()).to_multiset(),
        rest: p.rest@,
    }
}

/// What a manifest says, whatever the order of its projects.
pub open spec fn manifest_content(ps: Seq<ManifestProject>) -> Multiset<ProjectContent> {
    ps.map_values(|p: ManifestProject| project_content(p)).to_multiset()
}

/// Two manifests have one fingerprint exactly when they say the same: rearranging projects or
/// services is no change, and anything else is.
pub proof fn law_fingerprint_tells_changes(a: Seq<ManifestProject>, b: Seq<ManifestProject>)
    ensures
        fingerprint(a) == fingerprint(b) <==> manifest_content(a) == manifest_content(b),
{
    let line = |p: ManifestProject| project_line(p);
    let content = |p: ManifestProject| project_content(p);
    if fingerprint(a) == fingerprint(b) {
        reveal_strlit("\n");
        assert("\n"@ =~= seq!['\n']);
        lemma_order_keeps(project_lines(a));
        lemma_order_keeps(project_lines(b));
        assert forall|x: Seq<char>| #[trigger] project_lines(a).contains(x) implies x.len() > 0
            && lacks(x, '\n') by {
            let i = choose|i: int| 0 <= i < project_lines(a).len() && project_lines(a)[i] == x;
            lemma_project_line(a[i]);
        }
        assert forall|x: Seq<char>| #[trigger] project_lines(b).contains(x) implies x.len() > 0
            && lacks(x, '\n') by {
            let i = choose|i: int| 0 <= i < project_lines(b).len() && project_lines(b)[i] == x;
            lemma_project_line(b[i]);
        }
        lemma_joined_apart(in_order(project_lines(a)), in_order(project_lines(b)), '\n');
        assert forall|p: ManifestProject, q: ManifestProject| #[trigger] line(p) == #[trigger] line(
            q,
        ) implies content(p) == content(q) by {
            lemma_project_line_apart(p, q);
        }
        lemma_relabel(a, b, line, content);
    }
    if manifest_content(a) == manifest_content(b) {
        assert forall|p: ManifestProject, q: ManifestProject| #[trigger] content(p)
            == #[trigger] content(q) implies line(p) == line(q) by {
            lemma_project_line_same(p, q);
        }
        lemma_relabel(a, b, content, line);
        lemma_same_order(project_lines(a), project_lines(b));
    }
}

/// A project of which a manifest comes to say something else, be it of a service or of the rest,
/// gives the manifest another fingerprint.
pub proof fn law_changed_project_is_seen(ps: Seq<ManifestProject>, i: int, q: ManifestProject)
    requires
        0 <= i < ps.len(),
        project_content(q) != project_content(ps[i]),
    ensures
        fingerprint(ps.update(i, q)) != fingerprint(ps),
{
    let content = |p: ManifestProject| project_content(p);
    let now = ps.update(i, q);
    law_fingerprint_tells_changes(now, ps);
    let before = ps.map_values(content);
    assert(now.map_values(content) =~= before.update(i, content(q)));
    vstd::seq_lib::to_multiset_update(before, i, content(q));
    assert(manifest_content(now).count(content(q)) == manifest_content(ps).count(content(q)) + 1);
}

/// A project of which a manifest comes to say something else beside its services gives the manifest
/// another fingerprint.
pub proof fn law_changed_rest_is_seen(ps: Seq<ManifestProject>, i: int, q: ManifestProject)
    requires
        0 <= i < ps.len(),
        q.id == ps[i].id,
        q.services == ps[i].services,
        q.rest@ != ps[i].rest@,
    ensures
        fingerprint(ps.update(i, q)) != fingerprint(ps),
{
    law_changed_project_is_seen(ps, i, q);
}

proof fn lemma_same_order(a: Seq<Seq<char>>, b: Seq<Seq<char>>)
    requires
        a.to_multiset() == b.to_multiset(),
    ensures
        in_order(a) == in_order(b),
{
    lemma_up_to();
    a.lemma_sort_by_ensures(up_to());
    b.lemma_sort_by_ensures(up_to());
    lemma_sorted_unique(in_order(a), in_order(b), up_to());
}

proof fn lemma_order_keeps(a: Seq<Seq<char>>)
    ensures
        in_order(a).to_multiset() == a.to_multiset(),
        forall|x: Seq<char>| #[trigger] in_order(a).contains(x) <==> a.contains(x),
{
    lemma_up_to();
    a.lemma_sort_by_ensures(up_to());
    broadcast use vstd::seq_lib::group_to_multiset_ensures;
    assert forall|x: Seq<char>| #[trigger] in_order(a).contains(x) <==> a.contains(x) by {
        assert(in_order(a).contains(x) <==> in_order(a).to_multiset().count(x) > 0);
        assert(a.contains(x) <==> a.to_multiset().count(x) > 0);
    }
}

/// What is the same under one label is the same under another that the first decides.
proof fn lemma_relabel<A, B, C>(a: Seq<A>, b: Seq<A>, f: spec_fn(A) -> B, g: spec_fn(A) -> C)
    requires
        a.map_values(f).to_multiset() == b.map_values(f).to_multiset(),
        forall|x: A, y: A| #[trigger] f(x) == #[trigger] f(y) ==> g(x) == g(y),
    ensures
        a.map_values(g).to_multiset() == b.map_values(g).to_multiset(),
    decreases a.len(),
{
    broadcast use vstd::seq_lib::group_to_multiset_ensures;
    let fa = a.map_values(f);
    let fb = b.map_values(f);
    assert(fa.to_multiset().len() == fb.to_multiset().len());
    if a.len() == 0 {
        assert(a.map_values(g) =~= b.map_values(g));
    } else {
        let x = a.last();
        assert(fa[a.len() - 1] == f(x));
        assert(fa.contains(f(x)));
        assert(fa.to_multiset().count(f(x)) > 0);
        assert(fb.contains(f(x)));
        let j = choose|j: int| 0 <= j < fb.len() && fb[j] == f(x);
        let less_a = a.drop_last();
        let less_b = b.remove(j);
        assert(less_a.map_values(f) =~= fa.remove(a.len() - 1));
        assert(less_b.map_values(f) =~= fb.remove(j));
        vstd::seq_lib::to_multiset_remove(fa, a.len() - 1);
        vstd::seq_lib::to_multiset_remove(fb, j);
        lemma_relabel(less_a, less_b, f, g);
        let ga = a.map_values(g);
        let gb = b.map_values(g);
        assert(f(b[j]) == f(x));
        assert(g(b[j]) == g(x));
        assert(less_a.map_values(g) =~= ga.remove(a.len() - 1));
        assert(less_b.map_values(g) =~= gb.remove(j));
        vstd::seq_lib::to_multiset_remove(ga, a.len() - 1);
        vstd::seq_lib::to_multiset_remove(gb, j);
        assert(ga[a.len() - 1] == g(x));
        assert(gb[j] == g(x));
        assert(ga.contains(g(x)) && gb.contains(g(x)));
        assert(ga.to_multiset() =~= ga.remove(a.len() - 1).to_multiset().insert(g(x)));
        assert(gb.to_multiset() =~= gb.remove(j).to_multiset().insert(g(x)));
    }
}

/// Whether a text is free of a character.
spec fn lacks(s: Seq<char>, c: char) -> bool {
    forall|i: int| 0 <= i < s.len() ==> #[trigger] s[i] != c
}

/// Whether a character separates parts.
spec fn separates(c: char) -> bool {
    c == '\n' || c == ':' || c == '=' || c == ','
}

proof fn lemma_plain_lacks(s: Seq<char>)
    ensures
        forall|c: char| #[trigger] separates(c) ==> lacks(plain(s), c),
    decreases s.len(),
{
    if s.len() > 0 {
        lemma_plain_lacks(s.drop_first());
        let head = plain_char(s[0]);
        let tail = plain(s.drop_first());
        assert forall|c: char| #[trigger] separates(c) implies lacks(plain(s), c) by {
            assert(lacks(tail, c));
            assert forall|i: int| 0 <= i < plain(s).len() implies #[trigger] plain(s)[i] != c by {
                if i < head.len() {
                    assert(plain(s)[i] == head[i]);
                } else {
                    assert(plain(s)[i] == tail[i - head.len()]);
                }
            }
        }
    }
}

proof fn lemma_plain_apart(a: Seq<char>, b: Seq<char>)
    requires
        plain(a) == plain(b),
    ensures
        a == b,
    decreases a.len(),
{
    if a.len() == 0 || b.len() == 0 {
        assert(a =~= b);
    } else {
        let ha = plain_char(a[0]);
        let hb = plain_char(b[0]);
        let ta = plain(a.drop_first());
        let tb = plain(b.drop_first());
        assert(plain(a)[0] == ha[0]);
        assert(plain(b)[0] == hb[0]);
        if ha.len() == 2 {
            assert(plain(a)[1] == ha[1]);
        }
        if hb.len() == 2 {
            assert(plain(b)[1] == hb[1]);
        }
        assert(ha.len() == hb.len());
        assert(a[0] == b[0]);
        assert(ta =~= plain(a).skip(ha.len() as int));
        assert(tb =~= plain(b).skip(hb.len() as int));
        lemma_plain_apart(a.drop_first(), b.drop_first());
        assert(a =~= seq![a[0]] + a.drop_first());
        assert(b =~= seq![b[0]] + b.drop_first());
    }
}

/// A text is split at its last separator in one way only.
proof fn lemma_split_apart(p: Seq<char>, q: Seq<char>, x: Seq<char>, y: Seq<char>, c: char)
    requires
        p + seq![c] + q == x + seq![c] + y,
        lacks(q, c),
        lacks(y, c),
    ensures
        p == x,
        q == y,
{
    let s = p + seq![c] + q;
    let t = x + seq![c] + y;
    assert(s[p.len() as int] == c);
    assert(t[x.len() as int] == c);
    assert(s.len() == p.len() + 1 + q.len() && t.len() == x.len() + 1 + y.len());
    if p.len() < x.len() {
        assert(s[x.len() as int] == q[x.len() - p.len() - 1]);
    } else if x.len() < p.len() {
        assert(t[p.len() as int] == y[p.len() - x.len() - 1]);
    }
    assert(p =~= s.take(p.len() as int));
    assert(x =~= t.take(x.len() as int));
    assert(q =~= s.skip((p.len() + 1) as int));
    assert(y =~= t.skip((x.len() + 1) as int));
}

proof fn lemma_joined_apart(a: Seq<Seq<char>>, b: Seq<Seq<char>>, c: char)
    requires
        joined(a, seq![c]) == joined(b, seq![c]),
        forall|x: Seq<char>| #[trigger] a.contains(x) ==> x.len() > 0 && lacks(x, c),
        forall|x: Seq<char>| #[trigger] b.contains(x) ==> x.len() > 0 && lacks(x, c),
    ensures
        a == b,
    decreases a.len(),
{
    let sep = seq![c];
    if a.len() > 0 {
        assert(a.contains(a.last()));
    }
    if b.len() > 0 {
        assert(b.contains(b.last()));
    }
    if a.len() == 0 || b.len() == 0 {
        assert(a =~= b);
    } else if a.len() == 1 && b.len() == 1 {
        assert(a =~= b);
    } else if a.len() == 1 {
        let rest = joined(b.drop_last(), sep);
        assert(joined(b, sep)[rest.len() as int] == c);
        assert(a[0] == a.last());
    } else if b.len() == 1 {
        let rest = joined(a.drop_last(), sep);
        assert(joined(a, sep)[rest.len() as int] == c);
        assert(b[0] == b.last());
    } else {
        lemma_split_apart(
            joined(a.drop_last(), sep),
            a.last(),
            joined(b.drop_last(), sep),
            b.last(),
            c,
        );
        assert forall|x: Seq<char>| #[trigger] a.drop_last().contains(x) implies x.len() > 0
            && lacks(x, c) by {
            let i = choose|i: int| 0 <= i < a.drop_last().len() && a.drop_last()[i] == x;
            assert(a[i] == x);
            assert(a.contains(x));
        }
        assert forall|x: Seq<char>| #[trigger] b.drop_last().contains(x) implies x.len() > 0
            && lacks(x, c) by {
            let i = choose|i: int| 0 <= i < b.drop_last().len() && b.drop_last()[i] == x;
            assert(b[i] == x);
            assert(b.contains(x));
        }
        lemma_joined_apart(a.drop_last(), b.drop_last(), c);
        assert(a =~= a.drop_last().push(a.last()));
        assert(b =~= b.drop_last().push(b.last()));
    }
}

proof fn lemma_joined_lacks(a: Seq<Seq<char>>, sep: char, c: char)
    requires
        sep != c,
        forall|x: Seq<char>| #[trigger] a.contains(x) ==> lacks(x, c),
    ensures
        lacks(joined(a, seq![sep]), c),
    decreases a.len(),
{
    if a.len() == 1 {
        assert(a.contains(a[0]));
    } else if a.len() > 1 {
        assert(a.contains(a.last()));
        assert forall|x: Seq<char>| #[trigger] a.drop_last().contains(x) implies lacks(x, c) by {
            let i = choose|i: int| 0 <= i < a.drop_last().len() && a.drop_last()[i] == x;
            assert(a[i] == x);
            assert(a.contains(x));
        }
        lemma_joined_lacks(a.drop_last(), sep, c);
        lemma_glued_lacks(joined(a.drop_last(), seq![sep]), seq![sep], a.last(), c);
    }
}

proof fn lemma_glued_lacks(p: Seq<char>, sep: Seq<char>, q: Seq<char>, c: char)
    requires
        lacks(p, c),
        lacks(sep, c),
        lacks(q, c),
    ensures
        lacks(p + sep + q, c),
{
    let s = p + sep + q;
    assert forall|i: int| 0 <= i < s.len() implies #[trigger] s[i] != c by {
        if i < p.len() {
            assert(s[i] == p[i]);
        } else if i < p.len() + sep.len() {
            assert(s[i] == sep[i - p.len()]);
        } else {
            assert(s[i] == q[i - p.len() - sep.len()]);
        }
    }
}

proof fn lemma_service_line(s: ServiceHash)
    ensures
        service_line(s) == plain(s.name@) + seq!['='] + plain(s.hash@),
        service_line(s).len() > 0,
        forall|c: char| #[trigger] separates(c) && c != '=' ==> lacks(service_line(s), c),
{
    reveal_strlit("=");
    assert("="@ =~= seq!['=']);
    lemma_plain_lacks(s.name@);
    lemma_plain_lacks(s.hash@);
    assert forall|c: char| #[trigger] separates(c) && c != '=' implies lacks(service_line(s), c) by {
        lemma_glued_lacks(plain(s.name@), seq!['='], plain(s.hash@), c);
    }
}

proof fn lemma_service_line_apart(s: ServiceHash, t: ServiceHash)
    requires
        service_line(s) == service_line(t),
    ensures
        s.name@ == t.name@,
        s.hash@ == t.hash@,
{
    lemma_service_line(s);
    lemma_service_line(t);
    lemma_plain_lacks(s.hash@);
    lemma_plain_lacks(t.hash@);
    assert(separates('='));
    lemma_split_apart(plain(s.name@), plain(s.hash@), plain(t.name@), plain(t.hash@), '=');
    lemma_plain_apart(s.name@, t.name@);
    lemma_plain_apart(s.hash@, t.hash@);
}

/// The services of a project as they are written.
spec fn services_text(p: ManifestProject) -> Seq<char> {
    joined(in_order(service_lines(p.services@)), seq![','])
}

proof fn lemma_services(p: ManifestProject)
    ensures
        forall|x: Seq<char>| #[trigger]
            in_order(service_lines(p.services@)).contains(x) ==> x.len() > 0 && lacks(x, ',')
                && lacks(x, ':') && lacks(x, '\n'),
        lacks(services_text(p), ':'),
        lacks(services_text(p), '\n'),
{
    let lines = service_lines(p.services@);
    lemma_order_keeps(lines);
    assert forall|x: Seq<char>| #[trigger] in_order(lines).contains(x) implies x.len() > 0 && lacks(
        x,
        ',',
    ) && lacks(x, ':') && lacks(x, '\n') by {
        assert(lines.contains(x));
        let i = choose|i: int| 0 <= i < lines.len() && lines[i] == x;
        lemma_service_line(p.services@[i]);
        assert(separates(',') && separates(':') && separates('\n'));
    }
    lemma_joined_lacks(in_order(lines), ',', ':');
    lemma_joined_lacks(in_order(lines), ',', '\n');
}

proof fn lemma_project_line(p: ManifestProject)
    ensures
        project_line(p) == plain(p.id@) + seq![':'] + services_text(p) + seq![':'] + plain(p.rest@),
        project_line(p).len() > 0,
        lacks(project_line(p), '\n'),
{
    reveal_strlit(":");
    reveal_strlit(",");
    assert(":"@ =~= seq![':']);
    assert(","@ =~= seq![',']);
    lemma_services(p);
    lemma_plain_lacks(p.id@);
    lemma_plain_lacks(p.rest@);
    assert(separates('\n'));
    let head = plain(p.id@) + seq![':'] + services_text(p);
    lemma_glued_lacks(plain(p.id@), seq![':'], services_text(p), '\n');
    lemma_glued_lacks(head, seq![':'], plain(p.rest@), '\n');
}

proof fn lemma_project_line_apart(p: ManifestProject, q: ManifestProject)
    requires
        project_line(p) == project_line(q),
    ensures
        project_content(p) == project_content(q),
{
    lemma_project_line(p);
    lemma_project_line(q);
    lemma_services(p);
    lemma_services(q);
    lemma_plain_lacks(p.rest@);
    lemma_plain_lacks(q.rest@);
    assert(separates(':'));
    lemma_split_apart(
        plain(p.id@) + seq![':'] + services_text(p),
        plain(p.rest@),
        plain(q.id@) + seq![':'] + services_text(q),
        plain(q.rest@),
        ':',
    );
    lemma_split_apart(plain(p.id@), services_text(p), plain(q.id@), services_text(q), ':');
    lemma_plain_apart(p.id@, q.id@);
    lemma_plain_apart(p.rest@, q.rest@);
    let sp = service_lines(p.services@);
    let sq = service_lines(q.services@);
    lemma_joined_apart(in_order(sp), in_order(sq), ',');
    lemma_order_keeps(sp);
    lemma_order_keeps(sq);
    let line = |s: ServiceHash| service_line(s);
    assert forall|s: ServiceHash, t: ServiceHash| #[trigger] line(s) == #[trigger] line(t) implies (
    service_content())(s) == (service_content())(t) by {
        lemma_service_line_apart(s, t);
    }
    lemma_relabel(p.services@, q.services@, line, service_content());
}

proof fn lemma_project_line_same(p: ManifestProject, q: ManifestProject)
    requires
        project_content(p) == project_content(q),
    ensures
        project_line(p) == project_line(q),
{
    let line = |s: ServiceHash| service_line(s);
    let content = service_content();
    assert forall|s: ServiceHash, t: ServiceHash| #[trigger] content(s) == #[trigger] content(
        t,
    ) implies line(s) == line(t) by {}
    lemma_relabel(p.services@, q.services@, content, line);
    lemma_same_order(service_lines(p.services@), service_lines(q.services@));
}

} // verus!
