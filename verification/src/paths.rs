//! Unix paths as plain text.

use vstd::prelude::*;

use crate::text::{
    chars_of, ends, ends_with, find_char, first_of, lemma_first_of, same, starts, starts_with,
    string_of, texts,
};

verus! {

/// `base` extended by `part`. An absolute `part` replaces `base`.
pub open spec fn joined_path(base: Seq<char>, part: Seq<char>) -> Seq<char> {
    if starts(part, "/"@) || base.len() == 0 {
        part
    } else if ends(base, "/"@) {
        base + part
    } else {
        base + "/"@ + part
    }
}

/// `Path::join` on Unix.
pub fn join_path(base: &str, part: &str) -> (r: String)
    ensures
        r@ == joined_path(base@, part@),
{
    if starts_with(part, "/") || base.is_empty() {
        return part.to_owned();
    }
    let mut r = base.to_owned();
    if !ends_with(base, "/") {
        r.append("/");
    }
    r.append(part);
    r
}

/// The parts of a path between its slashes. Empty parts and `.` do not count.
pub open spec fn parts(s: Seq<char>) -> Seq<Seq<char>>
    decreases s.len(),
{
    proof {
        lemma_first_of(s, '/');
    }
    let i = first_of(s, '/');
    let head = s.take(i);
    let rest = if i < s.len() {
        parts(s.skip(i + 1))
    } else {
        seq![]
    };
    if head.len() == 0 || head == "."@ {
        rest
    } else {
        seq![head] + rest
    }
}

fn parts_of(s: &str) -> (r: Vec<String>)
    ensures
        texts(r@) == parts(s@),
{
    let v = chars_of(s);
    let mut r: Vec<String> = Vec::new();
    let mut a: usize = 0;
    assert(v@.skip(0) =~= s@);
    assert(texts(r@) + parts(v@.skip(0)) =~= parts(s@));
    while a < v.len()
        invariant
            a <= v.len(),
            texts(r@) + parts(v@.skip(a as int)) == parts(s@),
        decreases v.len() - a,
    {
        let b = find_char(&v, a, '/');
        let part = string_of(&v, a, b);
        let ghost rest = v@.skip(a as int);
        let ghost before = texts(r@);
        assert(rest.take(b - a) =~= part@);
        if b > a && !same(part.as_str(), ".") {
            r.push(part);
            assert(texts(r@) =~= before.push(part@));
        }
        if b < v.len() {
            assert(rest.skip(b - a + 1) =~= v@.skip(b + 1));
            a = b + 1;
            assert(texts(r@) + parts(v@.skip(a as int)) =~= before + parts(rest));
        } else {
            a = v.len();
            assert(v@.skip(a as int) =~= Seq::<char>::empty());
            assert(parts(v@.skip(a as int)) =~= Seq::<Seq<char>>::empty());
            assert(texts(r@) + parts(v@.skip(a as int)) =~= before + parts(rest));
        }
    }
    assert(v@.skip(a as int) =~= Seq::<char>::empty());
    assert(texts(r@) + parts(v@.skip(a as int)) =~= texts(r@));
    r
}

/// Whether an absolute path is `base` or lies below it.
pub open spec fn lies_under(path: Seq<char>, base: Seq<char>) -> bool {
    starts(path, "/"@) && starts(base, "/"@) && parts(base).is_prefix_of(parts(path))
}

/// `Path::starts_with` on Unix, for an absolute `base`.
pub fn is_under(path: &str, base: &str) -> (r: bool)
    ensures
        r == lies_under(path@, base@),
{
    if !starts_with(path, "/") || !starts_with(base, "/") {
        return false;
    }
    let of_path = parts_of(path);
    let of_base = parts_of(base);
    if of_base.len() > of_path.len() {
        return false;
    }
    let mut i: usize = 0;
    while i < of_base.len()
        invariant
            i <= of_base.len() <= of_path.len(),
            texts(of_base@) == parts(base@),
            texts(of_path@) == parts(path@),
            forall|j: int| 0 <= j < i ==> parts(base@)[j] == parts(path@)[j],
        decreases of_base.len() - i,
    {
        assert(parts(base@)[i as int] == of_base@[i as int]@);
        assert(parts(path@)[i as int] == of_path@[i as int]@);
        if !same(of_base[i].as_str(), of_path[i].as_str()) {
            return false;
        }
        i = i + 1;
    }
    assert(parts(base@) =~= parts(path@).take(parts(base@).len() as int));
    true
}

/// A path is put below its base with just one slash between them; an absolute path stands for
/// itself.
pub proof fn law_joined_path_has_one_slash(base: Seq<char>, part: Seq<char>)
    requires
        base.len() > 0,
        part.len() > 0,
    ensures
        part[0] == '/' ==> joined_path(base, part) == part,
        part[0] != '/' && base.last() == '/' ==> joined_path(base, part) == base + part,
        part[0] != '/' && base.last() != '/' ==> joined_path(base, part) == base.push('/') + part,
{
    reveal_strlit("/");
    assert("/"@ =~= seq!['/']);
    assert(part.subrange(0, 1) =~= seq![part[0]]);
    assert(part.subrange(0, 1)[0] == part[0]);
    let n = base.len() as int;
    assert(base.subrange(n - 1, n) =~= seq![base.last()]);
    assert(base.subrange(n - 1, n)[0] == base.last());
    assert("/"@[0] == '/');
    assert(base + "/"@ + part =~= base.push('/') + part);
}

} // verus!
