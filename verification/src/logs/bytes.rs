//! Lines of bytes: splitting, keeping the last ones, and reading them as they arrive.

use vstd::prelude::*;
use vstd::slice::{slice_subrange, slice_to_vec};

verus! {

/// The byte that ends a line.
pub const NEWLINE: u8 = 10;

/// The position of the first newline in `s`, or `s.len()` when there is none.
pub open spec fn newline_at(s: Seq<u8>) -> int
    decreases s.len(),
{
    if s.len() == 0 || s[0] == NEWLINE {
        0
    } else {
        1 + newline_at(s.drop_first())
    }
}

pub proof fn lemma_newline_at(s: Seq<u8>)
    ensures
        0 <= newline_at(s) <= s.len(),
        newline_at(s) < s.len() ==> s[newline_at(s)] == NEWLINE,
        forall|j: int| 0 <= j < newline_at(s) ==> s[j] != NEWLINE,
    decreases s.len(),
{
    if s.len() > 0 && s[0] != NEWLINE {
        lemma_newline_at(s.drop_first());
        assert forall|j: int| 0 <= j < newline_at(s) implies s[j] != NEWLINE by {
            if j > 0 {
                assert(s[j] == s.drop_first()[j - 1]);
            }
        }
    }
}

pub proof fn lemma_newline_is(s: Seq<u8>, i: int)
    requires
        0 <= i <= s.len(),
        i < s.len() ==> s[i] == NEWLINE,
        forall|j: int| 0 <= j < i ==> s[j] != NEWLINE,
    ensures
        newline_at(s) == i,
{
    lemma_newline_at(s);
}

/// The lines of `s`, each with its newline; the last may lack one.
pub open spec fn pieces(s: Seq<u8>) -> Seq<Seq<u8>>
    decreases s.len(),
{
    proof {
        lemma_newline_at(s);
    }
    let i = newline_at(s);
    if s.len() == 0 {
        seq![]
    } else if i >= s.len() {
        seq![s]
    } else {
        seq![s.take(i + 1)] + pieces(s.skip(i + 1))
    }
}

/// The lines that are complete in `s`, without their newlines.
pub open spec fn full_lines(s: Seq<u8>) -> Seq<Seq<u8>>
    decreases s.len(),
{
    proof {
        lemma_newline_at(s);
    }
    let i = newline_at(s);
    if i >= s.len() {
        seq![]
    } else {
        seq![s.take(i)] + full_lines(s.skip(i + 1))
    }
}

/// What follows the last newline of `s`.
pub open spec fn left_over(s: Seq<u8>) -> Seq<u8>
    decreases s.len(),
{
    proof {
        lemma_newline_at(s);
    }
    let i = newline_at(s);
    if i >= s.len() {
        s
    } else {
        left_over(s.skip(i + 1))
    }
}

/// All of `ps`, one after the other.
pub open spec fn flat(ps: Seq<Seq<u8>>) -> Seq<u8>
    decreases ps.len(),
{
    if ps.len() == 0 {
        seq![]
    } else {
        ps[0] + flat(ps.drop_first())
    }
}

pub proof fn lemma_flat_add(a: Seq<Seq<u8>>, b: Seq<Seq<u8>>)
    ensures
        flat(a + b) == flat(a) + flat(b),
    decreases a.len(),
{
    if a.len() == 0 {
        assert(a + b =~= b);
    } else {
        assert((a + b).drop_first() =~= a.drop_first() + b);
        lemma_flat_add(a.drop_first(), b);
        assert(flat(a + b) =~= flat(a) + flat(b));
    }
}

pub proof fn lemma_flat_one(x: Seq<u8>)
    ensures
        flat(seq![x]) == x,
{
    reveal_with_fuel(flat, 2);
    assert(seq![x].drop_first() =~= Seq::<Seq<u8>>::empty());
    assert(flat(seq![x]) =~= x);
}

pub proof fn lemma_flat_push(a: Seq<Seq<u8>>, x: Seq<u8>)
    ensures
        flat(a.push(x)) == flat(a) + x,
{
    assert(a.push(x) =~= a + seq![x]);
    lemma_flat_add(a, seq![x]);
    lemma_flat_one(x);
}

/// Splitting loses nothing.
pub proof fn lemma_flat_pieces(s: Seq<u8>)
    ensures
        flat(pieces(s)) == s,
    decreases s.len(),
{
    lemma_newline_at(s);
    let i = newline_at(s);
    if s.len() == 0 {
    } else if i >= s.len() {
        lemma_flat_one(s);
    } else {
        let rest = s.skip(i + 1);
        lemma_flat_pieces(rest);
        let ps = pieces(s);
        assert(ps.drop_first() =~= pieces(rest));
        assert(s.take(i + 1) + rest =~= s);
    }
}

/// Lines before a newline and lines after it do not mix.
pub proof fn lemma_pieces_add(a: Seq<u8>, b: Seq<u8>)
    requires
        a.len() == 0 || a.last() == NEWLINE,
    ensures
        pieces(a + b) == pieces(a) + pieces(b),
    decreases a.len(),
{
    if a.len() == 0 {
        assert(a + b =~= b);
        assert(pieces(a) + pieces(b) =~= pieces(b));
    } else {
        lemma_newline_at(a);
        let i = newline_at(a);
        assert(i < a.len());
        let s = a + b;
        assert forall|j: int| 0 <= j < i implies s[j] != NEWLINE by {
            assert(s[j] == a[j]);
        }
        lemma_newline_is(s, i);
        assert(s.take(i + 1) =~= a.take(i + 1));
        assert(s.skip(i + 1) =~= a.skip(i + 1) + b);
        if a.skip(i + 1).len() > 0 {
            assert(a.skip(i + 1).last() == a.last());
        }
        lemma_pieces_add(a.skip(i + 1), b);
        assert(pieces(s) =~= pieces(a) + pieces(b));
    }
}

pub proof fn lemma_pieces_prepend(c: u8, t: Seq<u8>)
    ensures
        c == NEWLINE || t.len() == 0 ==> pieces(seq![c] + t) == seq![seq![c]] + pieces(t),
        c != NEWLINE && t.len() > 0 ==> {
            &&& pieces(t).len() > 0
            &&& pieces(seq![c] + t).len() == pieces(t).len()
            &&& pieces(seq![c] + t) == seq![seq![c] + pieces(t)[0]] + pieces(t).drop_first()
        },
{
    let s = seq![c] + t;
    lemma_newline_at(t);
    if c == NEWLINE {
        lemma_newline_is(s, 0);
        assert(s.take(1) =~= seq![c]);
        assert(s.skip(1) =~= t);
    } else {
        let i = newline_at(t);
        assert forall|j: int| 0 <= j < i + 1 implies s[j] != NEWLINE by {
            if j > 0 {
                assert(s[j] == t[j - 1]);
            }
        }
        lemma_newline_is(s, i + 1);
        if t.len() == 0 {
            assert(s =~= seq![c]);
            assert(pieces(t) =~= Seq::<Seq<u8>>::empty());
            assert(pieces(s) =~= seq![seq![c]] + pieces(t));
        } else if i >= t.len() {
            assert(pieces(s) =~= seq![seq![c] + pieces(t)[0]] + pieces(t).drop_first());
        } else {
            assert(s.take(i + 2) =~= seq![c] + t.take(i + 1));
            assert(s.skip(i + 2) =~= t.skip(i + 1));
            assert(pieces(t).drop_first() =~= pieces(t.skip(i + 1)));
            assert(pieces(s) =~= seq![seq![c] + pieces(t)[0]] + pieces(t).drop_first());
        }
    }
}

/// The last `n` of `ps`.
pub open spec fn last_n<T>(ps: Seq<T>, n: nat) -> Seq<T> {
    if n >= ps.len() {
        ps
    } else {
        ps.skip(ps.len() - n)
    }
}

/// The last `n` lines of `s`.
pub open spec fn tail(s: Seq<u8>, n: nat) -> Seq<u8> {
    flat(last_n(pieces(s), n))
}

/// The last `lines` newline-delimited lines of `bytes`.
pub fn tail_log_bytes(bytes: &[u8], lines: usize) -> (r: Vec<u8>)
    ensures
        r@ == tail(bytes@, lines as nat),
{
    let ghost s = bytes@;
    let len: usize = bytes.len();
    if lines == 0 || len == 0 {
        let r: Vec<u8> = Vec::new();
        assert(last_n(pieces(s), lines as nat) =~= Seq::<Seq<u8>>::empty());
        return r;
    }
    let mut index: usize = len;
    if bytes[len - 1] == NEWLINE {
        index = len - 1;
        proof {
            assert(s.skip(index as int) =~= seq![s[index as int]] + Seq::<u8>::empty());
            lemma_pieces_prepend(s[index as int], Seq::<u8>::empty());
        }
    }
    let mut seen: usize = 0;
    while index > 0
        invariant
            index <= len == s.len(),
            s == bytes@,
            seen < lines,
            index < len ==> pieces(s.skip(index as int)).len() == seen + 1,
            index == len ==> seen == 0 && s[len - 1] != NEWLINE,
        decreases index,
    {
        index = index - 1;
        let ghost rest = s.skip(index + 1);
        proof {
            assert(s.skip(index as int) =~= seq![s[index as int]] + rest);
            lemma_pieces_prepend(s[index as int], rest);
        }
        if bytes[index] == NEWLINE {
            seen = seen + 1;
            if seen == lines {
                let r = slice_to_vec(slice_subrange(bytes, index + 1, len));
                proof {
                    let head = s.take(index + 1);
                    assert(s =~= head + rest);
                    lemma_pieces_add(head, rest);
                    assert(last_n(pieces(s), lines as nat) =~= pieces(rest));
                    lemma_flat_pieces(rest);
                    assert(r@ =~= rest);
                }
                return r;
            }
        }
    }
    proof {
        assert(s.skip(0) =~= s);
        lemma_flat_pieces(s);
    }
    slice_to_vec(bytes)
}

// ---------------------------------------------------------------------------
// Splitting
// ---------------------------------------------------------------------------

/// What rows of bytes hold.
pub open spec fn rows(v: Seq<Vec<u8>>) -> Seq<Seq<u8>> {
    v.map_values(|r: Vec<u8>| r@)
}

/// The position of the first newline at or after `from`, or the length.
pub fn find_newline(bytes: &[u8], from: usize) -> (r: usize)
    requires
        from <= bytes@.len(),
    ensures
        from <= r <= bytes@.len(),
        r == from + newline_at(bytes@.skip(from as int)),
{
    let mut i: usize = from;
    while i < bytes.len() && bytes[i] != NEWLINE
        invariant
            from <= i <= bytes@.len(),
            forall|j: int| from <= j < i ==> bytes@[j] != NEWLINE,
        decreases bytes@.len() - i,
    {
        i = i + 1;
    }
    proof {
        lemma_newline_is(bytes@.skip(from as int), i - from);
    }
    i
}

/// The bytes `from..to`.
pub fn part(bytes: &[u8], from: usize, to: usize) -> (r: Vec<u8>)
    requires
        from <= to <= bytes@.len(),
    ensures
        r@ == bytes@.subrange(from as int, to as int),
{
    slice_to_vec(slice_subrange(bytes, from, to))
}

/// The lines of `bytes`, each with its newline; the last may lack one.
pub fn split_inclusive(bytes: &[u8]) -> (r: Vec<Vec<u8>>)
    ensures
        rows(r@) == pieces(bytes@),
{
    let ghost s = bytes@;
    let mut out: Vec<Vec<u8>> = Vec::new();
    let mut start: usize = 0;
    assert(s.skip(0) =~= s);
    assert(rows(out@) + pieces(s) =~= pieces(s));
    while start < bytes.len()
        invariant
            start <= s.len(),
            s == bytes@,
            rows(out@) + pieces(s.skip(start as int)) == pieces(s),
        decreases s.len() - start,
    {
        let ghost rest = s.skip(start as int);
        let ghost before = rows(out@);
        let nl = find_newline(bytes, start);
        let end: usize = if nl < bytes.len() {
            nl + 1
        } else {
            nl
        };
        let line = part(bytes, start, end);
        proof {
            lemma_newline_at(rest);
            if nl < s.len() {
                assert(line@ =~= rest.take(newline_at(rest) + 1));
                assert(rest.skip(newline_at(rest) + 1) =~= s.skip(end as int));
            } else {
                assert(line@ =~= rest);
                assert(s.skip(end as int) =~= Seq::<u8>::empty());
            }
            assert(pieces(rest) =~= seq![line@] + pieces(s.skip(end as int)));
        }
        out.push(line);
        assert(rows(out@) =~= before.push(line@));
        assert(before.push(line@) + pieces(s.skip(end as int)) =~= before + pieces(rest));
        start = end;
    }
    assert(s.skip(s.len() as int) =~= Seq::<u8>::empty());
    assert(rows(out@) =~= rows(out@) + pieces(s.skip(s.len() as int)));
    out
}

/// All of `parts`, one after the other.
pub fn concat(parts: &Vec<Vec<u8>>) -> (r: Vec<u8>)
    ensures
        r@ == flat(rows(parts@)),
{
    let mut out: Vec<u8> = Vec::new();
    let mut i: usize = 0;
    let ghost all = rows(parts@);
    assert(all.take(0) =~= Seq::<Seq<u8>>::empty());
    while i < parts.len()
        invariant
            i <= parts.len(),
            all == rows(parts@),
            out@ == flat(all.take(i as int)),
        decreases parts.len() - i,
    {
        out.extend_from_slice(parts[i].as_slice());
        proof {
            assert(all.take(i + 1) =~= all.take(i as int).push(all[i as int]));
            lemma_flat_push(all.take(i as int), all[i as int]);
        }
        i = i + 1;
    }
    assert(all.take(all.len() as int) =~= all);
    out
}

// ---------------------------------------------------------------------------
// Lines as they arrive
// ---------------------------------------------------------------------------

/// Puts lines together from chunks that arrive one after the other.
pub struct LineFeed {
    /// The line that is not complete yet.
    pub pending: Vec<u8>,
}

impl LineFeed {
    /// A feed into which nothing has come yet.
    pub fn new() -> (r: Self)
        ensures
            r.pending@ == Seq::<u8>::empty(),
    {
        LineFeed { pending: Vec::new() }
    }

    /// Takes a chunk in, and gives out the lines that are complete now, without their newlines.
    pub fn feed(&mut self, chunk: &[u8]) -> (r: Vec<Vec<u8>>)
        ensures
            rows(r@) == full_lines(old(self).pending@ + chunk@),
            final(self).pending@ == left_over(old(self).pending@ + chunk@),
    {
        self.pending.extend_from_slice(chunk);
        let ghost s = self.pending@;
        assert(s =~= old(self).pending@ + chunk@);
        let mut out: Vec<Vec<u8>> = Vec::new();
        let mut start: usize = 0;
        assert(s.skip(0) =~= s);
        assert(rows(out@) + full_lines(s) =~= full_lines(s));
        let mut nl: usize = find_newline(self.pending.as_slice(), 0);
        while nl < self.pending.len()
            invariant
                start <= nl <= s.len(),
                s == self.pending@,
                nl == start + newline_at(s.skip(start as int)),
                rows(out@) + full_lines(s.skip(start as int)) == full_lines(s),
                left_over(s.skip(start as int)) == left_over(s),
            decreases s.len() - start,
        {
            let ghost rest = s.skip(start as int);
            let ghost before = rows(out@);
            let line = part(self.pending.as_slice(), start, nl);
            proof {
                lemma_newline_at(rest);
                assert(line@ =~= rest.take(newline_at(rest)));
                assert(rest.skip(newline_at(rest) + 1) =~= s.skip(nl + 1));
            }
            out.push(line);
            assert(rows(out@) =~= before.push(line@));
            assert(before.push(line@) + full_lines(s.skip(nl + 1)) =~= before + full_lines(rest));
            start = nl + 1;
            nl = find_newline(self.pending.as_slice(), start);
        }
        proof {
            lemma_newline_at(s.skip(start as int));
            assert(full_lines(s.skip(start as int)) =~= Seq::<Seq<u8>>::empty());
            assert(rows(out@) =~= rows(out@) + full_lines(s.skip(start as int)));
        }
        let rest = part(self.pending.as_slice(), start, self.pending.len());
        assert(rest@ =~= s.skip(start as int));
        self.pending = rest;
        out
    }

    /// Gives out the last line when input ended in the middle of it.
    pub fn finish(&mut self) -> (r: Option<Vec<u8>>)
        ensures
            final(self).pending@ == Seq::<u8>::empty(),
            match r {
                Some(line) => line@ == old(self).pending@ && line@.len() > 0,
                None => old(self).pending@.len() == 0,
            },
    {
        let mut line: Vec<u8> = Vec::new();
        std::mem::swap(&mut line, &mut self.pending);
        if line.len() > 0 {
            Some(line)
        } else {
            None
        }
    }
}

/// How bytes are cut into chunks does not matter: the lines that come out of two chunks, one after
/// the other, are those that come out of both at once.
pub proof fn law_chunking_is_invisible(a: Seq<u8>, b: Seq<u8>)
    ensures
        full_lines(a + b) == full_lines(a) + full_lines(left_over(a) + b),
        left_over(a + b) == left_over(left_over(a) + b),
    decreases a.len(),
{
    lemma_newline_at(a);
    let i = newline_at(a);
    if i >= a.len() {
        assert(full_lines(a) + full_lines(a + b) =~= full_lines(a + b));
    } else {
        let s = a + b;
        assert forall|j: int| 0 <= j < i implies s[j] != NEWLINE by {
            assert(s[j] == a[j]);
        }
        lemma_newline_is(s, i);
        assert(s.take(i) =~= a.take(i));
        assert(s.skip(i + 1) =~= a.skip(i + 1) + b);
        law_chunking_is_invisible(a.skip(i + 1), b);
        assert(full_lines(s) =~= full_lines(a) + full_lines(left_over(a) + b));
    }
}

/// A line without one trailing carriage return.
pub open spec fn without_cr(line: Seq<u8>) -> Seq<u8> {
    if line.len() > 0 && line.last() == 13 {
        line.drop_last()
    } else {
        line
    }
}

/// A line without one trailing carriage return.
pub fn strip_cr(line: Vec<u8>) -> (r: Vec<u8>)
    ensures
        r@ == without_cr(line@),
{
    let mut line = line;
    if line.len() > 0 && line[line.len() - 1] == 13 {
        let _ = line.pop();
    }
    line
}

// ---------------------------------------------------------------------------
// White space and streams
// ---------------------------------------------------------------------------

/// Whether a byte is ASCII white space.
pub open spec fn ascii_space(b: u8) -> bool {
    b == 32 || b == 9 || b == 10 || b == 12 || b == 13
}

/// `s` without trailing ASCII white space.
pub open spec fn trim_end(s: Seq<u8>) -> Seq<u8>
    decreases s.len(),
{
    if s.len() > 0 && ascii_space(s.last()) {
        trim_end(s.drop_last())
    } else {
        s
    }
}

/// The length of `bytes` without trailing ASCII white space.
pub fn trim_ascii_end(bytes: &[u8]) -> (r: usize)
    ensures
        r <= bytes@.len(),
        bytes@.take(r as int) == trim_end(bytes@),
{
    let mut n: usize = bytes.len();
    assert(bytes@.take(n as int) =~= bytes@);
    while n > 0 && (bytes[n - 1] == 32 || bytes[n - 1] == 9 || bytes[n - 1] == 10 || bytes[n - 1]
        == 12 || bytes[n - 1] == 13)
        invariant
            n <= bytes@.len(),
            trim_end(bytes@.take(n as int)) == trim_end(bytes@),
        decreases n,
    {
        assert(bytes@.take(n as int).drop_last() =~= bytes@.take(n - 1));
        assert(bytes@.take(n as int).last() == bytes@[n - 1]);
        n = n - 1;
    }
    proof {
        if n > 0 {
            assert(bytes@.take(n as int).last() == bytes@[n - 1]);
        }
    }
    n
}

/// A captured service output stream.
#[derive(Debug, Clone, Copy, PartialEq, Eq, Structural)]
pub enum LogStream {
    /// Standard output.
    Stdout,
    /// Standard error.
    Stderr,
    /// Both, merged.
    Combined,
}

impl LogStream {
    /// The persisted label.
    pub open spec fn label(self) -> Seq<char> {
        match self {
            LogStream::Stdout => "stdout"@,
            LogStream::Stderr => "stderr"@,
            LogStream::Combined => "combined"@,
        }
    }

    /// The persisted label.
    pub fn as_str(self) -> (r: &'static str)
        ensures
            r@ == self.label(),
    {
        match self {
            LogStream::Stdout => "stdout",
            LogStream::Stderr => "stderr",
            LogStream::Combined => "combined",
        }
    }

    /// The stream that a filter names.
    pub open spec fn named(kind: Seq<char>) -> Option<LogStream> {
        if kind == "stdout"@ {
            Some(LogStream::Stdout)
        } else if kind == "stderr"@ {
            Some(LogStream::Stderr)
        } else {
            None
        }
    }

    /// The stream that a filter names.
    pub fn from_filter(kind: &str) -> (r: Option<LogStream>)
        ensures
            r == LogStream::named(kind@),
    {
        if crate::text::same(kind, "stdout") {
            Some(LogStream::Stdout)
        } else if crate::text::same(kind, "stderr") {
            Some(LogStream::Stderr)
        } else {
            None
        }
    }

    /// The bytes that stand between the first space of a captured line and the next, when it
    /// belongs to this stream.
    pub open spec fn tag(self) -> Seq<u8> {
        vstd::utf8::encode_utf8(self.label()) + seq![32u8]
    }
}

/// The position of the first space in `s`, or `s.len()` when there is none.
pub open spec fn space_at(s: Seq<u8>) -> int
    decreases s.len(),
{
    if s.len() == 0 || s[0] == 32 {
        0
    } else {
        1 + space_at(s.drop_first())
    }
}

pub proof fn lemma_space_at(s: Seq<u8>, i: int)
    requires
        0 <= i <= s.len(),
        i < s.len() ==> s[i] == 32,
        forall|j: int| 0 <= j < i ==> s[j] != 32,
    ensures
        space_at(s) == i,
    decreases s.len(),
{
    if i > 0 {
        assert forall|j: int| 0 <= j < i - 1 implies s.drop_first()[j] != 32 by {
            assert(s.drop_first()[j] == s[j + 1]);
        }
        lemma_space_at(s.drop_first(), i - 1);
    }
}

/// Whether a captured line belongs to a stream: its first space is followed by the stream's label
/// and another space.
pub open spec fn of_stream(line: Seq<u8>, stream: LogStream) -> bool {
    let i = space_at(line);
    i < line.len() && stream.tag().is_prefix_of(line.skip(i + 1))
}

/// Whether a captured line belongs to the stream that `kind` names.
pub open spec fn of_kind(line: Seq<u8>, kind: Seq<char>) -> bool {
    match LogStream::named(kind) {
        Some(stream) => of_stream(line, stream),
        None => false,
    }
}

fn stands_at(line: &[u8], len: usize, from: usize, what: &[u8]) -> (r: bool)
    requires
        from <= len <= line@.len(),
    ensures
        r == what@.is_prefix_of(line@.take(len as int).skip(from as int)),
{
    let ghost rest = line@.take(len as int).skip(from as int);
    let n: usize = what.len();
    if len - from < n {
        return false;
    }
    let mut k: usize = 0;
    while k < n
        invariant
            k <= n == what@.len(),
            from + n <= len <= line@.len(),
            rest == line@.take(len as int).skip(from as int),
            forall|q: int| 0 <= q < k ==> what@[q] == #[trigger] rest[q],
        decreases n - k,
    {
        assert(rest[k as int] == line@[from + k]);
        if line[from + k] != what[k] {
            assert(rest.subrange(0, n as int)[k as int] != what@[k as int]);
            return false;
        }
        k = k + 1;
    }
    assert(what@ =~= rest.subrange(0, n as int));
    true
}

fn line_is_of(line: &[u8], len: usize, stream: LogStream) -> (r: bool)
    requires
        len <= line@.len(),
    ensures
        r == of_stream(line@.take(len as int), stream),
{
    let ghost l = line@.take(len as int);
    let mut i: usize = 0;
    while i < len && line[i] != 32
        invariant
            i <= len <= line@.len(),
            l == line@.take(len as int),
            forall|j: int| 0 <= j < i ==> l[j] != 32,
        decreases len - i,
    {
        assert(l[i as int] == line@[i as int]);
        i = i + 1;
    }
    proof {
        lemma_space_at(l, i as int);
    }
    if i >= len {
        return false;
    }
    let mut tag = slice_to_vec(stream.as_str().as_bytes());
    tag.push(32);
    assert(tag@ =~= stream.tag());
    stands_at(line, len, i + 1, tag.as_slice())
}

/// Whether a captured line belongs to the stream that `kind` names.
pub fn captured_log_line_matches_kind(line: &[u8], kind: &str) -> (r: bool)
    ensures
        r == of_kind(line@, kind@),
{
    assert(line@.take(line@.len() as int) =~= line@);
    match LogStream::from_filter(kind) {
        Some(stream) => line_is_of(line, line.len(), stream),
        None => false,
    }
}

/// The streams have their names, and only standard output and standard error can be asked for.
pub proof fn law_streams_are_asked_for_by_name(kind: Seq<char>)
    ensures
        LogStream::named("stdout"@) == Some(LogStream::Stdout),
        LogStream::named("stderr"@) == Some(LogStream::Stderr),
        kind != "stdout"@ && kind != "stderr"@ ==> LogStream::named(kind) is None,
        LogStream::named(kind) is Some ==> LogStream::named(kind)->0.label() == kind,
{
    reveal_strlit("stdout");
    reveal_strlit("stderr");
    assert("stdout"@[3] == 'o');
    assert("stderr"@[3] == 'e');
}

/// A captured line belongs to the stream whose label follows its first space; a line without a space
/// belongs to none.
pub proof fn law_line_belongs_to_its_stream(head: Seq<u8>, rest: Seq<u8>, stream: LogStream)
    requires
        !head.contains(32u8),
    ensures
        of_stream(head.push(32u8) + rest, stream) <==> (vstd::utf8::encode_utf8(stream.label())
            + seq![32u8]).is_prefix_of(rest),
        !of_stream(head, stream),
{
    let line = head.push(32u8) + rest;
    let n = head.len() as int;
    assert forall|j: int| 0 <= j < n implies line[j] != 32 && head[j] != 32 by {
        assert(line[j] == head[j]);
        assert(head.contains(head[j]));
    }
    lemma_space_at(line, n);
    lemma_space_at(head, n);
    assert(line.skip(n + 1) =~= rest);
}

/// Cutting a text into lines loses nothing and makes every line but the last end with its newline.
pub proof fn law_lines_make_up_the_text(line: Seq<u8>, rest: Seq<u8>)
    requires
        !line.contains(NEWLINE),
    ensures
        flat(pieces(line.push(NEWLINE) + rest)) == line.push(NEWLINE) + rest,
        pieces(line.push(NEWLINE) + rest) == seq![line.push(NEWLINE)] + pieces(rest),
        line.len() > 0 ==> pieces(line) == seq![line],
        full_lines(line.push(NEWLINE) + rest) == seq![line] + full_lines(rest),
        left_over(line.push(NEWLINE) + rest) == left_over(rest),
        full_lines(line) == Seq::<Seq<u8>>::empty(),
        left_over(line) == line,
{
    let s = line.push(NEWLINE) + rest;
    let n = line.len() as int;
    lemma_flat_pieces(s);
    assert forall|j: int| 0 <= j < n implies s[j] != NEWLINE && line[j] != NEWLINE by {
        assert(s[j] == line[j]);
        assert(line.contains(line[j]));
    }
    lemma_newline_is(s, n);
    lemma_newline_is(line, n);
    assert(s.take(n + 1) =~= line.push(NEWLINE));
    assert(s.take(n) =~= line);
    assert(s.skip(n + 1) =~= rest);
}

} // verus!
