//! The last lines of a log, read from its end, and those of one stream only.

use vstd::prelude::*;

use crate::logs::bytes::{
    captured_log_line_matches_kind, concat, flat, last_n, lemma_flat_pieces, lemma_pieces_prepend,
    of_kind, part, pieces, rows, split_inclusive, tail, tail_log_bytes, NEWLINE,
};
use crate::text::opt_text;

verus! {

/// How much of a log is read at a time when reading from its end.
pub const LOG_TAIL_CHUNK_SIZE: u64 = 8192;

/// Those of `ps` that satisfy `f`, in order.
pub open spec fn sift(ps: Seq<Seq<u8>>, f: spec_fn(Seq<u8>) -> bool) -> Seq<Seq<u8>>
    decreases ps.len(),
{
    if ps.len() == 0 {
        seq![]
    } else if f(ps[0]) {
        seq![ps[0]] + sift(ps.drop_first(), f)
    } else {
        sift(ps.drop_first(), f)
    }
}

pub proof fn lemma_sift_add(a: Seq<Seq<u8>>, b: Seq<Seq<u8>>, f: spec_fn(Seq<u8>) -> bool)
    ensures
        sift(a + b, f) == sift(a, f) + sift(b, f),
    decreases a.len(),
{
    if a.len() == 0 {
        assert(a + b =~= b);
        assert(sift(a, f) + sift(b, f) =~= sift(b, f));
    } else {
        assert((a + b).drop_first() =~= a.drop_first() + b);
        lemma_sift_add(a.drop_first(), b, f);
        assert(sift(a + b, f) =~= sift(a, f) + sift(b, f));
    }
}

pub proof fn lemma_sift_push(a: Seq<Seq<u8>>, x: Seq<u8>, f: spec_fn(Seq<u8>) -> bool)
    ensures
        sift(a.push(x), f) == if f(x) {
            sift(a, f).push(x)
        } else {
            sift(a, f)
        },
{
    reveal_with_fuel(sift, 2);
    assert(a.push(x) =~= a + seq![x]);
    lemma_sift_add(a, seq![x], f);
    assert(seq![x].drop_first() =~= Seq::<Seq<u8>>::empty());
    assert(sift(a.push(x), f) =~= if f(x) {
        sift(a, f).push(x)
    } else {
        sift(a, f)
    });
}

pub proof fn lemma_sift_len(ps: Seq<Seq<u8>>, f: spec_fn(Seq<u8>) -> bool)
    ensures
        sift(ps, f).len() <= ps.len(),
    decreases ps.len(),
{
    if ps.len() > 0 {
        lemma_sift_len(ps.drop_first(), f);
    }
}

/// A line without its newline.
pub open spec fn chomp(p: Seq<u8>) -> Seq<u8> {
    if p.len() > 0 && p.last() == NEWLINE {
        p.drop_last()
    } else {
        p
    }
}

/// How many bytes of a line come before its newline.
pub fn chomped(line: &[u8]) -> (r: usize)
    ensures
        r <= line@.len(),
        line@.take(r as int) == chomp(line@),
{
    let len: usize = line.len();
    let r: usize = if len > 0 && line[len - 1] == NEWLINE {
        len - 1
    } else {
        len
    };
    assert(line@.take(r as int) =~= chomp(line@));
    r
}

/// Whether a line, with its newline, belongs to the stream that `kind` names.
pub open spec fn is_kind(kind: Seq<char>) -> spec_fn(Seq<u8>) -> bool {
    |p: Seq<u8>| of_kind(chomp(p), kind)
}

/// The lines of one stream.
pub open spec fn of_one_kind(s: Seq<u8>, kind: Seq<char>) -> Seq<Seq<u8>> {
    sift(pieces(s), is_kind(kind))
}

fn pick(bytes: &[u8], kind: &str) -> (r: Vec<Vec<u8>>)
    ensures
        rows(r@) == of_one_kind(bytes@, kind@),
{
    let all = split_inclusive(bytes);
    let ghost ps = rows(all@);
    let ghost f = is_kind(kind@);
    let mut out: Vec<Vec<u8>> = Vec::new();
    let mut i: usize = 0;
    assert(ps.take(0) =~= Seq::<Seq<u8>>::empty());
    assert(rows(out@) =~= Seq::<Seq<u8>>::empty());
    while i < all.len()
        invariant
            i <= all.len(),
            ps == rows(all@),
            f == is_kind(kind@),
            rows(out@) == sift(ps.take(i as int), f),
        decreases all.len() - i,
    {
        let n = chomped(all[i].as_slice());
        let line = part(all[i].as_slice(), 0, n);
        assert(line@ =~= all@[i as int]@.take(n as int));
        assert(ps[i as int] == all@[i as int]@);
        proof {
            assert(ps.take(i + 1) =~= ps.take(i as int).push(ps[i as int]));
            lemma_sift_push(ps.take(i as int), ps[i as int], f);
        }
        if captured_log_line_matches_kind(line.as_slice(), kind) {
            let ghost before = rows(out@);
            let whole = part(all[i].as_slice(), 0, all[i].len());
            assert(whole@ =~= ps[i as int]);
            out.push(whole);
            assert(rows(out@) =~= before.push(ps[i as int]));
        }
        i = i + 1;
    }
    assert(ps.take(ps.len() as int) =~= ps);
    out
}

/// Filters captured log bytes by stream.
pub fn filter_captured_log_bytes(bytes: &[u8], kind: &str) -> (r: Vec<u8>)
    ensures
        r@ == flat(of_one_kind(bytes@, kind@)),
{
    concat(&pick(bytes, kind))
}

/// The last `n` lines of one stream.
pub open spec fn tail_of_kind(s: Seq<u8>, n: nat, kind: Seq<char>) -> Seq<u8> {
    flat(last_n(of_one_kind(s, kind), n))
}

/// The last `lines` captured lines of the stream that `kind` names.
pub fn tail_log_bytes_of_kind(bytes: &[u8], lines: usize, kind: &str) -> (r: Vec<u8>)
    ensures
        r@ == tail_of_kind(bytes@, lines as nat, kind@),
{
    let mut found = pick(bytes, kind);
    if found.len() > lines {
        let ghost all = rows(found@);
        let from: usize = found.len() - lines;
        let last = found.split_off(from);
        assert(rows(last@) =~= all.skip(from as int));
        concat(&last)
    } else {
        concat(&found)
    }
}

// ---------------------------------------------------------------------------
// Reading from the end
// ---------------------------------------------------------------------------

/// The reading of a log file from its end, until the wanted lines are in hand.
pub struct TailRead {
    /// How many lines are wanted.
    pub lines: usize,
    /// The stream they must belong to, by name; any when absent.
    pub kind: Option<String>,
    /// How much of the file, before what was read, has not been read.
    pub remaining: u64,
    /// What was read: the end of the file.
    pub bytes: Vec<u8>,
    /// Whether no more needs to be read.
    pub done: bool,
}

/// Whether `b`, the end of a file, is enough to tell its last lines.
pub open spec fn suffices(b: Seq<u8>, lines: nat, kind: Option<Seq<char>>) -> bool {
    match kind {
        None => tail(b, lines).len() < b.len(),
        Some(k) => of_one_kind(b, k).len() > lines,
    }
}

impl TailRead {
    /// Whether what was read is the end of `file`.
    pub open spec fn reads(&self, file: Seq<u8>) -> bool {
        self.remaining <= file.len() && self.bytes@ == file.skip(self.remaining as int)
    }

    /// Begins to read a file of `len` bytes.
    pub fn begin(len: u64, lines: usize, kind: Option<String>) -> (r: Self)
        ensures
            r.lines == lines,
            r.kind == kind,
            r.remaining == len,
            r.bytes@ == Seq::<u8>::empty(),
            r.done == (lines == 0 || len == 0),
    {
        TailRead { lines, kind, remaining: len, bytes: Vec::new(), done: lines == 0 || len == 0 }
    }

    /// Where to read next, and how much.
    pub fn next(&self) -> (r: Option<(u64, u64)>)
        ensures
            match r {
                None => self.done || self.remaining == 0,
                Some((offset, len)) => {
                    &&& !self.done
                    &&& len == if self.remaining < LOG_TAIL_CHUNK_SIZE {
                        self.remaining
                    } else {
                        LOG_TAIL_CHUNK_SIZE
                    }
                    &&& len > 0
                    &&& offset + len == self.remaining
                },
            },
    {
        if self.done || self.remaining == 0 {
            None
        } else {
            let len: u64 = if self.remaining < LOG_TAIL_CHUNK_SIZE {
                self.remaining
            } else {
                LOG_TAIL_CHUNK_SIZE
            };
            Some((self.remaining - len, len))
        }
    }

    /// Takes in the chunk that stands right before what was read.
    pub fn got(&mut self, chunk: &[u8])
        requires
            chunk@.len() <= old(self).remaining,
        ensures
            final(self).lines == old(self).lines,
            final(self).kind == old(self).kind,
            final(self).remaining == old(self).remaining - chunk@.len(),
            final(self).bytes@ == chunk@ + old(self).bytes@,
            final(self).done == (final(self).remaining == 0 || suffices(
                final(self).bytes@,
                old(self).lines as nat,
                opt_text(old(self).kind),
            )),
            forall|file: Seq<u8>|
                old(self).reads(file) && #[trigger] file.subrange(
                    old(self).remaining - chunk@.len(),
                    old(self).remaining as int,
                ) == chunk@ ==> final(self).reads(file),
    {
        let ghost before = self.bytes@;
        let n: usize = chunk.len();
        self.remaining = self.remaining - n as u64;
        let mut bytes: Vec<u8> = Vec::new();
        bytes.extend_from_slice(chunk);
        bytes.extend_from_slice(self.bytes.as_slice());
        assert(bytes@ =~= chunk@ + before);
        self.bytes = bytes;
        let enough = match &self.kind {
            None => tail_log_bytes(self.bytes.as_slice(), self.lines).len() < self.bytes.len(),
            Some(k) => pick(self.bytes.as_slice(), k.as_str()).len() > self.lines,
        };
        self.done = self.remaining == 0 || enough;
        proof {
            assert forall|file: Seq<u8>|
                old(self).reads(file) && #[trigger] file.subrange(
                    old(self).remaining - chunk@.len(),
                    old(self).remaining as int,
                ) == chunk@ implies self.reads(file) by {
                assert(file.skip(self.remaining as int) =~= chunk@ + before);
            }
        }
    }

    /// The wanted lines.
    pub fn finish(&self) -> (r: Vec<u8>)
        ensures
            r@ == match self.kind {
                None => tail(self.bytes@, self.lines as nat),
                Some(k) => tail_of_kind(self.bytes@, self.lines as nat, k@),
            },
    {
        match &self.kind {
            None => tail_log_bytes(self.bytes.as_slice(), self.lines),
            Some(k) => tail_log_bytes_of_kind(self.bytes.as_slice(), self.lines, k.as_str()),
        }
    }
}

proof fn lemma_pieces_of_end(a: Seq<u8>, b: Seq<u8>) -> (front: Seq<Seq<u8>>)
    requires
        b.len() > 0,
    ensures
        pieces(b).len() > 0,
        front.len() > 0,
        pieces(a + b) == front + pieces(b).drop_first(),
    decreases a.len(),
{
    assert(pieces(b).len() > 0) by {
        let t = b.drop_first();
        assert(b =~= seq![b[0]] + t);
        lemma_pieces_prepend(b[0], t);
    }
    if a.len() == 0 {
        assert(a + b =~= b);
        let front = seq![pieces(b)[0]];
        assert(pieces(b) =~= front + pieces(b).drop_first());
        front
    } else {
        let rest = a.drop_first();
        let inner = lemma_pieces_of_end(rest, b);
        assert(a + b =~= seq![a[0]] + (rest + b));
        lemma_pieces_prepend(a[0], rest + b);
        let front = if a[0] == NEWLINE {
            seq![seq![a[0]]] + inner
        } else {
            seq![seq![a[0]] + inner[0]] + inner.drop_first()
        };
        if a[0] != NEWLINE {
            assert(pieces(rest + b).drop_first() =~= inner.drop_first() + pieces(b).drop_first());
        }
        assert(pieces(a + b) =~= front + pieces(b).drop_first());
        front
    }
}

/// The last lines of a file are those of its end, once that end holds more than them: reading
/// backwards may stop there.
pub proof fn law_end_tells_last_lines(file: Seq<u8>, end: Seq<u8>, lines: nat)
    requires
        end.len() <= file.len(),
        end == file.skip(file.len() - end.len()),
        end.len() == file.len() || suffices(end, lines, None),
    ensures
        tail(file, lines) == tail(end, lines),
{
    if end.len() == file.len() {
        assert(end =~= file);
    } else {
        let before = file.take(file.len() - end.len());
        assert(file =~= before + end);
        if lines >= pieces(end).len() {
            lemma_flat_pieces(end);
        }
        let front = lemma_pieces_of_end(before, end);
        assert(last_n(pieces(file), lines) =~= last_n(pieces(end), lines));
    }
}

/// The same for the lines of one stream.
pub proof fn law_end_tells_last_lines_of_kind(
    file: Seq<u8>,
    end: Seq<u8>,
    lines: nat,
    kind: Seq<char>,
)
    requires
        end.len() <= file.len(),
        end == file.skip(file.len() - end.len()),
        end.len() == file.len() || suffices(end, lines, Some(kind)),
    ensures
        tail_of_kind(file, lines, kind) == tail_of_kind(end, lines, kind),
{
    let f = is_kind(kind);
    if end.len() == file.len() {
        assert(end =~= file);
    } else {
        let before = file.take(file.len() - end.len());
        assert(file =~= before + end);
        let ps = pieces(end);
        if end.len() == 0 {
            assert(ps =~= Seq::<Seq<u8>>::empty());
        }
        let front = lemma_pieces_of_end(before, end);
        let shared = ps.drop_first();
        assert(ps =~= seq![ps[0]] + shared);
        lemma_sift_add(seq![ps[0]], shared, f);
        lemma_sift_len(seq![ps[0]], f);
        lemma_sift_add(front, shared, f);
        assert(last_n(of_one_kind(file, kind), lines) =~= last_n(of_one_kind(end, kind), lines));
    }
}

} // verus!
