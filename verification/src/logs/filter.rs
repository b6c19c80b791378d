//! Choosing captured lines by time and by pattern.

use vstd::prelude::*;
use vstd::slice::slice_to_vec;
use vstd::utf8::{decode_utf8, valid_utf8};

use crate::error::LogsManagerError;
use crate::logs::bytes::{
    concat, flat, last_n, lemma_flat_pieces, lemma_newline_at, lemma_newline_is, lemma_pieces_add,
    newline_at, part, pieces, rows, split_inclusive, tail, trim_ascii_end, trim_end, NEWLINE,
};
use crate::logs::instant::{
    age_in_reach, bound_of, date_instant, parse_rfc3339, parse_time_bound, rfc3339_instant, Instant,
    DATE_FORMAT,
};
use crate::logs::pattern::{pattern_error, pattern_hits, Pattern};
use crate::logs::tail::{lemma_sift_len, lemma_sift_push, sift};
use crate::logs::utf8::{lossy, lossy_text, strict_text};
use crate::text::{chars_of, find_char, first_of, lemma_first_of, string_of, trimmed};

verus! {

/// What a captured line must satisfy to be shown.
pub struct LogFilter {
    /// Earliest capture time.
    pub since: Option<Instant>,
    /// Latest capture time.
    pub until: Option<Instant>,
    /// What the line must hold.
    pub grep: Option<Pattern>,
    /// Whether the whole history is read, not just the last lines.
    pub all: bool,
}

/// The text in front of the first space of a line, when the line is valid UTF-8.
pub open spec fn head_text(line: Seq<u8>) -> Option<Seq<char>> {
    if valid_utf8(line) {
        let text = decode_utf8(line);
        Some(text.take(first_of(text, ' ')))
    } else {
        None
    }
}

/// The capture time at the head of a line.
pub open spec fn captured_at(line: Seq<u8>) -> Option<Instant> {
    match head_text(line) {
        Some(head) => match rfc3339_instant(head) {
            Some((secs, nanos)) => Some(Instant { secs, nanos }),
            None => None,
        },
        None => None,
    }
}

/// The capture time at the head of a persisted line.
pub fn captured_line_timestamp(line: &[u8]) -> (r: Option<Instant>)
    ensures
        r == captured_at(line@),
{
    let text = match strict_text(line) {
        Ok(t) => t,
        Err(_) => {
            return None;
        },
    };
    let v = chars_of(text.as_str());
    let i = find_char(&v, 0, ' ');
    assert(v@.skip(0) =~= v@);
    let head = string_of(&v, 0, i);
    assert(head@ =~= text@.take(i as int));
    match parse_rfc3339(head.as_str()) {
        Some((secs, nanos)) => Some(Instant { secs, nanos }),
        None => None,
    }
}

/// Whether a capture time lies within the bounds, ends included. A line without a capture time
/// lies within bounds only when there are none.
pub open spec fn in_window(at: Option<Instant>, since: Option<Instant>, until: Option<Instant>) -> bool {
    match at {
        Some(t) => (since is Some ==> !t.precedes(since->0)) && (until is Some ==> !until->0.precedes(
            t,
        )),
        None => since is None && until is None,
    }
}

/// Whether a line is shown, given its capture time and whether the pattern, if any, was found.
pub fn passes(
    at: Option<Instant>,
    since: Option<Instant>,
    until: Option<Instant>,
    found: Option<bool>,
) -> (r: bool)
    ensures
        r == (in_window(at, since, until) && found != Some(false)),
        at is Some && until is Some && until->0.precedes(at->0) ==> !r,
        at is Some && since is Some && at->0.precedes(since->0) ==> !r,
        at is None && (since is Some || until is Some) ==> !r,
        found == Some(false) ==> !r,
        (at is None ==> since is None && until is None) && (at is Some && since is Some
            ==> !at->0.precedes(since->0)) && (at is Some && until is Some ==> !until->0.precedes(
            at->0,
        )) && found != Some(false) ==> r,
{
    match at {
        Some(t) => {
            if let Some(s) = since {
                if t.before(s) {
                    return false;
                }
            }
            if let Some(u) = until {
                if u.before(t) {
                    return false;
                }
            }
        },
        None => {
            if since.is_some() || until.is_some() {
                return false;
            }
        },
    }
    match found {
        Some(f) => f,
        None => true,
    }
}

impl LogFilter {
    /// Whether any line can be left out.
    pub open spec fn filters_content(&self) -> bool {
        self.since is Some || self.until is Some || self.grep is Some
    }

    /// Whether a line is shown.
    pub open spec fn keeps(&self, line: Seq<u8>) -> bool {
        &&& in_window(captured_at(line), self.since, self.until)
        &&& self.grep is Some ==> pattern_hits(self.grep->0@, lossy_text(line))
    }

    /// Whether a line is shown, less its trailing white space.
    pub open spec fn keeps_piece(&self) -> spec_fn(Seq<u8>) -> bool {
        |p: Seq<u8>| self.keeps(trim_end(p))
    }

    /// What is shown of `s`.
    pub open spec fn shown(&self, s: Seq<u8>) -> Seq<u8> {
        if self.filters_content() {
            flat(sift(pieces(s), self.keeps_piece()))
        } else {
            s
        }
    }

    /// The filter that leaves nothing out.
    pub fn none() -> (r: Self)
        ensures
            r.since is None,
            r.until is None,
            r.grep is None,
            !r.all,
    {
        LogFilter { since: None, until: None, grep: None, all: false }
    }

    /// Builds a filter from what the user wrote, with ages counted back from `now`. The lower
    /// bound is read first, then the upper one, then the pattern.
    pub fn from_parts(
        since: Option<&str>,
        until: Option<&str>,
        grep: Option<&str>,
        all: bool,
        now: Instant,
    ) -> (r: Result<Self, LogsManagerError>)
        requires
            since is Some ==> age_in_reach(trimmed(since->0@), now),
            until is Some ==> age_in_reach(trimmed(until->0@), now),
        ensures
            match r {
                Ok(f) => {
                    &&& reads_as(since, now, f.since)
                    &&& reads_as(until, now, f.until)
                    &&& match grep {
                        Some(p) => pattern_error(p@) is None && f.grep is Some && f.grep->0@ == p@,
                        None => f.grep is None,
                    }
                    &&& f.all == all
                },
                Err(LogsManagerError::InvalidTimeBound(v)) => {
                    ||| since is Some && v@ == since->0@ && read_bound(since->0@, now) is None
                    ||| {
                        &&& bound_is_good(since, now)
                        &&& until is Some && v@ == until->0@ && read_bound(until->0@, now) is None
                    }
                },
                Err(LogsManagerError::InvalidGrep(m)) => {
                    &&& bound_is_good(since, now)
                    &&& bound_is_good(until, now)
                    &&& grep is Some
                    &&& pattern_error(grep->0@) == Some(m@)
                },
                Err(_) => false,
            },
    {
        let since = match since {
            Some(v) => match parse_time_bound(v, now) {
                Ok(t) => Some(t),
                Err(e) => {
                    return Err(e);
                },
            },
            None => None,
        };
        let until = match until {
            Some(v) => match parse_time_bound(v, now) {
                Ok(t) => Some(t),
                Err(e) => {
                    return Err(e);
                },
            },
            None => None,
        };
        let grep = match grep {
            Some(p) => match Pattern::new(p) {
                Ok(p) => Some(p),
                Err(e) => {
                    return Err(e);
                },
            },
            None => None,
        };
        Ok(LogFilter { since, until, grep, all })
    }

    /// Whether any content filter, by time or by pattern, is active.
    pub fn has_content_filter(&self) -> (r: bool)
        ensures
            r == self.filters_content(),
    {
        self.since.is_some() || self.until.is_some() || self.grep.is_some()
    }

    /// Whether the filter asks for nothing at all.
    pub fn is_noop(&self) -> (r: bool)
        ensures
            r == (!self.filters_content() && !self.all),
    {
        !self.has_content_filter() && !self.all
    }

    /// Whether one captured line is shown.
    pub fn matches(&self, line: &[u8]) -> (r: bool)
        ensures
            r == self.keeps(line@),
    {
        let at = captured_line_timestamp(line);
        let found = match &self.grep {
            Some(p) => Some(p.hits(lossy(line).as_str())),
            None => None,
        };
        passes(at, self.since, self.until, found)
    }

    /// Keeps the lines that are shown.
    pub fn apply(&self, bytes: &[u8]) -> (r: Vec<u8>)
        ensures
            r@ == self.shown(bytes@),
    {
        if !self.has_content_filter() {
            return slice_to_vec(bytes);
        }
        let all = split_inclusive(bytes);
        let ghost ps = rows(all@);
        let ghost f = self.keeps_piece();
        let mut out: Vec<Vec<u8>> = Vec::new();
        let mut i: usize = 0;
        assert(ps.take(0) =~= Seq::<Seq<u8>>::empty());
        assert(rows(out@) =~= Seq::<Seq<u8>>::empty());
        while i < all.len()
            invariant
                i <= all.len(),
                ps == rows(all@),
                f == self.keeps_piece(),
                rows(out@) == sift(ps.take(i as int), f),
            decreases all.len() - i,
        {
            let n = trim_ascii_end(all[i].as_slice());
            let line = part(all[i].as_slice(), 0, n);
            assert(line@ =~= all@[i as int]@.take(n as int));
            assert(ps[i as int] == all@[i as int]@);
            proof {
                assert(ps.take(i + 1) =~= ps.take(i as int).push(ps[i as int]));
                lemma_sift_push(ps.take(i as int), ps[i as int], f);
            }
            if self.matches(line.as_slice()) {
                let ghost before = rows(out@);
                let whole = part(all[i].as_slice(), 0, all[i].len());
                assert(whole@ =~= ps[i as int]);
                out.push(whole);
                assert(rows(out@) =~= before.push(ps[i as int]));
            }
            i = i + 1;
        }
        assert(ps.take(ps.len() as int) =~= ps);
        concat(&out)
    }
}

/// The point in time that a bound gives.
pub open spec fn read_bound(value: Seq<char>, now: Instant) -> Option<Instant> {
    let t = trimmed(value);
    bound_of(value, now, rfc3339_instant(t), date_instant(t, DATE_FORMAT@))
}

/// Whether a bound, if given, gives a point in time.
pub open spec fn bound_is_good(value: Option<&str>, now: Instant) -> bool {
    value is Some ==> read_bound(value->0@, now) is Some
}

/// Whether `t` is what a bound, if given, gives.
pub open spec fn reads_as(value: Option<&str>, now: Instant, t: Option<Instant>) -> bool {
    match value {
        Some(v) => t is Some && read_bound(v@, now) == t,
        None => t is None,
    }
}

/// A filter without time bounds and pattern shows everything as it is.
pub proof fn law_empty_filter_shows_everything(filter: LogFilter, s: Seq<u8>)
    requires
        !filter.filters_content(),
    ensures
        filter.shown(s) == s,
{
}

/// Narrowing the bounds never lets a line in.
pub proof fn law_narrower_window_shows_less(
    at: Option<Instant>,
    since: Instant,
    until: Instant,
    later: Instant,
    earlier: Instant,
)
    requires
        !later.precedes(since),
        !until.precedes(earlier),
        in_window(at, Some(later), Some(earlier)),
    ensures
        in_window(at, Some(since), Some(until)),
{
}

/// Whether these are the lines of some text: none is empty, a newline ends a line, and only the last
/// line may lack one.
spec fn are_lines(ps: Seq<Seq<u8>>) -> bool {
    forall|i: int| #![trigger ps[i]]
        0 <= i < ps.len() ==> {
            &&& ps[i].len() > 0
            &&& newline_at(ps[i]) >= ps[i].len() - 1
            &&& i < ps.len() - 1 ==> ps[i].last() == NEWLINE
        }
}

proof fn lemma_pieces_are_lines(s: Seq<u8>)
    ensures
        are_lines(pieces(s)),
    decreases s.len(),
{
    lemma_newline_at(s);
    let k = newline_at(s);
    if s.len() > 0 && k < s.len() {
        let line = s.take(k + 1);
        let rest = s.skip(k + 1);
        lemma_pieces_are_lines(rest);
        lemma_newline_is(line, k);
        let ps = pieces(s);
        assert forall|i: int| #![trigger ps[i]] 0 <= i < ps.len() implies {
            &&& ps[i].len() > 0
            &&& newline_at(ps[i]) >= ps[i].len() - 1
            &&& i < ps.len() - 1 ==> ps[i].last() == NEWLINE
        } by {
            if i > 0 {
                assert(ps[i] == pieces(rest)[i - 1]);
            }
        }
    }
}

proof fn lemma_lines_are_pieces(ps: Seq<Seq<u8>>)
    requires
        are_lines(ps),
    ensures
        pieces(flat(ps)) == ps,
    decreases ps.len(),
{
    if ps.len() > 0 {
        let line = ps[0];
        let rest = ps.drop_first();
        assert(are_lines(rest)) by {
            assert(forall|i: int| 0 <= i < rest.len() ==> #[trigger] rest[i] == ps[i + 1]);
        }
        lemma_lines_are_pieces(rest);
        assert(pieces(line) =~= seq![line]) by {
            lemma_newline_at(line);
            if newline_at(line) < line.len() {
                assert(line.take(line.len() as int) =~= line);
                assert(line.skip(line.len() as int) =~= Seq::<u8>::empty());
                assert(pieces(Seq::<u8>::empty()) =~= Seq::<Seq<u8>>::empty());
            }
        }
        if rest.len() == 0 {
            assert(line + flat(rest) =~= line);
        } else {
            lemma_pieces_add(line, flat(rest));
        }
        assert(seq![line] + rest =~= ps);
    } else {
        assert(pieces(flat(ps)) =~= ps);
    }
}

proof fn lemma_sifted_lines(ps: Seq<Seq<u8>>, f: spec_fn(Seq<u8>) -> bool)
    requires
        are_lines(ps),
    ensures
        are_lines(sift(ps, f)),
        sift(sift(ps, f), f) == sift(ps, f),
    decreases ps.len(),
{
    if ps.len() > 0 {
        let rest = ps.drop_first();
        assert(are_lines(rest)) by {
            assert(forall|i: int| 0 <= i < rest.len() ==> #[trigger] rest[i] == ps[i + 1]);
        }
        lemma_sifted_lines(rest, f);
        let kept = sift(rest, f);
        if f(ps[0]) {
            let all = seq![ps[0]] + kept;
            lemma_sift_len(rest, f);
            assert forall|i: int| #![trigger all[i]] 0 <= i < all.len() implies {
                &&& all[i].len() > 0
                &&& newline_at(all[i]) >= all[i].len() - 1
                &&& i < all.len() - 1 ==> all[i].last() == NEWLINE
            } by {
                if i > 0 {
                    assert(all[i] == kept[i - 1]);
                } else {
                    assert(all[i] == ps[0]);
                }
            }
            assert(all.drop_first() =~= kept);
        }
    }
}

/// Filtering what a filter shows changes nothing.
pub proof fn law_filtering_twice_changes_nothing(filter: LogFilter, s: Seq<u8>)
    ensures
        filter.shown(filter.shown(s)) == filter.shown(s),
{
    if filter.filters_content() {
        let f = filter.keeps_piece();
        lemma_pieces_are_lines(s);
        lemma_sifted_lines(pieces(s), f);
        lemma_lines_are_pieces(sift(pieces(s), f));
    }
}

/// What a filter shows are lines of the text, in order and whole: exactly those that it keeps.
pub proof fn law_shown_are_the_lines_kept(filter: LogFilter, s: Seq<u8>)
    requires
        filter.filters_content(),
    ensures
        pieces(filter.shown(s)) == pieces(s).filter(filter.keeps_piece()),
{
    lemma_pieces_are_lines(s);
    lemma_sifted_lines(pieces(s), filter.keeps_piece());
    lemma_lines_are_pieces(sift(pieces(s), filter.keeps_piece()));
    lemma_sift_is_filter(pieces(s), filter.keeps_piece());
}

proof fn lemma_sift_is_filter(ps: Seq<Seq<u8>>, f: spec_fn(Seq<u8>) -> bool)
    ensures
        sift(ps, f) == ps.filter(f),
    decreases ps.len(),
{
    reveal(Seq::filter);
    if ps.len() > 0 {
        let front = ps.drop_last();
        lemma_sift_is_filter(front, f);
        assert(ps =~= front.push(ps.last()));
        lemma_sift_push(front, ps.last(), f);
    }
}

/// A line that was captured after the upper bound is never shown, whatever the lower bound, and one
/// captured before the lower bound is never shown, whatever the upper bound.
pub proof fn law_line_outside_a_bound_is_never_shown(filter: LogFilter, line: Seq<u8>, t: Instant)
    requires
        captured_at(line) == Some(t),
        ({
            ||| filter.until is Some && (filter.until->0.secs < t.secs || (filter.until->0.secs
                == t.secs && filter.until->0.nanos < t.nanos))
            ||| filter.since is Some && (t.secs < filter.since->0.secs || (t.secs
                == filter.since->0.secs && t.nanos < filter.since->0.nanos))
        }),
    ensures
        !filter.keeps(line),
{
}

/// A line that was captured within every bound given, the bounds themselves included, is shown when
/// it holds the pattern or none is given.
pub proof fn law_line_within_bounds_is_shown(filter: LogFilter, line: Seq<u8>, t: Instant)
    requires
        captured_at(line) == Some(t),
        filter.since is Some ==> filter.since->0.secs < t.secs || (filter.since->0.secs == t.secs
            && filter.since->0.nanos <= t.nanos),
        filter.until is Some ==> t.secs < filter.until->0.secs || (t.secs == filter.until->0.secs
            && t.nanos <= filter.until->0.nanos),
        filter.grep is Some ==> pattern_hits(filter.grep->0@, lossy_text(line)),
    ensures
        filter.keeps(line),
{
}

/// A line without a capture time is shown exactly when no bound is given and it holds the pattern,
/// if there is one.
pub proof fn law_undated_line_needs_no_bound(filter: LogFilter, line: Seq<u8>)
    requires
        captured_at(line) is None,
    ensures
        filter.since is Some ==> !filter.keeps(line),
        filter.until is Some ==> !filter.keeps(line),
        filter.since is None && filter.until is None && filter.grep is None ==> filter.keeps(line),
        filter.since is None && filter.until is None && filter.grep is Some ==> (filter.keeps(line)
            <==> pattern_hits(filter.grep->0@, lossy_text(line))),
{
}

/// A line that does not hold the pattern is never shown.
pub proof fn law_pattern_is_required(filter: LogFilter, line: Seq<u8>)
    requires
        filter.grep is Some,
        !pattern_hits(filter.grep->0@, lossy_text(line)),
    ensures
        !filter.keeps(line),
{
}

/// The two bounds count each on its own: a time lies between them exactly when it lies on the right
/// side of either.
pub proof fn law_bounds_are_independent(
    at: Option<Instant>,
    since: Option<Instant>,
    until: Option<Instant>,
)
    ensures
        in_window(at, since, until) <==> in_window(at, since, None) && in_window(at, None, until),
        in_window(at, None, None),
{
}

/// What stands in front of the first space of a line is its capture time, when it reads as one.
pub proof fn law_capture_time_is_the_head(line: Seq<u8>, head: Seq<char>, rest: Seq<char>)
    requires
        valid_utf8(line),
        decode_utf8(line) == head.push(' ') + rest,
        !head.contains(' '),
    ensures
        captured_at(line) is Some <==> rfc3339_instant(head) is Some,
        match rfc3339_instant(head) {
            Some((secs, nanos)) => captured_at(line) == Some(Instant { secs, nanos }),
            None => true,
        },
{
    let text = decode_utf8(line);
    lemma_first_of(text, ' ');
    assert(text[head.len() as int] == ' ');
    if first_of(text, ' ') < head.len() {
        assert(head[first_of(text, ' ')] == ' ');
    }
    assert(text.take(first_of(text, ' ')) =~= head);
}

/// The last lines of a text are whole lines from its end, as many as are asked for or else all.
pub proof fn law_tail_has_the_last_lines(s: Seq<u8>, n: nat)
    ensures
        pieces(tail(s, n)).len() == (if n < pieces(s).len() {
            n
        } else {
            pieces(s).len()
        }),
        forall|i: int|
            0 <= i < pieces(tail(s, n)).len() ==> #[trigger] pieces(tail(s, n))[i] == pieces(s)[i + (
            pieces(s).len() - pieces(tail(s, n)).len())],
        n >= pieces(s).len() ==> tail(s, n) == s,
{
    let ps = pieces(s);
    lemma_pieces_are_lines(s);
    let kept = last_n(ps, n);
    assert(are_lines(kept)) by {
        assert(forall|i: int|
            0 <= i < kept.len() ==> #[trigger] kept[i] == ps[i + (ps.len() - kept.len())]);
    }
    lemma_lines_are_pieces(kept);
    lemma_flat_pieces(s);
}

} // verus!
