//! The shape of one captured line: writing it, cutting it, and taking it apart again.

use vstd::prelude::*;
use vstd::slice::slice_to_vec;
use vstd::utf8::{
    encode_utf8, encode_utf8_valid_utf8, is_char_boundary,
    is_char_boundary_iff_not_is_continuation_byte, is_continuation_byte, valid_utf8,
    valid_utf8_concat, valid_utf8_split,
};

use crate::logs::ansi::{plain, strip_ansi};
use crate::logs::bytes::{last_n, part};
use crate::logs::instant::{parse_rfc3339, rfc3339_instant};
use crate::logs::utf8::{bytes_of, lossy, lossy_text};
use crate::text::{
    chars_of, decimal, find_char, first_of, is_digit, lines, lines_of, push_decimal, same,
    starts, string_of, texts, trim, trimmed,
};

verus! {

/// The most bytes of one line that are kept.
pub const MAX_LOG_LINE_BYTES: usize = 16384;

/// Where a line is cut so that no character is split: the last position, at or before `i`, at which
/// a character begins.
pub open spec fn cut_at(line: Seq<u8>, i: int) -> int
    decreases i,
{
    if i <= 0 || !is_continuation_byte(line[i]) {
        i
    } else {
        cut_at(line, i - 1)
    }
}

/// What is put in place of the bytes that were cut.
pub open spec fn cut_marker(dropped: nat) -> Seq<char> {
    "\u{2026}[truncated "@ + decimal(dropped) + " bytes]"@
}

/// A line, cut when it is too long.
pub open spec fn truncated(line: Seq<u8>) -> Seq<u8> {
    if line.len() <= MAX_LOG_LINE_BYTES {
        line
    } else {
        let kept = cut_at(line, MAX_LOG_LINE_BYTES as int);
        line.take(kept) + encode_utf8(cut_marker((line.len() - kept) as nat))
    }
}

/// Truncates an oversized line, appending a marker that notes how many bytes were dropped.
pub fn truncate_log_payload(line: &[u8]) -> (r: Vec<u8>)
    ensures
        r@ == truncated(line@),
{
    if line.len() <= MAX_LOG_LINE_BYTES {
        return slice_to_vec(line);
    }
    let mut boundary: usize = MAX_LOG_LINE_BYTES;
    while boundary > 0 && 0x80 <= line[boundary] && line[boundary] <= 0xbf
        invariant
            boundary <= MAX_LOG_LINE_BYTES < line@.len(),
            cut_at(line@, MAX_LOG_LINE_BYTES as int) == cut_at(line@, boundary as int),
        decreases boundary,
    {
        boundary = boundary - 1;
    }
    let mut kept = part(line, 0, boundary);
    assert(kept@ =~= line@.take(boundary as int));
    let dropped: usize = line.len() - boundary;
    let mut marker = "\u{2026}[truncated ".to_owned();
    push_decimal(&mut marker, dropped as u64);
    marker.append(" bytes]");
    kept.extend_from_slice(marker.as_str().as_bytes());
    assert(kept@ =~= truncated(line@));
    kept
}

/// A line of valid UTF-8 stays valid when it is cut.
pub proof fn law_cutting_keeps_characters_whole(line: Seq<u8>)
    requires
        valid_utf8(line),
    ensures
        valid_utf8(truncated(line)),
{
    if line.len() > MAX_LOG_LINE_BYTES {
        let i = cut_at(line, MAX_LOG_LINE_BYTES as int);
        lemma_cut_at(line, MAX_LOG_LINE_BYTES as int);
        is_char_boundary_iff_not_is_continuation_byte(line, i);
        assert(is_char_boundary(line, i)) by {
            if i == 0 {
                reveal_with_fuel(is_char_boundary, 1);
            }
        }
        valid_utf8_split(line, i);
        let marker = cut_marker((line.len() - i) as nat);
        encode_utf8_valid_utf8(marker);
        assert(line.take(i) =~= line.subrange(0, i));
        valid_utf8_concat(line.take(i), encode_utf8(marker));
    }
}

proof fn lemma_cut_at(line: Seq<u8>, i: int)
    requires
        0 <= i < line.len(),
    ensures
        0 <= cut_at(line, i) <= i,
        cut_at(line, i) == 0 || !is_continuation_byte(line[cut_at(line, i)]),
    decreases i,
{
    if i > 0 && is_continuation_byte(line[i]) {
        lemma_cut_at(line, i - 1);
    }
}

/// A captured line as it is persisted.
pub open spec fn captured_text(stamp: Seq<char>, kind: Seq<char>, message: Seq<char>) -> Seq<char> {
    stamp + " "@ + kind + " "@ + message + "\n"@
}

/// Puts a captured line into its persisted form, from its message.
pub fn persisted_line(stamp: &str, kind: &str, message: &str) -> (r: Vec<u8>)
    ensures
        r@ == encode_utf8(captured_text(stamp@, kind@, message@)),
{
    let mut s = stamp.to_owned();
    s.append(" ");
    s.append(kind);
    s.append(" ");
    s.append(message);
    s.append("\n");
    bytes_of(s.as_str())
}

/// Formats a captured line of standard output or standard error: capture time, stream, and the
/// line itself, cut when too long.
pub fn format_captured_log_line(stamp: &str, kind: &str, line: &[u8]) -> (r: Vec<u8>)
    ensures
        r@ == encode_utf8(captured_text(stamp@, kind@, lossy_text(truncated(line@)))),
{
    let cut = truncate_log_payload(line);
    let message = lossy(cut.as_slice());
    persisted_line(stamp, kind, message.as_str())
}

/// A line as it is forwarded to the console.
pub fn write_forwarded_console_line(prefix: &str, line: &str) -> (r: Vec<u8>)
    ensures
        r@ == encode_utf8(prefix@ + line@ + "\n"@),
{
    let mut s = prefix.to_owned();
    s.append(line);
    s.append("\n");
    bytes_of(s.as_str())
}

/// A line of a spawned child as it is echoed to the console.
pub open spec fn child_echo(owner: Option<Seq<char>>, child: Seq<char>, line: Seq<char>) -> Seq<char> {
    "["@ + (match owner {
        Some(o) => o,
        None => "spawn"@,
    }) + ":"@ + child + "] "@ + line
}

/// A line of a spawned child as it is echoed to the console.
pub fn echoed_child_line(owner: Option<&str>, child: &str, line: &str) -> (r: String)
    ensures
        r@ == child_echo(crate::text::opt_str(owner), child@, line@),
{
    let mut s = "[".to_owned();
    match owner {
        Some(o) => {
            s.append(o);
        },
        None => {
            s.append("spawn");
        },
    }
    s.append(":");
    s.append(child);
    s.append("] ");
    s.append(line);
    s
}

// ---------------------------------------------------------------------------
// Taking a line apart
// ---------------------------------------------------------------------------

/// A text cut in three at its first two spaces; `None` where a part is missing.
pub open spec fn three_parts(s: Seq<char>) -> (Seq<char>, Option<Seq<char>>, Option<Seq<char>>) {
    let i = first_of(s, ' ');
    if i >= s.len() {
        (s, None, None)
    } else {
        let rest = s.skip(i + 1);
        let j = first_of(rest, ' ');
        if j >= rest.len() {
            (s.take(i), Some(rest), None)
        } else {
            (s.take(i), Some(rest.take(j)), Some(rest.skip(j + 1)))
        }
    }
}

fn split_three(s: &str) -> (r: (String, Option<String>, Option<String>))
    ensures
        r.0@ == three_parts(s@).0,
        crate::text::opt_text(r.1) == three_parts(s@).1,
        crate::text::opt_text(r.2) == three_parts(s@).2,
{
    let v = chars_of(s);
    let i = find_char(&v, 0, ' ');
    assert(v@.skip(0) =~= s@);
    let head = string_of(&v, 0, i);
    assert(head@ =~= s@.take(i as int));
    if i >= v.len() {
        assert(s@.take(i as int) =~= s@);
        return (head, None, None);
    }
    let ghost rest = s@.skip(i + 1);
    let k = find_char(&v, i + 1, ' ');
    let j: usize = k - (i + 1);
    assert(j == first_of(rest, ' '));
    let second = string_of(&v, i + 1, k);
    assert(second@ =~= rest.take(j as int));
    if k >= v.len() {
        assert(rest.take(j as int) =~= rest);
        return (head, Some(second), None);
    }
    let third = string_of(&v, k + 1, v.len());
    assert(third@ =~= rest.skip(j + 1));
    (head, Some(second), Some(third))
}

/// Whether a text looks like the timestamp in front of a captured line.
pub open spec fn looks_like_timestamp(s: Seq<char>) -> bool {
    encode_utf8(s).len() >= 20 && s.len() > 0 && s.last() == 'Z' && s.contains('T') && is_digit(s[0])
}

fn stamp_like(s: &str) -> (r: bool)
    ensures
        r == looks_like_timestamp(s@),
{
    let v = chars_of(s);
    if s.as_bytes().len() < 20 || v.len() == 0 || v[v.len() - 1] != 'Z' || !('0' <= v[0] && v[0]
        <= '9') {
        return false;
    }
    let i = find_char(&v, 0, 'T');
    proof {
        assert(v@.skip(0) =~= v@);
        crate::text::lemma_first_of(v@, 'T');
    }
    i < v.len()
}

/// A line without the capture time and stream in front of it.
pub open spec fn own_output(line: Seq<char>) -> Seq<char> {
    match three_parts(line) {
        (first, Some(second), Some(rest)) => if looks_like_timestamp(first) && (second == "stdout"@
            || second == "stderr"@) {
            rest
        } else {
            line
        },
        _ => line,
    }
}

/// Drops the capture time and stream in front of a service's own output.
pub fn strip_log_line_prefix(line: &str) -> (r: String)
    ensures
        r@ == own_output(line@),
{
    let (first, second, rest) = split_three(line);
    match (second, rest) {
        (Some(second), Some(rest)) => {
            let known = same(second.as_str(), "stdout") || same(second.as_str(), "stderr");
            if stamp_like(first.as_str()) && known {
                rest
            } else {
                line.to_owned()
            }
        },
        _ => line.to_owned(),
    }
}

/// The lines of `all` that are not blank, each without its prefix.
pub open spec fn outputs(all: Seq<Seq<char>>) -> Seq<Seq<char>>
    decreases all.len(),
{
    if all.len() == 0 {
        seq![]
    } else {
        let before = outputs(all.drop_last());
        if trimmed(all.last()).len() == 0 {
            before
        } else {
            before.push(own_output(all.last()))
        }
    }
}

/// The last `n` lines of a service's own output in a log text, blank lines left out.
pub fn last_outputs(text: &str, n: usize) -> (r: Vec<String>)
    ensures
        texts(r@) == last_n(outputs(lines_of(text@)), n as nat),
{
    let ls = lines(text);
    let ghost all = texts(ls@);
    let mut out: Vec<String> = Vec::new();
    let mut i: usize = 0;
    assert(all.take(0) =~= Seq::<Seq<char>>::empty());
    assert(texts(out@) =~= Seq::<Seq<char>>::empty());
    while i < ls.len()
        invariant
            i <= ls.len(),
            all == texts(ls@),
            texts(out@) == outputs(all.take(i as int)),
        decreases ls.len() - i,
    {
        assert(all.take(i + 1).drop_last() =~= all.take(i as int));
        assert(all[i as int] == ls@[i as int]@);
        let t = trim(ls[i].as_str());
        if t.as_str().unicode_len() > 0 {
            let ghost before = texts(out@);
            out.push(strip_log_line_prefix(ls[i].as_str()));
            assert(texts(out@) =~= before.push(own_output(all[i as int])));
        }
        i = i + 1;
    }
    assert(all.take(all.len() as int) =~= all);
    if out.len() > n {
        let from: usize = out.len() - n;
        let ghost whole = texts(out@);
        let last = out.split_off(from);
        assert(texts(last@) =~= whole.skip(from as int));
        last
    } else {
        out
    }
}

/// Where to begin reading a log of `len` bytes to see its last lines.
pub fn tail_window_start(len: u64) -> (r: u64)
    ensures
        r == if len > 16384 {
            (len - 16384) as u64
        } else {
            0
        },
{
    if len > 16384 {
        len - 16384
    } else {
        0
    }
}

/// The last `n` lines of a service's own output in the end of its log, without escape sequences,
/// for use as evidence.
pub fn tail_service_log(end: &[u8], n: usize) -> (r: Vec<String>)
    ensures
        texts(r@) == last_n(outputs(lines_of(lossy_text(plain(end@)))), n as nat),
{
    let bare = strip_ansi(end);
    let text = lossy(bare.as_slice());
    last_outputs(text.as_str(), n)
}

/// A captured line taken apart.
#[derive(Debug, PartialEq, Eq)]
pub struct CapturedLine {
    /// The capture time.
    pub timestamp: String,
    /// The stream.
    pub stream: String,
    /// The line itself.
    pub message: String,
}

/// The parts of a captured line, given whether its head reads as a timestamp. Banners and headers
/// are no captured lines.
pub open spec fn fields_of(line: Seq<char>, stamped: bool) -> Option<(Seq<char>, Seq<char>, Seq<char>)> {
    let (first, second, rest) = three_parts(line);
    if stamped && second is Some && (second->0 == "stdout"@ || second->0 == "stderr"@ || second->0
        == "combined"@) {
        Some((first, second->0, match rest {
            Some(m) => m,
            None => seq![],
        }))
    } else {
        None
    }
}

/// Whether `c` holds these parts.
pub open spec fn holds(c: Option<CapturedLine>, parts: Option<(Seq<char>, Seq<char>, Seq<char>)>) -> bool {
    match (c, parts) {
        (Some(c), Some((t, s, m))) => c.timestamp@ == t && c.stream@ == s && c.message@ == m,
        (None, None) => true,
        _ => false,
    }
}

/// Takes a captured line apart, given whether its head reads as a timestamp.
pub fn captured_fields(line: &str, stamped: bool) -> (r: Option<CapturedLine>)
    ensures
        holds(r, fields_of(line@, stamped)),
{
    let (first, second, rest) = split_three(line);
    if !stamped {
        return None;
    }
    match second {
        Some(stream) => {
            let s = stream.as_str();
            if same(s, "stdout") || same(s, "stderr") || same(s, "combined") {
                let message = match rest {
                    Some(m) => m,
                    None => String::new(),
                };
                assert(rest is None ==> message@ =~= seq![]);
                Some(CapturedLine { timestamp: first, stream, message })
            } else {
                None
            }
        },
        None => None,
    }
}

/// The parts of a persisted line.
pub open spec fn captured(line: Seq<char>) -> Option<(Seq<char>, Seq<char>, Seq<char>)> {
    fields_of(line, rfc3339_instant(three_parts(line).0) is Some)
}

/// Parses a persisted `<timestamp> <stream> <message>` line.
pub fn parse_captured_line(line: &str) -> (r: Option<CapturedLine>)
    ensures
        holds(r, captured(line@)),
{
    let (first, _, _) = split_three(line);
    let stamped = parse_rfc3339(first.as_str()).is_some();
    captured_fields(line, stamped)
}

/// What is persisted of a captured line is read back from it.
pub proof fn law_captured_line_round_trip(stamp: Seq<char>, kind: Seq<char>, message: Seq<char>)
    requires
        !stamp.contains(' '),
        rfc3339_instant(stamp) is Some,
        kind == "stdout"@ || kind == "stderr"@ || kind == "combined"@,
    ensures
        captured(stamp + " "@ + kind + " "@ + message) == Some((stamp, kind, message)),
{
    reveal_strlit(" ");
    reveal_strlit("stdout");
    reveal_strlit("stderr");
    reveal_strlit("combined");
    let line = stamp + " "@ + kind + " "@ + message;
    let i = stamp.len() as int;
    assert(line[i] == ' ');
    assert forall|j: int| 0 <= j < i implies line[j] != ' ' by {
        assert(line[j] == stamp[j]);
        assert(stamp.contains(stamp[j]));
    }
    crate::text::lemma_first_of_is(line, ' ', i);
    let rest = line.skip(i + 1);
    let j = kind.len() as int;
    assert(rest =~= kind + " "@ + message);
    assert(rest[j] == ' ');
    crate::text::lemma_first_of_is(rest, ' ', j);
    assert(line.take(i) =~= stamp);
    assert(rest.take(j) =~= kind);
    assert(rest.skip(j + 1) =~= message);
}

// ---------------------------------------------------------------------------
// Markers
// ---------------------------------------------------------------------------

/// What a line begins with that says whose lines follow. It begins with a record separator, so it
/// never collides with captured output.
pub const SERVICE_MARKER_PREFIX: &'static str = "\u{1e}sysg-service ";

/// The line that says whose lines follow.
pub fn service_marker_line(service: &str) -> (r: Vec<u8>)
    ensures
        r@ == encode_utf8(SERVICE_MARKER_PREFIX@ + service@ + "\n"@),
{
    let mut s = SERVICE_MARKER_PREFIX.to_owned();
    s.append(service);
    s.append("\n");
    bytes_of(s.as_str())
}

/// The service that a marker line names.
pub open spec fn marked_service(line: Seq<char>) -> Option<Seq<char>> {
    if starts(line, SERVICE_MARKER_PREFIX@) {
        Some(line.skip(SERVICE_MARKER_PREFIX@.len() as int))
    } else {
        None
    }
}

/// The service that a marker line names, if `line` is one.
pub fn parse_service_marker(line: &str) -> (r: Option<String>)
    ensures
        crate::text::opt_text(r) == marked_service(line@),
{
    if crate::text::starts_with(line, SERVICE_MARKER_PREFIX) {
        let v = chars_of(line);
        let n: usize = SERVICE_MARKER_PREFIX.unicode_len();
        let rest = string_of(&v, n, v.len());
        assert(rest@ =~= line@.skip(n as int));
        Some(rest)
    } else {
        None
    }
}

/// A marker line, less its newline, names the service that it was made for.
pub proof fn law_marker_round_trip(service: Seq<char>)
    ensures
        marked_service(SERVICE_MARKER_PREFIX@ + service) == Some(service),
{
    let line = SERVICE_MARKER_PREFIX@ + service;
    let n = SERVICE_MARKER_PREFIX@.len() as int;
    assert(line.skip(n) =~= service);
    assert(line.subrange(0, n) =~= SERVICE_MARKER_PREFIX@);
}

/// A captured line, whose capture time begins with a digit, is never taken for a marker line.
pub proof fn law_captured_line_is_no_marker(stamp: Seq<char>, kind: Seq<char>, message: Seq<char>)
    requires
        stamp.len() > 0,
        is_digit(stamp[0]),
    ensures
        marked_service(captured_text(stamp, kind, message)) is None,
{
    reveal_strlit("\u{1e}sysg-service ");
    let line = captured_text(stamp, kind, message);
    assert(line[0] == stamp[0]);
    if starts(line, SERVICE_MARKER_PREFIX@) {
        let head = line.subrange(0, SERVICE_MARKER_PREFIX@.len() as int);
        assert(head[0] == SERVICE_MARKER_PREFIX@[0]);
    }
}

/// A line that is not too long stays as it is. One that is keeps what stands before the last
/// character that begins within the limit, and says how many bytes are gone.
pub proof fn law_long_lines_are_cut_at_a_character(line: Seq<u8>, kept: int)
    ensures
        line.len() <= MAX_LOG_LINE_BYTES ==> truncated(line) == line,
        line.len() > MAX_LOG_LINE_BYTES && 0 <= kept <= MAX_LOG_LINE_BYTES && (kept == 0
            || !is_continuation_byte(line[kept])) && (forall|i: int|
            kept < i <= MAX_LOG_LINE_BYTES ==> is_continuation_byte(#[trigger] line[i]))
            ==> truncated(line) == line.take(kept) + encode_utf8(
            "\u{2026}[truncated "@ + decimal((line.len() - kept) as nat) + " bytes]"@,
        ),
{
    if line.len() > MAX_LOG_LINE_BYTES && 0 <= kept <= MAX_LOG_LINE_BYTES && (kept == 0
        || !is_continuation_byte(line[kept])) && (forall|i: int|
        kept < i <= MAX_LOG_LINE_BYTES ==> is_continuation_byte(#[trigger] line[i])) {
        lemma_cut_is(line, MAX_LOG_LINE_BYTES as int, kept);
    }
}

proof fn lemma_cut_is(line: Seq<u8>, i: int, kept: int)
    requires
        0 <= kept <= i,
        kept == 0 || !is_continuation_byte(line[kept]),
        forall|j: int| kept < j <= i ==> is_continuation_byte(#[trigger] line[j]),
    ensures
        cut_at(line, i) == kept,
    decreases i,
{
    if kept < i {
        assert(is_continuation_byte(line[i]));
        lemma_cut_is(line, i - 1, kept);
    }
}

/// What a service wrote is what follows the capture time and the stream; a line without them is what
/// the service wrote as it stands.
pub proof fn law_own_output_follows_the_prefix(
    stamp: Seq<char>,
    kind: Seq<char>,
    message: Seq<char>,
)
    requires
        !stamp.contains(' '),
        kind == "stdout"@ || kind == "stderr"@,
    ensures
        looks_like_timestamp(stamp) ==> own_output(stamp + " "@ + kind + " "@ + message) == message,
        !looks_like_timestamp(stamp) ==> own_output(stamp + " "@ + kind + " "@ + message) == stamp
            + " "@ + kind + " "@ + message,
{
    reveal_strlit(" ");
    reveal_strlit("stdout");
    reveal_strlit("stderr");
    let line = stamp + " "@ + kind + " "@ + message;
    let i = stamp.len() as int;
    assert(line[i] == ' ');
    assert forall|j: int| 0 <= j < i implies line[j] != ' ' by {
        assert(line[j] == stamp[j]);
        assert(stamp.contains(stamp[j]));
    }
    crate::text::lemma_first_of_is(line, ' ', i);
    let rest = line.skip(i + 1);
    let j = kind.len() as int;
    assert(rest =~= kind + " "@ + message);
    assert(rest[j] == ' ');
    crate::text::lemma_first_of_is(rest, ' ', j);
    assert(line.take(i) =~= stamp);
    assert(rest.take(j) =~= kind);
    assert(rest.skip(j + 1) =~= message);
}

/// A line without a space, or whose head is no timestamp, is no captured line.
pub proof fn law_captured_line_needs_a_timestamp(line: Seq<char>, stamped: bool)
    ensures
        !stamped ==> fields_of(line, stamped) is None,
        !line.contains(' ') ==> fields_of(line, stamped) is None && own_output(line) == line,
{
    crate::text::lemma_first_of(line, ' ');
}

/// Blank lines are left out of what a service wrote, and every other line is in, in order.
pub proof fn law_outputs_leave_out_blank_lines(a: Seq<Seq<char>>, b: Seq<Seq<char>>, line: Seq<char>)
    ensures
        outputs(a + b) == outputs(a) + outputs(b),
        trimmed(line).len() == 0 ==> outputs(seq![line]) == Seq::<Seq<char>>::empty(),
        trimmed(line).len() > 0 ==> outputs(seq![line]) == seq![own_output(line)],
    decreases b.len(),
{
    assert(seq![line].drop_last() =~= Seq::<Seq<char>>::empty());
    assert(outputs(Seq::<Seq<char>>::empty()) =~= Seq::<Seq<char>>::empty());
    assert(Seq::<Seq<char>>::empty().push(own_output(line)) =~= seq![own_output(line)]);
    if b.len() == 0 {
        assert(a + b =~= a);
        assert(outputs(a) + outputs(b) =~= outputs(a));
    } else {
        law_outputs_leave_out_blank_lines(a, b.drop_last(), line);
        assert((a + b).drop_last() =~= a + b.drop_last());
        assert((a + b).last() == b.last());
        assert(outputs(a + b) =~= outputs(a) + outputs(b));
    }
}

} // verus!
