//! Rendering captured lines for the reader.

use vstd::prelude::*;
use vstd::slice::slice_to_vec;
use vstd::utf8::{decode_utf8, encode_utf8, valid_utf8};

use crate::logs::ansi::{plain, strip_ansi};
use crate::logs::bytes::{full_lines, law_chunking_is_invisible, left_over, rows, LineFeed, NEWLINE};
use crate::logs::line::{
    captured, holds, marked_service, parse_captured_line, parse_service_marker, CapturedLine,
};
use crate::logs::utf8::{bytes_of, lossy, lossy_text, strict_text};
use crate::text::{chars_of, opt_text};

verus! {

/// How lines are shown.
#[derive(Debug, Clone, Copy, PartialEq, Eq, Structural)]
pub enum LogFormat {
    /// With capture time and stream in front.
    Text,
    /// The service's own output only.
    Raw,
    /// One JSON object per line.
    Json,
}

impl Default for LogFormat {
    fn default() -> (r: Self)
        ensures
            r == LogFormat::Text,
    {
        LogFormat::Text
    }
}

// ---------------------------------------------------------------------------
// JSON
// ---------------------------------------------------------------------------

/// A hexadecimal digit.
pub open spec fn hex_digit(d: int) -> char {
    if d < 10 {
        ('0' as int + d) as char
    } else {
        ('a' as int + d - 10) as char
    }
}

/// How one character is written inside a JSON string.
pub open spec fn escaped_char(c: char) -> Seq<char> {
    if c == '"' {
        seq!['\\', '"']
    } else if c == '\\' {
        seq!['\\', '\\']
    } else if c == '\n' {
        seq!['\\', 'n']
    } else if c == '\r' {
        seq!['\\', 'r']
    } else if c == '\t' {
        seq!['\\', 't']
    } else if (c as int) < 0x20 {
        seq!['\\', 'u', '0', '0', hex_digit(c as int / 16), hex_digit(c as int % 16)]
    } else {
        seq![c]
    }
}

/// How a text is written inside a JSON string.
pub open spec fn escaped(s: Seq<char>) -> Seq<char>
    decreases s.len(),
{
    if s.len() == 0 {
        seq![]
    } else {
        escaped(s.drop_last()) + escaped_char(s.last())
    }
}

fn hex(d: u32) -> (r: char)
    requires
        d < 16,
    ensures
        r == hex_digit(d as int),
{
    if d < 10 {
        (48u8 + d as u8) as char
    } else {
        (97u8 + (d - 10) as u8) as char
    }
}

fn push_escaped(out: &mut String, c: char)
    ensures
        final(out)@ == old(out)@ + escaped_char(c),
{
    let ghost before = out@;
    if c == '"' {
        out.push('\\');
        out.push('"');
    } else if c == '\\' {
        out.push('\\');
        out.push('\\');
    } else if c == '\n' {
        out.push('\\');
        out.push('n');
    } else if c == '\r' {
        out.push('\\');
        out.push('r');
    } else if c == '\t' {
        out.push('\\');
        out.push('t');
    } else if (c as u32) < 0x20 {
        out.push('\\');
        out.push('u');
        out.push('0');
        out.push('0');
        out.push(hex(c as u32 / 16));
        out.push(hex(c as u32 % 16));
    } else {
        out.push(c);
    }
    assert(out@ =~= before + escaped_char(c));
}

/// Escapes a text for use inside a JSON string, without the quotes around it.
pub fn json_escape(value: &str) -> (r: String)
    ensures
        r@ == escaped(value@),
{
    let v = chars_of(value);
    let mut out = String::new();
    let mut i: usize = 0;
    assert(v@.take(0) =~= Seq::<char>::empty());
    while i < v.len()
        invariant
            i <= v.len(),
            out@ == escaped(v@.take(i as int)),
        decreases v.len() - i,
    {
        push_escaped(&mut out, v[i]);
        assert(v@.take(i + 1).drop_last() =~= v@.take(i as int));
        i = i + 1;
    }
    assert(v@.take(v.len() as int) =~= v@);
    out
}

proof fn lemma_escaped_char(c: char)
    ensures
        forall|i: int|
            0 <= i < escaped_char(c).len() ==> #[trigger] escaped_char(c)[i] as int >= 0x20,
{
    let s = escaped_char(c);
    if (c as int) < 0x20 {
        let high = hex_digit(c as int / 16);
        let low = hex_digit(c as int % 16);
        assert(high as int >= 0x20);
        assert(low as int >= 0x20);
        assert forall|i: int| 0 <= i < s.len() implies #[trigger] s[i] as int >= 0x20 by {}
    }
}

/// An escaped text holds no control character, so that it never breaks a line.
pub proof fn law_escaped_text_stays_on_one_line(s: Seq<char>)
    ensures
        forall|i: int| 0 <= i < escaped(s).len() ==> #[trigger] escaped(s)[i] as int >= 0x20,
    decreases s.len(),
{
    if s.len() > 0 {
        law_escaped_text_stays_on_one_line(s.drop_last());
        let front = escaped(s.drop_last());
        let last = escaped_char(s.last());
        lemma_escaped_char(s.last());
        assert forall|i: int| 0 <= i < escaped(s).len() implies #[trigger] escaped(s)[i] as int
            >= 0x20 by {
            if i < front.len() {
                assert(escaped(s)[i] == front[i]);
            } else {
                assert(escaped(s)[i] == last[i - front.len()]);
            }
        }
    }
}

/// A captured line as a JSON object.
pub open spec fn json_line(
    stamp: Seq<char>,
    stream: Seq<char>,
    service: Seq<char>,
    message: Seq<char>,
) -> Seq<char> {
    "{\"ts\":\""@ + escaped(stamp) + "\",\"stream\":\""@ + escaped(stream)
        + "\",\"service\":\""@ + escaped(service) + "\",\"line\":\""@ + escaped(message)
        + "\"}\n"@
}

fn render_json(line: &CapturedLine, service: &str) -> (r: String)
    ensures
        r@ == json_line(line.timestamp@, line.stream@, service@, line.message@),
{
    let mut s = "{\"ts\":\"".to_owned();
    s.append(json_escape(line.timestamp.as_str()).as_str());
    s.append("\",\"stream\":\"");
    s.append(json_escape(line.stream.as_str()).as_str());
    s.append("\",\"service\":\"");
    s.append(json_escape(service).as_str());
    s.append("\",\"line\":\"");
    s.append(json_escape(line.message.as_str()).as_str());
    s.append("\"}\n");
    s
}

// ---------------------------------------------------------------------------
// Lines
// ---------------------------------------------------------------------------

/// The service that a line of bytes names, when it is a marker line.
pub open spec fn marker_in(bytes: Seq<u8>) -> Option<Seq<char>> {
    if valid_utf8(bytes) {
        marked_service(decode_utf8(bytes))
    } else {
        None
    }
}

/// How the parts of a captured line are shown; anything else is shown as text only.
pub open spec fn shown_parts(
    format: LogFormat,
    service: Option<Seq<char>>,
    bytes: Seq<u8>,
    parts: Option<(Seq<char>, Seq<char>, Seq<char>)>,
) -> Seq<u8> {
    match format {
        LogFormat::Text => bytes.push(NEWLINE),
        LogFormat::Raw => match parts {
            Some((_, _, message)) => encode_utf8(message).push(NEWLINE),
            None => seq![],
        },
        LogFormat::Json => match parts {
            Some((stamp, stream, message)) => encode_utf8(
                json_line(
                    stamp,
                    stream,
                    match service {
                        Some(s) => s,
                        None => seq![],
                    },
                    message,
                ),
            ),
            None => seq![],
        },
    }
}

/// Shows a line whose parts are known.
pub fn show_line(
    format: LogFormat,
    service: &Option<String>,
    bytes: &[u8],
    parts: &Option<CapturedLine>,
) -> (r: Vec<u8>)
    ensures
        forall|p: Option<(Seq<char>, Seq<char>, Seq<char>)>| #[trigger]
            holds(*parts, p) ==> r@ == shown_parts(format, opt_text(*service), bytes@, p),
{
    match format {
        LogFormat::Text => {
            let mut out = slice_to_vec(bytes);
            out.push(NEWLINE);
            out
        },
        LogFormat::Raw => match parts {
            Some(p) => {
                let mut out = bytes_of(p.message.as_str());
                out.push(NEWLINE);
                out
            },
            None => {
                let out: Vec<u8> = Vec::new();
                assert(out@ =~= seq![]);
                out
            },
        },
        LogFormat::Json => match parts {
            Some(p) => {
                let json = match service {
                    Some(s) => render_json(p, s.as_str()),
                    None => {
                        assert(""@ =~= seq![]) by {
                            reveal_strlit("");
                        }
                        render_json(p, "")
                    },
                };
                bytes_of(json.as_str())
            },
            None => {
                let out: Vec<u8> = Vec::new();
                assert(out@ =~= seq![]);
                out
            },
        },
    }
}

/// What a line is shown as, and whose lines follow it.
pub open spec fn rendered(
    format: LogFormat,
    strip: bool,
    service: Option<Seq<char>>,
    raw: Seq<u8>,
) -> (Seq<u8>, Option<Seq<char>>) {
    let bytes = if strip {
        plain(raw)
    } else {
        raw
    };
    match marker_in(bytes) {
        Some(name) => (seq![], Some(name)),
        None => (shown_parts(format, service, bytes, captured(lossy_text(bytes))), service),
    }
}

/// What lines are shown as, one after the other, and whose lines follow them.
pub open spec fn rendered_all(
    format: LogFormat,
    strip: bool,
    service: Option<Seq<char>>,
    lines: Seq<Seq<u8>>,
) -> (Seq<u8>, Option<Seq<char>>)
    decreases lines.len(),
{
    if lines.len() == 0 {
        (seq![], service)
    } else {
        let (before, s) = rendered_all(format, strip, service, lines.drop_last());
        let (shown, s2) = rendered(format, strip, s, lines.last());
        (before + shown, s2)
    }
}

pub proof fn lemma_rendered_all_add(
    format: LogFormat,
    strip: bool,
    service: Option<Seq<char>>,
    a: Seq<Seq<u8>>,
    b: Seq<Seq<u8>>,
)
    ensures
        ({
            let (x, s) = rendered_all(format, strip, service, a);
            let (y, s2) = rendered_all(format, strip, s, b);
            rendered_all(format, strip, service, a + b) == (x + y, s2)
        }),
    decreases b.len(),
{
    let (x, s) = rendered_all(format, strip, service, a);
    if b.len() == 0 {
        assert(a + b =~= a);
        assert(x + Seq::<u8>::empty() =~= x);
    } else {
        lemma_rendered_all_add(format, strip, service, a, b.drop_last());
        assert((a + b).drop_last() =~= a + b.drop_last());
        let (y0, s0) = rendered_all(format, strip, s, b.drop_last());
        let (z, s2) = rendered(format, strip, s0, b.last());
        assert((x + y0) + z =~= x + (y0 + z));
    }
}

/// Reformats log bytes line by line into the selected form, optionally without escape sequences,
/// and leaves out what is no captured line.
pub struct LogWriter {
    /// What has been rendered.
    pub inner: Vec<u8>,
    /// How lines are shown.
    pub format: LogFormat,
    /// Whether escape sequences are removed.
    pub strip_ansi: bool,
    /// Whose lines follow.
    pub service: Option<String>,
    /// The line that is not complete yet.
    pub feed: LineFeed,
}

impl LogWriter {
    /// Whether bytes pass through as they come.
    pub open spec fn passes_through(&self) -> bool {
        self.format is Text && !self.strip_ansi
    }

    /// Creates a writer that renders onto `inner`.
    pub fn new(
        inner: Vec<u8>,
        format: LogFormat,
        strip_ansi: bool,
        service: Option<String>,
    ) -> (r: Self)
        ensures
            r.inner == inner,
            r.format == format,
            r.strip_ansi == strip_ansi,
            r.service == service,
            r.feed.pending@ == Seq::<u8>::empty(),
    {
        LogWriter { inner, format, strip_ansi, service, feed: LineFeed::new() }
    }

    /// Renders one complete line, its newline already removed.
    fn render_line(&mut self, raw: &[u8])
        ensures
            ({
                let (shown, service) = rendered(
                    old(self).format,
                    old(self).strip_ansi,
                    opt_text(old(self).service),
                    raw@,
                );
                &&& final(self).inner@ == old(self).inner@ + shown
                &&& opt_text(final(self).service) == service
            }),
            final(self).format == old(self).format,
            final(self).strip_ansi == old(self).strip_ansi,
            final(self).feed == old(self).feed,
    {
        let ghost before = self.inner@;
        let bytes = if self.strip_ansi {
            strip_ansi(raw)
        } else {
            slice_to_vec(raw)
        };
        if let Ok(text) = strict_text(bytes.as_slice()) {
            if let Some(service) = parse_service_marker(text.as_str()) {
                self.service = Some(service);
                assert(self.inner@ =~= before + seq![]);
                return;
            }
        }
        let text = lossy(bytes.as_slice());
        let parts = parse_captured_line(text.as_str());
        let shown = show_line(self.format, &self.service, bytes.as_slice(), &parts);
        assert(holds(parts, captured(lossy_text(bytes@))));
        self.inner.extend_from_slice(shown.as_slice());
        assert(self.inner@ =~= before + shown@);
    }

    /// Takes bytes in, rendering every line that is complete.
    pub fn write_all(&mut self, buf: &[u8])
        ensures
            final(self).format == old(self).format,
            final(self).strip_ansi == old(self).strip_ansi,
            old(self).passes_through() ==> {
                &&& final(self).inner@ == old(self).inner@ + buf@
                &&& final(self).service == old(self).service
                &&& final(self).feed == old(self).feed
            },
            !old(self).passes_through() ==> {
                let all = old(self).feed.pending@ + buf@;
                let (shown, service) = rendered_all(
                    old(self).format,
                    old(self).strip_ansi,
                    opt_text(old(self).service),
                    full_lines(all),
                );
                &&& final(self).inner@ == old(self).inner@ + shown
                &&& opt_text(final(self).service) == service
                &&& final(self).feed.pending@ == left_over(all)
            },
    {
        let text_only = match self.format {
            LogFormat::Text => true,
            _ => false,
        };
        if text_only && !self.strip_ansi {
            self.inner.extend_from_slice(buf);
            assert(self.inner@ =~= old(self).inner@ + buf@);
            return;
        }
        let ghost base = self.inner@;
        let ghost service0 = opt_text(self.service);
        let ready = self.feed.feed(buf);
        let ghost all = rows(ready@);
        let mut i: usize = 0;
        assert(all.take(0) =~= Seq::<Seq<u8>>::empty());
        assert(base + Seq::<u8>::empty() =~= base);
        let ghost pending = self.feed.pending@;
        while i < ready.len()
            invariant
                i <= ready.len(),
                all == rows(ready@),
                self.format == old(self).format,
                self.strip_ansi == old(self).strip_ansi,
                self.feed.pending@ == pending,
                ({
                    let (shown, service) = rendered_all(
                        self.format,
                        self.strip_ansi,
                        service0,
                        all.take(i as int),
                    );
                    &&& self.inner@ == base + shown
                    &&& opt_text(self.service) == service
                }),
            decreases ready.len() - i,
        {
            let ghost (shown, service) = rendered_all(
                self.format,
                self.strip_ansi,
                service0,
                all.take(i as int),
            );
            assert(all.take(i + 1).drop_last() =~= all.take(i as int));
            assert(all[i as int] == ready@[i as int]@);
            self.render_line(ready[i].as_slice());
            proof {
                let (z, _) = rendered(self.format, self.strip_ansi, service, all[i as int]);
                assert((base + shown) + z =~= base + (shown + z));
            }
            i = i + 1;
        }
        assert(all.take(all.len() as int) =~= all);
    }

    /// Renders what is left of a line that has not been completed.
    pub fn flush(&mut self)
        ensures
            final(self).format == old(self).format,
            final(self).strip_ansi == old(self).strip_ansi,
            final(self).feed.pending@ == Seq::<u8>::empty(),
            old(self).feed.pending@.len() == 0 ==> final(self).inner == old(self).inner
                && final(self).service == old(self).service,
            old(self).feed.pending@.len() > 0 ==> {
                let (shown, service) = rendered(
                    old(self).format,
                    old(self).strip_ansi,
                    opt_text(old(self).service),
                    old(self).feed.pending@,
                );
                &&& final(self).inner@ == old(self).inner@ + shown
                &&& opt_text(final(self).service) == service
            },
    {
        match self.feed.finish() {
            Some(line) => {
                self.render_line(line.as_slice());
            },
            None => {},
        }
    }

    /// Hands over what has been rendered.
    pub fn take_output(&mut self) -> (r: Vec<u8>)
        ensures
            r == old(self).inner,
            final(self).inner@ == Seq::<u8>::empty(),
            final(self).format == old(self).format,
            final(self).strip_ansi == old(self).strip_ansi,
            final(self).service == old(self).service,
            final(self).feed == old(self).feed,
    {
        let mut out: Vec<u8> = Vec::new();
        std::mem::swap(&mut out, &mut self.inner);
        out
    }
}

/// What is shown does not depend on how the bytes were cut into writes: two writes show what one
/// write of both shows.
pub proof fn law_writes_may_be_split(
    format: LogFormat,
    strip: bool,
    service: Option<Seq<char>>,
    pending: Seq<u8>,
    a: Seq<u8>,
    b: Seq<u8>,
)
    ensures
        ({
            let first = pending + a;
            let (x, s) = rendered_all(format, strip, service, full_lines(first));
            let (y, s2) = rendered_all(format, strip, s, full_lines(left_over(first) + b));
            &&& rendered_all(format, strip, service, full_lines(pending + (a + b))) == (x + y, s2)
            &&& left_over(pending + (a + b)) == left_over(left_over(first) + b)
        }),
{
    let first = pending + a;
    assert(pending + (a + b) =~= first + b);
    law_chunking_is_invisible(first, b);
    lemma_rendered_all_add(
        format,
        strip,
        service,
        full_lines(first),
        full_lines(left_over(first) + b),
    );
}

/// A marker line is shown as nothing and says whose lines follow. Any other line is shown as it is
/// where text is asked for, and leaves it open whose lines follow; where the bare message is asked
/// for, or a JSON object, a line that was not captured is shown as nothing.
pub proof fn law_lines_are_shown_by_format(service: Option<Seq<char>>, raw: Seq<u8>)
    ensures
        marker_in(raw) is Some ==> rendered(LogFormat::Text, false, service, raw) == (
            Seq::<u8>::empty(),
            marker_in(raw),
        ) && rendered(LogFormat::Json, false, service, raw) == (Seq::<u8>::empty(), marker_in(raw))
            && rendered(LogFormat::Raw, false, service, raw) == (
            Seq::<u8>::empty(),
            marker_in(raw),
        ),
        marker_in(raw) is None ==> rendered(LogFormat::Text, false, service, raw) == (
            raw.push(NEWLINE),
            service,
        ),
        marker_in(raw) is None && captured(lossy_text(raw)) is None ==> rendered(
            LogFormat::Raw,
            false,
            service,
            raw,
        ) == (Seq::<u8>::empty(), service) && rendered(LogFormat::Json, false, service, raw) == (
            Seq::<u8>::empty(),
            service,
        ),
        match captured(lossy_text(raw)) {
            Some((_, _, message)) => marker_in(raw) is None ==> rendered(
                LogFormat::Raw,
                false,
                service,
                raw,
            ) == (encode_utf8(message).push(NEWLINE), service),
            None => true,
        },
        marker_in(plain(raw)) is None ==> rendered(LogFormat::Text, true, service, raw) == (
            plain(raw).push(NEWLINE),
            service,
        ),
{
}

/// What is written inside a JSON string stands for each character in turn, and only quotes,
/// backslashes and control characters need an escape.
pub proof fn law_only_special_characters_are_escaped(a: Seq<char>, b: Seq<char>, c: char)
    ensures
        escaped(a + b) == escaped(a) + escaped(b),
        c != '"' && c != '\\' && c as int >= 0x20 ==> escaped(seq![c]) == seq![c],
        c == '"' || c == '\\' ==> escaped(seq![c]) == seq!['\\', c],
        c == '\n' ==> escaped(seq![c]) == seq!['\\', 'n'],
    decreases b.len(),
{
    assert(seq![c].drop_last() =~= Seq::<char>::empty());
    assert(escaped(Seq::<char>::empty()) =~= Seq::<char>::empty());
    assert(Seq::<char>::empty() + escaped_char(c) =~= escaped_char(c));
    if b.len() == 0 {
        assert(a + b =~= a);
        assert(escaped(a) + escaped(b) =~= escaped(a));
    } else {
        law_only_special_characters_are_escaped(a, b.drop_last(), c);
        assert((a + b).drop_last() =~= a + b.drop_last());
        assert((a + b).last() == b.last());
        assert(escaped(a + b) =~= escaped(a) + escaped(b));
    }
}

} // verus!
