//! Showing logs: what to read, how to follow it, and the headings above it.

use vstd::prelude::*;

use crate::daemon::pid_file::{lookup, PidFile};
use crate::logs::bytes::{
    concat, flat, full_lines, left_over, of_stream, rows, tail, tail_log_bytes,
    captured_log_line_matches_kind, part, trim_ascii_end, trim_end, LineFeed, LogStream, NEWLINE,
};
use crate::logs::filter::LogFilter;
use crate::logs::tail::{
    filter_captured_log_bytes, of_one_kind, tail_log_bytes_of_kind, tail_of_kind,
};
use crate::names::{NameMap, NameSet};
use crate::text::{chars_of, decimal, lower, lower_chars, push_decimal, same, string_of};

verus! {

// ---------------------------------------------------------------------------
// Headings
// ---------------------------------------------------------------------------

/// A part of the view of all services.
#[derive(Debug, Clone, Copy, PartialEq, Eq, Structural)]
pub enum LogSection {
    /// Services that run.
    Running,
    /// Services that do not.
    Offline,
}

impl LogSection {
    /// The heading of this part.
    pub open spec fn heading(self) -> Seq<char> {
        match self {
            LogSection::Running => "Running Services"@,
            LogSection::Offline => "Offline Services"@,
        }
    }

    /// The heading of this part.
    pub fn label(self) -> (r: &'static str)
        ensures
            r@ == self.heading(),
    {
        match self {
            LogSection::Running => "Running Services",
            LogSection::Offline => "Offline Services",
        }
    }
}

/// The title above a service's log.
pub open spec fn title_of(service: Seq<char>, pid: Option<u32>) -> Seq<char> {
    match pid {
        Some(p) => service + " [pid "@ + decimal(p as nat) + "]"@,
        None => service + " [offline]"@,
    }
}

/// The title above a service's log.
pub fn format_log_title(service: &str, pid: Option<u32>) -> (r: String)
    ensures
        r@ == title_of(service@, pid),
{
    let mut s = service.to_owned();
    match pid {
        Some(p) => {
            s.append(" [pid ");
            push_decimal(&mut s, p as u64);
            s.append("]");
        },
        None => {
            s.append(" [offline]");
        },
    }
    s
}

/// `n` times the same character.
pub open spec fn repeated(c: char, n: nat) -> Seq<char> {
    Seq::new(n, |i: int| c)
}

fn push_repeated(s: &mut String, c: char, n: usize)
    ensures
        final(s)@ == old(s)@ + repeated(c, n as nat),
{
    let ghost before = s@;
    let mut i: usize = 0;
    assert(before + repeated(c, 0) =~= before);
    while i < n
        invariant
            i <= n,
            s@ == before + repeated(c, i as nat),
        decreases n - i,
    {
        s.push(c);
        i = i + 1;
        assert(s@ =~= before + repeated(c, i as nat));
    }
}

/// A title cut to a width.
pub open spec fn cut_title(title: Seq<char>, width: nat) -> Seq<char> {
    if title.len() <= width {
        title
    } else if width <= 3 {
        repeated('.', width)
    } else {
        title.take(width - 3) + "..."@
    }
}

/// Cuts a title to a width.
pub fn truncate_log_title(title: &str, max_width: usize) -> (r: String)
    ensures
        r@ == cut_title(title@, max_width as nat),
        r@.len() <= max_width,
{
    let v = chars_of(title);
    if v.len() <= max_width {
        return title.to_owned();
    }
    if max_width <= 3 {
        let mut s = String::new();
        push_repeated(&mut s, '.', max_width);
        assert(s@ =~= repeated('.', max_width as nat));
        return s;
    }
    let mut s = string_of(&v, 0, max_width - 3);
    assert(s@ =~= title@.take(max_width - 3));
    proof {
        reveal_strlit("...");
    }
    s.append("...");
    s
}

/// How wide the box around a title is on the inside.
pub open spec fn inner_width(terminal_width: usize) -> nat {
    if terminal_width <= 3 {
        1
    } else {
        (terminal_width - 2) as nat
    }
}

/// A title in a box as wide as the terminal.
pub open spec fn boxed_title(title: Seq<char>, terminal_width: usize) -> Seq<char> {
    let width = inner_width(terminal_width);
    let t = cut_title(title, width);
    let left = ((width - t.len()) / 2) as nat;
    let right = (width - t.len() - left) as nat;
    "\n\u{250c}"@ + repeated('\u{2500}', width) + "\u{2510}\n\u{2502}"@ + repeated(' ', left) + t
        + repeated(' ', right) + "\u{2502}\n\u{2514}"@ + repeated('\u{2500}', width)
        + "\u{2518}\n\n"@
}

/// Formats a centered title in a box as wide as the terminal.
pub fn format_boxed_log_title(title: &str, terminal_width: usize) -> (r: String)
    ensures
        r@ == boxed_title(title@, terminal_width),
{
    let width: usize = if terminal_width <= 3 {
        1
    } else {
        terminal_width - 2
    };
    let t = truncate_log_title(title, width);
    let n: usize = t.as_str().unicode_len();
    let left: usize = (width - n) / 2;
    let right: usize = width - n - left;
    let mut s = "\n\u{250c}".to_owned();
    push_repeated(&mut s, '\u{2500}', width);
    s.append("\u{2510}\n\u{2502}");
    push_repeated(&mut s, ' ', left);
    s.append(t.as_str());
    push_repeated(&mut s, ' ', right);
    s.append("\u{2502}\n\u{2514}");
    push_repeated(&mut s, '\u{2500}', width);
    s.append("\u{2518}\n\n");
    s
}

/// The width to use for headings: that of the terminal, or a stable fallback, but never too narrow.
pub fn log_terminal_width(detected: Option<u16>, default_width: usize) -> (r: usize)
    ensures
        ({
            let w = match detected {
                Some(w) => w as int,
                None => default_width as int,
            };
            r == if w < 24 {
                24
            } else {
                w
            }
        }),
{
    let w: usize = match detected {
        Some(w) => w as usize,
        None => default_width,
    };
    if w < 24 {
        24
    } else {
        w
    }
}

/// The heading of a part of the view of all services.
pub fn write_log_section_header(section: LogSection, terminal_width: usize) -> (r: String)
    ensures
        r@ == boxed_title(section.heading(), terminal_width),
{
    format_boxed_log_title(section.label(), terminal_width)
}

/// A title in a plain box of fixed width.
pub open spec fn banner(title: Seq<char>) -> Seq<char> {
    let pad: int = if title.len() < 31 {
        31 - title.len()
    } else {
        0
    };
    let left = (pad / 2) as nat;
    let right = (pad - left) as nat;
    "\n+"@ + repeated('-', 33) + "+\n| "@ + repeated(' ', left) + title + repeated(' ', right)
        + " |\n+"@ + repeated('-', 33) + "+\n\n"@
}

/// A title in a plain box of fixed width; a longer title widens its own line only.
pub fn plain_banner(title: &str) -> (r: String)
    ensures
        r@ == banner(title@),
{
    let n: usize = title.unicode_len();
    let pad: usize = if n < 31 {
        31 - n
    } else {
        0
    };
    let left: usize = pad / 2;
    let mut s = "\n+".to_owned();
    push_repeated(&mut s, '-', 33);
    s.append("+\n| ");
    push_repeated(&mut s, ' ', left);
    s.append(title);
    push_repeated(&mut s, ' ', pad - left);
    s.append(" |\n+");
    push_repeated(&mut s, '-', 33);
    s.append("+\n\n");
    s
}

// ---------------------------------------------------------------------------
// One shot or follow
// ---------------------------------------------------------------------------

/// Whether a log is shown once or followed.
#[derive(Debug, Clone, Copy, PartialEq, Eq, Structural)]
pub enum TailMode {
    /// Followed as it grows.
    Follow,
    /// Shown once.
    OneShot,
}

impl TailMode {
    /// The mode that the environment asks for: `oneshot`, in any case, or else following.
    pub fn current(setting: Option<&str>) -> (r: Self)
        ensures
            r == if setting is Some && lower(setting->0@) == lower("oneshot"@) {
                TailMode::OneShot
            } else {
                TailMode::Follow
            },
    {
        match setting {
            Some(v) => {
                let a = lower_chars(&chars_of(v));
                let b = lower_chars(&chars_of("oneshot"));
                let a = string_of(&a, 0, a.len());
                let b = string_of(&b, 0, b.len());
                assert(a@ =~= lower(v@));
                assert(b@ =~= lower("oneshot"@));
                if same(a.as_str(), b.as_str()) {
                    TailMode::OneShot
                } else {
                    TailMode::Follow
                }
            },
            None => TailMode::Follow,
        }
    }
}

/// The mode in which a log is shown.
pub open spec fn mode_for(mode: TailMode, filter: LogFilter) -> TailMode {
    if filter.all || filter.since is Some || filter.until is Some {
        TailMode::OneShot
    } else {
        mode
    }
}

/// A log is followed exactly when that is asked for and it is neither bounded in time nor read whole;
/// a pattern is no hindrance.
pub proof fn law_following_needs_an_open_end(mode: TailMode, filter: LogFilter)
    ensures
        mode_for(mode, filter) == TailMode::Follow <==> mode == TailMode::Follow && !filter.all
            && filter.since is None && filter.until is None,
{
}

/// A log that is bounded in time or read whole cannot be followed.
pub fn resolve_tail_mode(mode: TailMode, filter: &LogFilter) -> (r: TailMode)
    ensures
        r == mode_for(mode, *filter),
        r == if filter.all || filter.since is Some || filter.until is Some {
            TailMode::OneShot
        } else {
            mode
        },
{
    if filter.all || filter.since.is_some() || filter.until.is_some() {
        TailMode::OneShot
    } else {
        mode
    }
}

/// The stream that a filter names, if it is given and names one.
pub open spec fn stream_in(kind: Option<&str>) -> Option<LogStream> {
    match kind {
        Some(k) => LogStream::named(k@),
        None => None,
    }
}

fn stream_of(kind: Option<&str>) -> (r: Option<LogStream>)
    ensures
        r == stream_in(kind),
        r is Some ==> r->0 is Stdout || r->0 is Stderr,
{
    match kind {
        Some(k) => LogStream::from_filter(k),
        None => None,
    }
}

/// Whether following needs the lines looked at one by one.
pub fn follows_filtered(combined_exists: bool, filter: &LogFilter, kind: Option<&str>) -> (r: bool)
    ensures
        r == (combined_exists && (filter.grep is Some || stream_in(kind) is Some)),
{
    combined_exists && (filter.grep.is_some() || stream_of(kind).is_some())
}

/// One of a service's log files.
#[derive(Debug, Clone, Copy, PartialEq, Eq, Structural)]
pub enum LogFile {
    /// The merged log.
    Combined,
    /// Standard output.
    Stdout,
    /// Standard error.
    Stderr,
}

/// The files that following shows.
pub open spec fn followed_files(combined_exists: bool, kind: Option<&str>) -> Seq<LogFile> {
    if combined_exists {
        seq![LogFile::Combined]
    } else {
        match stream_in(kind) {
            Some(LogStream::Stdout) => seq![LogFile::Stdout],
            Some(LogStream::Stderr) => seq![LogFile::Stderr],
            _ => seq![LogFile::Stdout, LogFile::Stderr],
        }
    }
}

/// The options and files that a log is followed with.
pub struct TailCommand {
    /// How many lines are shown first.
    pub lines: usize,
    /// Whether the files are followed.
    pub follow: bool,
    /// The files.
    pub files: Vec<LogFile>,
}

/// How a log is tailed.
pub fn configure_command(mode: TailMode, lines: usize, combined_exists: bool, kind: Option<&str>) -> (r:
    TailCommand)
    ensures
        r.lines == lines,
        r.follow == (mode is Follow),
        r.files@ == followed_files(combined_exists, kind),
{
    let follow = match mode {
        TailMode::Follow => true,
        TailMode::OneShot => false,
    };
    let mut files: Vec<LogFile> = Vec::new();
    if combined_exists {
        files.push(LogFile::Combined);
    } else {
        match stream_of(kind) {
            Some(LogStream::Stdout) => {
                files.push(LogFile::Stdout);
            },
            Some(LogStream::Stderr) => {
                files.push(LogFile::Stderr);
            },
            _ => {
                files.push(LogFile::Stdout);
                files.push(LogFile::Stderr);
            },
        }
    }
    assert(files@ =~= followed_files(combined_exists, kind));
    TailCommand { lines, follow, files }
}

/// Which missing log files are created before a log is shown, or why it cannot be.
pub struct TailTargets {
    /// Whether an empty log for standard output is created.
    pub touch_stdout: bool,
    /// Whether an empty log for standard error is created.
    pub touch_stderr: bool,
    /// The process of which nothing can be shown.
    pub unavailable: Option<u32>,
}

/// Decides what is done before a service's log is shown. Nothing can be shown of a process that has
/// neither logs nor open output.
pub fn tail_targets(
    pid: Option<u32>,
    combined_exists: bool,
    stdout_exists: bool,
    stderr_exists: bool,
    output_open: bool,
) -> (r: TailTargets)
    ensures
        r.unavailable is Some <==> pid is Some && !combined_exists && !stdout_exists
            && !stderr_exists && !output_open,
        r.unavailable is Some ==> r.unavailable == pid,
        combined_exists ==> !r.touch_stdout && !r.touch_stderr,
        r.touch_stdout == (!combined_exists && !stdout_exists),
        r.touch_stderr == (!combined_exists && !stderr_exists),
        r.unavailable == if combined_exists || stdout_exists || stderr_exists || output_open {
            None
        } else {
            pid
        },
{
    TailTargets {
        touch_stdout: !combined_exists && !stdout_exists,
        touch_stderr: !combined_exists && !stderr_exists,
        unavailable: if combined_exists || stdout_exists || stderr_exists || output_open {
            None
        } else {
            pid
        },
    }
}

// ---------------------------------------------------------------------------
// One-shot views
// ---------------------------------------------------------------------------

/// How much of a file is read.
#[derive(Debug, Clone, Copy, PartialEq, Eq, Structural)]
pub enum ReadHow {
    /// All of it, with its backups.
    History,
    /// Its last lines.
    Tail {
        /// How many.
        lines: usize,
    },
    /// Its last lines of one stream.
    TailOfStream {
        /// How many.
        lines: usize,
        /// The stream.
        stream: LogStream,
    },
}

/// One read of a one-shot view.
#[derive(Debug, Clone, Copy, PartialEq, Eq, Structural)]
pub struct LogRead {
    /// The file.
    pub file: LogFile,
    /// How much of it.
    pub how: ReadHow,
}

/// The reads of a one-shot view. A content filter needs all lines, since it is not known which
/// ones it keeps.
pub open spec fn planned(
    all: bool,
    filters: bool,
    combined_exists: bool,
    lines: usize,
    stream: Option<LogStream>,
) -> Seq<LogRead> {
    let n = if filters {
        usize::MAX
    } else {
        lines
    };
    let how = if all {
        ReadHow::History
    } else {
        ReadHow::Tail { lines: n }
    };
    match stream {
        Some(s) => if combined_exists {
            seq![
                LogRead {
                    file: LogFile::Combined,
                    how: if all {
                        how
                    } else {
                        ReadHow::TailOfStream { lines: n, stream: s }
                    },
                },
            ]
        } else if s is Stdout {
            seq![LogRead { file: LogFile::Stdout, how }]
        } else {
            seq![LogRead { file: LogFile::Stderr, how }]
        },
        None => if combined_exists {
            seq![LogRead { file: LogFile::Combined, how }]
        } else {
            seq![LogRead { file: LogFile::Stdout, how }, LogRead { file: LogFile::Stderr, how }]
        },
    }
}

/// Plans the reads of a one-shot view.
pub fn plan_log_tail(combined_exists: bool, lines: usize, kind: Option<&str>, filter: &LogFilter) -> (r:
    Vec<LogRead>)
    ensures
        r@ == planned(filter.all, filter.filters_content(), combined_exists, lines, stream_in(kind)),
{
    let n: usize = if filter.has_content_filter() {
        usize::MAX
    } else {
        lines
    };
    let how = if filter.all {
        ReadHow::History
    } else {
        ReadHow::Tail { lines: n }
    };
    let mut reads: Vec<LogRead> = Vec::new();
    match stream_of(kind) {
        Some(stream) => {
            if combined_exists {
                let how = if filter.all {
                    how
                } else {
                    ReadHow::TailOfStream { lines: n, stream }
                };
                reads.push(LogRead { file: LogFile::Combined, how });
            } else {
                match stream {
                    LogStream::Stdout => {
                        reads.push(LogRead { file: LogFile::Stdout, how });
                    },
                    _ => {
                        reads.push(LogRead { file: LogFile::Stderr, how });
                    },
                }
            }
        },
        None => {
            if combined_exists {
                reads.push(LogRead { file: LogFile::Combined, how });
            } else {
                reads.push(LogRead { file: LogFile::Stdout, how });
                reads.push(LogRead { file: LogFile::Stderr, how });
            }
        },
    }
    assert(reads@ =~= planned(
        filter.all,
        filter.filters_content(),
        combined_exists,
        lines,
        stream_in(kind),
    ));
    reads
}

/// What is shown of the bytes that a read gave.
pub open spec fn finished(
    read: LogRead,
    raw: Seq<u8>,
    lines: usize,
    stream: Option<LogStream>,
    filter: LogFilter,
) -> Seq<u8> {
    if filter.all {
        filter.shown(
            if read.file is Combined && stream is Some {
                flat(of_one_kind(raw, stream->0.label()))
            } else {
                raw
            },
        )
    } else if filter.filters_content() {
        tail(filter.shown(raw), lines as nat)
    } else {
        raw
    }
}

/// Finishes a read: chooses lines by stream, time and pattern, and keeps the last ones.
pub fn finish_log_tail(
    read: LogRead,
    raw: &[u8],
    lines: usize,
    kind: Option<&str>,
    filter: &LogFilter,
) -> (r: Vec<u8>)
    ensures
        r@ == finished(read, raw@, lines, stream_in(kind), *filter),
{
    if filter.all {
        let merged = match read.file {
            LogFile::Combined => true,
            _ => false,
        };
        match stream_of(kind) {
            Some(stream) => {
                if merged {
                    let chosen = filter_captured_log_bytes(raw, stream.as_str());
                    return filter.apply(chosen.as_slice());
                }
            },
            None => {},
        }
        filter.apply(raw)
    } else if filter.has_content_filter() {
        let shown = filter.apply(raw);
        tail_log_bytes(shown.as_slice(), lines)
    } else {
        part(raw, 0, raw.len())
    }
}

/// What a log file holds.
pub struct LogContent {
    /// Its backups, oldest first.
    pub backups: Vec<Vec<u8>>,
    /// The active log.
    pub active: Vec<u8>,
}

/// The logs of a service.
pub struct LogContents {
    /// The merged log, when there is one.
    pub combined: Option<LogContent>,
    /// The log of standard output.
    pub stdout: LogContent,
    /// The log of standard error.
    pub stderr: LogContent,
}

/// What a read gives.
pub open spec fn read_from(read: LogRead, logs: LogContents) -> Seq<u8> {
    let content = match read.file {
        LogFile::Combined => logs.combined->0,
        LogFile::Stdout => logs.stdout,
        LogFile::Stderr => logs.stderr,
    };
    match read.how {
        ReadHow::History => flat(rows(content.backups@)) + content.active@,
        ReadHow::Tail { lines } => tail(content.active@, lines as nat),
        ReadHow::TailOfStream { lines, stream } => tail_of_kind(
            content.active@,
            lines as nat,
            stream.label(),
        ),
    }
}

fn read_content(how: ReadHow, content: &LogContent) -> (r: Vec<u8>)
    ensures
        r@ == (match how {
            ReadHow::History => flat(rows(content.backups@)) + content.active@,
            ReadHow::Tail { lines } => tail(content.active@, lines as nat),
            ReadHow::TailOfStream { lines, stream } => tail_of_kind(
                content.active@,
                lines as nat,
                stream.label(),
            ),
        }),
{
    match how {
        ReadHow::History => {
            let mut all = concat(&content.backups);
            all.extend_from_slice(content.active.as_slice());
            all
        },
        ReadHow::Tail { lines } => tail_log_bytes(content.active.as_slice(), lines),
        ReadHow::TailOfStream { lines, stream } => tail_log_bytes_of_kind(
            content.active.as_slice(),
            lines,
            stream.as_str(),
        ),
    }
}

/// Collects what a one-shot view shows of a service's logs, one part for each file read.
pub fn collect_log_tail(logs: &LogContents, lines: usize, kind: Option<&str>, filter: &LogFilter) -> (r:
    Vec<Vec<u8>>)
    ensures
        ({
            let plan = planned(
                filter.all,
                filter.filters_content(),
                logs.combined is Some,
                lines,
                stream_in(kind),
            );
            &&& r@.len() == plan.len()
            &&& forall|i: int|
                0 <= i < r@.len() ==> (#[trigger] r@[i])@ == finished(
                    plan[i],
                    read_from(plan[i], *logs),
                    lines,
                    stream_in(kind),
                    *filter,
                )
        }),
{
    let plan = plan_log_tail(logs.combined.is_some(), lines, kind, filter);
    let mut out: Vec<Vec<u8>> = Vec::new();
    let mut i: usize = 0;
    while i < plan.len()
        invariant
            i <= plan.len(),
            plan@ == planned(
                filter.all,
                filter.filters_content(),
                logs.combined is Some,
                lines,
                stream_in(kind),
            ),
            out@.len() == i,
            forall|j: int|
                0 <= j < i ==> (#[trigger] out@[j])@ == finished(
                    plan@[j],
                    read_from(plan@[j], *logs),
                    lines,
                    stream_in(kind),
                    *filter,
                ),
        decreases plan.len() - i,
    {
        let read = plan[i];
        let raw = match read.file {
            LogFile::Combined => match &logs.combined {
                Some(c) => read_content(read.how, c),
                None => {
                    assert(false);
                    Vec::new()
                },
            },
            LogFile::Stdout => read_content(read.how, &logs.stdout),
            LogFile::Stderr => read_content(read.how, &logs.stderr),
        };
        out.push(finish_log_tail(read, raw.as_slice(), lines, kind, filter));
        i = i + 1;
    }
    out
}

// ---------------------------------------------------------------------------
// Following
// ---------------------------------------------------------------------------

/// A log that is being followed line by line.
pub struct Follow {
    /// How much of the file has been read.
    pub offset: u64,
    /// The line that is not complete yet.
    pub feed: LineFeed,
}

/// Whether a complete line, without its newline, is shown.
pub open spec fn follows_line(line: Seq<u8>, stream: Option<LogStream>, filter: LogFilter) -> bool {
    (stream is Some ==> of_stream(line, stream->0)) && filter.keeps(trim_end(line))
}

/// The lines that are shown, each with its newline.
pub open spec fn followed(
    lines: Seq<Seq<u8>>,
    stream: Option<LogStream>,
    filter: LogFilter,
) -> Seq<u8>
    decreases lines.len(),
{
    if lines.len() == 0 {
        seq![]
    } else {
        let before = followed(lines.drop_last(), stream, filter);
        if follows_line(lines.last(), stream, filter) {
            before + lines.last().push(NEWLINE)
        } else {
            before
        }
    }
}

impl Follow {
    /// Begins to follow after the first `offset` bytes.
    pub fn begin(offset: u64) -> (r: Self)
        ensures
            r.offset == offset,
            r.feed.pending@ == Seq::<u8>::empty(),
    {
        Follow { offset, feed: LineFeed::new() }
    }

    /// Takes a look at how long the file is now, absent when it is missing, and says from where to
    /// read. A file that is missing or has shrunk is followed anew from its beginning.
    pub fn look(&mut self, len: Option<u64>) -> (r: Option<u64>)
        ensures
            match len {
                None => {
                    &&& r is None
                    &&& final(self).offset == 0
                    &&& final(self).feed.pending@ == Seq::<u8>::empty()
                },
                Some(n) => {
                    &&& n < old(self).offset ==> final(self).offset == 0
                        && final(self).feed.pending@ == Seq::<u8>::empty()
                    &&& n >= old(self).offset ==> *final(self) == *old(self)
                    &&& r == if n == final(self).offset {
                        None
                    } else {
                        Some(final(self).offset)
                    }
                },
            },
    {
        match len {
            None => {
                self.offset = 0;
                self.feed = LineFeed::new();
                None
            },
            Some(n) => {
                if n < self.offset {
                    self.offset = 0;
                    self.feed = LineFeed::new();
                }
                if n == self.offset {
                    None
                } else {
                    Some(self.offset)
                }
            },
        }
    }

    /// Takes in what was read up to `len`, and gives out the complete lines that are shown.
    pub fn got(
        &mut self,
        len: u64,
        chunk: &[u8],
        stream: Option<LogStream>,
        filter: &LogFilter,
    ) -> (r: Vec<u8>)
        requires
            stream is Some ==> stream->0 is Stdout || stream->0 is Stderr,
        ensures
            final(self).offset == len,
            final(self).feed.pending@ == left_over(old(self).feed.pending@ + chunk@),
            r@ == followed(full_lines(old(self).feed.pending@ + chunk@), stream, *filter),
    {
        self.offset = len;
        let ready = self.feed.feed(chunk);
        let ghost all = rows(ready@);
        let mut out: Vec<u8> = Vec::new();
        let mut i: usize = 0;
        assert(all.take(0) =~= Seq::<Seq<u8>>::empty());
        while i < ready.len()
            invariant
                i <= ready.len(),
                all == rows(ready@),
                stream is Some ==> stream->0 is Stdout || stream->0 is Stderr,
                out@ == followed(all.take(i as int), stream, *filter),
            decreases ready.len() - i,
        {
            let mut line = part(ready[i].as_slice(), 0, ready[i].len());
            line.push(NEWLINE);
            assert(all[i as int] == ready@[i as int]@);
            assert(line@ =~= all[i as int].push(NEWLINE));
            assert(all.take(i + 1).drop_last() =~= all.take(i as int));
            let n = trim_ascii_end(ready[i].as_slice());
            let bare = part(ready[i].as_slice(), 0, n);
            assert(bare@ =~= ready@[i as int]@.take(n as int));
            let right_stream = match stream {
                Some(s) => {
                    assert(LogStream::named(s.label()) == Some(s)) by {
                        reveal_strlit("stdout");
                        reveal_strlit("stderr");
                        assert("stdout"@[3] != "stderr"@[3]);
                    }
                    captured_log_line_matches_kind(ready[i].as_slice(), s.as_str())
                },
                None => true,
            };
            if right_stream && filter.matches(bare.as_slice()) {
                out.extend_from_slice(line.as_slice());
            }
            i = i + 1;
        }
        assert(all.take(all.len() as int) =~= all);
        out
    }
}

// ---------------------------------------------------------------------------
// All services
// ---------------------------------------------------------------------------

/// How one service appears in the view of all services.
#[derive(Debug, Clone, Copy, PartialEq, Eq, Structural)]
pub enum ShownService {
    /// It runs as this process.
    Running(u32),
    /// It runs on a schedule, and not now.
    Scheduled,
    /// It does not appear.
    Hidden,
}

/// How a service appears in the view of all services.
pub open spec fn appears_as(pid: Option<u32>, configured: bool, scheduled: bool) -> ShownService {
    match pid {
        Some(p) => ShownService::Running(p),
        None => if configured && scheduled {
            ShownService::Scheduled
        } else {
            ShownService::Hidden
        },
    }
}

/// A service with a recorded process always appears as running; of the others just those appear that
/// are configured and run on a schedule.
pub proof fn law_running_services_always_appear(pid: u32, configured: bool, scheduled: bool)
    ensures
        appears_as(Some(pid), configured, scheduled) == ShownService::Running(pid),
        appears_as(None, configured, scheduled) == ShownService::Scheduled <==> configured
            && scheduled,
        appears_as(None, configured, scheduled) == ShownService::Hidden <==> !configured
            || !scheduled,
{
}

/// How a service appears in the view of all services: as a running one, or else as a scheduled one
/// when it is configured and its schedule is known.
pub fn shown_service(pids: &PidFile, service: &str, configured: bool, scheduled: bool) -> (r:
    ShownService)
    ensures
        r == appears_as(lookup(pids@.services, service@), configured, scheduled),
        r == (match lookup(pids@.services, service@) {
            Some(pid) => ShownService::Running(pid),
            None => if configured && scheduled {
                ShownService::Scheduled
            } else {
                ShownService::Hidden
            },
        }),
{
    match pids.get(service) {
        Some(pid) => ShownService::Running(pid),
        None => if configured && scheduled {
            ShownService::Scheduled
        } else {
            ShownService::Hidden
        },
    }
}

/// The name under which a scheduled job appears: that of the service its hash belongs to, or else
/// the hash itself.
pub open spec fn job_name(hash: Seq<char>, names: Map<Seq<char>, String>) -> Seq<char> {
    if names.contains_key(hash) {
        names[hash]@
    } else {
        hash
    }
}

/// The services in the view of all services: those with a recorded process and those on a schedule.
pub fn all_log_services(pids: &PidFile, jobs: &Vec<String>, names: &NameMap<String>) -> (r: NameSet)
    ensures
        forall|s: Seq<char>| #[trigger]
            r@.contains(s) <==> (pids@.services.contains_key(s) || exists|i: int|
                0 <= i < jobs@.len() && s == job_name((#[trigger] jobs@[i])@, names@)),
{
    let mut all = NameSet::new();
    let n: usize = pids.services.len();
    let mut i: usize = 0;
    while i < n
        invariant
            i <= n,
            n == pids.services.names().len(),
            forall|s: Seq<char>| #[trigger]
                all@.contains(s) <==> exists|k: int| 0 <= k < i && s == #[trigger] pids.services.names()[k],
        decreases n - i,
    {
        let ghost before = all@;
        let name = pids.services.name_at(i);
        let _ = all.insert(name.as_str());
        proof {
            assert forall|s: Seq<char>| #[trigger] all@.contains(s) <==> exists|k: int|
                0 <= k < i + 1 && s == #[trigger] pids.services.names()[k] by {
                if before.contains(s) {
                    let k = choose|k: int| 0 <= k < i && s == #[trigger] pids.services.names()[k];
                    assert(0 <= k < i + 1 && s == pids.services.names()[k]);
                }
                if s == name@ {
                    assert(s == pids.services.names()[i as int]);
                }
            }
        }
        i = i + 1;
    }
    proof {
        assert forall|s: Seq<char>| #[trigger] all@.contains(s) <==> pids@.services.contains_key(s) by {
            let ns = pids.services.names();
            if pids@.services.contains_key(s) {
                assert(ns.contains(s));
                let k = choose|k: int| 0 <= k < ns.len() && ns[k] == s;
                assert(s == pids.services.names()[k]);
            }
            if all@.contains(s) {
                let k = choose|k: int| 0 <= k < n && s == #[trigger] pids.services.names()[k];
                assert(ns.contains(s));
            }
        }
    }
    let mut j: usize = 0;
    while j < jobs.len()
        invariant
            j <= jobs.len(),
            forall|s: Seq<char>| #[trigger]
                all@.contains(s) <==> (pids@.services.contains_key(s) || exists|i: int|
                    0 <= i < j && s == job_name((#[trigger] jobs@[i])@, names@)),
        decreases jobs.len() - j,
    {
        let ghost before = all@;
        let ghost added = job_name(jobs@[j as int]@, names@);
        match names.get(jobs[j].as_str()) {
            Some(name) => {
                let _ = all.insert(name.as_str());
            },
            None => {
                let _ = all.insert(jobs[j].as_str());
            },
        }
        assert(all@ == before.insert(added));
        proof {
            assert forall|s: Seq<char>| #[trigger] all@.contains(s) <==> (
            pids@.services.contains_key(s) || exists|i: int|
                0 <= i < j + 1 && s == job_name((#[trigger] jobs@[i])@, names@)) by {
                if before.contains(s) && !pids@.services.contains_key(s) {
                    let i = choose|i: int|
                        0 <= i < j && s == job_name((#[trigger] jobs@[i])@, names@);
                    assert(0 <= i < j + 1 && s == job_name(jobs@[i]@, names@));
                }
                if s == added {
                    assert(s == job_name(jobs@[j as int]@, names@));
                }
            }
        }
        j = j + 1;
    }
    all
}

/// Where there is a merged log, a one-shot view shows just that: its last lines, or those of the
/// stream asked for; with a time or pattern given, the last ones of the lines that fit; and with the
/// whole history asked for, all lines that fit, backups and all.
pub proof fn law_view_shows_the_merged_log(
    logs: LogContents,
    lines: usize,
    stream: Option<LogStream>,
    filter: LogFilter,
)
    requires
        logs.combined is Some,
    ensures
        ({
            let plan = planned(filter.all, filter.filters_content(), true, lines, stream);
            let shown = finished(plan[0], read_from(plan[0], logs), lines, stream, filter);
            let log = logs.combined->0;
            let history = flat(rows(log.backups@)) + log.active@;
            &&& plan.len() == 1
            &&& plan[0].file == LogFile::Combined
            &&& filter.all && stream is None ==> shown == filter.shown(history)
            &&& filter.all && stream is Some ==> shown == filter.shown(
                flat(of_one_kind(history, stream->0.label())),
            )
            &&& !filter.all && !filter.filters_content() && stream is None ==> shown == tail(
                log.active@,
                lines as nat,
            )
            &&& !filter.all && !filter.filters_content() && stream is Some ==> shown
                == tail_of_kind(log.active@, lines as nat, stream->0.label())
            &&& !filter.all && filter.filters_content() && stream is None ==> shown == tail(
                filter.shown(tail(log.active@, usize::MAX as nat)),
                lines as nat,
            )
            &&& !filter.all && filter.filters_content() && stream is Some ==> shown == tail(
                filter.shown(tail_of_kind(log.active@, usize::MAX as nat, stream->0.label())),
                lines as nat,
            )
        }),
{
}

/// Without a merged log, a one-shot view shows the log of the stream asked for, or that of standard
/// output and then that of standard error.
pub proof fn law_view_shows_separate_logs(
    logs: LogContents,
    lines: usize,
    stream: Option<LogStream>,
    filter: LogFilter,
    i: int,
)
    requires
        logs.combined is None,
        0 <= i < planned(filter.all, filter.filters_content(), false, lines, stream).len(),
    ensures
        ({
            let plan = planned(filter.all, filter.filters_content(), false, lines, stream);
            let shown = finished(plan[i], read_from(plan[i], logs), lines, stream, filter);
            let log = if stream == Some(LogStream::Stdout) || (stream is None && i == 0) {
                logs.stdout
            } else {
                logs.stderr
            };
            &&& stream is Some ==> plan.len() == 1
            &&& stream is None ==> plan.len() == 2
            &&& filter.all ==> shown == filter.shown(flat(rows(log.backups@)) + log.active@)
            &&& !filter.all && !filter.filters_content() ==> shown == tail(
                log.active@,
                lines as nat,
            )
            &&& !filter.all && filter.filters_content() ==> shown == tail(
                filter.shown(tail(log.active@, usize::MAX as nat)),
                lines as nat,
            )
        }),
{
}

/// A followed line is shown, with its newline, exactly when it belongs to the stream asked for and
/// the filter keeps it; lines are shown one after the other.
pub proof fn law_followed_lines_are_chosen_one_by_one(
    a: Seq<Seq<u8>>,
    b: Seq<Seq<u8>>,
    line: Seq<u8>,
    stream: Option<LogStream>,
    filter: LogFilter,
)
    ensures
        followed(a + b, stream, filter) == followed(a, stream, filter) + followed(
            b,
            stream,
            filter,
        ),
        (stream is None || of_stream(line, stream->0)) && filter.keeps(trim_end(line)) ==> followed(
            seq![line],
            stream,
            filter,
        ) == line.push(NEWLINE),
        stream is Some && !of_stream(line, stream->0) ==> followed(seq![line], stream, filter)
            == Seq::<u8>::empty(),
        !filter.keeps(trim_end(line)) ==> followed(seq![line], stream, filter) == Seq::<
            u8,
        >::empty(),
    decreases b.len(),
{
    assert(seq![line].drop_last() =~= Seq::<Seq<u8>>::empty());
    assert(followed(Seq::<Seq<u8>>::empty(), stream, filter) =~= Seq::<u8>::empty());
    assert(Seq::<u8>::empty() + line.push(NEWLINE) =~= line.push(NEWLINE));
    if b.len() == 0 {
        assert(a + b =~= a);
        assert(followed(a, stream, filter) + followed(b, stream, filter) =~= followed(
            a,
            stream,
            filter,
        ));
    } else {
        let front = b.drop_last();
        law_followed_lines_are_chosen_one_by_one(a, front, line, stream, filter);
        assert((a + b).drop_last() =~= a + front);
        assert((a + b).last() == b.last());
        assert(followed(a + b, stream, filter) =~= followed(a, stream, filter) + followed(
            b,
            stream,
            filter,
        ));
    }
}

/// Following goes by the merged log where there is one, whatever stream is asked for, and else by the
/// log of that stream, or by both.
pub proof fn law_followed_files_go_by_stream(kind: Option<&str>)
    ensures
        followed_files(true, kind) == seq![LogFile::Combined],
        kind is None ==> followed_files(false, kind) == seq![LogFile::Stdout, LogFile::Stderr],
        kind is Some && kind->0@ == "stdout"@ ==> followed_files(false, kind) == seq![
            LogFile::Stdout,
        ],
        kind is Some && kind->0@ == "stderr"@ ==> followed_files(false, kind) == seq![
            LogFile::Stderr,
        ],
{
    reveal_strlit("stdout");
    reveal_strlit("stderr");
    assert("stdout"@[3] == 'o');
    assert("stderr"@[3] == 'e');
}

/// A title that fits stays as it is; one that does not is cut to the width and ends in dots.
pub proof fn law_titles_fit_their_box(title: Seq<char>, width: nat)
    ensures
        title.len() <= width ==> cut_title(title, width) == title,
        title.len() > width ==> cut_title(title, width).len() == width,
        title.len() > width && width > 3 ==> cut_title(title, width).take(width - 3) == title.take(
            width - 3,
        ) && cut_title(title, width)[width - 1] == '.',
{
    reveal_strlit("...");
    if title.len() > width && width > 3 {
        let c = cut_title(title, width);
        assert(c.take(width - 3) =~= title.take(width - 3));
        assert("..."@[2] == '.');
        assert(c[width - 1] == "..."@[2]);
    }
}

} // verus!
