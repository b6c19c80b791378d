//! Recognising port collisions in what a service printed.

use vstd::prelude::*;

use crate::logs::pattern::{first_capture, pattern_error, Pattern};
use crate::text::{
    chars_of, contains_chars, decimal, is_digit, join, joined, law_decimal_round_trip,
    lemma_decimal_digits, lower, lower_chars, matches_at, occurs, opt_text, parse_number, parsed,
    stands_at, texts,
};

verus! {

/// Canonical operating-system text for a port collision.
pub const PORT_IN_USE_TEXT: &'static str = "address already in use";

/// Compact errno name used by some runtimes for a port collision.
pub const ADDR_IN_USE_TEXT: &'static str = "addrinuse";

/// macOS/BSD errno text for a port collision.
pub const MACOS_PORT_IN_USE_TEXT: &'static str = "os error 48";

/// Linux errno text for a port collision.
pub const LINUX_PORT_IN_USE_TEXT: &'static str = "os error 98";

/// Errno name looked for in a service's error log.
pub const ERRNO_IN_USE_TEXT: &'static str = "eaddrinuse";

/// Output token that introduces an explicit port number.
pub const PORT_TOKEN: &'static str = "port";

/// Output token used when binding a listening socket.
pub const BIND_TOKEN: &'static str = "bind";

/// Output token used when opening a listening socket.
pub const LISTEN_TOKEN: &'static str = "listen";

/// Finds a port number in a line of output.
pub const OUTPUT_PORT_PATTERN: &'static str =
    r#"(?i)(?:\bport(?:\s+|=)|(?:^|[\s("'])(?:(?:localhost|\d{1,3}(?:\.\d{1,3}){3}|\[[0-9a-f:]+\]))?:)([0-9]{1,5})\b"#;

/// Finds a port number in a command line.
pub const COMMAND_PORT_PATTERN: &'static str =
    r#"(?ix)(?:--?port(?:\s+|=)|\bhttp\.server\s+|(?:localhost|\d{1,3}(?:\.\d{1,3}){3}|\[[0-9a-f:]+\]):)([0-9]{1,5})\b"#;

/// How many lines at the end of a service's error log are searched for a collision.
pub const MAX_STATUS_LOG_LINES: usize = 50;

/// The text of the first group in the leftmost match of a pattern. A pattern that is no regular
/// expression matches nothing.
pub open spec fn captured(pattern: Seq<char>, text: Seq<char>) -> Option<Seq<char>> {
    if pattern_error(pattern) is None {
        first_capture(pattern, text)
    } else {
        None
    }
}

/// Whether a lower-case text shows a port collision.
pub open spec fn shows_collision(s: Seq<char>) -> bool {
    occurs(s, PORT_IN_USE_TEXT@) || occurs(s, ADDR_IN_USE_TEXT@) || occurs(
        s,
        MACOS_PORT_IN_USE_TEXT@,
    ) || occurs(s, LINUX_PORT_IN_USE_TEXT@)
}

/// Whether captured service output shows a port-bind collision: the OS message, or one of the
/// errno spellings that differ by platform.
pub fn output_indicates_port_conflict(lines: &Vec<String>) -> (r: bool)
    ensures
        r == shows_collision(lower(joined(texts(lines@), "\n"@))),
{
    let text = join(lines, "\n");
    let low = lower_chars(&chars_of(text.as_str()));
    contains_chars(&low, &chars_of(PORT_IN_USE_TEXT)) || contains_chars(
        &low,
        &chars_of(ADDR_IN_USE_TEXT),
    ) || contains_chars(&low, &chars_of(MACOS_PORT_IN_USE_TEXT)) || contains_chars(
        &low,
        &chars_of(LINUX_PORT_IN_USE_TEXT),
    )
}

/// Whether a line of a service's error log shows a port collision.
pub open spec fn log_line_shows_collision(line: Seq<char>) -> bool {
    let low = lower(line);
    occurs(low, PORT_IN_USE_TEXT@) || occurs(low, MACOS_PORT_IN_USE_TEXT@) || occurs(
        low,
        LINUX_PORT_IN_USE_TEXT@,
    ) || occurs(low, ERRNO_IN_USE_TEXT@)
}

/// Whether one of the last [`MAX_STATUS_LOG_LINES`] lines of a service's error log shows a port
/// collision.
pub fn logs_indicate_port_conflict(lines: &Vec<String>) -> (r: bool)
    ensures
        r == exists|i: int|
            #![trigger lines@[i]]
            0 <= i < lines.len() && lines.len() - MAX_STATUS_LOG_LINES <= i
                && log_line_shows_collision(lines@[i]@),
{
    let floor: usize = if lines.len() > MAX_STATUS_LOG_LINES {
        lines.len() - MAX_STATUS_LOG_LINES
    } else {
        0
    };
    let mut i: usize = lines.len();
    while i > floor
        invariant
            floor <= i <= lines.len(),
            floor == (if lines.len() > MAX_STATUS_LOG_LINES {
                lines.len() - MAX_STATUS_LOG_LINES
            } else {
                0
            }),
            forall|j: int| i <= j < lines.len() ==> !log_line_shows_collision(#[trigger] lines@[j]@),
        decreases i,
    {
        i = i - 1;
        let low = lower_chars(&chars_of(lines[i].as_str()));
        if contains_chars(&low, &chars_of(PORT_IN_USE_TEXT)) || contains_chars(
            &low,
            &chars_of(MACOS_PORT_IN_USE_TEXT),
        ) || contains_chars(&low, &chars_of(LINUX_PORT_IN_USE_TEXT)) || contains_chars(
            &low,
            &chars_of(ERRNO_IN_USE_TEXT),
        ) {
            assert(log_line_shows_collision(lines@[i as int]@));
            return true;
        }
    }
    false
}

/// The port that `value` spells: a number from 1 to 65535.
pub open spec fn port_of(value: Seq<char>) -> Option<u16> {
    match parsed(value, 65535) {
        Some(n) => if n == 0 {
            None
        } else {
            Some(n as u16)
        },
        None => None,
    }
}

/// Parses a nonzero TCP/UDP port while rejecting values outside `u16`.
pub fn parse_port(value: &str) -> (r: Option<u16>)
    ensures
        r == port_of(value@),
{
    match parse_number(value, 65535) {
        Some(n) => if n == 0 {
            None
        } else {
            Some(n as u16)
        },
        None => None,
    }
}

/// Whether `c` is an ASCII letter or digit.
pub open spec fn is_word_char(c: char) -> bool {
    'a' <= c <= 'z' || 'A' <= c <= 'Z' || '0' <= c <= '9'
}

fn word_char(c: char) -> (r: bool)
    ensures
        r == is_word_char(c),
{
    ('a' <= c && c <= 'z') || ('A' <= c && c <= 'Z') || ('0' <= c && c <= '9')
}

/// Whether `w` stands at `i` of `s` with no letter or digit right beside it.
pub open spec fn word_at(s: Seq<char>, w: Seq<char>, i: int) -> bool {
    stands_at(s, w, i) && (i == 0 || !is_word_char(s[i - 1])) && (i + w.len() == s.len()
        || !is_word_char(s[i + w.len()]))
}

/// Whether `w` is one of the words of `s`.
pub open spec fn has_word(s: Seq<char>, w: Seq<char>) -> bool {
    exists|i: int| word_at(s, w, i)
}

fn contains_word(s: &Vec<char>, w: &Vec<char>) -> (r: bool)
    ensures
        r == has_word(s@, w@),
{
    let mut i: usize = 0;
    while i <= s.len()
        invariant
            i <= s.len() + 1,
            forall|j: int| 0 <= j < i ==> !word_at(s@, w@, j),
        decreases s.len() + 1 - i,
    {
        if matches_at(s, w, i) && (i == 0 || !word_char(s[i - 1])) && (i + w.len() == s.len()
            || !word_char(s[i + w.len()])) {
            assert(word_at(s@, w@, i as int));
            return true;
        }
        if i == s.len() {
            assert forall|j: int| !word_at(s@, w@, j) by {
                if 0 <= j < i {
                } else if j > s.len() {
                    assert(!stands_at(s@, w@, j));
                }
            }
            return false;
        }
        i = i + 1;
    }
    false
}

/// Whether a line speaks of binding, listening or a port.
pub open spec fn talks_of_port(line: Seq<char>) -> bool {
    occurs(lower(line), BIND_TOKEN@) || occurs(lower(line), LISTEN_TOKEN@) || has_word(
        lower(line),
        PORT_TOKEN@,
    )
}

/// Whether a line speaks of binding, listening or a port.
pub fn may_name_port(line: &str) -> (r: bool)
    ensures
        r == talks_of_port(line@),
{
    let low = lower_chars(&chars_of(line));
    contains_chars(&low, &chars_of(BIND_TOKEN)) || contains_chars(&low, &chars_of(LISTEN_TOKEN))
        || contains_word(&low, &chars_of(PORT_TOKEN))
}

/// The port named by a captured group, when there is one.
pub open spec fn port_of_capture(capture: Option<Seq<char>>) -> Option<u16> {
    match capture {
        Some(c) => port_of(c),
        None => None,
    }
}

/// The port named by a captured group, when there is one.
pub fn port_from_capture(capture: &Option<String>) -> (r: Option<u16>)
    ensures
        r == port_of_capture(opt_text(*capture)),
{
    match capture {
        Some(c) => parse_port(c.as_str()),
        None => None,
    }
}

/// The port that a line of output names.
pub open spec fn port_in_line(line: Seq<char>) -> Option<u16> {
    if talks_of_port(line) {
        port_of_capture(captured(OUTPUT_PORT_PATTERN@, line))
    } else {
        None
    }
}

/// The port named by the last line that names one.
pub open spec fn port_in_lines(lines: Seq<Seq<char>>) -> Option<u16>
    decreases lines.len(),
{
    if lines.len() == 0 {
        None
    } else {
        match port_in_line(lines.last()) {
            Some(p) => Some(p),
            None => port_in_lines(lines.drop_last()),
        }
    }
}

proof fn lemma_no_pattern_no_port(lines: Seq<Seq<char>>)
    requires
        pattern_error(OUTPUT_PORT_PATTERN@) is Some,
    ensures
        port_in_lines(lines) is None,
    decreases lines.len(),
{
    if lines.len() > 0 {
        lemma_no_pattern_no_port(lines.drop_last());
    }
}

/// Best-effort port number from captured output, so that a diagnostic can name the contested
/// port.
pub fn port_from_output(lines: &Vec<String>) -> (r: Option<u16>)
    ensures
        r == port_in_lines(texts(lines@)),
{
    let ghost all = texts(lines@);
    let pattern = match Pattern::compile(OUTPUT_PORT_PATTERN) {
        Ok(p) => p,
        Err(_) => {
            proof {
                lemma_no_pattern_no_port(all);
            }
            return None;
        },
    };
    let mut i: usize = lines.len();
    assert(all.take(i as int) =~= all);
    while i > 0
        invariant
            i <= lines.len(),
            pattern_error(OUTPUT_PORT_PATTERN@) is None,
            pattern@ == OUTPUT_PORT_PATTERN@,
            all == texts(lines@),
            port_in_lines(all) == port_in_lines(all.take(i as int)),
        decreases i,
    {
        i = i - 1;
        assert(all.take(i + 1).drop_last() =~= all.take(i as int));
        assert(all.take(i + 1).last() == lines@[i as int]@);
        if may_name_port(lines[i].as_str()) {
            let capture = pattern.capture(lines[i].as_str());
            match port_from_capture(&capture) {
                Some(port) => {
                    return Some(port);
                },
                None => {},
            }
        }
    }
    None
}

/// Best-effort port number from the command a service runs.
pub fn port_from_command(command: Option<&str>) -> (r: Option<u16>)
    ensures
        match command {
            Some(c) => r == port_of_capture(captured(COMMAND_PORT_PATTERN@, c@)),
            None => r is None,
        },
{
    match command {
        Some(c) => match Pattern::compile(COMMAND_PORT_PATTERN) {
            Ok(pattern) => port_from_capture(&pattern.capture(c)),
            Err(_) => None,
        },
        None => None,
    }
}

/// A port is spelled by its number; no port is spelled by zero or by a number beyond the last port.
pub proof fn law_ports_are_spelled_by_number(n: nat)
    ensures
        1 <= n <= 65535 ==> port_of(decimal(n)) == Some(n as u16),
        n == 0 || n > 65535 ==> port_of(decimal(n)) is None,
{
    lemma_decimal_digits(n);
    let d = decimal(n);
    assert(is_digit(d[0]));
    if n <= 65535 {
        law_decimal_round_trip(n, 65535);
    }
}

/// The last line that names a port decides, and without such a line there is no port.
pub proof fn law_last_named_port_counts(lines: Seq<Seq<char>>, i: int)
    ensures
        0 <= i < lines.len() && port_in_line(lines[i]) is Some && (forall|j: int|
            i < j < lines.len() ==> port_in_line(#[trigger] lines[j]) is None) ==> port_in_lines(
            lines,
        ) == port_in_line(lines[i]),
        (forall|j: int| 0 <= j < lines.len() ==> port_in_line(#[trigger] lines[j]) is None)
            ==> port_in_lines(lines) is None,
        port_in_lines(lines) is Some ==> exists|j: int|
            0 <= j < lines.len() && port_in_line(#[trigger] lines[j]) == port_in_lines(lines),
    decreases lines.len(),
{
    if lines.len() > 0 {
        let front = lines.drop_last();
        law_last_named_port_counts(front, i);
        assert(lines[lines.len() - 1] == lines.last());
        assert(forall|j: int| 0 <= j < front.len() ==> front[j] == lines[j]);
        if port_in_line(lines.last()) is None && port_in_lines(front) is Some {
            let j = choose|j: int|
                0 <= j < front.len() && port_in_line(#[trigger] front[j]) == port_in_lines(front);
            assert(lines[j] == front[j]);
        }
    }
}

/// A line names a port only when it speaks of binding, listening or a port.
pub proof fn law_port_needs_a_mention(line: Seq<char>)
    ensures
        !occurs(lower(line), BIND_TOKEN@) && !occurs(lower(line), LISTEN_TOKEN@) && !has_word(
            lower(line),
            PORT_TOKEN@,
        ) ==> port_in_line(line) is None,
        occurs(lower(line), BIND_TOKEN@) || occurs(lower(line), LISTEN_TOKEN@) || has_word(
            lower(line),
            PORT_TOKEN@,
        ) ==> port_in_line(line) == port_of_capture(captured(OUTPUT_PORT_PATTERN@, line)),
{
}

/// A text that says a port or an address is in use, in words or by the system's number for it, shows a
/// collision, whatever stands around it.
pub proof fn law_collisions_are_recognised(front: Seq<char>, words: Seq<char>, back: Seq<char>)
    requires
        words == "address already in use"@ || words == "addrinuse"@ || words == "os error 48"@ || words
            == "os error 98"@,
    ensures
        shows_collision(front + words + back),
{
    let s = front + words + back;
    let i = front.len() as int;
    assert(s.subrange(i, i + words.len()) =~= words);
    assert(stands_at(s, words, i));
}

/// A line of an error log that says an address is in use, by whatever name the system has for it,
/// shows a collision.
pub proof fn law_logged_collisions_are_recognised(line: Seq<char>, words: Seq<char>, i: int)
    requires
        words == "address already in use"@ || words == "os error 48"@ || words == "os error 98"@
            || words == "eaddrinuse"@,
        stands_at(lower(line), words, i),
    ensures
        log_line_shows_collision(line),
{
}

} // verus!
