use systemg::error::LogsManagerError;
use systemg::logs::ansi::strip_ansi;
use systemg::logs::bytes::{
    captured_log_line_matches_kind, split_inclusive, strip_cr, tail_log_bytes,
    trim_ascii_end, LineFeed, LogStream,
};
use systemg::logs::files::{
    canonical_log_path, clear_action, dynamic_child_log_path, get_log_path, get_service_log_path,
    is_rotated_backup, resolve_log_path, rotated_log_path, rotation_number, supervisor_log_path,
    validate_service_name, ClearAction,
};
use systemg::logs::filter::{captured_line_timestamp, LogFilter};
use systemg::logs::instant::{
    age_fits, check_age_in_reach, parse_age_seconds, parse_time_bound, settle_time_bound, Instant,
};
use systemg::logs::line::{
    echoed_child_line, format_captured_log_line, last_outputs, parse_captured_line,
    parse_service_marker, service_marker_line, strip_log_line_prefix, tail_service_log,
    truncate_log_payload, write_forwarded_console_line, MAX_LOG_LINE_BYTES,
};
use systemg::logs::live::{clear_live_log, live_tail, LiveLogs, LIVE_LOG_BUFFER_LIMIT};
use systemg::logs::pattern::Pattern;
use systemg::logs::rotate::{
    rotate_log_file, rotated_history_paths, ActiveLog, Backup, PruneRun, RotationStep,
};
use systemg::logs::size::parse_byte_size;
use systemg::logs::tail::{filter_captured_log_bytes, tail_log_bytes_of_kind, TailRead};
use systemg::logs::view::{
    collect_log_tail, configure_command, format_boxed_log_title, format_log_title,
    log_terminal_width, resolve_tail_mode, tail_targets, truncate_log_title, Follow, LogContent,
    LogContents, LogFile, TailMode,
};
use systemg::logs::writer::{json_escape, LogFormat, LogWriter};

fn utc(text: &str) -> Instant {
    let t = chrono::DateTime::parse_from_rfc3339(text).expect("valid rfc3339");
    Instant { secs: t.timestamp(), nanos: t.timestamp_subsec_nanos() }
}

fn text(bytes: Vec<u8>) -> String {
    String::from_utf8(bytes).expect("valid utf8")
}

#[test]
fn validate_service_name_accepts_plain_names() {
    for name in ["api", "web-1", "worker_2", "svc.v1", "A.B_c-3"] {
        assert!(validate_service_name(name).is_ok(), "rejected {name}");
    }
}

#[test]
fn validate_service_name_rejects_traversal() {
    for name in [
        "",
        ".",
        "..",
        "../etc/passwd",
        "../../../../etc/cron.d/x",
        "a/b",
        "a\\b",
        "nul\0byte",
    ] {
        assert!(
            validate_service_name(name).is_err(),
            "accepted traversal name {name:?}"
        );
    }
}

#[test]
fn tail_log_bytes_returns_last_lines_with_trailing_newline() {
    let bytes = b"line 1\nline 2\nline 3\nline 4\n";

    assert_eq!(tail_log_bytes(bytes, 2), b"line 3\nline 4\n");
}

#[test]
fn tail_log_bytes_returns_last_lines_without_trailing_newline() {
    let bytes = b"line 1\nline 2\nline 3\nline 4";

    assert_eq!(tail_log_bytes(bytes, 2), b"line 3\nline 4");
}

#[test]
fn tail_log_bytes_returns_all_bytes_when_line_count_fits() {
    let bytes = b"line 1\nline 2\n";

    assert_eq!(tail_log_bytes(bytes, 2), bytes);
    assert_eq!(tail_log_bytes(bytes, 5), bytes);
}

#[test]
fn tail_log_bytes_returns_empty_when_zero_lines_requested() {
    assert_eq!(tail_log_bytes(b"line 1\nline 2\n", 0), b"");
}

#[test]
fn resolve_log_path_matches_hyphenated_files() {
    let log_dir = "/home/u/.systemg/logs";
    assert_eq!(
        canonical_log_path(log_dir, "dummy", Some("stdout")),
        "/home/u/.systemg/logs/dummy_stdout.log"
    );
    let target = "/home/u/.systemg/logs/arb-rs_stdout.log";
    let files = vec!["arb-rs_stdout.log".to_string()];
    let resolved = resolve_log_path(log_dir, "arb_rs", "stdout", false, &files);
    assert_eq!(resolved, target);
}

#[test]
fn truncate_log_payload_leaves_small_lines_untouched() {
    let line = b"short line";
    assert_eq!(truncate_log_payload(line), line);
}

#[test]
fn truncate_log_payload_caps_oversized_lines() {
    let line = vec![b'a'; MAX_LOG_LINE_BYTES + 4096];
    let truncated = truncate_log_payload(&line);
    assert!(truncated.len() < line.len());
    let text = String::from_utf8(truncated).expect("valid utf8");
    assert!(text.contains("[truncated 4096 bytes]"));
}

#[test]
fn parse_byte_size_handles_units() {
    assert_eq!(parse_byte_size("1024").unwrap(), 1024);
    assert_eq!(parse_byte_size("1kb").unwrap(), 1024);
    assert_eq!(parse_byte_size("2MB").unwrap(), 2 * 1024 * 1024);
    assert_eq!(parse_byte_size("1g").unwrap(), 1024 * 1024 * 1024);
    assert!(parse_byte_size("nonsense").is_err());
}

#[test]
fn parse_age_seconds_handles_units() {
    assert_eq!(parse_age_seconds("30").unwrap(), 30);
    assert_eq!(parse_age_seconds("5m").unwrap(), 300);
    assert_eq!(parse_age_seconds("2h").unwrap(), 7200);
    assert_eq!(parse_age_seconds("7d").unwrap(), 7 * 24 * 60 * 60);
    assert!(parse_age_seconds("12x").is_err());
}

#[test]
fn is_rotated_backup_matches_numbered_files_only() {
    assert!(is_rotated_backup("supervisor.log.1"));
    assert!(is_rotated_backup("api.log.12"));
    assert!(!is_rotated_backup("api.log"));
    assert!(!is_rotated_backup("api.log.bak"));
}

#[test]
fn forwarded_console_line_preserves_ansi_bytes() {
    let line = "\u{1b}[34mDEBUG\u{1b}[0m child log";

    let output = write_forwarded_console_line("[svc] ", line);

    assert_eq!(
        String::from_utf8(output).expect("valid utf8"),
        format!("[svc] {line}\n")
    );
}

#[test]
fn parse_time_bound_accepts_rfc3339_and_date() {
    let now = utc("2026-07-07T12:00:00Z");
    assert_eq!(
        parse_time_bound("2026-07-07T09:30:00Z", now).unwrap(),
        utc("2026-07-07T09:30:00Z")
    );
    assert_eq!(
        parse_time_bound("2026-07-07", now).unwrap(),
        utc("2026-07-07T00:00:00Z")
    );
}

#[test]
fn parse_time_bound_accepts_relative_age() {
    let now = utc("2026-07-07T12:00:00Z");
    assert_eq!(
        parse_time_bound("2h", now).unwrap(),
        utc("2026-07-07T10:00:00Z")
    );
}

#[test]
fn parse_time_bound_rejects_garbage() {
    let now = utc("2026-07-07T12:00:00Z");
    assert!(parse_time_bound("not-a-time", now).is_err());
}

#[test]
fn log_filter_applies_time_window() {
    let bytes = b"2026-07-07T09:00:00Z stdout early\n\
2026-07-07T10:30:00Z stdout middle\n\
2026-07-07T12:00:00Z stdout late\n";
    let filter = LogFilter {
        since: Some(utc("2026-07-07T10:00:00Z")),
        until: Some(utc("2026-07-07T11:00:00Z")),
        ..LogFilter::none()
    };
    let out = String::from_utf8(filter.apply(bytes)).unwrap();
    assert_eq!(out, "2026-07-07T10:30:00Z stdout middle\n");
}

#[test]
fn log_filter_applies_grep() {
    let bytes = b"2026-07-07T09:00:00Z stdout hello world\n\
2026-07-07T09:00:01Z stderr ERROR boom\n\
2026-07-07T09:00:02Z stdout all good\n";
    let filter = LogFilter {
        grep: Some(Pattern::new("ERROR|good").unwrap()),
        ..LogFilter::none()
    };
    let out = String::from_utf8(filter.apply(bytes)).unwrap();
    assert!(out.contains("ERROR boom"));
    assert!(out.contains("all good"));
    assert!(!out.contains("hello world"));
}

fn nothing() -> LogContent {
    LogContent { backups: vec![], active: vec![] }
}

#[test]
fn collect_all_ignores_default_lines_cap() {
    let mut body = String::new();
    for index in 0..200 {
        body.push_str(&format!(
            "2026-07-08T09:00:{index:02}Z stdout line {index}\n"
        ));
    }
    let logs = LogContents {
        combined: Some(LogContent { backups: vec![], active: body.into_bytes() }),
        stdout: nothing(),
        stderr: nothing(),
    };

    let filter = LogFilter { all: true, ..LogFilter::none() };
    let chunks = collect_log_tail(&logs, 50, None, &filter);
    let text = String::from_utf8(chunks.concat()).unwrap();
    assert_eq!(text.lines().count(), 200);
}

#[test]
fn collect_all_time_window_spans_rotated_history() {
    let logs = LogContents {
        combined: Some(LogContent {
            backups: vec![b"2026-07-04T09:00:00Z stdout old rotated\n\
2026-07-08T09:00:00Z stdout kept rotated\n"
                .to_vec()],
            active: b"2026-07-08T10:00:00Z stdout kept active\n\
2026-07-09T09:00:00Z stdout too new\n"
                .to_vec(),
        }),
        stdout: nothing(),
        stderr: nothing(),
    };

    let filter = LogFilter {
        since: Some(utc("2026-07-08T00:00:00Z")),
        until: Some(utc("2026-07-09T00:00:00Z")),
        all: true,
        ..LogFilter::none()
    };
    let chunks = collect_log_tail(&logs, 50, None, &filter);
    let text = String::from_utf8(chunks.concat()).unwrap();
    assert!(text.contains("kept rotated"), "{text}");
    assert!(text.contains("kept active"), "{text}");
    assert!(!text.contains("old rotated"), "{text}");
    assert!(!text.contains("too new"), "{text}");
}

#[test]
fn log_filter_noop_returns_input() {
    let bytes = b"line without leading timestamp\n";
    let filter = LogFilter::none();
    assert_eq!(filter.apply(bytes), bytes);
    assert!(filter.is_noop());
}

#[test]
fn strip_ansi_removes_color_codes() {
    let input = b"\x1b[1;31mERROR\x1b[0m boom \x1b[34mblue\x1b[0m";
    assert_eq!(strip_ansi(input), b"ERROR boom blue");
}

#[test]
fn strip_ansi_leaves_plain_text() {
    let input = b"plain line 42";
    assert_eq!(strip_ansi(input), input);
}

#[test]
fn parse_captured_line_extracts_fields() {
    let parsed = parse_captured_line("2026-07-07T09:00:00Z stdout hello world").unwrap();
    assert_eq!(parsed.timestamp, "2026-07-07T09:00:00Z");
    assert_eq!(parsed.stream, "stdout");
    assert_eq!(parsed.message, "hello world");
}

#[test]
fn parse_captured_line_rejects_banner() {
    assert!(parse_captured_line("┌─────────┐").is_none());
    assert!(parse_captured_line("Project: arbitration").is_none());
}

#[test]
fn log_writer_json_emits_one_object_per_line() {
    let mut writer = LogWriter::new(Vec::new(), LogFormat::Json, true, Some("api".into()));
    writer.write_all(b"2026-07-07T09:00:00Z stdout \x1b[31mhello\x1b[0m\n");
    writer.write_all(b"\xe2\x94\x8c banner line\n");
    writer.flush();
    let text = String::from_utf8(writer.take_output()).unwrap();
    assert_eq!(
        text,
        "{\"ts\":\"2026-07-07T09:00:00Z\",\"stream\":\"stdout\",\"service\":\"api\",\"line\":\"hello\"}\n"
    );
}

#[test]
fn log_writer_json_service_follows_marker_lines() {
    let mut writer = LogWriter::new(Vec::new(), LogFormat::Json, true, None);
    writer.write_all(&service_marker_line("arb_rs__server"));
    writer.write_all(b"2026-07-08T09:00:00Z stdout openai_call\n");
    writer.write_all(&service_marker_line("arb_py__curator"));
    writer.write_all(b"2026-07-08T09:00:01Z stderr ingest done\n");
    writer.flush();
    let text = String::from_utf8(writer.take_output()).unwrap();
    assert_eq!(
        text,
        "{\"ts\":\"2026-07-08T09:00:00Z\",\"stream\":\"stdout\",\"service\":\"arb_rs__server\",\"line\":\"openai_call\"}\n\
{\"ts\":\"2026-07-08T09:00:01Z\",\"stream\":\"stderr\",\"service\":\"arb_py__curator\",\"line\":\"ingest done\"}\n"
    );
}

#[test]
fn log_writer_drops_marker_lines_in_text_mode() {
    let mut writer = LogWriter::new(Vec::new(), LogFormat::Text, true, None);
    writer.write_all(&service_marker_line("svc"));
    writer.write_all(b"2026-07-08T09:00:00Z stdout hello\n");
    writer.flush();
    assert_eq!(
        String::from_utf8(writer.take_output()).unwrap(),
        "2026-07-08T09:00:00Z stdout hello\n"
    );
}

#[test]
fn log_writer_raw_strips_prefix_and_banner() {
    let mut writer = LogWriter::new(Vec::new(), LogFormat::Raw, true, None);
    writer.write_all(b"2026-07-07T09:00:00Z stderr actual message\n");
    writer.write_all(b"Running Services\n");
    writer.flush();
    assert_eq!(String::from_utf8(writer.take_output()).unwrap(), "actual message\n");
}

#[test]
fn log_writer_text_strip_ansi_keeps_prefix() {
    let mut writer = LogWriter::new(Vec::new(), LogFormat::Text, true, None);
    writer.write_all(b"2026-07-07T09:00:00Z stdout \x1b[32mok\x1b[0m\n");
    writer.flush();
    assert_eq!(
        String::from_utf8(writer.take_output()).unwrap(),
        "2026-07-07T09:00:00Z stdout ok\n"
    );
}

#[test]
fn rotated_history_paths_orders_oldest_to_newest() {
    let files: Vec<String> = ["svc.log", "svc.log.1", "svc.log.2", "svc.log.10"]
        .iter()
        .map(|name| name.to_string())
        .collect();
    let names = rotated_history_paths("svc.log", &files, true);
    assert_eq!(names, ["svc.log.10", "svc.log.2", "svc.log.1", "svc.log"]);
}

#[test]
fn prune_logs_trims_backups_by_size() {
    let backups = vec![
        Backup { len: 100, modified: 2, age: 10 },
        Backup { len: 100, modified: 1, age: 20 },
    ];
    let mut run = PruneRun::begin(backups, Some(150), None);
    let first = run.next();
    assert_eq!(first, Some(1));
    run.removed(true);
    assert_eq!(run.next(), None);
    assert_eq!(run.summary.removed_files, 1);
    assert_eq!(run.summary.reclaimed_bytes, 100);
}

#[test]
fn pruning_by_age_keeps_recent_backups() {
    let backups = vec![
        Backup { len: 5, modified: 3, age: 60 },
        Backup { len: 7, modified: 1, age: 6000 },
        Backup { len: 9, modified: 2, age: 600 },
    ];
    let mut run = PruneRun::begin(backups, None, Some(500));
    assert_eq!(run.next(), Some(1));
    run.removed(true);
    assert_eq!(run.next(), Some(2));
    run.removed(false);
    assert_eq!(run.next(), None);
    assert_eq!(run.summary.removed_files, 1);
    assert_eq!(run.summary.reclaimed_bytes, 7);
}

#[test]
fn byte_sizes_are_rounded_as_doubles_are() {
    for value in [
        "0", "1", "0.5", "1.5", "0.1", "0.3k", "1.1m", "2.7gb", "0.0001t", "3.", ".5k",
        "9007199254740993", "9007199254740995", "18446744073709551615", "18446744073709551616",
        "18446744073709550591", "18446744073709550592", "18446744073709549568",
        "1152921504606846977", "4503599627370496.5", "4503599627370497.5", "4503599627370495.75",
        "4503599627370495.5", "0.99999999999999994448884876874217",
        "0.99999999999999994448884876874216", "16777216t", "16777215.999999999t",
        "99999999999999999999999999999999999999", "1.23456789012345678901234567890123456789g",
        "0.000000000000000000000000000000000000000001t", "123456789.987654321m",
        "000000000000000000000000000000012.5", "8796093022208.0009765625", "7.0000000000000004",
        "6.9999999999999996", "6.99999999999999955",
    ] {
        let split = value.find(|c: char| !c.is_ascii_digit() && c != '.').unwrap_or(value.len());
        let (number, unit) = value.split_at(split);
        let number: f64 = number.parse().unwrap();
        let factor: f64 = match unit {
            "" => 1.0,
            "k" => 1024.0,
            "m" => 1024.0 * 1024.0,
            "g" | "gb" => 1024.0 * 1024.0 * 1024.0,
            _ => 1024.0 * 1024.0 * 1024.0 * 1024.0,
        };
        assert_eq!(parse_byte_size(value).unwrap(), (number * factor) as u64, "{value}");
    }
}

#[test]
fn byte_sizes_that_are_no_numbers_are_refused() {
    for value in ["", ".", "1.2.3", "12x", "k", "-1", "+1", "1e3", "1 2"] {
        match parse_byte_size(value) {
            Err(LogsManagerError::InvalidPruneArg(v)) => assert_eq!(v, value),
            other => panic!("{value}: {other:?}"),
        }
    }
    assert_eq!(parse_byte_size("  1.5 KB ").unwrap(), 1536);
}

#[test]
fn ages_that_do_not_fit_are_told_apart() {
    assert!(age_fits("18446744073709551615"));
    assert!(!age_fits("18446744073709551615m"));
    assert!(age_fits("nonsense"));
    assert_eq!(parse_age_seconds(" 3 W ").unwrap(), 1814400);
    match parse_age_seconds("7 days") {
        Err(LogsManagerError::InvalidPruneArg(v)) => assert_eq!(v, "7 days"),
        other => panic!("{other:?}"),
    }
}

#[test]
fn time_bounds_reach_back_only_so_far() {
    let now = utc("2026-07-07T12:00:00Z");
    assert!(check_age_in_reach("7d", now));
    assert!(!check_age_in_reach("99999999999999999d", now));
    assert_eq!(
        settle_time_bound("x", now, Some((5, 7)), Some(9)).unwrap(),
        Instant { secs: 5, nanos: 7 }
    );
    assert_eq!(
        settle_time_bound("x", now, None, Some(9)).unwrap(),
        Instant { secs: 9, nanos: 0 }
    );
    match settle_time_bound("  ", now, None, None) {
        Err(LogsManagerError::InvalidTimeBound(v)) => assert_eq!(v, "  "),
        other => panic!("{other:?}"),
    }
    assert_eq!(
        parse_time_bound("2026-07-07T11:30:00.25+02:00", now).unwrap(),
        utc("2026-07-07T09:30:00.25Z")
    );
}

#[test]
fn filters_are_built_from_what_the_user_wrote() {
    let now = utc("2026-07-07T12:00:00Z");
    let filter =
        LogFilter::from_parts(Some("1h"), Some("2026-07-08"), Some("a+"), true, now).ok().unwrap();
    assert_eq!(filter.since, Some(utc("2026-07-07T11:00:00Z")));
    assert_eq!(filter.until, Some(utc("2026-07-08T00:00:00Z")));
    assert!(filter.has_content_filter() && !filter.is_noop() && filter.all);
    assert!(filter.matches(b"2026-07-07T11:30:00Z stdout caat"));
    assert!(!filter.matches(b"2026-07-07T11:30:00Z stdout dog"));
    assert!(!filter.matches(b"2026-07-07T10:30:00Z stdout caat"));
    match LogFilter::from_parts(None, None, Some("("), false, now) {
        Err(LogsManagerError::InvalidGrep(m)) => assert!(m.contains("unclosed group"), "{m}"),
        _ => panic!("an unclosed group is no pattern"),
    }
    match LogFilter::from_parts(Some("soon"), None, Some("("), false, now) {
        Err(LogsManagerError::InvalidTimeBound(v)) => assert_eq!(v, "soon"),
        _ => panic!("no time bound"),
    }
}

#[test]
fn capture_times_stand_at_the_head_of_a_line() {
    assert_eq!(
        captured_line_timestamp(b"2026-07-07T11:30:00Z stdout x"),
        Some(utc("2026-07-07T11:30:00Z"))
    );
    assert_eq!(captured_line_timestamp(b"banner"), None);
    assert_eq!(captured_line_timestamp(b"\xff 2026-07-07T11:30:00Z"), None);
}

#[test]
fn lines_of_one_stream_are_told_apart() {
    assert!(captured_log_line_matches_kind(b"2026-07-07T11:30:00Z stdout x", "stdout"));
    assert!(!captured_log_line_matches_kind(b"2026-07-07T11:30:00Z stdout x", "stderr"));
    let log = b"t stdout a\nt stderr b\nt stdout c\n";
    assert_eq!(filter_captured_log_bytes(log, "stderr"), b"t stderr b\n");
    assert_eq!(tail_log_bytes_of_kind(log, 1, "stdout"), b"t stdout c\n");
    assert_eq!(LogStream::from_filter("stderr"), Some(LogStream::Stderr));
    assert_eq!(LogStream::from_filter("both"), None);
}

#[test]
fn a_tail_is_read_back_to_front() {
    let log: Vec<u8> = (0..3000).flat_map(|i| format!("line {i}\n").into_bytes()).collect();
    let mut read = TailRead::begin(log.len() as u64, 1500, None);
    let mut reads = 0;
    while let Some((from, len)) = read.next() {
        read.got(&log[from as usize..(from + len) as usize]);
        reads += 1;
    }
    assert!(reads > 1 && reads < 4);
    assert_eq!(read.finish(), tail_log_bytes(&log, 1500));
}

#[test]
fn lines_without_a_message_belong_to_their_stream() {
    let log = b"t stdout \nt stderr \nt stdout x\n";
    assert_eq!(filter_captured_log_bytes(log, "stdout"), b"t stdout \nt stdout x\n");
    assert_eq!(tail_log_bytes_of_kind(log, 1, "stderr"), b"t stderr \n");
    let mut long: Vec<u8> = Vec::new();
    for i in 0..4000 {
        let message = if i % 2 == 0 { String::new() } else { i.to_string() };
        long.extend_from_slice(format!("t stdout {message}\nt stderr {i}\n").as_bytes());
    }
    let mut read = TailRead::begin(long.len() as u64, 500, Some("stdout".to_string()));
    let mut reads = 0;
    while let Some((from, len)) = read.next() {
        read.got(&long[from as usize..(from + len) as usize]);
        reads += 1;
    }
    assert!(reads > 1 && (read.bytes.len()) < long.len());
    let last = read.finish();
    assert_eq!(last.split(|b| *b == b'\n').count() - 1, 500);
    assert_eq!(last, tail_log_bytes_of_kind(&long, 500, "stdout"));

    let mut follow = Follow::begin(0);
    let shown = follow.got(20, log, Some(LogStream::Stdout), &LogFilter::none());
    assert_eq!(shown, b"t stdout \nt stdout x\n");
}

#[test]
fn filtering_twice_changes_nothing() {
    let log = b"2026-07-07T11:30:00Z stdout one\nbanner\n2026-07-07T11:40:00Z stdout two";
    let now = utc("2026-07-07T12:00:00Z");
    let filter = LogFilter::from_parts(None, None, Some("o"), false, now).ok().unwrap();
    let once = filter.apply(log);
    assert_eq!(once, b"2026-07-07T11:30:00Z stdout one\n2026-07-07T11:40:00Z stdout two");
    assert_eq!(filter.apply(&once), once);
    let late =
        LogFilter::from_parts(Some("2026-07-07T11:35:00Z"), None, None, false, now).ok().unwrap();
    assert_eq!(late.apply(log), b"2026-07-07T11:40:00Z stdout two");
    assert_eq!(late.apply(&late.apply(log)), late.apply(log));
}

#[test]
fn chunks_do_not_change_the_lines() {
    let mut feed = LineFeed::new();
    let mut lines = feed.feed(b"one\ntw");
    lines.extend(feed.feed(b"o\nthr"));
    assert_eq!(lines, vec![b"one".to_vec(), b"two".to_vec()]);
    assert_eq!(feed.finish(), Some(b"thr".to_vec()));
    assert_eq!(split_inclusive(b"a\nb"), vec![b"a\n".to_vec(), b"b".to_vec()]);
    assert_eq!(systemg::logs::bytes::concat(&vec![b"a\n".to_vec(), b"b".to_vec()]), b"a\nb");
    assert_eq!(strip_cr(b"x\r".to_vec()), b"x");
    assert_eq!(trim_ascii_end(b"x \t\n"), 1);
}

#[test]
fn captured_lines_read_back() {
    let line = format_captured_log_line("2026-07-07T09:00:00Z", "stderr", b"boom \xff");
    assert_eq!(text(line.clone()), "2026-07-07T09:00:00Z stderr boom \u{fffd}\n");
    let shown = text(line);
    let parsed = parse_captured_line(shown.trim_end()).unwrap();
    assert_eq!(
        (parsed.timestamp.as_str(), parsed.stream.as_str(), parsed.message.as_str()),
        ("2026-07-07T09:00:00Z", "stderr", "boom \u{fffd}")
    );
    assert_eq!(strip_log_line_prefix("2026-07-07T09:00:00Z stderr boom"), "boom");
    let marker = text(service_marker_line("svc"));
    assert_eq!(parse_service_marker(marker.trim_end_matches('\n')), Some("svc".to_string()));
    assert_eq!(parse_service_marker("svc"), None);
    assert_eq!(parse_service_marker("2026-07-07T09:00:00Z stdout sysg-service svc"), None);
}

#[test]
fn cut_lines_keep_characters_whole() {
    let mut line = vec![b'a'; MAX_LOG_LINE_BYTES - 1];
    line.extend_from_slice("é".as_bytes());
    line.push(b'z');
    let cut = text(truncate_log_payload(&line));
    assert_eq!(
        cut,
        format!("{}\u{2026}[truncated 3 bytes]", "a".repeat(MAX_LOG_LINE_BYTES - 1))
    );
}

#[test]
fn the_last_outputs_are_told_without_prefixes() {
    let log = b"2026-07-07T09:00:00Z stdout one\n\n2026-07-07T09:00:01Z stderr two\n";
    assert_eq!(tail_service_log(log, 5), vec!["one".to_string(), "two".to_string()]);
    assert_eq!(tail_service_log(log, 1), vec!["two".to_string()]);
    assert_eq!(last_outputs("a\nb\nc", 2), vec!["b".to_string(), "c".to_string()]);
    assert_eq!(echoed_child_line(Some("api"), "job", "x"), "[api:job] x");
}

#[test]
fn json_values_stay_on_one_line() {
    assert_eq!(json_escape("a\"b\\c\nd\u{1}"), "a\\\"b\\\\c\\nd\\u0001");
}

#[test]
fn a_writer_may_be_fed_piece_by_piece() {
    let whole = b"2026-07-07T09:00:00Z stdout one\n2026-07-07T09:00:01Z stdout two\n";
    let mut a = LogWriter::new(Vec::new(), LogFormat::Raw, false, None);
    a.write_all(whole);
    a.flush();
    let mut b = LogWriter::new(Vec::new(), LogFormat::Raw, false, None);
    for piece in whole.chunks(7) {
        b.write_all(piece);
    }
    b.flush();
    assert_eq!(a.take_output(), b"one\ntwo\n");
    assert_eq!(b.take_output(), b"one\ntwo\n");
}

#[test]
fn rotation_shifts_every_backup_up() {
    assert_eq!(
        rotate_log_file(2),
        vec![
            RotationStep::Remove(2),
            RotationStep::Rename { from: 1, to: 2 },
            RotationStep::Rename { from: 0, to: 1 },
        ]
    );
    let mut log = ActiveLog { active_len: 90, max_bytes: 100 };
    assert!(!log.write_line(10));
    assert!(log.write_line(1));
    assert_eq!(log.active_len, 1);
    assert_eq!(rotated_log_path("/l/a.log", 3), "/l/a.log.3");
    assert_eq!(rotation_number("a.log", "a.log.12"), Some(12));
    assert_eq!(rotation_number("a.log", "b.log.12"), None);
}

#[test]
fn log_files_have_their_places() {
    assert_eq!(supervisor_log_path("/l"), "/l/supervisor.log");
    assert_eq!(canonical_log_path("/l", "svc", None), "/l/svc.log");
    assert_eq!(get_service_log_path("/l", "svc", true, &vec![]), "/l/svc.log");
    assert_eq!(
        dynamic_child_log_path("/l", Some("api"), "job", 7, "stdout"),
        "/l/spawn/api_job_7_stdout.log"
    );
    assert!(matches!(clear_action("svc_stdout.log.2"), ClearAction::Remove));
}

#[test]
fn live_logs_keep_the_newest_bytes() {
    let mut logs = LiveLogs::new();
    logs.append("svc", LogStream::Stdout, &vec![b'a'; LIVE_LOG_BUFFER_LIMIT]);
    logs.append("svc", LogStream::Stdout, b"tail");
    let held = logs.snapshot("svc", LogStream::Stdout).unwrap();
    assert_eq!(held.len(), LIVE_LOG_BUFFER_LIMIT);
    assert!(held.ends_with(b"atail"));
    clear_live_log(&mut logs, "svc");
    assert!(logs.snapshot("svc", LogStream::Stdout).is_none_or(|b| b.is_empty()));
    assert_eq!(live_tail(b"a\nb\n", 1, None, &LogFilter::none()), b"b\n");
}

#[test]
fn titles_fit_the_terminal() {
    assert_eq!(format_log_title("svc", Some(7)), "svc [pid 7]");
    assert_eq!(log_terminal_width(Some(10), 80), 24);
    assert_eq!(log_terminal_width(Some(100), 80), 100);
    assert_eq!(log_terminal_width(None, 80), 80);
    assert_eq!(truncate_log_title("abcdef", 10), "abcdef");
    assert!(format_boxed_log_title("svc", 20).contains("svc"));
}

#[test]
fn a_followed_log_shows_complete_lines() {
    let mut follow = Follow::begin(3);
    assert_eq!(follow.look(Some(3)), None);
    assert_eq!(follow.look(Some(10)), Some(3));
    let shown = follow.got(10, b"one\ntw", None, &LogFilter::none());
    assert_eq!(shown, b"one\n");
    assert_eq!(follow.got(13, b"o\n", None, &LogFilter::none()), b"two\n");
    assert_eq!(follow.look(Some(2)), Some(0));
}

#[test]
fn only_a_process_without_output_cannot_be_shown() {
    assert_eq!(tail_targets(Some(7), false, false, false, false).unavailable, Some(7));
    assert_eq!(tail_targets(Some(7), false, false, false, true).unavailable, None);
    let command = configure_command(TailMode::Follow, 5, true, None);
    assert!(command.follow && command.lines == 5);
    assert_eq!(command.files, vec![LogFile::Combined]);
    let all = LogFilter { all: true, ..LogFilter::none() };
    assert!(matches!(resolve_tail_mode(TailMode::Follow, &all), TailMode::OneShot));
}

#[test]
fn a_log_is_looked_for_under_its_own_name_first() {
    let files = vec!["arb-rs_stdout.log".to_string()];
    assert_eq!(get_log_path("/logs", "arb_rs", "stdout", true, &files), "/logs/arb_rs_stdout.log");
    assert_eq!(get_log_path("/logs", "arb_rs", "stdout", false, &files), "/logs/arb-rs_stdout.log");
    assert_eq!(get_log_path("/logs", "web", "stderr", false, &files), "/logs/web_stderr.log");
}

#[test]
fn plain_sizes_read_back_exactly() {
    assert_eq!(parse_byte_size("9007199254740991").unwrap(), 9007199254740991);
    assert_eq!(parse_byte_size("0").unwrap(), 0);
}
