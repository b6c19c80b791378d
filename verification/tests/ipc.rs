use systemg::error::{Fault, FaultKind};
use systemg::ipc::command::{
    authenticate_peer, connect_error, decode_control_frame, frame_text, settle_ack, stream_end,
    AckRead, CommandAck, ControlError, OpFollow,
};
use systemg::ipc::fingerprint::{manifest_fingerprint, ManifestProject, ServiceHash};
use systemg::ipc::runtime_files::{
    config_hint_path, managed_marker, managed_owner_in, read_config_hint, read_supervisor_pid,
    runtime_files, socket_path, still_owned, supervisor_is_managed,
};
use systemg::ipc::wait::{
    command_wait_budget, CommandWait, SliceRead, WaitPolicy, WaitStep, MAX_RESPONSE_BYTES,
};

const CAP: usize = 65536;

fn test_policy(budget: Option<u64>) -> WaitPolicy {
    WaitPolicy { slice: 50, probe_window: 500, unresponsive_grace: 200, budget }
}

#[test]
fn a_reply_slower_than_one_slice_is_still_awaited() {
    let mut wait = CommandWait::begin(test_policy(None), 0);
    for n in 1..9 {
        assert_eq!(wait.slice(SliceRead::Silent, n * 50).1, WaitStep::Probe);
        assert_eq!(wait.probed(true, n * 50 + 1), WaitStep::Read);
    }
    let reply = b"{\"Message\":\"done\"}\n";
    assert_eq!(wait.slice(SliceRead::Bytes(reply), 401), (reply.len(), WaitStep::Finished));
    assert_eq!(wait.finish().ok().unwrap(), "{\"Message\":\"done\"}");
}

#[test]
fn a_reply_split_across_slices_is_not_corrupted() {
    let reply = "{\"Message\":\"réstarted ✓\"}\n".as_bytes();
    for split in 1..reply.len() {
        let (head, tail) = reply.split_at(split);
        let mut wait = CommandWait::begin(test_policy(None), 0);
        assert_eq!(wait.slice(SliceRead::Bytes(head), 10), (head.len(), WaitStep::Read));
        assert_eq!(wait.slice(SliceRead::Silent, 60).1, WaitStep::Probe);
        assert_eq!(wait.probed(true, 61), WaitStep::Read);
        assert_eq!(wait.slice(SliceRead::Bytes(tail), 210), (tail.len(), WaitStep::Finished));
        assert_eq!(wait.finish().ok().unwrap(), "{\"Message\":\"réstarted ✓\"}");
    }
}

#[test]
fn a_supervisor_that_stops_answering_ends_the_wait() {
    let mut wait = CommandWait::begin(test_policy(None), 0);
    let mut now = 0;
    loop {
        now += 50;
        match wait.slice(SliceRead::Silent, now).1 {
            WaitStep::Probe => {}
            other => panic!("{other:?}"),
        }
        match wait.probed(false, now) {
            WaitStep::Read => assert!(now < 1000),
            WaitStep::Failed(err) => {
                assert!(matches!(err, ControlError::Timeout));
                break;
            }
            other => panic!("{other:?}"),
        }
    }
    assert!(now >= 200);
}

#[test]
fn an_error_reply_to_the_probe_still_counts_as_alive() {
    let mut wait = CommandWait::begin(test_policy(Some(400)), 0);
    let mut now = 0;
    loop {
        now += 50;
        match wait.slice(SliceRead::Silent, now).1 {
            WaitStep::Probe => {}
            other => panic!("{other:?}"),
        }
        match wait.probed(true, now) {
            WaitStep::Read => assert!(now < 1000),
            WaitStep::Failed(err) => {
                assert!(matches!(err, ControlError::StillRunning));
                break;
            }
            other => panic!("{other:?}"),
        }
    }
    assert!(now >= 400);
}

#[test]
fn a_wedged_owner_thread_reports_the_command_as_still_running() {
    let mut wait = CommandWait::begin(test_policy(Some(400)), 0);
    for now in [100, 200, 300] {
        assert_eq!(wait.slice(SliceRead::Silent, now).1, WaitStep::Probe);
        assert_eq!(wait.probed(true, now), WaitStep::Read);
    }
    assert_eq!(wait.slice(SliceRead::Silent, 400).1, WaitStep::Probe);
    assert_eq!(wait.probed(true, 400), WaitStep::Failed(ControlError::StillRunning));
}

#[test]
fn a_peer_dribbling_bytes_forever_still_hits_the_budget() {
    let mut wait = CommandWait::begin(test_policy(Some(300)), 0);
    let mut now = 0;
    loop {
        now += 10;
        match wait.slice(SliceRead::Bytes(b" "), now).1 {
            WaitStep::Read => assert!(now < 1000),
            WaitStep::Failed(err) => {
                assert!(matches!(err, ControlError::StillRunning));
                break;
            }
            other => panic!("{other:?}"),
        }
    }
}

#[test]
fn a_reply_without_end_is_refused() {
    let mut wait = CommandWait::begin(test_policy(None), 0);
    let chunk = vec![b'x'; MAX_RESPONSE_BYTES];
    assert_eq!(wait.slice(SliceRead::Bytes(&chunk), 1).1, WaitStep::Read);
    assert!(matches!(wait.slice(SliceRead::Bytes(b"x"), 2).1, WaitStep::Failed(_)));
}

#[test]
fn the_budget_comes_from_the_supervisor_config() {
    assert_eq!(WaitPolicy::current(command_wait_budget(Some(30), 7)).budget, Some(30_000));
}

#[test]
fn a_zero_budget_in_the_config_waits_forever() {
    assert_eq!(WaitPolicy::current(command_wait_budget(Some(0), 7)).budget, None);
}

#[test]
fn a_config_without_the_setting_keeps_the_default_budget() {
    assert_eq!(WaitPolicy::current(command_wait_budget(None, 600_000)).budget, Some(600_000));
}

#[test]
fn write_and_read_supervisor_pid() {
    assert_eq!(read_supervisor_pid(Some("12345")).ok().unwrap(), Some(12345));
    assert_eq!(read_supervisor_pid(None).ok().unwrap(), None);
    match read_supervisor_pid(Some("12x")) {
        Err(ControlError::Io(fault)) => assert_eq!(fault.message, "invalid digit found in string"),
        other => panic!("{other:?}"),
    }
}

#[test]
fn write_and_read_config_hint() {
    assert_eq!(
        read_config_hint(Some("/path/to/config.yaml")),
        Some("/path/to/config.yaml".to_string())
    );
    assert_eq!(read_config_hint(None), None);
}

#[test]
fn empty_config_hint_handled() {
    assert_eq!(read_config_hint(Some("")), None);
}

#[test]
fn socket_path_generation() {
    assert!(socket_path("/run/sysg").ends_with("control.sock"));
    assert!(config_hint_path("/run/sysg").starts_with("/run/sysg/"));
    assert!(runtime_files("/run/sysg").contains(&socket_path("/run/sysg")));
}

#[test]
fn send_command_no_socket() {
    let fault = || Fault { kind: FaultKind::Other, message: "x".to_string() };
    assert!(matches!(connect_error(false, false, fault()), ControlError::NotAvailable));
    assert!(matches!(connect_error(true, true, fault()), ControlError::NotAvailable));
    assert!(matches!(connect_error(true, false, fault()), ControlError::Io(_)));
}

#[test]
fn decode_control_frame_rejects_over_cap() {
    assert!(decode_control_frame(&vec![b' '; CAP + 1], CAP as u64).is_err());
}

#[test]
fn decode_control_frame_accepts_exact_cap_with_padding() {
    let mut buf = b"\"CurrentOp\"".to_vec();
    buf.resize(CAP, b' ');
    assert_eq!(decode_control_frame(&buf, CAP as u64).ok().unwrap(), "\"CurrentOp\"");
}

#[test]
fn decode_control_frame_accepts_newline_terminated() {
    assert!(decode_control_frame(b"\"CurrentOp\"\n", CAP as u64).is_ok());
}

#[test]
fn decode_control_frame_rejects_invalid_utf8() {
    assert!(decode_control_frame(&[0xff, 0xfe, b'{', b'}'], CAP as u64).is_err());
}

#[test]
fn decode_control_frame_rejects_empty_and_whitespace() {
    assert!(decode_control_frame(b"", CAP as u64).is_err());
    assert!(decode_control_frame(b"   \n", CAP as u64).is_err());
}

#[test]
fn only_the_owner_may_command() {
    assert!(authenticate_peer(1000, 1000).is_ok());
    assert!(authenticate_peer(0, 1000).is_ok());
    assert!(matches!(authenticate_peer(1001, 1000), Err(ControlError::Unauthorized(1001))));
    assert!(ControlError::Unauthorized(1001).message().contains("1001"));
}

#[test]
fn a_marker_names_the_manifest_of_the_live_supervisor() {
    let marker = managed_marker(77, "/etc/sysg.yaml");
    assert_eq!(
        managed_owner_in(Some(77), Some(&marker)),
        Some("/etc/sysg.yaml".to_string())
    );
    assert!(supervisor_is_managed(Some(77), Some(&marker)));
    assert!(!supervisor_is_managed(Some(78), Some(&marker)));
    assert!(!supervisor_is_managed(None, Some(&marker)));
}

#[test]
fn files_of_another_supervisor_are_left_alone() {
    assert!(still_owned(&Ok(Some(5)), 5));
    assert!(still_owned(&Ok(None), 5));
    assert!(!still_owned(&Ok(Some(6)), 5));
    assert!(!still_owned(&Err(ControlError::Timeout), 5));
}

#[test]
fn acknowledgements_may_be_late() {
    assert!(matches!(settle_ack(AckRead::NotYet), Ok(CommandAck::Pending)));
    match settle_ack(AckRead::Line("{\"Ok\":null}\n".to_string())) {
        Ok(CommandAck::Response(text)) => assert_eq!(text, "{\"Ok\":null}"),
        other => panic!("{other:?}"),
    }
    assert!(settle_ack(AckRead::Closed).is_err());
    assert_eq!(frame_text("  \n"), None);
    assert_eq!(frame_text(" x \n"), Some("x".to_string()));
    assert!(stream_end(true).is_ok() && stream_end(false).is_err());
}

#[test]
fn an_unknown_operation_is_not_available() {
    let mut refused = OpFollow::new();
    assert!(matches!(refused.line("\n"), Ok(None)));
    assert!(matches!(
        refused.line("{\"Error\":\"unknown operation\"}\n"),
        Err(ControlError::NotAvailable)
    ));
    assert!(!refused.begun);
    let mut reported = OpFollow::new();
    assert!(matches!(reported.line("{\"Diag\":{}}"), Err(ControlError::NotAvailable)));
    assert!(matches!(OpFollow::new().end(false), Err(ControlError::NotAvailable)));
}

#[test]
fn a_known_operation_is_followed_to_its_last_frame() {
    let mut follow = OpFollow::new();
    assert!(matches!(follow.line(" {\"Step\":1}\n"), Ok(Some(t)) if t == "{\"Step\":1}"));
    assert!(matches!(follow.line("{\"Error\":\"x\"}"), Ok(Some(_))));
    assert!(follow.end(true).is_ok());
    match follow.end(false) {
        Err(ControlError::Io(fault)) => {
            assert_eq!(fault.kind, FaultKind::UnexpectedEof);
            assert_eq!(fault.message, "boot stream ended before its terminal frame");
        }
        other => panic!("{other:?}"),
    }
}

fn project(id: &str, services: &[(&str, &str)], rest: &str) -> ManifestProject {
    ManifestProject {
        id: id.to_string(),
        services: services
            .iter()
            .map(|(name, hash)| ServiceHash { name: name.to_string(), hash: hash.to_string() })
            .collect(),
        rest: rest.to_string(),
    }
}

#[test]
fn a_fingerprint_does_not_depend_on_order() {
    let one = vec![
        project("a", &[("x", "1"), ("y", "2")], "logs"),
        project("b", &[("z", "3")], ""),
    ];
    let two = vec![
        project("b", &[("z", "3")], ""),
        project("a", &[("y", "2"), ("x", "1")], "logs"),
    ];
    let three = vec![
        project("b", &[("z", "3")], ""),
        project("a", &[("y", "2"), ("x", "9")], "logs"),
    ];
    assert_eq!(manifest_fingerprint(&one), "a:x=1,y=2:logs\nb:z=3:");
    assert_eq!(manifest_fingerprint(&one), manifest_fingerprint(&two));
    assert_ne!(manifest_fingerprint(&one), manifest_fingerprint(&three));
}

#[test]
fn a_fingerprint_holds_all_of_a_manifest() {
    let before = vec![project("a", &[("x", "1")], "{\"logs\":{}}")];
    let after = vec![project("a", &[("x", "1")], "{\"logs\":{\"max_files\":3}}")];
    assert_ne!(manifest_fingerprint(&before), manifest_fingerprint(&after));
    assert_eq!(
        manifest_fingerprint(&vec![project("a", &[("x", "1")], "k: v, w=\n\\")]),
        "a:x=1:k\\c v\\s w\\e\\n\\\\"
    );
    let one_service = vec![project("a", &[("x", "1,y=2")], "")];
    let two_services = vec![project("a", &[("x", "1"), ("y", "2")], "")];
    assert_ne!(manifest_fingerprint(&one_service), manifest_fingerprint(&two_services));
}
