//! The files by which a supervisor can be found.

use vstd::prelude::*;

use crate::error::FaultKind;
use crate::ipc::command::{io_error, is_io, ControlError};
use crate::paths::{join_path, joined_path};
use crate::text::{
    chars_of, find_char, first_of, law_signed_decimal_round_trip, lemma_first_of_is, opt_str,
    parse_i32, parsed_signed, push_signed, signed_decimal, string_of, texts, trim, trimmed,
};

verus! {

/// The control socket.
pub fn socket_path(runtime_dir: &str) -> (r: String)
    ensures
        r@ == joined_path(runtime_dir@, "control.sock"@),
{
    join_path(runtime_dir, "control.sock")
}

/// The record of the supervisor's process.
pub fn supervisor_pid_path(runtime_dir: &str) -> (r: String)
    ensures
        r@ == joined_path(runtime_dir@, "sysg.pid"@),
{
    join_path(runtime_dir, "sysg.pid")
}

/// The record of the manifest that was last used.
pub fn config_hint_path(runtime_dir: &str) -> (r: String)
    ensures
        r@ == joined_path(runtime_dir@, "config_hint"@),
{
    join_path(runtime_dir, "config_hint")
}

/// The record that a service manager owns the supervisor.
pub fn managed_marker_path(runtime_dir: &str) -> (r: String)
    ensures
        r@ == joined_path(runtime_dir@, "managed"@),
{
    join_path(runtime_dir, "managed")
}

/// The files to remove when a supervisor is gone.
pub fn runtime_files(runtime_dir: &str) -> (r: Vec<String>)
    ensures
        texts(r@) == seq![
            joined_path(runtime_dir@, "control.sock"@),
            joined_path(runtime_dir@, "sysg.pid"@),
            joined_path(runtime_dir@, "config_hint"@),
            joined_path(runtime_dir@, "managed"@),
        ],
{
    let mut v: Vec<String> = Vec::new();
    v.push(socket_path(runtime_dir));
    v.push(supervisor_pid_path(runtime_dir));
    v.push(config_hint_path(runtime_dir));
    v.push(managed_marker_path(runtime_dir));
    assert(texts(v@) =~= seq![
        joined_path(runtime_dir@, "control.sock"@),
        joined_path(runtime_dir@, "sysg.pid"@),
        joined_path(runtime_dir@, "config_hint"@),
        joined_path(runtime_dir@, "managed"@),
    ]);
    v
}

/// The process id that a text gives, white space around it ignored.
pub open spec fn pid_in(text: Seq<char>) -> Option<int> {
    parsed_signed(trimmed(text), i32::MIN as int, i32::MAX as int)
}

fn read_pid(text: &str) -> (r: Option<i32>)
    ensures
        match r {
            Some(p) => pid_in(text@) == Some(p as int),
            None => pid_in(text@) is None,
        },
{
    let t = trim(text);
    parse_i32(t.as_str())
}

/// What `str::parse` says is wrong with a text that is no `i32`.
pub uninterp spec fn number_complaint(text: Seq<char>) -> Seq<char>;

/// `str::parse` into an `i32`: what is wrong with a text that gives none; nothing is said of one
/// that does.
#[verifier::external_body]
fn complain(text: &str) -> (r: Option<String>)
    ensures
        match r {
            Some(m) => m@ == number_complaint(text@) && parsed_signed(
                text@,
                i32::MIN as int,
                i32::MAX as int,
            ) is None,
            None => parsed_signed(text@, i32::MIN as int, i32::MAX as int) is Some,
        },
{
    match text.parse::<i32>() {
        Ok(_) => None,
        Err(e) => Some(e.to_string()),
    }
}

/// Reads the record of the supervisor's process; absent when there is none.
pub fn read_supervisor_pid(contents: Option<&str>) -> (r: Result<Option<i32>, ControlError>)
    ensures
        match contents {
            None => r == Ok::<Option<i32>, ControlError>(None),
            Some(c) => match pid_in(c@) {
                Some(p) => r is Ok && r->Ok_0 is Some && r->Ok_0->0 == p,
                None => r is Err && is_io(
                    r->Err_0,
                    FaultKind::InvalidData,
                    number_complaint(trimmed(c@)),
                ),
            },
        },
{
    match contents {
        None => Ok(None),
        Some(c) => match read_pid(c) {
            Some(p) => Ok(Some(p)),
            None => {
                let t = trim(c);
                match complain(t.as_str()) {
                    Some(m) => Err(io_error(FaultKind::InvalidData, m)),
                    None => {
                        assert(false);
                        Ok(None)
                    },
                }
            },
        },
    }
}

/// The process that a record names, if it is one; whether it is alive is for the caller to see.
pub fn recorded_supervisor_pid(contents: Option<&str>) -> (r: Option<i32>)
    ensures
        match contents {
            None => r is None,
            Some(c) => match r {
                Some(p) => pid_in(c@) == Some(p as int),
                None => pid_in(c@) is None,
            },
        },
{
    match contents {
        None => None,
        Some(c) => read_pid(c),
    }
}

/// The record that a service manager owns the supervisor `pid`, which runs `config`.
pub open spec fn marker_text(pid: i32, config: Seq<char>) -> Seq<char> {
    signed_decimal(pid as int) + "\n"@ + config
}

/// The record that a service manager owns the supervisor `pid`, which runs `config`.
pub fn managed_marker(pid: i32, config: &str) -> (r: String)
    ensures
        r@ == marker_text(pid, config@),
{
    let mut s = String::new();
    push_signed(&mut s, pid as i64);
    s.append("\n");
    s.append(config);
    assert(s@ =~= marker_text(pid, config@));
    s
}

/// The manifest that a record names, when it names the live supervisor. A stale record names
/// another process and says nothing.
pub open spec fn owned_manifest(live: Option<i32>, record: Option<Seq<char>>) -> Option<Seq<char>> {
    if live is None || record is None {
        None
    } else {
        let r = record->0;
        let i = first_of(r, '\n');
        if i < r.len() && pid_in(r.take(i)) == Some(live->0 as int) {
            Some(trimmed(r.skip(i + 1)))
        } else {
            None
        }
    }
}

/// The manifest that a service manager's supervisor runs, when that supervisor is the live one.
pub fn managed_owner_in(live: Option<i32>, record: Option<&str>) -> (r: Option<String>)
    ensures
        crate::text::opt_text(r) == owned_manifest(live, opt_str(record)),
{
    match (live, record) {
        (Some(pid), Some(text)) => {
            let v = chars_of(text);
            let i = find_char(&v, 0, '\n');
            assert(v@.skip(0) =~= text@);
            if i >= v.len() {
                return None;
            }
            let head = string_of(&v, 0, i);
            let rest = string_of(&v, i + 1, v.len());
            assert(head@ =~= text@.take(i as int));
            assert(rest@ =~= text@.skip(i + 1));
            match read_pid(head.as_str()) {
                Some(p) => {
                    if p == pid {
                        Some(trim(rest.as_str()))
                    } else {
                        None
                    }
                },
                None => None,
            }
        },
        _ => None,
    }
}

/// Whether a service manager owns the live supervisor.
pub fn supervisor_is_managed(live: Option<i32>, record: Option<&str>) -> (r: bool)
    ensures
        r == (owned_manifest(live, opt_str(record)) is Some),
{
    managed_owner_in(live, record).is_some()
}

/// The manifest that was last used, if it was recorded.
pub fn read_config_hint(contents: Option<&str>) -> (r: Option<String>)
    ensures
        match contents {
            None => r is None,
            Some(c) => match r {
                Some(p) => p@ == trimmed(c@) && p@.len() > 0,
                None => trimmed(c@).len() == 0,
            },
        },
{
    match contents {
        None => None,
        Some(c) => {
            let t = trim(c);
            if t.as_str().unicode_len() == 0 {
                None
            } else {
                Some(t)
            }
        },
    }
}

/// Whether a supervisor that shuts down may remove the runtime files.
pub open spec fn owns_files(record: Result<Option<i32>, ControlError>, owner: i32) -> bool {
    match record {
        Ok(Some(pid)) => pid == owner,
        Ok(None) => true,
        Err(_) => false,
    }
}

/// Runtime files that are recorded as another supervisor's, or whose record cannot be read, are left
/// alone; those of one's own, or of nobody on record, are removed.
pub proof fn law_other_supervisors_files_stay(pid: i32, owner: i32, e: ControlError)
    ensures
        owns_files(Ok(Some(pid)), owner) <==> pid == owner,
        owns_files(Ok(None), owner),
        !owns_files(Err(e), owner),
{
}

/// Whether a supervisor that shuts down may remove the runtime files: not when their record names
/// another process or cannot be read.
pub fn still_owned(record: &Result<Option<i32>, ControlError>, owner: i32) -> (r: bool)
    ensures
        r == owns_files(*record, owner),
        r == (match record {
            Ok(Some(pid)) => *pid == owner,
            Ok(None) => true,
            Err(_) => false,
        }),
{
    match record {
        Ok(Some(pid)) => *pid == owner,
        Ok(None) => true,
        Err(_) => false,
    }
}

/// The record that a service manager's supervisor leaves gives its manifest back as long as that
/// supervisor is the live one, and nothing once another is.
pub proof fn law_managed_marker_round_trip(pid: i32, live: i32, config: Seq<char>)
    ensures
        owned_manifest(Some(live), Some(marker_text(pid, config))) == if live == pid {
            Some(trimmed(config))
        } else {
            None
        },
{
    reveal_strlit("\n");
    let head = signed_decimal(pid as int);
    let record = marker_text(pid, config);
    law_signed_decimal_round_trip(pid as int, i32::MIN as int, i32::MAX as int);
    assert forall|j: int| 0 <= j < head.len() implies record[j] != '\n' by {
        assert(record[j] == head[j]);
    }
    assert(record[head.len() as int] == '\n');
    lemma_first_of_is(record, '\n', head.len() as int);
    assert(record.take(head.len() as int) =~= head);
    assert(record.skip(head.len() as int + 1) =~= config);
}

} // verus!
