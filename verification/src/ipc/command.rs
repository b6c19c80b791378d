//! What is sent over the control channel, and what can go wrong with it.

use vstd::prelude::*;
use vstd::utf8::{decode_utf8, valid_utf8};

use crate::error::{Fault, FaultKind};
use crate::logs::utf8::{strict_text, utf8_complaint};
use crate::status::ProjectRunMode;
use crate::text::{decimal, push_decimal, starts, starts_with, trim, trimmed};

verus! {

/// A request to the resident supervisor.
#[allow(inconsistent_fields)]
#[derive(Debug, PartialEq, Eq)]
pub enum ControlCommand {
    /// Start one or all services.
    Start {
        /// The service; all when absent.
        service: Option<String>,
        /// The project.
        project: Option<String>,
        /// The progress journal of this operation.
        watch: Option<String>,
    },
    /// Add a project to the supervisor.
    AddProject {
        /// The path of its manifest.
        config: String,
        /// The service to start of it; all when absent.
        service: Option<String>,
        /// How to run it.
        mode: ProjectRunMode,
        /// The progress journal of this operation.
        watch: Option<String>,
    },
    /// Stop all services of a project.
    StopProject {
        /// The project.
        project: String,
        /// The progress journal of this operation.
        watch: Option<String>,
    },
    /// Stop one or all services.
    Stop {
        /// The service; all when absent.
        service: Option<String>,
        /// The project.
        project: Option<String>,
        /// The progress journal of this operation.
        watch: Option<String>,
    },
    /// Restart services, perhaps with a new manifest.
    Restart {
        /// The path of the new manifest.
        config: Option<String>,
        /// The service; all when absent.
        service: Option<String>,
        /// The project.
        project: Option<String>,
        /// Whether every unit is restarted rather than those that changed.
        all: bool,
        /// The progress journal of this operation.
        watch: Option<String>,
    },
    /// Shut the supervisor down.
    Shutdown,
    /// Report the status.
    Status {
        /// Whether the facts are collected at once.
        live: bool,
    },
    /// Report on one unit.
    Inspect {
        /// The unit.
        unit: String,
        /// Its project.
        project: Option<String>,
        /// The most samples to report.
        samples: u32,
        /// Whether the facts are collected at once.
        live: bool,
    },
    /// Stream logs.
    Logs {
        /// The service; all when absent.
        service: Option<String>,
        /// The project.
        project: Option<String>,
        /// How many lines to begin with.
        lines: usize,
        /// The stream; both when absent.
        kind: Option<String>,
        /// Whether the logs are followed.
        follow: bool,
        /// Earliest capture time.
        since: Option<String>,
        /// Latest capture time.
        until: Option<String>,
        /// What lines must hold.
        grep: Option<String>,
        /// Whether the whole history is read.
        all: bool,
        /// Whether the client understands marker lines.
        structured: bool,
    },
    /// Clear captured logs.
    ClearLogs {
        /// The service; all when absent.
        service: Option<String>,
        /// The project.
        project: Option<String>,
    },
    /// Report which projects declare a service.
    DeclaringProjects {
        /// The service.
        service: String,
    },
    /// Report the supervisor's version.
    Version,
    /// Replace the supervisor's binary.
    Upgrade {
        /// The path of the new binary.
        binary: String,
    },
    /// Report what the supervisor is working on.
    CurrentOp,
    /// Spawn a child process.
    Spawn {
        /// The process that asks.
        parent_pid: u32,
        /// A name for the child.
        name: String,
        /// What to run.
        command: Vec<String>,
        /// Its time to live in seconds.
        ttl: Option<u64>,
        /// Its log level.
        log_level: Option<String>,
    },
    /// Stream the progress of the initial start.
    BootStream,
    /// Stream the progress of an operation.
    OpStream {
        /// The operation.
        op: String,
    },
}

/// What can go wrong with the control channel.
#[derive(Debug, PartialEq, Eq)]
pub enum ControlError {
    /// The socket failed.
    Io(Fault),
    /// A message could not be written or read.
    Serde(String),
    /// There is no home directory.
    MissingHome,
    /// The supervisor reported an error.
    Server(String),
    /// There is no supervisor to talk to.
    NotAvailable,
    /// The supervisor stopped answering.
    Timeout,
    /// The supervisor answers, but has not finished in time.
    StillRunning,
    /// Another supervisor owns the runtime.
    RuntimeBusy,
    /// The peer may not use the control channel.
    Unauthorized(u32),
}

impl ControlError {
    /// What the error says.
    pub open spec fn text(&self) -> Seq<char> {
        match self {
            ControlError::Io(f) => "control socket I/O failed: "@ + f.message@,
            ControlError::Serde(m) => "failed to serialise control message: "@ + m@,
            ControlError::MissingHome => "HOME environment variable not set"@,
            ControlError::Server(m) => "supervisor reported error: "@ + m@,
            ControlError::NotAvailable => "control socket not available"@,
            ControlError::Timeout => "supervisor did not respond in time"@,
            ControlError::StillRunning => "supervisor is still running the command"@,
            ControlError::RuntimeBusy => "another supervisor owns the runtime"@,
            ControlError::Unauthorized(uid) => "unauthorized control socket peer (uid "@ + decimal(
                *uid as nat,
            ) + ")"@,
        }
    }

    /// What the error says.
    pub fn message(&self) -> (r: String)
        ensures
            r@ == self.text(),
    {
        match self {
            ControlError::Io(f) => {
                let mut m = "control socket I/O failed: ".to_owned();
                m.append(f.message.as_str());
                m
            },
            ControlError::Serde(e) => {
                let mut m = "failed to serialise control message: ".to_owned();
                m.append(e.as_str());
                m
            },
            ControlError::MissingHome => "HOME environment variable not set".to_owned(),
            ControlError::Server(e) => {
                let mut m = "supervisor reported error: ".to_owned();
                m.append(e.as_str());
                m
            },
            ControlError::NotAvailable => "control socket not available".to_owned(),
            ControlError::Timeout => "supervisor did not respond in time".to_owned(),
            ControlError::StillRunning => "supervisor is still running the command".to_owned(),
            ControlError::RuntimeBusy => "another supervisor owns the runtime".to_owned(),
            ControlError::Unauthorized(uid) => {
                let mut m = "unauthorized control socket peer (uid ".to_owned();
                push_decimal(&mut m, *uid as u64);
                m.append(")");
                m
            },
        }
    }
}

/// Whether `e` is a socket failure of this kind that says this.
pub open spec fn is_io(e: ControlError, kind: FaultKind, message: Seq<char>) -> bool {
    match e {
        ControlError::Io(f) => f.kind == kind && f.message@ == message,
        _ => false,
    }
}

pub(crate) fn io_error(kind: FaultKind, message: String) -> (r: ControlError)
    ensures
        is_io(r, kind, message@),
{
    ControlError::Io(Fault { kind, message })
}

/// Whether a user may use the control channel.
pub open spec fn is_admitted(peer: u32, owner: u32) -> bool {
    peer == owner || peer == 0
}

/// The supervisor's own user and root are admitted, and nobody else.
pub proof fn law_strangers_are_turned_away(peer: u32, owner: u32)
    ensures
        is_admitted(owner, owner),
        is_admitted(0, owner),
        peer != owner && peer != 0 ==> !is_admitted(peer, owner),
{
}

/// Lets only the supervisor's own user and root use the control channel.
pub fn authenticate_peer(peer: u32, owner: u32) -> (r: Result<(), ControlError>)
    ensures
        r is Ok <==> is_admitted(peer, owner),
        r == if peer == owner || peer == 0 {
            Ok::<(), ControlError>(())
        } else {
            Err(ControlError::Unauthorized(peer))
        },
{
    if peer == owner || peer == 0 {
        Ok(())
    } else {
        Err(ControlError::Unauthorized(peer))
    }
}

/// What reading a control frame gives.
pub open spec fn frame_reads(buf: Seq<u8>, limit: u64, r: Result<String, ControlError>) -> bool {
    if buf.len() > limit {
        r is Err && is_io(
            r->Err_0,
            FaultKind::InvalidData,
            "control command exceeds maximum length"@,
        )
    } else if !valid_utf8(buf) {
        r is Err && is_io(r->Err_0, FaultKind::InvalidData, utf8_complaint(buf))
    } else if trimmed(decode_utf8(buf)).len() == 0 {
        r is Err && is_io(r->Err_0, FaultKind::UnexpectedEof, "empty control command"@)
    } else {
        r is Ok && r->Ok_0@ == trimmed(decode_utf8(buf))
    }
}

/// Reads one control frame, a single line, as the text of a command. Frames that are too long, not
/// text, or blank are refused.
pub fn decode_control_frame(buf: &[u8], limit: u64) -> (r: Result<String, ControlError>)
    ensures
        frame_reads(buf@, limit, r),
{
    if buf.len() as u64 > limit {
        return Err(
            io_error(
                FaultKind::InvalidData,
                "control command exceeds maximum length".to_owned(),
            ),
        );
    }
    let line = match strict_text(buf) {
        Ok(s) => s,
        Err(m) => {
            return Err(io_error(FaultKind::InvalidData, m));
        },
    };
    let text = trim(line.as_str());
    if text.as_str().unicode_len() == 0 {
        return Err(io_error(FaultKind::UnexpectedEof, "empty control command".to_owned()));
    }
    Ok(text)
}

/// Why there is no connection.
pub fn connect_error(socket_exists: bool, refused: bool, fault: Fault) -> (r: ControlError)
    ensures
        r == if !socket_exists || refused {
            ControlError::NotAvailable
        } else {
            ControlError::Io(fault)
        },
{
    if !socket_exists || refused {
        ControlError::NotAvailable
    } else {
        ControlError::Io(fault)
    }
}

/// What a short wait for an answer gave.
pub enum AckRead {
    /// The connection was closed.
    Closed,
    /// A line.
    Line(String),
    /// Nothing yet.
    NotYet,
    /// A failure.
    Failed(Fault),
}

/// Whether a command was answered within a short wait.
#[derive(Debug, PartialEq, Eq)]
pub enum CommandAck {
    /// It was, with this text.
    Response(String),
    /// It was sent, but not answered yet.
    Pending,
}

/// Settles a short wait for an answer.
pub fn settle_ack(read: AckRead) -> (r: Result<CommandAck, ControlError>)
    ensures
        match read {
            AckRead::Closed => r == Err::<CommandAck, ControlError>(ControlError::NotAvailable),
            AckRead::Line(l) => if trimmed(l@).len() == 0 {
                r == Err::<CommandAck, ControlError>(ControlError::NotAvailable)
            } else {
                match r {
                    Ok(CommandAck::Response(t)) => t@ == trimmed(l@),
                    _ => false,
                }
            },
            AckRead::NotYet => r == Ok::<CommandAck, ControlError>(CommandAck::Pending),
            AckRead::Failed(f) => r == Err::<CommandAck, ControlError>(ControlError::Io(f)),
        },
{
    match read {
        AckRead::Closed => Err(ControlError::NotAvailable),
        AckRead::Line(l) => {
            let t = trim(l.as_str());
            if t.as_str().unicode_len() == 0 {
                Err(ControlError::NotAvailable)
            } else {
                Ok(CommandAck::Response(t))
            }
        },
        AckRead::NotYet => Ok(CommandAck::Pending),
        AckRead::Failed(f) => Err(ControlError::Io(f)),
    }
}

/// The text of a progress frame, if a line holds one. Blank lines hold none.
pub fn frame_text(line: &str) -> (r: Option<String>)
    ensures
        match r {
            Some(t) => t@ == trimmed(line@) && t@.len() > 0,
            None => trimmed(line@).len() == 0,
        },
{
    let t = trim(line);
    if t.as_str().unicode_len() == 0 {
        None
    } else {
        Some(t)
    }
}

/// How the progress stream of a boot ended: well only after its last frame.
pub fn stream_end(completed: bool) -> (r: Result<(), ControlError>)
    ensures
        completed <==> r is Ok,
        !completed ==> is_io(
            r->Err_0,
            FaultKind::UnexpectedEof,
            "boot stream ended before its terminal frame"@,
        ),
{
    if completed {
        Ok(())
    } else {
        Err(
            io_error(
                FaultKind::UnexpectedEof,
                "boot stream ended before its terminal frame".to_owned(),
            ),
        )
    }
}

/// Whether a line of a progress stream is an answer that refuses the request, and no frame.
pub open spec fn is_refusal(line: Seq<char>) -> bool {
    starts(trimmed(line), "{\"Error\":"@) || starts(trimmed(line), "{\"Diag\":"@)
}

/// A look at the progress stream of an operation that is already under way.
#[derive(Debug, Clone, Copy, PartialEq, Eq, Structural)]
pub struct OpFollow {
    /// Whether a frame was seen.
    pub begun: bool,
}

impl OpFollow {
    /// Before the first line.
    pub fn new() -> (r: Self)
        ensures
            !r.begun,
    {
        OpFollow { begun: false }
    }

    /// Takes in a line and gives the text of the frame it holds; blank lines hold none. An
    /// operation that the supervisor does not know is refused before its first frame: it has
    /// finished already, or the supervisor cannot stream operations. Nothing is then available,
    /// and no frame came.
    pub fn line(&mut self, line: &str) -> (r: Result<Option<String>, ControlError>)
        ensures
            match r {
                Ok(Some(t)) => {
                    &&& t@ == trimmed(line@)
                    &&& t@.len() > 0
                    &&& old(self).begun || !is_refusal(line@)
                    &&& final(self).begun
                },
                Ok(None) => trimmed(line@).len() == 0 && *final(self) == *old(self),
                Err(e) => {
                    &&& e == ControlError::NotAvailable
                    &&& trimmed(line@).len() > 0
                    &&& !old(self).begun && is_refusal(line@)
                    &&& *final(self) == *old(self)
                },
            },
    {
        match frame_text(line) {
            Some(text) => {
                if !self.begun && (starts_with(text.as_str(), "{\"Error\":") || starts_with(
                    text.as_str(),
                    "{\"Diag\":",
                )) {
                    Err(ControlError::NotAvailable)
                } else {
                    self.begun = true;
                    Ok(Some(text))
                }
            },
            None => Ok(None),
        }
    }

    /// How the stream ended: well only after its last frame. One that closes without a frame is of
    /// an operation that the supervisor does not know.
    pub fn end(&self, completed: bool) -> (r: Result<(), ControlError>)
        ensures
            completed <==> r is Ok,
            !completed && !self.begun ==> r->Err_0 == ControlError::NotAvailable,
            !completed && self.begun ==> is_io(
                r->Err_0,
                FaultKind::UnexpectedEof,
                "boot stream ended before its terminal frame"@,
            ),
    {
        if !completed && !self.begun {
            Err(ControlError::NotAvailable)
        } else {
            stream_end(completed)
        }
    }
}

/// A control frame is read exactly when it is not too long, is valid text and is not blank, and gives
/// that text less the white space around it.
pub proof fn law_frames_are_read_whole(buf: Seq<u8>, limit: u64, r: Result<String, ControlError>)
    requires
        frame_reads(buf, limit, r),
    ensures
        r is Ok <==> buf.len() <= limit && valid_utf8(buf) && trimmed(decode_utf8(buf)).len() > 0,
        r is Ok ==> r->Ok_0@ == trimmed(decode_utf8(buf)),
{
}

} // verus!
