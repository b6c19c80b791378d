//! The ways in which managing processes and logs fails.

use vstd::prelude::*;

use crate::daemon::pid_file::PidFileError;
use crate::diag::Diagnostic;
use crate::text::{decimal, join, joined, push_decimal, push_signed, signed_decimal, texts};

verus! {

/// What kind of operating-system failure was met.
#[derive(Debug, Clone, Copy, PartialEq, Eq, Structural)]
pub enum FaultKind {
    /// The work was called off.
    Interrupted,
    /// The work took too long.
    TimedOut,
    /// Something needed is missing.
    NotFound,
    /// The data makes no sense.
    InvalidData,
    /// Input ended early.
    UnexpectedEof,
    /// Anything else.
    Other,
}

/// An operating-system failure.
#[derive(Debug, PartialEq, Eq)]
pub struct Fault {
    /// What kind of failure it was.
    pub kind: FaultKind,
    /// What the system says about it.
    pub message: String,
}

/// The ways in which managing processes fails.
#[derive(Debug, PartialEq)]
pub enum ProcessManagerError {
    /// A configuration file could not be read.
    ConfigReadError(Fault),
    /// The configuration makes no sense.
    ConfigParseError(String),
    /// A service process could not be started.
    ServiceStartError {
        /// The service.
        service: String,
        /// What went wrong.
        source: Fault,
    },
    /// A service process could not be stopped.
    ServiceStopError {
        /// The service.
        service: String,
        /// What went wrong.
        source: Fault,
    },
    /// A lifecycle hook could not be run.
    HookExecutionError {
        /// The service.
        service: String,
        /// What went wrong.
        source: Fault,
    },
    /// A required dependency is not running.
    DependencyError {
        /// The service that waits.
        service: String,
        /// The dependency it waits for.
        dependency: String,
    },
    /// A required dependency failed.
    DependencyFailed {
        /// The service that was not started.
        service: String,
        /// The dependency that failed.
        dependency: String,
    },
    /// Services that should be up are not.
    ServicesNotRunning {
        /// The services.
        services: Vec<String>,
    },
    /// Another thread panicked while it held a lock.
    MutexPoisonError(String),
    /// The PID file could not be used.
    PidFileError(PidFileError),
    /// A system call failed with this error number.
    ErrNo(i32),
    /// The service privileges could not be set up.
    PrivilegeSetupFailed {
        /// The service.
        service: String,
        /// What went wrong.
        source: Fault,
    },
    /// A failure with a full report.
    Diag(Box<Diagnostic>),
}

/// The ways in which reading and managing logs fails.
#[derive(Debug, PartialEq, Eq)]
pub enum LogsManagerError {
    /// The service is not in the PID file.
    ServiceNotFound(String),
    /// No log is available for the process.
    LogUnavailable(u32),
    /// Reading or writing a log failed.
    LogProcessError(Fault),
    /// The platform cannot tail logs.
    UnsupportedPlatform,
    /// A prune bound could not be read.
    InvalidPruneArg(String),
    /// A time bound could not be read.
    InvalidTimeBound(String),
    /// A search pattern is not a regular expression.
    InvalidGrep(String),
    /// A service name cannot name a log file.
    InvalidServiceName(String),
    /// The command that tails a log failed, with its exit code when it has one.
    TailCommandFailed(Option<i32>),
}

/// `before`, what `fault` says, nothing else.
fn tell(before: &str, fault: &Fault) -> (r: String)
    ensures
        r@ == before@ + fault.message@,
{
    let mut s = before.to_owned();
    s.append(fault.message.as_str());
    s
}

/// A text with a name in single quotes and what is said of it.
fn about(before: &str, name: &str, after: &str) -> (r: String)
    ensures
        r@ == before@ + name@ + after@,
        after@.len() == 0 ==> r@ == before@ + name@,
{
    let mut s = before.to_owned();
    s.append(name);
    s.append(after);
    assert(after@.len() == 0 ==> s@ =~= before@ + name@);
    s
}

impl PidFileError {
    /// What the error says.
    pub open spec fn text(&self) -> Seq<char> {
        match self {
            PidFileError::ReadError(f) => "Failed to read PID file: "@ + f.message@,
            PidFileError::ParseError(f) => "Failed to parse PID file: "@ + f.message@,
            PidFileError::ServiceNotFound => "Service not found in PID file"@,
        }
    }

    /// What the error says.
    pub fn message(&self) -> (r: String)
        ensures
            r@ == self.text(),
    {
        match self {
            PidFileError::ReadError(f) => tell("Failed to read PID file: ", f),
            PidFileError::ParseError(f) => tell("Failed to parse PID file: ", f),
            PidFileError::ServiceNotFound => "Service not found in PID file".to_owned(),
        }
    }
}

impl ProcessManagerError {
    /// What the error says. A failure with a full report says the report's headline.
    pub open spec fn text(&self) -> Seq<char> {
        match self {
            ProcessManagerError::ConfigReadError(f) => "Failed to read config file: "@ + f.message@,
            ProcessManagerError::ConfigParseError(m) => "Invalid YAML format: "@ + m@,
            ProcessManagerError::ServiceStartError { service, source } => "Failed to start service '"@
                + service@ + "': "@ + source.message@,
            ProcessManagerError::ServiceStopError { service, source } => "Failed to stop service '"@
                + service@ + "': "@ + source.message@,
            ProcessManagerError::HookExecutionError { service, source } =>
                "Failed to execute hook for service '"@ + service@ + "': "@ + source.message@,
            ProcessManagerError::DependencyError { service, dependency } => "Service '"@ + service@
                + "' is waiting for an unavailable dependency: '"@ + dependency@ + "'"@,
            ProcessManagerError::DependencyFailed { service, dependency } => "Service '"@ + service@
                + "' was not started because its dependency failed: '"@ + dependency@ + "'"@,
            ProcessManagerError::ServicesNotRunning { services } => "Services are not running: "@
                + joined(texts(services@), ", "@),
            ProcessManagerError::MutexPoisonError(m) => "Mutex is poisoned: "@ + m@,
            ProcessManagerError::PidFileError(e) => "PID file error: "@ + e.text(),
            ProcessManagerError::ErrNo(_) => "Service not found in PID file"@,
            ProcessManagerError::PrivilegeSetupFailed { service, source } =>
                "Failed to set up privileges for service '"@ + service@ + "': "@ + source.message@,
            ProcessManagerError::Diag(d) => d.title@,
        }
    }

    /// What the error says.
    pub fn message(&self) -> (r: String)
        ensures
            r@ == self.text(),
    {
        proof {
            reveal_strlit("");
        }
        match self {
            ProcessManagerError::ConfigReadError(f) => tell("Failed to read config file: ", f),
            ProcessManagerError::ConfigParseError(m) => about("Invalid YAML format: ", m.as_str(), ""),
            ProcessManagerError::ServiceStartError { service, source } => {
                let before = about("Failed to start service '", service.as_str(), "': ");
                tell(before.as_str(), source)
            },
            ProcessManagerError::ServiceStopError { service, source } => {
                let before = about("Failed to stop service '", service.as_str(), "': ");
                tell(before.as_str(), source)
            },
            ProcessManagerError::HookExecutionError { service, source } => {
                let before = about("Failed to execute hook for service '", service.as_str(), "': ");
                tell(before.as_str(), source)
            },
            ProcessManagerError::DependencyError { service, dependency } => {
                let before = about(
                    "Service '",
                    service.as_str(),
                    "' is waiting for an unavailable dependency: '",
                );
                about(before.as_str(), dependency.as_str(), "'")
            },
            ProcessManagerError::DependencyFailed { service, dependency } => {
                let before = about(
                    "Service '",
                    service.as_str(),
                    "' was not started because its dependency failed: '",
                );
                about(before.as_str(), dependency.as_str(), "'")
            },
            ProcessManagerError::ServicesNotRunning { services } => {
                let names = join(services, ", ");
                about("Services are not running: ", names.as_str(), "")
            },
            ProcessManagerError::MutexPoisonError(m) => about("Mutex is poisoned: ", m.as_str(), ""),
            ProcessManagerError::PidFileError(e) => {
                let said = e.message();
                about("PID file error: ", said.as_str(), "")
            },
            ProcessManagerError::ErrNo(_) => "Service not found in PID file".to_owned(),
            ProcessManagerError::PrivilegeSetupFailed { service, source } => {
                let before = about(
                    "Failed to set up privileges for service '",
                    service.as_str(),
                    "': ",
                );
                tell(before.as_str(), source)
            },
            ProcessManagerError::Diag(d) => d.title.clone(),
        }
    }
}

impl LogsManagerError {
    /// What the error says.
    pub open spec fn text(&self) -> Seq<char> {
        match self {
            LogsManagerError::ServiceNotFound(s) => "Service '"@ + s@ + "' not found in PID file"@,
            LogsManagerError::LogUnavailable(pid) => "Log file unavailable for PID "@ + decimal(
                *pid as nat,
            ),
            LogsManagerError::LogProcessError(f) => "Log tailing failed: "@ + f.message@,
            LogsManagerError::UnsupportedPlatform => "Unsupported platform for log tailing"@,
            LogsManagerError::InvalidPruneArg(v) => "Invalid prune bound: "@ + v@,
            LogsManagerError::InvalidTimeBound(v) => "Invalid time bound: "@ + v@,
            LogsManagerError::InvalidGrep(m) => "Invalid search pattern: "@ + m@,
            LogsManagerError::InvalidServiceName(s) => "Invalid service name: "@ + s@,
            LogsManagerError::TailCommandFailed(code) => match code {
                Some(c) => "Log tailing failed with status "@ + signed_decimal(*c as int),
                None => "Log tailing failed"@,
            },
        }
    }

    /// What the error says.
    pub fn message(&self) -> (r: String)
        ensures
            r@ == self.text(),
    {
        proof {
            reveal_strlit("");
        }
        match self {
            LogsManagerError::ServiceNotFound(s) => about(
                "Service '",
                s.as_str(),
                "' not found in PID file",
            ),
            LogsManagerError::LogUnavailable(pid) => {
                let mut m = "Log file unavailable for PID ".to_owned();
                push_decimal(&mut m, *pid as u64);
                m
            },
            LogsManagerError::LogProcessError(f) => tell("Log tailing failed: ", f),
            LogsManagerError::UnsupportedPlatform => "Unsupported platform for log tailing".to_owned(),
            LogsManagerError::InvalidPruneArg(v) => about("Invalid prune bound: ", v.as_str(), ""),
            LogsManagerError::InvalidTimeBound(v) => about("Invalid time bound: ", v.as_str(), ""),
            LogsManagerError::InvalidGrep(m) => about("Invalid search pattern: ", m.as_str(), ""),
            LogsManagerError::InvalidServiceName(s) => about("Invalid service name: ", s.as_str(), ""),
            LogsManagerError::TailCommandFailed(code) => match code {
                Some(c) => {
                    let mut m = "Log tailing failed with status ".to_owned();
                    push_signed(&mut m, *c as i64);
                    m
                },
                None => "Log tailing failed".to_owned(),
            },
        }
    }
}

} // verus!
