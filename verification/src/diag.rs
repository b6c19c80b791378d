//! The error taxonomy and the diagnostics that carry it.
//!
//! A [`Diagnostic`] says what happened, which evidence was captured while it happened, and which
//! commands to run next. It renders coloured on a terminal and plain when piped.

use vstd::prelude::*;

use crate::text::{decimal, opt_text, push_decimal, same, texts};

verus! {

/// Base URL for per-code documentation pages.
pub const DOCS_BASE: &'static str = "https://docs.sysg.dev/errors";

/// Colour of an error header.
pub const RED: &'static str = "\x1b[1;31m";

/// Colour of a warning header.
pub const YELLOW: &'static str = "\x1b[1;33m";

/// Colour of a note header and of the origin arrow.
pub const CYAN: &'static str = "\x1b[36m";

/// Colour of the help header.
pub const GREEN: &'static str = "\x1b[32m";

/// Weight of titles and commands.
pub const BOLD: &'static str = "\x1b[1m";

/// Weight of evidence labels and gutters.
pub const DIM: &'static str = "\x1b[2m";

/// Style of a link.
pub const UNDERLINE: &'static str = "\x1b[4;34m";

/// Ends any style.
pub const RESET: &'static str = "\x1b[0m";

/// The stable error taxonomy. Each variant owns its `SG####` string, which is its identity on the
/// wire and in the documentation.
#[derive(Debug, Clone, Copy, PartialEq, Eq, Structural)]
pub enum SgCode {
    /// SG0001: a failure with no more specific diagnosis yet.
    Catchall,
    /// SG0002: cron history or active state could not be restored.
    CronStateRecoveryFailed,
    /// SG0003: a cron unit could not be safely registered.
    CronRegistrationConflict,
    /// SG0004: a finite unit that exited cleanly was misclassified as failed.
    FiniteUnitMisclassified,
    /// SG0005: the supervisor is using an outdated or wrong manifest.
    StaleProjectConfiguration,
    /// SG0006: a command resolves ambiguously between projects or services.
    TargetScopeAmbiguous,
    /// SG0007: the supervisor cannot safely restart or transfer ownership.
    SupervisorRestartConflict,
    /// SG0008: a service or its `pre_start` failed during boot or restart.
    UnitStartFailed,
    /// SG0009: status or inspect disagrees with live process state.
    StatusStateInconsistent,
    /// SG0010: expected service logs are unavailable or misrouted.
    LogSourceUnavailable,
    /// SG0011: a live log-follow session is stale or cannot reconnect.
    LogStreamDesynchronized,
    /// SG0012: log output exceeded safe storage or display bounds.
    LogLimitExceeded,
    /// SG0013: a daemonized service inherited an invalid environment.
    DaemonEnvironmentInvalid,
    /// SG0014: the installer cannot obtain the expected binary.
    ReleaseArtifactUnavailable,
    /// SG0015: IPC, PID or tracking state disagrees with the running processes.
    SupervisorStateDesynchronized,
    /// SG0016: a rolling deployment failed without a useful error.
    RollingDeploymentFailed,
    /// SG0017: `logs --prune` was given no size or age bound.
    PruneBoundMissing,
    /// SG0019: a bare `logs` named no target.
    LogsTargetRequired,
    /// SG0020: `logs --supervisor` was combined with a selector.
    LogsSupervisorConflict,
    /// SG0021: no loose service has the requested name.
    LooseServiceNotFound,
    /// SG0102: a service exited immediately at start, before it came up.
    UnitImmediateExit,
    /// SG0103: a service's `pre_start` failed, so it was not started.
    PreStartFailed,
    /// SG0104: a service never passed its configured health check.
    HealthUnmet,
    /// SG0105: a service could not bind a port that another process holds.
    PortInUse,
    /// SG0106: a service's `pre_start` outlived its time limit.
    PreStartTimeout,
    /// SG0107: no health probe ever reached the service.
    HealthCheckUnreachable,
    /// SG0108: no health probe was answered in time.
    HealthCheckTimeout,
    /// SG0201: the `-p` project does not match the resolved config.
    TargetConfigMismatch,
    /// SG0202: the command names a service or project that does not exist.
    TargetNotFound,
    /// SG0203: a config file could not be found or read.
    ConfigFileUnreadable,
    /// SG0204: mutually exclusive selectors were combined.
    ConflictingSelectors,
    /// SG0301: a restart's new manifest is invalid; nothing was changed.
    ManifestRejected,
    /// SG0302: a reconcile ran but left units short of their manifest target.
    ReconcileIncomplete,
    /// SG0303: a recycle stopped the old daemon but the new one did not come up.
    SupervisorRecycleFailed,
}

impl SgCode {
    /// The `SG####` string of a code.
    pub open spec fn spelled(self) -> Seq<char> {
        match self {
            SgCode::Catchall => "SG0001"@,
            SgCode::CronStateRecoveryFailed => "SG0002"@,
            SgCode::CronRegistrationConflict => "SG0003"@,
            SgCode::FiniteUnitMisclassified => "SG0004"@,
            SgCode::StaleProjectConfiguration => "SG0005"@,
            SgCode::TargetScopeAmbiguous => "SG0006"@,
            SgCode::SupervisorRestartConflict => "SG0007"@,
            SgCode::UnitStartFailed => "SG0008"@,
            SgCode::StatusStateInconsistent => "SG0009"@,
            SgCode::LogSourceUnavailable => "SG0010"@,
            SgCode::LogStreamDesynchronized => "SG0011"@,
            SgCode::LogLimitExceeded => "SG0012"@,
            SgCode::DaemonEnvironmentInvalid => "SG0013"@,
            SgCode::ReleaseArtifactUnavailable => "SG0014"@,
            SgCode::SupervisorStateDesynchronized => "SG0015"@,
            SgCode::RollingDeploymentFailed => "SG0016"@,
            SgCode::PruneBoundMissing => "SG0017"@,
            SgCode::LogsTargetRequired => "SG0019"@,
            SgCode::LogsSupervisorConflict => "SG0020"@,
            SgCode::LooseServiceNotFound => "SG0021"@,
            SgCode::UnitImmediateExit => "SG0102"@,
            SgCode::PreStartFailed => "SG0103"@,
            SgCode::HealthUnmet => "SG0104"@,
            SgCode::PortInUse => "SG0105"@,
            SgCode::PreStartTimeout => "SG0106"@,
            SgCode::HealthCheckUnreachable => "SG0107"@,
            SgCode::HealthCheckTimeout => "SG0108"@,
            SgCode::TargetConfigMismatch => "SG0201"@,
            SgCode::TargetNotFound => "SG0202"@,
            SgCode::ConfigFileUnreadable => "SG0203"@,
            SgCode::ConflictingSelectors => "SG0204"@,
            SgCode::ManifestRejected => "SG0301"@,
            SgCode::ReconcileIncomplete => "SG0302"@,
            SgCode::SupervisorRecycleFailed => "SG0303"@,
        }
    }

    /// The stable `SG####` string. This is the wire and docs identity.
    pub fn as_str(self) -> (r: &'static str)
        ensures
            r@ == self.spelled(),
    {
        match self {
            SgCode::Catchall => "SG0001",
            SgCode::CronStateRecoveryFailed => "SG0002",
            SgCode::CronRegistrationConflict => "SG0003",
            SgCode::FiniteUnitMisclassified => "SG0004",
            SgCode::StaleProjectConfiguration => "SG0005",
            SgCode::TargetScopeAmbiguous => "SG0006",
            SgCode::SupervisorRestartConflict => "SG0007",
            SgCode::UnitStartFailed => "SG0008",
            SgCode::StatusStateInconsistent => "SG0009",
            SgCode::LogSourceUnavailable => "SG0010",
            SgCode::LogStreamDesynchronized => "SG0011",
            SgCode::LogLimitExceeded => "SG0012",
            SgCode::DaemonEnvironmentInvalid => "SG0013",
            SgCode::ReleaseArtifactUnavailable => "SG0014",
            SgCode::SupervisorStateDesynchronized => "SG0015",
            SgCode::RollingDeploymentFailed => "SG0016",
            SgCode::PruneBoundMissing => "SG0017",
            SgCode::LogsTargetRequired => "SG0019",
            SgCode::LogsSupervisorConflict => "SG0020",
            SgCode::LooseServiceNotFound => "SG0021",
            SgCode::UnitImmediateExit => "SG0102",
            SgCode::PreStartFailed => "SG0103",
            SgCode::HealthUnmet => "SG0104",
            SgCode::PortInUse => "SG0105",
            SgCode::PreStartTimeout => "SG0106",
            SgCode::HealthCheckUnreachable => "SG0107",
            SgCode::HealthCheckTimeout => "SG0108",
            SgCode::TargetConfigMismatch => "SG0201",
            SgCode::TargetNotFound => "SG0202",
            SgCode::ConfigFileUnreadable => "SG0203",
            SgCode::ConflictingSelectors => "SG0204",
            SgCode::ManifestRejected => "SG0301",
            SgCode::ReconcileIncomplete => "SG0302",
            SgCode::SupervisorRecycleFailed => "SG0303",
        }
    }

    /// The documentation address of a code.
    pub open spec fn docs_address(self) -> Seq<char> {
        DOCS_BASE@ + "/"@ + self.spelled()
    }

    /// The docs URL for this code.
    pub fn docs_url(self) -> (r: String)
        ensures
            r@ == self.docs_address(),
    {
        let mut url = DOCS_BASE.to_owned();
        url.append("/");
        url.append(self.as_str());
        url
    }

    /// The code that `code` spells.
    pub fn from_code(code: &str) -> (r: Result<SgCode, UnknownSgCode>)
        ensures
            match r {
                Ok(c) => c.spelled() == code@,
                Err(e) => e.0@ == code@,
            },
            forall|c: SgCode| c.spelled() == code@ ==> r == Ok::<SgCode, UnknownSgCode>(c),
    {
        let r = SgCode::look_up(code);
        proof {
            assert forall|c: SgCode| c.spelled() == code@ implies r == Ok::<SgCode, UnknownSgCode>(
                c,
            ) by {
                law_codes_are_unique(c, r->Ok_0);
            }
        }
        r
    }

    fn look_up(code: &str) -> (r: Result<SgCode, UnknownSgCode>)
        ensures
            match r {
                Ok(c) => c.spelled() == code@,
                Err(e) => e.0@ == code@ && forall|c: SgCode| c.spelled() != code@,
            },
    {
        if same(code, "SG0001") {
            return Ok(SgCode::Catchall);
        }
        if same(code, "SG0002") {
            return Ok(SgCode::CronStateRecoveryFailed);
        }
        if same(code, "SG0003") {
            return Ok(SgCode::CronRegistrationConflict);
        }
        if same(code, "SG0004") {
            return Ok(SgCode::FiniteUnitMisclassified);
        }
        if same(code, "SG0005") {
            return Ok(SgCode::StaleProjectConfiguration);
        }
        if same(code, "SG0006") {
            return Ok(SgCode::TargetScopeAmbiguous);
        }
        if same(code, "SG0007") {
            return Ok(SgCode::SupervisorRestartConflict);
        }
        if same(code, "SG0008") {
            return Ok(SgCode::UnitStartFailed);
        }
        if same(code, "SG0009") {
            return Ok(SgCode::StatusStateInconsistent);
        }
        if same(code, "SG0010") {
            return Ok(SgCode::LogSourceUnavailable);
        }
        if same(code, "SG0011") {
            return Ok(SgCode::LogStreamDesynchronized);
        }
        if same(code, "SG0012") {
            return Ok(SgCode::LogLimitExceeded);
        }
        if same(code, "SG0013") {
            return Ok(SgCode::DaemonEnvironmentInvalid);
        }
        if same(code, "SG0014") {
            return Ok(SgCode::ReleaseArtifactUnavailable);
        }
        if same(code, "SG0015") {
            return Ok(SgCode::SupervisorStateDesynchronized);
        }
        if same(code, "SG0016") {
            return Ok(SgCode::RollingDeploymentFailed);
        }
        if same(code, "SG0017") {
            return Ok(SgCode::PruneBoundMissing);
        }
        if same(code, "SG0019") {
            return Ok(SgCode::LogsTargetRequired);
        }
        if same(code, "SG0020") {
            return Ok(SgCode::LogsSupervisorConflict);
        }
        if same(code, "SG0021") {
            return Ok(SgCode::LooseServiceNotFound);
        }
        if same(code, "SG0102") {
            return Ok(SgCode::UnitImmediateExit);
        }
        if same(code, "SG0103") {
            return Ok(SgCode::PreStartFailed);
        }
        if same(code, "SG0104") {
            return Ok(SgCode::HealthUnmet);
        }
        if same(code, "SG0105") {
            return Ok(SgCode::PortInUse);
        }
        if same(code, "SG0106") {
            return Ok(SgCode::PreStartTimeout);
        }
        if same(code, "SG0107") {
            return Ok(SgCode::HealthCheckUnreachable);
        }
        if same(code, "SG0108") {
            return Ok(SgCode::HealthCheckTimeout);
        }
        if same(code, "SG0201") {
            return Ok(SgCode::TargetConfigMismatch);
        }
        if same(code, "SG0202") {
            return Ok(SgCode::TargetNotFound);
        }
        if same(code, "SG0203") {
            return Ok(SgCode::ConfigFileUnreadable);
        }
        if same(code, "SG0204") {
            return Ok(SgCode::ConflictingSelectors);
        }
        if same(code, "SG0301") {
            return Ok(SgCode::ManifestRejected);
        }
        if same(code, "SG0302") {
            return Ok(SgCode::ReconcileIncomplete);
        }
        if same(code, "SG0303") {
            return Ok(SgCode::SupervisorRecycleFailed);
        }
        Err(UnknownSgCode(code.to_owned()))
    }

    /// Every code, so callers can enumerate or round-trip the taxonomy.
    pub const ALL: [SgCode; 34] = [
        SgCode::Catchall,
        SgCode::CronStateRecoveryFailed,
        SgCode::CronRegistrationConflict,
        SgCode::FiniteUnitMisclassified,
        SgCode::StaleProjectConfiguration,
        SgCode::TargetScopeAmbiguous,
        SgCode::SupervisorRestartConflict,
        SgCode::UnitStartFailed,
        SgCode::StatusStateInconsistent,
        SgCode::LogSourceUnavailable,
        SgCode::LogStreamDesynchronized,
        SgCode::LogLimitExceeded,
        SgCode::DaemonEnvironmentInvalid,
        SgCode::ReleaseArtifactUnavailable,
        SgCode::SupervisorStateDesynchronized,
        SgCode::RollingDeploymentFailed,
        SgCode::PruneBoundMissing,
        SgCode::LogsTargetRequired,
        SgCode::LogsSupervisorConflict,
        SgCode::LooseServiceNotFound,
        SgCode::UnitImmediateExit,
        SgCode::PreStartFailed,
        SgCode::HealthUnmet,
        SgCode::PortInUse,
        SgCode::PreStartTimeout,
        SgCode::HealthCheckUnreachable,
        SgCode::HealthCheckTimeout,
        SgCode::TargetConfigMismatch,
        SgCode::TargetNotFound,
        SgCode::ConfigFileUnreadable,
        SgCode::ConflictingSelectors,
        SgCode::ManifestRejected,
        SgCode::ReconcileIncomplete,
        SgCode::SupervisorRecycleFailed,
    ];
}

/// The wire form does not resolve to a known code.
#[derive(Debug, Clone, PartialEq, Eq)]
pub struct UnknownSgCode(pub String);

impl UnknownSgCode {
    /// What to tell the user.
    pub fn message(&self) -> (r: String)
        ensures
            r@ == "unknown sysg code `"@ + self.0@ + "`"@,
    {
        let mut s = "unknown sysg code `".to_owned();
        s.append(self.0.as_str());
        s.append("`");
        s
    }
}

impl std::str::FromStr for SgCode {
    type Err = UnknownSgCode;

    fn from_str(code: &str) -> Result<Self, Self::Err> {
        SgCode::from_code(code)
    }
}

/// How severe a diagnostic is; controls the header colour and label.
#[derive(Debug, Clone, Copy, PartialEq, Eq, Structural)]
pub enum Severity {
    /// The operation failed.
    Error,
    /// The operation proceeded but something is off.
    Warning,
    /// Informational context.
    Note,
}

impl Severity {
    /// The header label.
    pub open spec fn word(self) -> Seq<char> {
        match self {
            Severity::Error => "error"@,
            Severity::Warning => "warning"@,
            Severity::Note => "note"@,
        }
    }

    /// The header colour.
    pub open spec fn paint(self) -> Seq<char> {
        match self {
            Severity::Error => RED@,
            Severity::Warning => YELLOW@,
            Severity::Note => CYAN@,
        }
    }

    /// The header label.
    pub fn label(self) -> (r: &'static str)
        ensures
            r@ == self.word(),
    {
        match self {
            Severity::Error => "error",
            Severity::Warning => "warning",
            Severity::Note => "note",
        }
    }

    /// The header colour.
    pub fn color(self) -> (r: &'static str)
        ensures
            r@ == self.paint(),
    {
        match self {
            Severity::Error => RED,
            Severity::Warning => YELLOW,
            Severity::Note => CYAN,
        }
    }
}

/// Where in the user's world the problem originates, e.g. a config file key.
#[derive(Debug, Clone, PartialEq)]
pub struct Origin {
    /// Path to the file, as the user knows it.
    pub file: String,
    /// 1-indexed line, when resolvable.
    pub line: Option<usize>,
    /// Dotted key path inside the file, e.g. `services.api.health_check`.
    pub key: Option<String>,
}

/// A labeled block of captured facts, e.g. the service's last output.
#[derive(Debug, Clone, PartialEq)]
pub struct Evidence {
    /// Short label, e.g. `last output`.
    pub label: String,
    /// The captured lines, already trimmed to a reasonable count.
    pub lines: Vec<String>,
}

/// An actionable next step.
#[derive(Debug, Clone, PartialEq)]
pub enum Help {
    /// A command the user can run, with a short reason.
    Command {
        /// What running it shows or does, e.g. `view logs`.
        label: String,
        /// The exact command line.
        cmd: String,
    },
    /// A documentation link.
    Link {
        /// The URL.
        url: String,
    },
}

/// A structured, renderable failure report.
#[derive(Debug, Clone, PartialEq)]
pub struct Diagnostic {
    /// Severity of the report.
    pub severity: Severity,
    /// Stable sysg error code.
    pub code: SgCode,
    /// One-line statement of what happened.
    pub title: String,
    /// Where the problem originates, when known.
    pub origin: Option<Origin>,
    /// Plain-sentence facts about what sysg observed.
    pub notes: Vec<String>,
    /// Captured output blocks.
    pub evidence: Vec<Evidence>,
    /// Next steps.
    pub help: Vec<Help>,
}

/// What an [`Origin`] says.
pub struct OriginView {
    pub file: Seq<char>,
    pub line: Option<usize>,
    pub key: Option<Seq<char>>,
}

/// What an [`Evidence`] says.
pub struct EvidenceView {
    pub label: Seq<char>,
    pub lines: Seq<Seq<char>>,
}

/// What a [`Help`] says.
pub enum HelpView {
    Command { label: Seq<char>, cmd: Seq<char> },
    Link { url: Seq<char> },
}

/// What a [`Diagnostic`] says.
#[verifier::ext_equal]
pub struct DiagnosticView {
    pub severity: Severity,
    pub code: SgCode,
    pub title: Seq<char>,
    pub origin: Option<OriginView>,
    pub notes: Seq<Seq<char>>,
    pub evidence: Seq<EvidenceView>,
    pub help: Seq<HelpView>,
}

impl View for Origin {
    type V = OriginView;

    open spec fn view(&self) -> OriginView {
        OriginView { file: self.file@, line: self.line, key: opt_text(self.key) }
    }
}

impl View for Evidence {
    type V = EvidenceView;

    open spec fn view(&self) -> EvidenceView {
        EvidenceView { label: self.label@, lines: texts(self.lines@) }
    }
}

impl View for Help {
    type V = HelpView;

    open spec fn view(&self) -> HelpView {
        match *self {
            Help::Command { label, cmd } => HelpView::Command { label: label@, cmd: cmd@ },
            Help::Link { url } => HelpView::Link { url: url@ },
        }
    }
}

impl View for Diagnostic {
    type V = DiagnosticView;

    open spec fn view(&self) -> DiagnosticView {
        DiagnosticView {
            severity: self.severity,
            code: self.code,
            title: self.title@,
            origin: match self.origin {
                Some(o) => Some(o@),
                None => None,
            },
            notes: texts(self.notes@),
            evidence: self.evidence@.map_values(|e: Evidence| e@),
            help: self.help@.map_values(|h: Help| h@),
        }
    }
}

impl DiagnosticView {
    /// A diagnostic with a code and a title and nothing else.
    pub open spec fn bare(code: SgCode, title: Seq<char>) -> DiagnosticView {
        DiagnosticView {
            severity: Severity::Error,
            code,
            title,
            origin: None,
            notes: seq![],
            evidence: seq![],
            help: seq![],
        }
    }

    /// The diagnostic with one more note.
    pub open spec fn noted(self, note: Seq<char>) -> DiagnosticView {
        DiagnosticView { notes: self.notes.push(note), ..self }
    }

    /// The diagnostic with one more evidence block, unless the block is empty.
    pub open spec fn evidenced(self, label: Seq<char>, lines: Seq<Seq<char>>) -> DiagnosticView {
        if lines.len() == 0 {
            self
        } else {
            DiagnosticView { evidence: self.evidence.push(EvidenceView { label, lines }), ..self }
        }
    }

    /// The diagnostic with one more command to run.
    pub open spec fn helped(self, label: Seq<char>, cmd: Seq<char>) -> DiagnosticView {
        DiagnosticView { help: self.help.push(HelpView::Command { label, cmd }), ..self }
    }

    /// The diagnostic with a link to the page of its code.
    pub open spec fn linked(self) -> DiagnosticView {
        DiagnosticView {
            help: self.help.push(HelpView::Link { url: self.code.docs_address() }),
            ..self
        }
    }
}

impl Diagnostic {
    /// Starts an error-severity diagnostic with the given code and title.
    pub fn error(code: SgCode, title: &str) -> (r: Self)
        ensures
            r@ == DiagnosticView::bare(code, title@),
    {
        let r = Diagnostic {
            severity: Severity::Error,
            code,
            title: title.to_owned(),
            origin: None,
            notes: Vec::new(),
            evidence: Vec::new(),
            help: Vec::new(),
        };
        assert(r@ =~= DiagnosticView::bare(code, title@));
        r
    }

    /// The stable `SG####` string for this diagnostic's code.
    pub fn code_str(&self) -> (r: &'static str)
        ensures
            r@ == self@.code.spelled(),
    {
        self.code.as_str()
    }

    /// Attaches the originating file/key.
    pub fn origin(self, file: &str, line: Option<usize>, key: Option<String>) -> (r: Self)
        ensures
            r@ == (DiagnosticView {
                origin: Some(OriginView { file: file@, line, key: opt_text(key) }),
                ..self@
            }),
    {
        let mut d = self;
        d.origin = Some(Origin { file: file.to_owned(), line, key });
        d
    }

    /// Adds a plain-sentence observation.
    pub fn note(self, note: &str) -> (r: Self)
        ensures
            r@ == self@.noted(note@),
    {
        let mut d = self;
        d.notes.push(note.to_owned());
        assert(d@ =~= self@.noted(note@));
        d
    }

    /// Adds a labeled block of captured lines.
    pub fn evidence(self, label: &str, lines: Vec<String>) -> (r: Self)
        ensures
            r@ == self@.evidenced(label@, texts(lines@)),
    {
        let mut d = self;
        if !lines.is_empty() {
            d.evidence.push(Evidence { label: label.to_owned(), lines });
        }
        assert(d@ =~= self@.evidenced(label@, texts(lines@)));
        d
    }

    /// Adds a runnable next step.
    pub fn help_cmd(self, label: &str, cmd: &str) -> (r: Self)
        ensures
            r@ == self@.helped(label@, cmd@),
    {
        let mut d = self;
        d.help.push(Help::Command { label: label.to_owned(), cmd: cmd.to_owned() });
        assert(d@ =~= self@.helped(label@, cmd@));
        d
    }

    /// Adds the documentation link for this diagnostic's code.
    pub fn help_docs(self) -> (r: Self)
        ensures
            r@ == self@.linked(),
    {
        let mut d = self;
        let url = d.code.docs_url();
        d.help.push(Help::Link { url });
        assert(d@ =~= self@.linked());
        d
    }
}

// ---------------------------------------------------------------------------
// Rendering
// ---------------------------------------------------------------------------

/// A style sequence, present only when colour is on.
pub open spec fn style(on: bool, code: Seq<char>) -> Seq<char> {
    if on {
        code
    } else {
        seq![]
    }
}

/// `n` spaces.
pub open spec fn spaces(n: nat) -> Seq<char> {
    Seq::new(n, |i: int| ' ')
}

/// `s` padded with spaces on the right to `width` characters.
pub open spec fn padded(s: Seq<char>, width: nat) -> Seq<char> {
    if s.len() < width {
        s + spaces((width - s.len()) as nat)
    } else {
        s
    }
}

/// The first line: severity, code and title.
pub open spec fn header_text(d: DiagnosticView, color: bool) -> Seq<char> {
    style(color, d.severity.paint()) + d.severity.word() + "["@ + d.code.spelled() + "]"@
        + style(color, RESET@) + style(color, BOLD@) + ": "@ + d.title + style(color, RESET@)
        + "\n"@
}

/// The place an origin names: file, then line, then key.
pub open spec fn place_text(o: OriginView) -> Seq<char> {
    o.file + match o.line {
        Some(n) => ":"@ + decimal(n as nat),
        None => seq![],
    } + match o.key {
        Some(k) => " ("@ + k + ")"@,
        None => seq![],
    }
}

/// The origin line.
pub open spec fn origin_text(o: Option<OriginView>, color: bool) -> Seq<char> {
    match o {
        Some(o) => "  "@ + style(color, CYAN@) + "-->"@ + style(color, RESET@) + " "@ + place_text(o)
            + "\n"@,
        None => seq![],
    }
}

/// One line per note.
pub open spec fn note_lines(notes: Seq<Seq<char>>) -> Seq<char>
    decreases notes.len(),
{
    if notes.len() == 0 {
        seq![]
    } else {
        note_lines(notes.drop_last()) + ("  "@ + notes.last() + "\n"@)
    }
}

/// The notes, after an empty line.
pub open spec fn notes_text(notes: Seq<Seq<char>>) -> Seq<char> {
    if notes.len() == 0 {
        seq![]
    } else {
        "\n"@ + note_lines(notes)
    }
}

/// One captured line behind a gutter.
pub open spec fn gutter_line(line: Seq<char>, color: bool) -> Seq<char> {
    "  "@ + style(color, DIM@) + "\u{2502}"@ + style(color, RESET@) + " "@ + line + "\n"@
}

/// One gutter line per captured line.
pub open spec fn gutter_lines(lines: Seq<Seq<char>>, color: bool) -> Seq<char>
    decreases lines.len(),
{
    if lines.len() == 0 {
        seq![]
    } else {
        gutter_lines(lines.drop_last(), color) + gutter_line(lines.last(), color)
    }
}

/// One evidence block, after an empty line.
pub open spec fn block_text(e: EvidenceView, color: bool) -> Seq<char> {
    "\n"@ + ("  "@ + style(color, DIM@) + e.label + ":"@ + style(color, RESET@) + "\n"@)
        + gutter_lines(e.lines, color)
}

/// Every evidence block, in order.
pub open spec fn evidence_text(blocks: Seq<EvidenceView>, color: bool) -> Seq<char>
    decreases blocks.len(),
{
    if blocks.len() == 0 {
        seq![]
    } else {
        evidence_text(blocks.drop_last(), color) + block_text(blocks.last(), color)
    }
}

/// The room, in bytes, that the label of a help line asks for.
pub open spec fn label_room(h: HelpView) -> nat {
    match h {
        HelpView::Command { label, .. } => vstd::utf8::encode_utf8(label).len(),
        HelpView::Link { .. } => 4,
    }
}

/// The width of the label column: the largest room asked for.
pub open spec fn label_width(help: Seq<HelpView>) -> nat
    decreases help.len(),
{
    if help.len() == 0 {
        0
    } else {
        let w = label_width(help.drop_last());
        if label_room(help.last()) > w {
            label_room(help.last())
        } else {
            w
        }
    }
}

/// One help line.
pub open spec fn help_line(h: HelpView, width: nat, color: bool) -> Seq<char> {
    match h {
        HelpView::Command { label, cmd } => "    "@ + padded(label, width) + "  "@ + style(
            color,
            BOLD@,
        ) + cmd + style(color, RESET@) + "\n"@,
        HelpView::Link { url } => "    "@ + padded("docs"@, width) + "  "@ + style(
            color,
            UNDERLINE@,
        ) + url + style(color, RESET@) + "\n"@,
    }
}

/// Every help line, in order.
pub open spec fn help_lines(help: Seq<HelpView>, width: nat, color: bool) -> Seq<char>
    decreases help.len(),
{
    if help.len() == 0 {
        seq![]
    } else {
        help_lines(help.drop_last(), width, color) + help_line(help.last(), width, color)
    }
}

/// The help section, after an empty line.
pub open spec fn help_text(help: Seq<HelpView>, color: bool) -> Seq<char> {
    if help.len() == 0 {
        seq![]
    } else {
        "\n"@ + ("  "@ + style(color, GREEN@) + "help:"@ + style(color, RESET@) + "\n"@)
            + help_lines(help, label_width(help), color)
    }
}

/// The whole report.
pub open spec fn rendered(d: DiagnosticView, color: bool) -> Seq<char> {
    header_text(d, color) + origin_text(d.origin, color) + notes_text(d.notes) + evidence_text(
        d.evidence,
        color,
    ) + help_text(d.help, color)
}

fn styled(on: bool, code: &'static str) -> (r: &'static str)
    ensures
        r@ == style(on, code@),
{
    if on {
        code
    } else {
        let r = "";
        proof {
            reveal_strlit("");
            assert(r@ =~= Seq::<char>::empty());
        }
        r
    }
}

fn push_padded(out: &mut String, s: &str, width: usize)
    ensures
        final(out)@ == old(out)@ + padded(s@, width as nat),
{
    let len: usize = s.unicode_len();
    out.append(s);
    let mut i: usize = len;
    assert(out@ =~= old(out)@ + s@ + spaces(0));
    while i < width
        invariant
            len == s@.len(),
            len <= i,
            len < width ==> i <= width,
            len >= width ==> i == len,
            out@ == old(out)@ + s@ + spaces((i - len) as nat),
        decreases width - i,
    {
        out.push(' ');
        i = i + 1;
        assert(out@ =~= old(out)@ + s@ + spaces((i - len) as nat));
    }
    assert(out@ =~= old(out)@ + padded(s@, width as nat));
}

impl Diagnostic {
    fn push_header(&self, out: &mut String, color: bool)
        ensures
            final(out)@ == old(out)@ + header_text(self@, color),
    {
        out.append(styled(color, self.severity.color()));
        out.append(self.severity.label());
        out.append("[");
        out.append(self.code.as_str());
        out.append("]");
        out.append(styled(color, RESET));
        out.append(styled(color, BOLD));
        out.append(": ");
        out.append(self.title.as_str());
        out.append(styled(color, RESET));
        out.append("\n");
        assert(out@ =~= old(out)@ + header_text(self@, color));
    }

    fn push_origin(&self, out: &mut String, color: bool)
        ensures
            final(out)@ == old(out)@ + origin_text(self@.origin, color),
    {
        match &self.origin {
            Some(origin) => {
                out.append("  ");
                out.append(styled(color, CYAN));
                out.append("-->");
                out.append(styled(color, RESET));
                out.append(" ");
                let ghost before = out@;
                out.append(origin.file.as_str());
                match origin.line {
                    Some(line) => {
                        out.append(":");
                        push_decimal(out, line as u64);
                    },
                    None => {},
                }
                match &origin.key {
                    Some(key) => {
                        out.append(" (");
                        out.append(key.as_str());
                        out.append(")");
                    },
                    None => {},
                }
                assert(out@ =~= before + place_text(origin@));
                out.append("\n");
                assert(out@ =~= old(out)@ + origin_text(Some(origin@), color));
            },
            None => {
                assert(out@ =~= old(out)@ + origin_text(self@.origin, color));
            },
        }
    }

    fn push_notes(&self, out: &mut String)
        ensures
            final(out)@ == old(out)@ + notes_text(self@.notes),
    {
        let ghost notes = texts(self.notes@);
        if self.notes.is_empty() {
            assert(out@ =~= old(out)@ + notes_text(notes));
            return;
        }
        out.append("\n");
        let ghost start = out@;
        let mut i: usize = 0;
        assert(out@ =~= start + note_lines(notes.take(0)));
        while i < self.notes.len()
            invariant
                i <= self.notes.len(),
                notes == texts(self.notes@),
                out@ == start + note_lines(notes.take(i as int)),
            decreases self.notes.len() - i,
        {
            let ghost before = out@;
            out.append("  ");
            out.append(self.notes[i].as_str());
            out.append("\n");
            i = i + 1;
            assert(notes.take(i as int).drop_last() =~= notes.take(i - 1));
            assert(notes.take(i as int).last() == self.notes@[i - 1]@);
            assert(out@ =~= start + note_lines(notes.take(i as int)));
        }
        assert(notes.take(i as int) =~= notes);
        assert(out@ =~= old(out)@ + notes_text(notes));
    }
}

fn push_gutter_line(line: &str, out: &mut String, color: bool)
    ensures
        final(out)@ == old(out)@ + gutter_line(line@, color),
{
    out.append("  ");
    out.append(styled(color, DIM));
    out.append("\u{2502}");
    out.append(styled(color, RESET));
    out.append(" ");
    out.append(line);
    out.append("\n");
    assert(out@ =~= old(out)@ + gutter_line(line@, color));
}

fn push_block(block: &Evidence, out: &mut String, color: bool)
    ensures
        final(out)@ == old(out)@ + block_text(block@, color),
{
    let ghost lines = texts(block.lines@);
    out.append("\n");
    out.append("  ");
    out.append(styled(color, DIM));
    out.append(block.label.as_str());
    out.append(":");
    out.append(styled(color, RESET));
    out.append("\n");
    let ghost start = out@;
    let mut i: usize = 0;
    assert(out@ =~= start + gutter_lines(lines.take(0), color));
    while i < block.lines.len()
        invariant
            i <= block.lines.len(),
            lines == texts(block.lines@),
            out@ == start + gutter_lines(lines.take(i as int), color),
        decreases block.lines.len() - i,
    {
        push_gutter_line(block.lines[i].as_str(), out, color);
        i = i + 1;
        assert(lines.take(i as int).drop_last() =~= lines.take(i - 1));
        assert(lines.take(i as int).last() == block.lines@[i - 1]@);
        assert(out@ =~= start + gutter_lines(lines.take(i as int), color));
    }
    assert(lines.take(i as int) =~= lines);
    assert(out@ =~= old(out)@ + block_text(block@, color));
}

fn push_help_line(help: &Help, width: usize, out: &mut String, color: bool)
    ensures
        final(out)@ == old(out)@ + help_line(help@, width as nat, color),
{
    out.append("    ");
    match help {
        Help::Command { label, cmd } => {
            push_padded(out, label.as_str(), width);
            out.append("  ");
            out.append(styled(color, BOLD));
            out.append(cmd.as_str());
        },
        Help::Link { url } => {
            push_padded(out, "docs", width);
            out.append("  ");
            out.append(styled(color, UNDERLINE));
            out.append(url.as_str());
        },
    }
    out.append(styled(color, RESET));
    out.append("\n");
    assert(out@ =~= old(out)@ + help_line(help@, width as nat, color));
}

impl Diagnostic {
    fn push_evidence(&self, out: &mut String, color: bool)
        ensures
            final(out)@ == old(out)@ + evidence_text(self@.evidence, color),
    {
        let ghost blocks = self@.evidence;
        let mut i: usize = 0;
        assert(out@ =~= old(out)@ + evidence_text(blocks.take(0), color));
        while i < self.evidence.len()
            invariant
                i <= self.evidence.len(),
                blocks == self@.evidence,
                out@ == old(out)@ + evidence_text(blocks.take(i as int), color),
            decreases self.evidence.len() - i,
        {
            push_block(&self.evidence[i], out, color);
            i = i + 1;
            assert(blocks.take(i as int).drop_last() =~= blocks.take(i - 1));
            assert(blocks.take(i as int).last() == self.evidence@[i - 1]@);
            assert(out@ =~= old(out)@ + evidence_text(blocks.take(i as int), color));
        }
        assert(blocks.take(i as int) =~= blocks);
    }

    fn help_width(&self) -> (width: usize)
        ensures
            width as nat == label_width(self@.help),
    {
        let ghost help = self@.help;
        let mut width: usize = 0;
        let mut i: usize = 0;
        while i < self.help.len()
            invariant
                i <= self.help.len(),
                help == self@.help,
                width as nat == label_width(help.take(i as int)),
            decreases self.help.len() - i,
        {
            let room: usize = match &self.help[i] {
                Help::Command { label, .. } => label.as_str().as_bytes().len(),
                Help::Link { .. } => 4,
            };
            i = i + 1;
            assert(help.take(i as int).drop_last() =~= help.take(i - 1));
            assert(help.take(i as int).last() == self.help@[i - 1]@);
            if room > width {
                width = room;
            }
        }
        assert(help.take(i as int) =~= help);
        width
    }

    fn push_help(&self, out: &mut String, color: bool)
        ensures
            final(out)@ == old(out)@ + help_text(self@.help, color),
    {
        let ghost help = self@.help;
        if self.help.is_empty() {
            assert(out@ =~= old(out)@ + help_text(help, color));
            return;
        }
        let width = self.help_width();
        out.append("\n");
        out.append("  ");
        out.append(styled(color, GREEN));
        out.append("help:");
        out.append(styled(color, RESET));
        out.append("\n");
        let ghost start = out@;
        let mut i: usize = 0;
        assert(out@ =~= start + help_lines(help.take(0), width as nat, color));
        while i < self.help.len()
            invariant
                i <= self.help.len(),
                help == self@.help,
                out@ == start + help_lines(help.take(i as int), width as nat, color),
            decreases self.help.len() - i,
        {
            push_help_line(&self.help[i], width, out, color);
            i = i + 1;
            assert(help.take(i as int).drop_last() =~= help.take(i - 1));
            assert(help.take(i as int).last() == self.help@[i - 1]@);
            assert(out@ =~= start + help_lines(help.take(i as int), width as nat, color));
        }
        assert(help.take(i as int) =~= help);
        assert(out@ =~= old(out)@ + help_text(help, color));
    }

    /// Renders the diagnostic; `color` toggles ANSI escapes.
    pub fn render(&self, color: bool) -> (r: String)
        ensures
            r@ == rendered(self@, color),
    {
        let mut out = String::new();
        self.push_header(&mut out, color);
        self.push_origin(&mut out, color);
        self.push_notes(&mut out);
        self.push_evidence(&mut out, color);
        self.push_help(&mut out, color);
        assert(out@ =~= rendered(self@, color));
        out
    }
}

// ---------------------------------------------------------------------------
// Laws
// ---------------------------------------------------------------------------

/// The number inside a code's string.
pub open spec fn code_number(c: SgCode) -> nat {
    match c {
        SgCode::Catchall => 1,
        SgCode::CronStateRecoveryFailed => 2,
        SgCode::CronRegistrationConflict => 3,
        SgCode::FiniteUnitMisclassified => 4,
        SgCode::StaleProjectConfiguration => 5,
        SgCode::TargetScopeAmbiguous => 6,
        SgCode::SupervisorRestartConflict => 7,
        SgCode::UnitStartFailed => 8,
        SgCode::StatusStateInconsistent => 9,
        SgCode::LogSourceUnavailable => 10,
        SgCode::LogStreamDesynchronized => 11,
        SgCode::LogLimitExceeded => 12,
        SgCode::DaemonEnvironmentInvalid => 13,
        SgCode::ReleaseArtifactUnavailable => 14,
        SgCode::SupervisorStateDesynchronized => 15,
        SgCode::RollingDeploymentFailed => 16,
        SgCode::PruneBoundMissing => 17,
        SgCode::LogsTargetRequired => 19,
        SgCode::LogsSupervisorConflict => 20,
        SgCode::LooseServiceNotFound => 21,
        SgCode::UnitImmediateExit => 102,
        SgCode::PreStartFailed => 103,
        SgCode::HealthUnmet => 104,
        SgCode::PortInUse => 105,
        SgCode::PreStartTimeout => 106,
        SgCode::HealthCheckUnreachable => 107,
        SgCode::HealthCheckTimeout => 108,
        SgCode::TargetConfigMismatch => 201,
        SgCode::TargetNotFound => 202,
        SgCode::ConfigFileUnreadable => 203,
        SgCode::ConflictingSelectors => 204,
        SgCode::ManifestRejected => 301,
        SgCode::ReconcileIncomplete => 302,
        SgCode::SupervisorRecycleFailed => 303,
    }
}

pub proof fn lemma_code_digits(c: SgCode)
    ensures
        c.spelled().len() == 6,
        (c.spelled()[2] as nat - 48) * 1000 + (c.spelled()[3] as nat - 48) * 100
            + (c.spelled()[4] as nat - 48) * 10 + (c.spelled()[5] as nat - 48) == code_number(c),
        plain(c.spelled()),
{
    reveal_strlit("SG0001");
    reveal_strlit("SG0002");
    reveal_strlit("SG0003");
    reveal_strlit("SG0004");
    reveal_strlit("SG0005");
    reveal_strlit("SG0006");
    reveal_strlit("SG0007");
    reveal_strlit("SG0008");
    reveal_strlit("SG0009");
    reveal_strlit("SG0010");
    reveal_strlit("SG0011");
    reveal_strlit("SG0012");
    reveal_strlit("SG0013");
    reveal_strlit("SG0014");
    reveal_strlit("SG0015");
    reveal_strlit("SG0016");
    reveal_strlit("SG0017");
    reveal_strlit("SG0019");
    reveal_strlit("SG0020");
    reveal_strlit("SG0021");
    reveal_strlit("SG0102");
    reveal_strlit("SG0103");
    reveal_strlit("SG0104");
    reveal_strlit("SG0105");
    reveal_strlit("SG0106");
    reveal_strlit("SG0107");
    reveal_strlit("SG0108");
    reveal_strlit("SG0201");
    reveal_strlit("SG0202");
    reveal_strlit("SG0203");
    reveal_strlit("SG0204");
    reveal_strlit("SG0301");
    reveal_strlit("SG0302");
    reveal_strlit("SG0303");
}

/// No two codes share a string.
pub proof fn law_codes_are_unique(a: SgCode, b: SgCode)
    requires
        a.spelled() == b.spelled(),
    ensures
        a == b,
{
    lemma_code_digits(a);
    lemma_code_digits(b);
}

/// Whether a text holds no escape character.
pub open spec fn plain(s: Seq<char>) -> bool {
    forall|i: int| 0 <= i < s.len() ==> s[i] != '\x1b'
}

/// Whether nothing that a diagnostic says holds an escape character.
pub open spec fn plain_parts(d: DiagnosticView) -> bool {
    &&& plain(d.title)
    &&& (d.origin matches Some(o) ==> plain(o.file) && (o.key matches Some(k) ==> plain(k)))
    &&& forall|i: int| 0 <= i < d.notes.len() ==> plain(#[trigger] d.notes[i])
    &&& forall|i: int| 0 <= i < d.evidence.len() ==> plain_block(#[trigger] d.evidence[i])
    &&& forall|i: int| 0 <= i < d.help.len() ==> plain_help(#[trigger] d.help[i])
}

/// Whether an evidence block holds no escape character.
pub open spec fn plain_block(e: EvidenceView) -> bool {
    plain(e.label) && forall|j: int| 0 <= j < e.lines.len() ==> plain(#[trigger] e.lines[j])
}

/// Whether a help entry holds no escape character.
pub open spec fn plain_help(h: HelpView) -> bool {
    match h {
        HelpView::Command { label, cmd } => plain(label) && plain(cmd),
        HelpView::Link { url } => plain(url),
    }
}

proof fn lemma_plain_decimal(n: nat)
    ensures
        plain(decimal(n)),
    decreases n,
{
    if n >= 10 {
        lemma_plain_decimal(n / 10);
    }
}

proof fn lemma_plain_header(d: DiagnosticView)
    requires
        plain(d.title),
    ensures
        plain(header_text(d, false)),
{
    lemma_code_digits(d.code);
    reveal_strlit("error");
    reveal_strlit("warning");
    reveal_strlit("note");
    reveal_strlit("[");
    reveal_strlit("]");
    reveal_strlit(": ");
    reveal_strlit("\n");
}

pub proof fn lemma_plain_origin(o: OriginView)
    requires
        plain(o.file),
        o.key matches Some(k) ==> plain(k),
    ensures
        plain(place_text(o)),
        plain(origin_text(Some(o), false)),
{
    reveal_strlit("  ");
    reveal_strlit("-->");
    reveal_strlit(" ");
    reveal_strlit(":");
    reveal_strlit(" (");
    reveal_strlit(")");
    reveal_strlit("\n");
    if o.line is Some {
        lemma_plain_decimal(o.line->0 as nat);
    }
    assert(plain(place_text(o)));
}

pub proof fn lemma_plain_notes(notes: Seq<Seq<char>>)
    requires
        forall|i: int| 0 <= i < notes.len() ==> plain(#[trigger] notes[i]),
    ensures
        plain(note_lines(notes)),
    decreases notes.len(),
{
    if notes.len() > 0 {
        lemma_plain_notes(notes.drop_last());
        reveal_strlit("  ");
        reveal_strlit("\n");
        assert(plain(notes[notes.len() - 1]));
    }
}

proof fn lemma_plain_gutter(lines: Seq<Seq<char>>)
    requires
        forall|i: int| 0 <= i < lines.len() ==> plain(#[trigger] lines[i]),
    ensures
        plain(gutter_lines(lines, false)),
    decreases lines.len(),
{
    if lines.len() > 0 {
        lemma_plain_gutter(lines.drop_last());
        reveal_strlit("  ");
        reveal_strlit("\u{2502}");
        reveal_strlit(" ");
        reveal_strlit("\n");
        assert(plain(lines[lines.len() - 1]));
        assert(plain(gutter_line(lines.last(), false)));
    }
}

proof fn lemma_plain_evidence(blocks: Seq<EvidenceView>)
    requires
        forall|i: int| 0 <= i < blocks.len() ==> plain_block(#[trigger] blocks[i]),
    ensures
        plain(evidence_text(blocks, false)),
    decreases blocks.len(),
{
    if blocks.len() > 0 {
        let last = blocks.last();
        assert(plain_block(blocks[blocks.len() - 1]));
        lemma_plain_evidence(blocks.drop_last());
        lemma_plain_gutter(last.lines);
        reveal_strlit("  ");
        reveal_strlit(":");
        reveal_strlit("\n");
        assert(plain(block_text(last, false)));
    }
}

proof fn lemma_plain_help_lines(help: Seq<HelpView>, width: nat)
    requires
        forall|i: int| 0 <= i < help.len() ==> plain_help(#[trigger] help[i]),
    ensures
        plain(help_lines(help, width, false)),
    decreases help.len(),
{
    if help.len() > 0 {
        let last = help.last();
        assert(plain_help(help[help.len() - 1]));
        lemma_plain_help_lines(help.drop_last(), width);
        reveal_strlit("    ");
        reveal_strlit("  ");
        reveal_strlit("docs");
        reveal_strlit("\n");
        assert(plain(help_line(last, width, false)));
    }
}

/// A report rendered without colour holds no escape character unless the diagnostic itself does.
pub proof fn law_plain_render_has_no_escape(d: DiagnosticView)
    requires
        plain_parts(d),
    ensures
        plain(rendered(d, false)),
{
    lemma_plain_header(d);
    if d.origin is Some {
        lemma_plain_origin(d.origin->0);
    }
    lemma_plain_notes(d.notes);
    lemma_plain_evidence(d.evidence);
    lemma_plain_help_lines(d.help, label_width(d.help));
    reveal_strlit("\n");
    reveal_strlit("  ");
    reveal_strlit("help:");
    assert(plain(help_text(d.help, false)));
    assert(plain(notes_text(d.notes)));
}

/// Adding to a report changes nothing that is already in it: a note comes last among the notes, an
/// empty block of evidence is left out, and the link leads to the page of the code.
pub proof fn law_reports_only_grow(
    d: DiagnosticView,
    a: Seq<char>,
    b: Seq<char>,
    lines: Seq<Seq<char>>,
)
    ensures
        d.noted(a).notes.last() == a,
        d.noted(a).notes.drop_last() == d.notes,
        d.noted(a).title == d.title && d.noted(a).code == d.code && d.noted(a).help == d.help
            && d.noted(a).evidence == d.evidence,
        lines.len() == 0 ==> d.evidenced(a, lines) == d,
        lines.len() > 0 ==> d.evidenced(a, lines).evidence.last() == (EvidenceView {
            label: a,
            lines,
        }) && d.evidenced(a, lines).evidence.drop_last() == d.evidence && d.evidenced(a, lines).notes
            == d.notes,
        d.helped(a, b).help.last() == (HelpView::Command { label: a, cmd: b }),
        d.helped(a, b).help.drop_last() == d.help,
        d.linked().help.drop_last() == d.help,
        d.linked().help.last() == (HelpView::Link { url: DOCS_BASE@ + "/"@ + d.code.spelled() }),
{
    assert(d.noted(a).notes.drop_last() =~= d.notes);
    assert(d.helped(a, b).help.drop_last() =~= d.help);
    assert(d.linked().help.drop_last() =~= d.help);
    if lines.len() > 0 {
        assert(d.evidenced(a, lines).evidence.drop_last() =~= d.evidence);
    }
}

/// Every note has a line of its own, in order, and so has every captured line.
pub proof fn law_every_line_is_shown(
    notes: Seq<Seq<char>>,
    more: Seq<Seq<char>>,
    line: Seq<char>,
    color: bool,
)
    ensures
        note_lines(notes + more) == note_lines(notes) + note_lines(more),
        note_lines(seq![line]) == "  "@ + line + "\n"@,
        gutter_lines(notes + more, color) == gutter_lines(notes, color) + gutter_lines(more, color),
        gutter_lines(seq![line], color) == gutter_line(line, color),
    decreases more.len(),
{
    assert(seq![line].drop_last() =~= Seq::<Seq<char>>::empty());
    assert(note_lines(Seq::<Seq<char>>::empty()) =~= Seq::<char>::empty());
    assert(gutter_lines(Seq::<Seq<char>>::empty(), color) =~= Seq::<char>::empty());
    assert(note_lines(seq![line]) =~= "  "@ + line + "\n"@);
    assert(gutter_lines(seq![line], color) =~= gutter_line(line, color));
    if more.len() == 0 {
        assert(notes + more =~= notes);
        assert(note_lines(notes) + note_lines(more) =~= note_lines(notes));
        assert(gutter_lines(notes, color) + gutter_lines(more, color) =~= gutter_lines(
            notes,
            color,
        ));
    } else {
        law_every_line_is_shown(notes, more.drop_last(), line, color);
        assert((notes + more).drop_last() =~= notes + more.drop_last());
        assert((notes + more).last() == more.last());
        assert(note_lines(notes + more) =~= note_lines(notes) + note_lines(more));
        assert(gutter_lines(notes + more, color) =~= gutter_lines(notes, color) + gutter_lines(
            more,
            color,
        ));
    }
}

/// The column of labels is as wide as the widest of them.
pub proof fn law_labels_fit_their_column(help: Seq<HelpView>, i: int)
    requires
        0 <= i < help.len(),
    ensures
        label_room(help[i]) <= label_width(help),
        exists|j: int| 0 <= j < help.len() && label_room(#[trigger] help[j]) == label_width(help),
    decreases help.len(),
{
    let front = help.drop_last();
    assert(forall|j: int| 0 <= j < front.len() ==> front[j] == help[j]);
    assert(help[help.len() - 1] == help.last());
    if front.len() == 0 {
        assert(label_width(front) == 0);
        assert(label_room(help[0]) == label_width(help));
    } else {
        law_labels_fit_their_column(
            front,
            if i < front.len() {
                i
            } else {
                0
            },
        );
        if label_room(help.last()) > label_width(front) {
            assert(label_room(help[help.len() - 1]) == label_width(help));
        } else {
            let j = choose|j: int|
                0 <= j < front.len() && label_room(#[trigger] front[j]) == label_width(front);
            assert(label_room(help[j]) == label_width(help));
        }
    }
}

} // verus!
