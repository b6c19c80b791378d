//! The part of a project's manifest that the supervision rules read.

use vstd::prelude::*;

use crate::text::{opt_text, same};

verus! {

/// When a service is left out of a start.
#[derive(Debug, PartialEq, Eq)]
pub enum SkipConfig {
    /// Always or never.
    Flag(bool),
    /// When this command exits with status zero.
    Command(String),
}

/// What a dependency must have done before its dependent starts.
#[derive(Debug, Clone, Copy, PartialEq, Eq, Structural)]
pub enum DependsOnCondition {
    /// It must be up.
    Started,
    /// It must have run to completion.
    Completed,
}

/// One dependency of a service.
#[derive(Debug, PartialEq, Eq)]
pub struct DependsOn {
    /// The service depended on.
    pub service: String,
    /// What it must have done.
    pub condition: DependsOnCondition,
}

/// How a running service is replaced.
#[derive(Debug, Clone, Copy, PartialEq, Eq, Structural)]
pub enum DeploymentStrategy {
    /// Stop, then start.
    Immediate,
    /// Start the replacement before the old instance is stopped.
    Rolling,
}

/// Whether a restart policy starts a service again after it exited cleanly: only `always` does.
pub open spec fn wants_more(policy: Option<Seq<char>>) -> bool {
    policy == Some("always"@)
}

/// Whether `restart_policy` starts a service again after it exited cleanly.
pub fn restarts_after_success(restart_policy: &Option<String>) -> (r: bool)
    ensures
        r == wants_more(opt_text(*restart_policy)),
{
    match restart_policy {
        Some(p) => same(p.as_str(), "always"),
        None => false,
    }
}

/// Whether a restart policy starts a service again after it failed: `always` and `on-failure` do.
pub open spec fn retries(policy: Option<Seq<char>>) -> bool {
    policy == Some("always"@) || policy == Some("on-failure"@)
}

/// Whether `restart_policy` starts a service again after it failed.
pub fn restarts_after_failure(restart_policy: &Option<String>) -> (r: bool)
    ensures
        r == retries(opt_text(*restart_policy)),
{
    match restart_policy {
        Some(p) => same(p.as_str(), "always") || same(p.as_str(), "on-failure"),
        None => false,
    }
}

/// Whether a restart policy rules restarts out.
pub open spec fn never_restarts(policy: Option<Seq<char>>) -> bool {
    policy == Some("never"@)
}

/// Whether `restart_policy` rules restarts out.
pub fn restart_is_disabled(restart_policy: &Option<String>) -> (r: bool)
    ensures
        r == never_restarts(opt_text(*restart_policy)),
{
    match restart_policy {
        Some(p) => same(p.as_str(), "never"),
        None => false,
    }
}

/// Whether a service is expected to be up after a restart: one-shots and scheduled services are
/// not.
pub fn should_verify_service(restart_policy: &Option<String>, cron: bool) -> (r: bool)
    ensures
        r == (!never_restarts(opt_text(*restart_policy)) && !cron),
{
    !restart_is_disabled(restart_policy) && !cron
}

/// The deployment strategy that a name stands for; any other name stands for the default.
pub open spec fn strategy_of(name: Option<Seq<char>>) -> DeploymentStrategy {
    if name == Some("rolling"@) {
        DeploymentStrategy::Rolling
    } else {
        DeploymentStrategy::Immediate
    }
}

/// The deployment strategy of a service.
pub fn deployment_strategy(name: &Option<String>) -> (r: DeploymentStrategy)
    ensures
        r == strategy_of(opt_text(*name)),
{
    match name {
        Some(s) => if same(s.as_str(), "rolling") {
            DeploymentStrategy::Rolling
        } else {
            DeploymentStrategy::Immediate
        },
        None => DeploymentStrategy::Immediate,
    }
}

/// The key of a service's state.
pub open spec fn key_of(project: Seq<char>, service: Seq<char>) -> Seq<char> {
    "v2:"@ + project + ":"@ + service
}

/// The key of a service's state.
pub fn state_key(project: &str, service: &str) -> (r: String)
    ensures
        r@ == key_of(project@, service@),
{
    let mut key = "v2:".to_owned();
    key.append(project);
    key.append(":");
    key.append(service);
    key
}

/// Where a service's captured output goes.
#[derive(Debug, Clone, Copy, PartialEq, Eq, Structural)]
pub enum LogSink {
    /// To log files.
    File,
    /// Nowhere.
    Discard,
}

/// How logs are kept, as far as it is configured.
#[derive(Debug, Clone, Copy, PartialEq, Eq, Structural)]
pub struct LogsConfig {
    /// The most bytes of one log file; no limit when zero.
    pub max_bytes: Option<u64>,
    /// How many backups are kept.
    pub max_files: Option<usize>,
    /// Where output goes.
    pub sink: Option<LogSink>,
}

/// How logs are kept.
#[derive(Debug, Clone, Copy, PartialEq, Eq, Structural)]
pub struct EffectiveLogsConfig {
    /// The most bytes of one log file; no limit when zero.
    pub max_bytes: u64,
    /// How many backups are kept.
    pub max_files: usize,
    /// Where output goes.
    pub sink: LogSink,
}

/// The most bytes of one log file when nothing is configured.
pub const DEFAULT_LOG_MAX_BYTES: u64 = 10485760;

/// How many backups are kept when nothing is configured.
pub const DEFAULT_LOG_MAX_FILES: usize = 5;

/// The first of two settings that is configured, or else the default.
pub open spec fn setting<T>(own: Option<T>, project: Option<T>, default_value: T) -> T {
    match own {
        Some(v) => v,
        None => match project {
            Some(v) => v,
            None => default_value,
        },
    }
}

fn choose_setting<T: Copy>(own: Option<T>, project: Option<T>, default_value: T) -> (r: T)
    ensures
        r == setting(own, project, default_value),
{
    match own {
        Some(v) => v,
        None => match project {
            Some(v) => v,
            None => default_value,
        },
    }
}

/// How a service's logs are kept: as it is configured for the service, or else for the project.
pub fn effective_logs(own: LogsConfig, project: LogsConfig) -> (r: EffectiveLogsConfig)
    ensures
        r.max_bytes == setting(own.max_bytes, project.max_bytes, DEFAULT_LOG_MAX_BYTES),
        r.max_files == setting(own.max_files, project.max_files, DEFAULT_LOG_MAX_FILES),
        r.sink == setting(own.sink, project.sink, LogSink::File),
{
    EffectiveLogsConfig {
        max_bytes: choose_setting(own.max_bytes, project.max_bytes, DEFAULT_LOG_MAX_BYTES),
        max_files: choose_setting(own.max_files, project.max_files, DEFAULT_LOG_MAX_FILES),
        sink: choose_setting(own.sink, project.sink, LogSink::File),
    }
}

/// A policy that starts a service again after a clean exit also does so after a failure, one that
/// rules restarts out does neither, and without a policy a service is not started again.
pub proof fn law_restart_policies_agree(policy: Option<Seq<char>>)
    ensures
        wants_more(policy) ==> retries(policy),
        never_restarts(policy) ==> !retries(policy) && !wants_more(policy),
        policy is None ==> !retries(policy) && !wants_more(policy) && !never_restarts(policy),
        wants_more(Some("always"@)),
        retries(Some("on-failure"@)),
        !wants_more(Some("on-failure"@)),
        never_restarts(Some("never"@)),
        policy != Some("always"@) && policy != Some("on-failure"@) ==> !retries(policy),
{
    reveal_strlit("always");
    reveal_strlit("on-failure");
    reveal_strlit("never");
    assert("always"@.len() == 6);
    assert("on-failure"@.len() == 10);
    assert("never"@.len() == 5);
}

/// Only the name of the rolling strategy stands for it; a service is replaced at once otherwise.
pub proof fn law_rolling_must_be_asked_for(name: Option<Seq<char>>)
    ensures
        strategy_of(Some("rolling"@)) == DeploymentStrategy::Rolling,
        name != Some("rolling"@) ==> strategy_of(name) == DeploymentStrategy::Immediate,
{
}

/// A service's own setting wins over its project's, and its project's over the default.
pub proof fn law_nearest_setting_wins<T>(own: Option<T>, project: Option<T>, default_value: T)
    ensures
        own is Some ==> Some(setting(own, project, default_value)) == own,
        own is None && project is Some ==> Some(setting(own, project, default_value)) == project,
        own is None && project is None ==> setting(own, project, default_value) == default_value,
{
}

} // verus!
