//! Resolving the flags of `logs` into exactly one thing to do.

use vstd::prelude::*;

use crate::selector::{resolve_target, target_of, ProjectMismatch, Target};
use crate::text::opt_str;

verus! {

/// What an invocation of `logs` does.
#[derive(Debug, PartialEq, Eq)]
pub enum LogsPlan {
    /// Shows a target's logs.
    Show {
        /// The target.
        target: Target,
        /// Whether the logs are followed.
        follow: bool,
    },
    /// Prints where a target's logs are.
    Path {
        /// The target.
        target: Target,
        /// Whether backups are listed too.
        all: bool,
    },
    /// Clears a target's logs.
    Purge {
        /// The target.
        target: Target,
    },
    /// Trims backups to a bound.
    Prune {
        /// The most bytes to keep.
        max_size: Option<String>,
        /// The largest age to keep.
        max_age: Option<String>,
    },
}

/// The mode flags of an invocation.
#[derive(Debug, Clone, Copy, PartialEq, Eq, Structural)]
pub struct Modes {
    /// `--path`.
    pub path: bool,
    /// `--purge`.
    pub purge: bool,
    /// `--prune`.
    pub prune: bool,
    /// `--follow`.
    pub follow: bool,
}

impl Default for Modes {
    fn default() -> (r: Self)
        ensures
            r == (Modes { path: false, purge: false, prune: false, follow: false }),
    {
        Modes { path: false, purge: false, prune: false, follow: false }
    }
}

/// Why an invocation of `logs` means nothing.
#[derive(Debug, PartialEq, Eq)]
pub enum LogsPlanError {
    /// More than one mode was asked for.
    ConflictingModes {
        /// The flags that clash.
        modes: Vec<&'static str>,
    },
    /// A mode that cannot be followed was to be followed.
    FollowWithMode {
        /// The flag of that mode.
        mode: &'static str,
    },
    /// Nothing says what to prune.
    PruneBoundMissing,
    /// The project flag contradicts the selector.
    Mismatch(ProjectMismatch),
}

/// The mode flags that are set, in order.
pub open spec fn set_modes(m: Modes) -> Seq<Seq<char>> {
    let a = if m.path {
        seq!["--path"@]
    } else {
        seq![]
    };
    let b = if m.purge {
        a.push("--purge"@)
    } else {
        a
    };
    if m.prune {
        b.push("--prune"@)
    } else {
        b
    }
}

/// What a list of flags spells.
pub open spec fn flags_of(v: Seq<&'static str>) -> Seq<Seq<char>> {
    v.map_values(|s: &'static str| s@)
}

/// Resolves the mode flags and the selector into exactly one plan. The modes exclude each other and
/// following. Pruning ignores the selector, but needs a bound.
pub fn resolve_plan(
    modes: Modes,
    service: Option<&str>,
    project: Option<&str>,
    max_size: Option<String>,
    max_age: Option<String>,
) -> (r: Result<LogsPlan, LogsPlanError>)
    ensures
        ({
            let set = set_modes(modes);
            let target = target_of(opt_str(service), opt_str(project));
            if set.len() > 1 {
                match r {
                    Err(LogsPlanError::ConflictingModes { modes: m }) => flags_of(m@) == set,
                    _ => false,
                }
            } else if modes.follow && set.len() == 1 {
                match r {
                    Err(LogsPlanError::FollowWithMode { mode }) => mode@ == set[0],
                    _ => false,
                }
            } else if modes.prune {
                if max_size is None && max_age is None {
                    r == Err::<LogsPlan, LogsPlanError>(LogsPlanError::PruneBoundMissing)
                } else {
                    r == Ok::<LogsPlan, LogsPlanError>(LogsPlan::Prune { max_size, max_age })
                }
            } else {
                match target {
                    Err((prefix, flag)) => match r {
                        Err(LogsPlanError::Mismatch(m)) => m.prefix@ == prefix && m.flag@ == flag,
                        _ => false,
                    },
                    Ok(v) => match r {
                        Ok(LogsPlan::Path { target, all }) => modes.path && target@ == v && !all,
                        Ok(LogsPlan::Purge { target }) => modes.purge && target@ == v,
                        Ok(LogsPlan::Show { target, follow }) => !modes.path && !modes.purge
                            && target@ == v && follow == modes.follow,
                        _ => false,
                    },
                }
            }
        }),
{
    let mut set: Vec<&'static str> = Vec::new();
    if modes.path {
        set.push("--path");
    }
    if modes.purge {
        set.push("--purge");
    }
    if modes.prune {
        set.push("--prune");
    }
    assert(flags_of(set@) =~= set_modes(modes));
    if set.len() > 1 {
        return Err(LogsPlanError::ConflictingModes { modes: set });
    }
    if modes.follow && set.len() == 1 {
        assert(flags_of(set@)[0] == set@[0]@);
        return Err(LogsPlanError::FollowWithMode { mode: set[0] });
    }
    if modes.prune {
        if max_size.is_none() && max_age.is_none() {
            return Err(LogsPlanError::PruneBoundMissing);
        }
        return Ok(LogsPlan::Prune { max_size, max_age });
    }
    let target = match resolve_target(service, project) {
        Ok(t) => t,
        Err(m) => {
            return Err(LogsPlanError::Mismatch(m));
        },
    };
    if modes.path {
        return Ok(LogsPlan::Path { target, all: false });
    }
    if modes.purge {
        return Ok(LogsPlan::Purge { target });
    }
    Ok(LogsPlan::Show { target, follow: modes.follow })
}

/// A mode is listed exactly when it is set, and in one order.
pub proof fn law_set_modes_are_listed(m: Modes)
    ensures
        set_modes(m).contains("--path"@) <==> m.path,
        set_modes(m).contains("--purge"@) <==> m.purge,
        set_modes(m).contains("--prune"@) <==> m.prune,
        m.path && m.purge && m.prune ==> set_modes(m) == seq!["--path"@, "--purge"@, "--prune"@],
{
    reveal_strlit("--path");
    reveal_strlit("--purge");
    reveal_strlit("--prune");
    assert("--path"@.len() == 6 && "--purge"@.len() == 7 && "--prune"@.len() == 7);
    assert("--purge"@[3] == 'u' && "--prune"@[3] == 'r');
    let s = set_modes(m);
    let p: int = if m.path {
        1
    } else {
        0
    };
    let q: int = if m.purge {
        p + 1
    } else {
        p
    };
    if m.path {
        assert(s[0] == "--path"@);
    }
    if m.purge {
        assert(s[p] == "--purge"@);
    }
    if m.prune {
        assert(s[q] == "--prune"@);
    }
}

} // verus!
