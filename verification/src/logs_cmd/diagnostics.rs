//! How a bad invocation of `logs` is reported.

use vstd::prelude::*;

use crate::diag::{Diagnostic, DiagnosticView, SgCode};
use crate::text::joined;

verus! {

/// What texts spell.
pub open spec fn spelled(v: Seq<&str>) -> Seq<Seq<char>> {
    v.map_values(|s: &str| s@)
}

fn join_all(parts: &[&str], sep: &str) -> (r: String)
    ensures
        r@ == joined(spelled(parts@), sep@),
{
    let ghost all = spelled(parts@);
    let mut out = String::new();
    let mut i: usize = 0;
    assert(all.take(0) =~= Seq::<Seq<char>>::empty());
    while i < parts.len()
        invariant
            i <= parts@.len(),
            all == spelled(parts@),
            out@ == joined(all.take(i as int), sep@),
        decreases parts@.len() - i,
    {
        assert(all.take(i + 1).drop_last() =~= all.take(i as int));
        assert(all[i as int] == parts@[i as int]@);
        if i > 0 {
            out.append(sep);
        }
        out.append(parts[i]);
        proof {
            if i == 0 {
                assert(all.take(1)[0] == all[0]);
                assert(out@ =~= all[0]);
            }
        }
        i = i + 1;
    }
    assert(all.take(all.len() as int) =~= all);
    out
}

/// Reports modes that exclude each other.
pub fn conflicting_modes(modes: &[&str]) -> (r: Diagnostic)
    ensures
        r@ == DiagnosticView::bare(
            SgCode::ConflictingSelectors,
            joined(spelled(modes@), " and "@) + " cannot be combined"@,
        ).noted("each selects a different logs mode; pick one"@).linked(),
{
    let mut title = join_all(modes, " and ");
    title.append(" cannot be combined");
    Diagnostic::error(SgCode::ConflictingSelectors, title.as_str()).note(
        "each selects a different logs mode; pick one",
    ).help_docs()
}

/// Reports that a mode cannot be followed.
pub fn follow_with_mode(mode: &str) -> (r: Diagnostic)
    ensures
        r@ == DiagnosticView::bare(
            SgCode::ConflictingSelectors,
            "--follow cannot be combined with "@ + mode@,
        ).noted("--follow streams live logs; it only applies to the default show mode"@).linked(),
{
    let mut title = "--follow cannot be combined with ".to_owned();
    title.append(mode);
    Diagnostic::error(SgCode::ConflictingSelectors, title.as_str()).note(
        "--follow streams live logs; it only applies to the default show mode",
    ).help_docs()
}

/// Reports a prune without a bound.
pub fn prune_bound_missing() -> (r: Diagnostic)
    ensures
        r@ == DiagnosticView::bare(
            SgCode::PruneBoundMissing,
            "nothing to prune against: no --max-size or --max-age bound"@,
        ).noted("prune trims rotated backups down to a bound; give it at least one"@).helped(
            "cap total size"@,
            "sysg logs --prune --max-size 500MB"@,
        ).helped("drop old backups"@, "sysg logs --prune --max-age 7d"@).linked(),
{
    Diagnostic::error(
        SgCode::PruneBoundMissing,
        "nothing to prune against: no --max-size or --max-age bound",
    ).note("prune trims rotated backups down to a bound; give it at least one").help_cmd(
        "cap total size",
        "sysg logs --prune --max-size 500MB",
    ).help_cmd("drop old backups", "sysg logs --prune --max-age 7d").help_docs()
}

/// Reports that nothing says whose logs are wanted.
pub fn target_required() -> (r: Diagnostic)
    ensures
        r@ == DiagnosticView::bare(
            SgCode::LogsTargetRequired,
            "`sysg logs` needs a target: a service, a project, or --supervisor"@,
        ).noted(
            "bare `logs` is refused so it never dumps every project's output at once"@,
        ).helped("one service"@, "sysg logs -s <service>"@).helped(
            "a whole project"@,
            "sysg logs -p <project>"@,
        ).helped("the supervisor log"@, "sysg logs --supervisor"@).linked(),
{
    Diagnostic::error(
        SgCode::LogsTargetRequired,
        "`sysg logs` needs a target: a service, a project, or --supervisor",
    ).note("bare `logs` is refused so it never dumps every project's output at once").help_cmd(
        "one service",
        "sysg logs -s <service>",
    ).help_cmd("a whole project", "sysg logs -p <project>").help_cmd(
        "the supervisor log",
        "sysg logs --supervisor",
    ).help_docs()
}

/// Reports that the supervisor log has no service or project.
pub fn supervisor_with_selector() -> (r: Diagnostic)
    ensures
        r@ == DiagnosticView::bare(
            SgCode::LogsSupervisorConflict,
            "--supervisor cannot be combined with a service or project selector"@,
        ).noted("the supervisor log is a single stream; it has no -s/-p scope"@).helped(
            "supervisor log"@,
            "sysg logs --supervisor"@,
        ).linked(),
{
    Diagnostic::error(
        SgCode::LogsSupervisorConflict,
        "--supervisor cannot be combined with a service or project selector",
    ).note("the supervisor log is a single stream; it has no -s/-p scope").help_cmd(
        "supervisor log",
        "sysg logs --supervisor",
    ).help_docs()
}

/// Reports that no service without a project has this name.
pub fn loose_service_not_found(service: &str) -> (r: Diagnostic)
    ensures
        r@ == DiagnosticView::bare(
            SgCode::LooseServiceNotFound,
            "no loose service named `"@ + service@ + "`"@,
        ).noted(
            "a bare `-s` reads only project-less (loose) services; a service inside a project needs its project named"@,
        ).helped("target its project"@, "sysg logs -s "@ + service@ + " -p <project>"@).linked(),
{
    let mut title = "no loose service named `".to_owned();
    title.append(service);
    title.append("`");
    let mut cmd = "sysg logs -s ".to_owned();
    cmd.append(service);
    cmd.append(" -p <project>");
    Diagnostic::error(SgCode::LooseServiceNotFound, title.as_str()).note(
        "a bare `-s` reads only project-less (loose) services; a service inside a project needs its project named",
    ).help_cmd("target its project", cmd.as_str()).help_docs()
}

/// Reports a format that logs cannot be shown in.
pub fn unsupported_format(format: &str) -> (r: Diagnostic)
    ensures
        r@ == DiagnosticView::bare(
            SgCode::ConflictingSelectors,
            "`sysg logs` does not support --format "@ + format@,
        ).noted("logs are line-oriented; use --format json for machine output"@).linked(),
{
    let mut title = "`sysg logs` does not support --format ".to_owned();
    title.append(format);
    Diagnostic::error(SgCode::ConflictingSelectors, title.as_str()).note(
        "logs are line-oriented; use --format json for machine output",
    ).help_docs()
}

} // verus!
