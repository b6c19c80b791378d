//! How a failed `inspect` is reported.

use vstd::prelude::*;

use crate::diag::{Diagnostic, DiagnosticView, SgCode};

verus! {

/// Reports a service that was not found.
pub fn service_not_found(service: &str) -> (r: Diagnostic)
    ensures
        r@ == DiagnosticView::bare(
            SgCode::TargetNotFound,
            "no service named `"@ + service@ + "` to inspect"@,
        ).noted("inspect details one running or configured service; check the name"@).helped(
            "list services"@,
            "sysg status"@,
        ).linked(),
{
    let mut title = "no service named `".to_owned();
    title.append(service);
    title.append("` to inspect");
    Diagnostic::error(SgCode::TargetNotFound, title.as_str()).note(
        "inspect details one running or configured service; check the name",
    ).help_cmd("list services", "sysg status").help_docs()
}

/// Reports a stream duration that could not be read.
pub fn invalid_stream_duration(value: &str, reason: &str) -> (r: Diagnostic)
    ensures
        r@ == DiagnosticView::bare(
            SgCode::Catchall,
            "`--stream` value `"@ + value@ + "` is not a valid duration"@,
        ).noted(reason@).helped(
            "use seconds or a unit"@,
            "sysg inspect -s web --stream 5"@,
        ).linked(),
{
    let mut title = "`--stream` value `".to_owned();
    title.append(value);
    title.append("` is not a valid duration");
    Diagnostic::error(SgCode::Catchall, title.as_str()).note(reason).help_cmd(
        "use seconds or a unit",
        "sysg inspect -s web --stream 5",
    ).help_docs()
}

} // verus!
