use systemg::diag::{Diagnostic, SgCode, DOCS_BASE, RED};
use systemg::logs::ansi::strip_ansi;

fn sample() -> Diagnostic {
    Diagnostic::error(SgCode::HealthUnmet, "service `api` failed to become healthy")
        .origin("sysg.yaml", Some(31), Some("services.api.health_check".into()))
        .note("5 health checks failed over 45s")
        .evidence("last output", vec!["password authentication failed".to_string()])
        .help_cmd("view logs", "sysg logs -s api")
        .help_docs()
}

#[test]
fn plain_render_has_code_title_evidence_and_help() {
    let text = sample().render(false);
    assert!(text.contains("error[SG0104]"));
    assert!(text.contains("failed to become healthy"));
    assert!(text.contains("--> sysg.yaml:31 (services.api.health_check)"));
    assert!(text.contains("password authentication failed"));
    assert!(text.contains("sysg logs -s api"));
    assert!(text.contains(&format!("{DOCS_BASE}/SG0104")));
    assert!(!text.contains('\x1b'));
}

#[test]
fn colored_render_uses_ansi() {
    let text = sample().render(true);
    assert!(text.contains(RED));
}

#[test]
fn stripped_color_is_the_plain_report() {
    let colored = sample().render(true);
    let bare = sample().render(false);
    assert_eq!(strip_ansi(colored.as_bytes()), bare.as_bytes());
    assert_ne!(colored, bare);
}

#[test]
fn code_strings_are_unique_and_round_trip() {
    let mut seen = std::collections::HashSet::new();
    for code in SgCode::ALL {
        assert!(
            seen.insert(code.as_str()),
            "duplicate code {}",
            code.as_str()
        );
        assert_eq!(code.as_str().parse(), Ok(code));
    }
}

#[test]
fn unknown_code_fails_to_deserialize() {
    assert!("SG9999".parse::<SgCode>().is_err());
}

#[test]
fn an_unknown_code_is_told() {
    let err = SgCode::from_code("SG9999").unwrap_err();
    assert_eq!(err.0, "SG9999");
    assert!(err.message().contains("SG9999"));
    assert!(SgCode::from_code("sg0104").is_err());
    assert_eq!(SgCode::HealthUnmet.docs_url(), format!("{DOCS_BASE}/SG0104"));
    assert_eq!(sample().code_str(), "SG0104");
}
