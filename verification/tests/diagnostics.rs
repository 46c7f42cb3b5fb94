use editor_builtins::diagnostics::{
    format_diagnostic, sev_glyph, sev_rank, sev_suffix, DiagnosticsPlugin, PROBLEM_CAP,
};
use editor_builtins::effect::Effect;
use editor_builtins::protocol::{Diagnostic, Severity};

fn diag(msg: &str, source: Option<&str>, code: Option<&str>) -> Diagnostic {
    Diagnostic {
        line: 0,
        start_char16: 0,
        end_line: 0,
        end_char16: 1,
        severity: Severity::Error,
        message: msg.into(),
        source: source.map(str::to_string),
        code: code.map(str::to_string),
    }
}

#[test]
fn formats_source_prefix_and_code_suffix() {
    assert_eq!(
        format_diagnostic(&diag("no `x`", Some("rustc"), Some("E0425"))),
        "E rustc: no `x` [E0425]"
    );
    assert_eq!(format_diagnostic(&diag("plain", None, None)), "E plain");
}

#[test]
fn severities_are_ranked() {
    assert_eq!(sev_suffix(Severity::Error), "error");
    assert!(sev_rank(Severity::Error) < sev_rank(Severity::Warning));
    assert!(sev_rank(Severity::Warning) < sev_rank(Severity::Info));
    assert!(sev_rank(Severity::Info) < sev_rank(Severity::Hint));
    assert_ne!(sev_glyph(Severity::Error), sev_glyph(Severity::Hint));
}

fn at_line(line: u32, severity: Severity) -> Diagnostic {
    Diagnostic { line, end_line: line, severity, ..diag("m", None, None) }
}

#[test]
fn going_to_problems_wraps() {
    let mut p = DiagnosticsPlugin::new();
    let _ = p.on_diagnostics(
        Some(7),
        "/r/a.rs",
        vec![at_line(0, Severity::Error), at_line(2, Severity::Warning)],
        "/r",
    );
    // Three positions for each problem: its start, its end, and the start of its line.
    let n = p.positions(7).len();
    assert_eq!(n, 6);
    let at: Vec<usize> = vec![0, 1, 0, 20, 21, 20];
    let out = p.run_command("lsp.nextDiagnostic", Some(7), Some(0), &at, "/r").unwrap();
    assert!(out.contains(&Effect::Caret(20)), "{out:?}");
    let out = p.run_command("lsp.nextDiagnostic", Some(7), Some(20), &at, "/r").unwrap();
    assert!(out.contains(&Effect::Caret(0)), "{out:?}");
    let out = p.run_command("lsp.prevDiagnostic", Some(7), Some(0), &at, "/r").unwrap();
    assert!(out.contains(&Effect::Caret(20)), "{out:?}");
    assert!(p.run_command("lsp.hover", Some(7), Some(0), &at, "/r").is_none());
}

#[test]
fn a_document_without_problems_has_none() {
    let mut p = DiagnosticsPlugin::new();
    let _ = p.on_diagnostics(Some(7), "/r/a.rs", vec![at_line(0, Severity::Error)], "/r");
    assert!(p.positions(8).is_empty());
    let _ = p.on_diagnostics(Some(7), "/r/a.rs", vec![], "/r");
    assert!(p.positions(7).is_empty());
}

#[test]
fn closed_documents_are_forgotten() {
    let mut p = DiagnosticsPlugin::new();
    let _ = p.on_diagnostics(Some(7), "/r/a.rs", vec![at_line(0, Severity::Error)], "/r");
    let _ = p.on_diagnostics(Some(8), "/r/b.rs", vec![at_line(0, Severity::Error)], "/r");
    p.prune(&[8]);
    assert!(p.positions(7).is_empty());
    assert_eq!(p.positions(8).len(), 3);
}

#[test]
fn the_problem_list_is_capped() {
    let mut p = DiagnosticsPlugin::new();
    let many: Vec<Diagnostic> =
        (0..PROBLEM_CAP as u32 + 50).map(|l| at_line(l, Severity::Info)).collect();
    let _ = p.on_diagnostics(None, "/r/a.rs", many, "/r");
    let out = p.run_command("lsp.problems", None, None, &[], "/r").unwrap();
    let rows = out
        .iter()
        .find_map(|e| match e {
            Effect::SetPanel { panel, content } if panel == "lsp.problems" => Some(content),
            _ => None,
        })
        .expect("the panel is shown");
    let clickable = rows.lines.iter().filter(|l| l.payload.is_some()).count();
    assert_eq!(clickable, PROBLEM_CAP);
}

#[test]
fn a_file_keeps_the_name_it_was_first_given() {
    let mut p = DiagnosticsPlugin::new();
    let _ = p.on_diagnostics(None, "/r/./a.rs", vec![at_line(0, Severity::Error)], "/r");
    let _ = p.on_diagnostics(None, "/r/a.rs", vec![at_line(5, Severity::Error)], "/r");
    assert_eq!(p.by_path.len(), 1);
    assert_eq!(p.by_path[0].path, "/r/./a.rs");
    assert_eq!(p.by_path[0].diags[0].line, 5);
    let _ = p.on_diagnostics(None, "/r//a.rs", Vec::new(), "/r");
    assert!(p.by_path.is_empty());
}

#[test]
fn a_problem_row_opens_its_place() {
    let p = DiagnosticsPlugin::new();
    assert_eq!(
        p.on_panel_activate("lsp.problems", "/r/a.rs\t3"),
        vec![Effect::OpenPathAt { path: "/r/a.rs".into(), line: 3 }]
    );
    assert_eq!(p.on_panel_activate("other", "/r/a.rs\t3"), vec![]);
}
