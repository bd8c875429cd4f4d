use canopy::checker::{check_script, finding_to_script, CheckerFinding};
use canopy::error::Error;
use canopy::script::DiagnosticSeverity;
use ruau::surface::Surface;

#[test]
fn checking_needs_a_prepared_surface() {
    assert_eq!(
        check_script(None, "main", "local x = 1").err(),
        Some(Error::InvalidOperation("cannot type-check scripts before finalize_api()".to_string()))
    );
}

#[test]
fn well_typed_source_checks_clean() {
    let surface = Surface::new();
    let result = check_script(Some(&surface), "main", "local x: number = 1\nlocal y: number = x + 1\n").unwrap();
    assert!(!result.has_errors());
}

#[test]
fn type_errors_are_reported_on_their_line() {
    let surface = Surface::new();
    let result = check_script(Some(&surface), "main", "local x: number = 1\nlocal y: string = x\n").unwrap();
    assert!(result.has_errors());
    let first = &result.diagnostics()[0];
    assert_eq!(first.severity, "error");
    // The strict-mode line comes first, so the second source line is line 3.
    assert_eq!(first.line, 3);
    assert!(first.column >= 1);
}

#[test]
fn unlocated_findings_have_no_position() {
    let d = finding_to_script(
        "main",
        CheckerFinding { severity: DiagnosticSeverity::Info, line: u32::MAX, column: u32::MAX, end_line: u32::MAX, end_column: u32::MAX, message: "m".to_string() },
    );
    assert_eq!((d.line, d.column, d.severity.as_str(), d.source.as_deref()), (0, 0, "warning", Some("main")));
    let d = finding_to_script(
        "main",
        CheckerFinding { severity: DiagnosticSeverity::Error, line: 4, column: 7, end_line: 4, end_column: 9, message: "m".to_string() },
    );
    assert_eq!((d.line, d.column, d.severity.as_str()), (4, 7, "error"));
}

#[test]
fn a_finding_with_only_its_begin_missing_keeps_its_position() {
    let d = finding_to_script(
        "main",
        CheckerFinding { severity: DiagnosticSeverity::Warning, line: u32::MAX, column: u32::MAX, end_line: 2, end_column: 1, message: "m".to_string() },
    );
    assert_eq!((d.line, d.column), (u32::MAX as usize, u32::MAX as usize));
}

#[test]
fn diagnostics_carry_the_source_name() {
    let surface = Surface::new();
    let result = check_script(Some(&surface), "widgets/main", "local y: string = 1\n").unwrap();
    assert!(result.diagnostics().iter().all(|d| d.source.as_deref() == Some("widgets/main")));
}
