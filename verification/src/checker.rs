//! Type-checking script source against a prepared script surface.
//!
//! The checker itself is `ruau`'s; this module hands it the strict form of
//! a named source and turns what it reports into the stable script
//! diagnostic shape.

use vstd::prelude::*;
use ruau::source::{ModuleId, Source};
use ruau::surface::{CheckOptions, Surface};
use ruau::typecheck::Severity;
use crate::error::Error;
use crate::script::{
    severity_word, strict_source, strict_source_spec, DiagnosticSeverity, ScriptCheckDiagnostic, ScriptCheckResult,
};
use crate::text::owned;

verus! {

/// A prepared script surface: the runtime and checker configuration that a
/// finalized script API installs.
#[verifier::external_type_specification]
#[verifier::external_body]
pub struct ExSurface(Surface);

/// One finding as the checker reports it: positions are one-based, and the
/// begin and end positions are all `u32::MAX` when the finding has no
/// location.
#[derive(Debug, Clone, PartialEq, Eq)]
pub struct CheckerFinding {
    /// How serious the finding is.
    pub severity: DiagnosticSeverity,
    /// One-based line where the finding begins.
    pub line: u32,
    /// One-based column where the finding begins.
    pub column: u32,
    /// One-based line just after the finding.
    pub end_line: u32,
    /// One-based column just after the finding.
    pub end_column: u32,
    /// Human-readable message.
    pub message: String,
}

/// What the checker reports of a named source: the display name it gives the
/// source and its findings, in order.
pub struct CheckerReport {
    /// The display name of the checked source.
    pub display_name: String,
    /// The findings, in the order the checker reports them.
    pub findings: Vec<CheckerFinding>,
}

/// Type-check a named source against a surface.
///
/// Trusted: builds `ruau::source::Source::text` under `ModuleId::new(name)`,
/// calls `ruau::surface::Surface::check` with default options, and copies
/// the source's display name and each record of the diagnostics, field for
/// field. The display name of a source whose identifier is valid UTF-8 is
/// that text (`ModuleId::to_diagnostic_string`), so it is the name given.
/// What the checker finds depends on the surface's declarations and native
/// modules, which are opaque here, so nothing is said of the findings.
#[verifier::external_body]
fn surface_check(surface: &Surface, name: &str, source: &str) -> (r: CheckerReport)
    ensures
        r.display_name@ == name@,
{
    let source = Source::text(ModuleId::new(name), source);
    let mut findings = Vec::new();
    for d in surface.check(&source, CheckOptions::default()).diagnostics().records() {
        let severity = match d.severity {
            Severity::Error => DiagnosticSeverity::Error,
            Severity::Warning => DiagnosticSeverity::Warning,
            Severity::Info => DiagnosticSeverity::Info,
        };
        let (begin, end) = (d.primary_location.begin, d.primary_location.end);
        let (end_line, end_column) = (end.line, end.column);
        findings.push(CheckerFinding { severity, line: begin.line, column: begin.column, end_line, end_column, message: d.message });
    }
    CheckerReport { display_name: source.display_name().to_string(), findings }
}

/// Whether a finding has no location.
pub open spec fn unlocated(f: CheckerFinding) -> bool {
    f.line == u32::MAX && f.column == u32::MAX && f.end_line == u32::MAX && f.end_column == u32::MAX
}

/// The stable script diagnostic of a finding of a named source.
pub open spec fn finding_diagnostic(name: Seq<char>, f: CheckerFinding) -> (Option<Seq<char>>, Seq<char>, usize, usize, Seq<char>) {
    (
        Some(name),
        severity_word(f.severity),
        if unlocated(f) { 0 } else { f.line as usize },
        if unlocated(f) { 0 } else { f.column as usize },
        f.message@,
    )
}

/// The parts of a script diagnostic.
pub open spec fn diagnostic_parts(d: ScriptCheckDiagnostic) -> (Option<Seq<char>>, Seq<char>, usize, usize, Seq<char>) {
    (
        match d.source {
            Some(s) => Some(s@),
            None => None,
        },
        d.severity@,
        d.line,
        d.column,
        d.message@,
    )
}

/// Convert one finding of a named source to the stable script diagnostic
/// shape: one-based line and column, or zero for both when there is no
/// location.
pub fn finding_to_script(name: &str, f: CheckerFinding) -> (r: ScriptCheckDiagnostic)
    ensures
        diagnostic_parts(r) == finding_diagnostic(name@, f),
{
    let missing = f.line == u32::MAX && f.column == u32::MAX && f.end_line == u32::MAX && f.end_column == u32::MAX;
    let line: usize = if missing { 0 } else { f.line as usize };
    let column: usize = if missing { 0 } else { f.column as usize };
    let severity = match f.severity {
        DiagnosticSeverity::Error => owned("error"),
        _ => owned("warning"),
    };
    ScriptCheckDiagnostic { source: Some(owned(name)), severity, line, column, message: f.message }
}

/// Whether a check result holds exactly the findings of a source with a
/// display name, converted in order.
pub open spec fn reports(res: ScriptCheckResult, display: Seq<char>, findings: Seq<CheckerFinding>) -> bool {
    &&& res.spec_diagnostics().len() == findings.len()
    &&& forall|i: int| 0 <= i < findings.len() ==> diagnostic_parts(#[trigger] res.spec_diagnostics()[i]) == finding_diagnostic(display, findings[i])
}

/// Build a check result from the findings of a named source, in order.
pub fn check_result_from_findings(name: &str, findings: Vec<CheckerFinding>) -> (r: ScriptCheckResult)
    ensures
        reports(r, name@, findings@),
{
    let mut out: Vec<ScriptCheckDiagnostic> = Vec::new();
    let n = findings.len();
    let mut rest = findings;
    let ghost all = rest@;
    let mut i: usize = 0;
    let mut taken: Vec<CheckerFinding> = Vec::new();
    while i < n
        invariant
            n == all.len(),
            i <= n,
            rest@ == all.subrange(i as int, n as int),
            out@.len() == i,
            forall|j: int| 0 <= j < i ==> diagnostic_parts(#[trigger] out@[j]) == finding_diagnostic(name@, all[j]),
        decreases n - i,
    {
        let f = rest.remove(0);
        assert(f == all[i as int]);
        out.push(finding_to_script(name, f));
        i = i + 1;
        assert(rest@ =~= all.subrange(i as int, n as int));
    }
    ScriptCheckResult::from_diagnostics(out)
}

/// Type-check a script source against the prepared surface, in strict mode
/// and under its source name.
///
/// Fails with `InvalidOperation` when no surface is prepared yet. Otherwise
/// each diagnostic is a finding of the checker on the strict form of the
/// source, converted in order by `finding_to_script` under the source's
/// name. Which findings the checker makes depends on the surface, which is
/// opaque here.
pub fn check_script(surface: Option<&Surface>, name: &str, source: &str) -> (r: Result<ScriptCheckResult, Error>)
    ensures
        r is Err <==> surface is None,
        r matches Err(e) ==> e matches Error::InvalidOperation(m) && m@ == "cannot type-check scripts before finalize_api()"@,
        r is Ok ==> exists|findings: Seq<CheckerFinding>| #[trigger] reports(r.unwrap(), name@, findings),
{
    match surface {
        None => Err(Error::InvalidOperation(owned("cannot type-check scripts before finalize_api()"))),
        Some(s) => {
            let text = strict_source(source);
            let report = surface_check(s, name, text.as_str());
            let CheckerReport { display_name, findings } = report;
            let ghost fs = findings@;
            let res = check_result_from_findings(display_name.as_str(), findings);
            assert(reports(res, display_name@, fs));
            let r: Result<ScriptCheckResult, Error> = Ok(res);
            assert(reports(r.unwrap(), display_name@, fs));
            r
        },
    }
}

} // verus!
