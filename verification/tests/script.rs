use canopy::inputmap::{BindingOwner, FrameworkBindingGroup};
use canopy::script::{
    diagnostic_record_to_script, is_luau_identifier, DiagnosticRecord, DiagnosticSeverity, SourcePosition,
    luau_global_owner_name, owner_label, startup_runtime_source, strict_source, LuauFunctionId,
    Namespace, ScriptCheckDiagnostic, ScriptCheckResult, ScriptModuleRoots, ValuePath,
};

fn diag(source: Option<&str>, severity: &str, line: usize, column: usize, message: &str) -> ScriptCheckDiagnostic {
    ScriptCheckDiagnostic {
        source: source.map(|s| s.to_string()),
        severity: severity.to_string(),
        line,
        column,
        message: message.to_string(),
    }
}

#[test]
fn diagnostics_render_with_and_without_a_source() {
    assert_eq!(diag(Some("init.luau"), "error", 3, 14, "bad").to_display_string(), "init.luau:3:14: bad");
    assert_eq!(diag(None, "warning", 0, 0, "meh").to_display_string(), "0:0: meh");
}

#[test]
fn check_results_separate_errors_from_warnings() {
    let result = ScriptCheckResult::from_diagnostics(vec![
        diag(Some("a"), "warning", 1, 1, "w"),
        diag(Some("b"), "error", 2, 5, "e"),
    ]);
    let two = ScriptCheckResult::from_diagnostics(vec![diag(Some("a"), "error", 1, 1, "x"), diag(None, "error", 2, 2, "y")]);
    assert_eq!(two.format_diagnostics(), "a:1:1: x\n2:2: y");
    assert!(result.has_errors());
    assert!(!result.is_ok());
    assert_eq!(result.errors().len(), 1);
    assert_eq!(result.errors()[0].message, "e");
    assert_eq!(result.diagnostics().len(), 2);
    assert_eq!(result.format_diagnostics(), "b:2:5: e");
    let clean = ScriptCheckResult::from_diagnostics(vec![diag(None, "warning", 1, 1, "w")]);
    assert!(clean.is_ok());
    assert_eq!(clean.into_diagnostics().len(), 1);
}

#[test]
fn module_roots_report_configured_namespaces_in_layer_order() {
    let mut roots = ScriptModuleRoots::new();
    assert!(roots.configured_namespaces().is_empty());
    roots.set_project_root("/work/.canopy");
    assert_eq!(roots.configured_namespaces(), vec![Namespace::Project]);
    roots.set_user_root("/home/u/.config/canopy");
    assert_eq!(roots.configured_namespaces(), vec![Namespace::User, Namespace::Project]);
    assert_eq!(roots.root_for(Namespace::User), Some("/home/u/.config/canopy"));
    assert_eq!(roots.project_root(), Some("/work/.canopy"));
    assert_eq!(Namespace::User.name(), "@user");
    assert_eq!(Namespace::Project.name(), "@project");
}

#[test]
fn function_ids_round_trip() {
    assert_eq!(LuauFunctionId::for_test(42).as_u64(), 42);
}

#[test]
fn strict_mode_is_declared_once() {
    assert_eq!(strict_source("local x = 1"), "--!strict\nlocal x = 1");
    assert_eq!(strict_source("--!nonstrict\nlocal x = 1"), "--!nonstrict\nlocal x = 1");
    assert_eq!(strict_source("  \n\t--!strict\nx()"), "  \n\t--!strict\nx()");
    assert_eq!(strict_source("-- comment\n"), "--!strict\n-- comment\n");
    assert_eq!(strict_source(""), "--!strict\n");
    assert_eq!(strict_source("--"), "--!strict\n--");
    let once = strict_source("print(1)");
    assert_eq!(strict_source(&once), once);
}

#[test]
fn startup_source_calls_setup_on_its_own_line() {
    assert_eq!(startup_runtime_source("function setup() end"), "function setup() end\nsetup()\n");
    assert_eq!(startup_runtime_source("function setup() end\n"), "function setup() end\nsetup()\n");
    assert_eq!(startup_runtime_source(""), "\nsetup()\n");
}

#[test]
fn keyword_owners_get_a_command_suffix() {
    assert_eq!(luau_global_owner_name("end"), "end_cmd");
    assert_eq!(luau_global_owner_name("while"), "while_cmd");
    assert_eq!(luau_global_owner_name("editor"), "editor");
    assert_eq!(luau_global_owner_name("End"), "End");
    assert_eq!(luau_global_owner_name(""), "");
}

#[test]
fn identifiers_follow_luau_rules() {
    assert!(is_luau_identifier("name"));
    assert!(is_luau_identifier("_private9"));
    assert!(is_luau_identifier("A_b_C"));
    assert!(!is_luau_identifier(""));
    assert!(!is_luau_identifier("9lives"));
    assert!(!is_luau_identifier("has space"));
    assert!(!is_luau_identifier("dash-ed"));
    assert!(!is_luau_identifier("caf\u{e9}"));
}

#[test]
fn value_paths_use_luau_notation() {
    let root = ValuePath::root("value");
    assert_eq!(root.as_str(), "value");
    assert_eq!(root.index(1).as_str(), "value[1]");
    assert_eq!(root.index(120).index(0).as_str(), "value[120][0]");
    assert_eq!(root.field("target").as_str(), "value.target");
    assert_eq!(root.field("two words").as_str(), "value[\"two words\"]");
    assert_eq!(root.field("a\"b\\c").as_str(), "value[\"a\\\"b\\\\c\"]");
    assert_eq!(root.field("").as_str(), "value[\"\"]");
    assert_eq!(root.field("items").index(3).field("id").as_str(), "value.items[3].id");
    assert_eq!(root.index(2).error("expected a string"), "value[2]: expected a string");
}

#[test]
fn checker_findings_become_one_based_script_diagnostics() {
    let located = DiagnosticRecord {
        severity: DiagnosticSeverity::Error,
        primary_location: Some(SourcePosition { line: 2, column: 13 }),
        message: "type mismatch".to_string(),
    };
    let d = diagnostic_record_to_script(Some("init.luau".to_string()), located);
    assert_eq!(d.line, 3);
    assert_eq!(d.column, 14);
    assert_eq!(d.severity, "error");
    assert!(d.is_error());
    assert_eq!(d.to_display_string(), "init.luau:3:14: type mismatch");
    let info = DiagnosticRecord {
        severity: DiagnosticSeverity::Info,
        primary_location: None,
        message: "note".to_string(),
    };
    let d = diagnostic_record_to_script(None, info);
    assert_eq!((d.line, d.column), (0, 0));
    assert_eq!(d.severity, "warning");
    assert!(!d.is_error());
    let warning = DiagnosticRecord {
        severity: DiagnosticSeverity::Warning,
        primary_location: Some(SourcePosition { line: 0, column: 0 }),
        message: "unused".to_string(),
    };
    assert_eq!(diagnostic_record_to_script(None, warning).severity, "warning");
}

#[test]
fn binding_owners_are_labelled_for_scripts() {
    assert_eq!(owner_label(BindingOwner::Application), "application");
    assert_eq!(owner_label(BindingOwner::Framework(FrameworkBindingGroup::new("root.help"))), "framework:root.help");
}
