//! Script-facing values: function handles, assertion records, typecheck
//! diagnostics, the persistent script roots, and the source text and value
//! paths the script host builds.

use vstd::prelude::*;
use crate::inputmap::{BindingOwner, OwnerView};
use crate::text::{char_is_whitespace, owned, push_char, str_eq, str_to_chars, white_space};

verus! {

/// Stable handle for a stored Luau closure.
#[derive(Debug, Clone, Copy, PartialEq, Eq, Hash, Structural)]
pub struct LuauFunctionId(u64);

impl LuauFunctionId {
    /// Construct an identifier that no live closure owns.
    pub fn for_test(id: u64) -> (r: Self)
        ensures
            r.id() == id,
    {
        LuauFunctionId(id)
    }

    /// The numeric identifier.
    pub closed spec fn id(self) -> u64 {
        self.0
    }

    /// Return the numeric identifier.
    pub fn as_u64(self) -> (r: u64)
        ensures
            r == self.id(),
    {
        self.0
    }
}

/// Recorded assertion outcome for a script evaluation.
#[derive(Debug, Clone, PartialEq, Eq)]
pub struct ScriptAssertion {
    /// Whether the assertion passed.
    pub passed: bool,
    /// Assertion message or fallback description.
    pub message: String,
}

/// Structured Luau typecheck diagnostic.
#[derive(Debug, Clone, PartialEq, Eq)]
pub struct ScriptCheckDiagnostic {
    /// Diagnostic source name, when the diagnostic belongs to a named source.
    pub source: Option<String>,
    /// Diagnostic severity such as `error` or `warning`.
    pub severity: String,
    /// One-based line number, or zero when the diagnostic is not source-bound.
    pub line: usize,
    /// One-based column number, or zero when the diagnostic is not source-bound.
    pub column: usize,
    /// Human-readable diagnostic message.
    pub message: String,
}

/// How serious a type checker finding is.
#[derive(Debug, Clone, Copy, PartialEq, Eq, Structural)]
pub enum DiagnosticSeverity {
    /// A finding that fails a check.
    Error,
    /// A finding worth reporting that does not fail a check.
    Warning,
    /// An informational finding.
    Info,
}

/// A zero-based position in source text.
#[derive(Debug, Clone, Copy, PartialEq, Eq, Structural)]
pub struct SourcePosition {
    /// Zero-based line.
    pub line: u32,
    /// Zero-based column.
    pub column: u32,
}

/// One finding as the type checker reports it.
#[derive(Debug, Clone, PartialEq, Eq)]
pub struct DiagnosticRecord {
    /// How serious the finding is.
    pub severity: DiagnosticSeverity,
    /// Where the finding begins, absent when it is not bound to the source.
    pub primary_location: Option<SourcePosition>,
    /// Human-readable message.
    pub message: String,
}

/// The severity word a script diagnostic carries: informational findings
/// are reported as warnings.
pub open spec fn severity_word(severity: DiagnosticSeverity) -> Seq<char> {
    match severity {
        DiagnosticSeverity::Error => "error"@,
        _ => "warning"@,
    }
}

/// Convert one type checker finding to the stable script diagnostic shape:
/// one-based line and column, or zero for both when there is no location.
pub fn diagnostic_record_to_script(source: Option<String>, diagnostic: DiagnosticRecord) -> (r: ScriptCheckDiagnostic)
    requires
        diagnostic.primary_location matches Some(p) ==> p.line < usize::MAX && p.column < usize::MAX,
    ensures
        r.source == source,
        r.severity@ == severity_word(diagnostic.severity),
        r.message == diagnostic.message,
        match diagnostic.primary_location {
            Some(p) => r.line == p.line + 1 && r.column == p.column + 1,
            None => r.line == 0 && r.column == 0,
        },
{
    let (line, column) = match diagnostic.primary_location {
        Some(begin) => (begin.line as usize + 1, begin.column as usize + 1),
        None => (0, 0),
    };
    let severity = match diagnostic.severity {
        DiagnosticSeverity::Error => "error".to_string(),
        _ => "warning".to_string(),
    };
    ScriptCheckDiagnostic { source, severity, line, column, message: diagnostic.message }
}

/// The decimal digits of a number.
pub open spec fn decimal(n: nat) -> Seq<char>
    decreases n,
{
    if n < 10 {
        seq![((n + 48) as u8) as char]
    } else {
        decimal(n / 10).push((((n % 10) + 48) as u8) as char)
    }
}

/// Append the decimal digits of a number.
pub fn push_decimal(out: &mut String, n: usize)
    ensures
        final(out)@ == old(out)@ + decimal(n as nat),
    decreases n,
{
    if n >= 10 {
        push_decimal(out, n / 10);
    }
    let d = (n % 10) as u8;
    push_char(out, (d + 48) as char);
    proof {
        if n < 10 {
            assert(n % 10 == n);
        }
    }
}

/// Whether a severity string is `error`.
pub open spec fn is_error_severity(s: Seq<char>) -> bool {
    s == seq!['e', 'r', 'r', 'o', 'r']
}

/// The rendering of one diagnostic: `source:line:column: message`, without
/// the source part when there is none.
pub open spec fn diagnostic_text(d: ScriptCheckDiagnostic) -> Seq<char> {
    let tail = decimal(d.line as nat) + seq![':'] + decimal(d.column as nat) + seq![':', ' '] + d.message@;
    match d.source {
        Some(s) => s@ + seq![':'] + tail,
        None => tail,
    }
}

impl ScriptCheckDiagnostic {
    /// Return true if this diagnostic should fail script evaluation.
    pub fn is_error(&self) -> (r: bool)
        ensures
            r == is_error_severity(self.severity@),
    {
        proof {
            reveal_strlit("error");
        }
        let b = str_eq(self.severity.as_str(), "error");
        assert("error"@ =~= seq!['e', 'r', 'r', 'o', 'r']);
        b
    }

    /// Render the diagnostic as `source:line:column: message`.
    pub fn to_display_string(&self) -> (r: String)
        ensures
            r@ == diagnostic_text(*self),
    {
        let mut out = String::new();
        match &self.source {
            Some(s) => {
                out.append(s.as_str());
                push_char(&mut out, ':');
            },
            None => {},
        }
        push_decimal(&mut out, self.line);
        push_char(&mut out, ':');
        push_decimal(&mut out, self.column);
        push_char(&mut out, ':');
        push_char(&mut out, ' ');
        out.append(self.message.as_str());
        proof {
            let tail = decimal(self.line as nat) + seq![':'] + decimal(self.column as nat) + seq![':', ' '] + self.message@;
            match &self.source {
                Some(s) => {
                    assert(out@ =~= s@ + seq![':'] + tail);
                },
                None => {
                    assert(out@ =~= tail);
                },
            }
        }
        out
    }
}

/// The error diagnostics among the first `k`, in order.
pub open spec fn errors_upto(d: Seq<ScriptCheckDiagnostic>, k: int) -> Seq<ScriptCheckDiagnostic>
    decreases k,
{
    if k <= 0 {
        Seq::empty()
    } else if is_error_severity(d[k - 1].severity@) {
        errors_upto(d, k - 1).push(d[k - 1])
    } else {
        errors_upto(d, k - 1)
    }
}

/// Law: a run of diagnostics has errors exactly when one of them has error
/// severity.
pub proof fn law_has_errors_iff_some_error(d: Seq<ScriptCheckDiagnostic>, k: int)
    requires
        0 <= k <= d.len(),
    ensures
        errors_upto(d, k).len() > 0 <==> exists|i: int| 0 <= i < k && #[trigger] is_error_severity(d[i].severity@),
    decreases k,
{
    if k > 0 {
        law_has_errors_iff_some_error(d, k - 1);
        if is_error_severity(d[k - 1].severity@) {
            assert(is_error_severity(d[k - 1].severity@));
        } else {
            assert forall|i: int| 0 <= i < k && #[trigger] is_error_severity(d[i].severity@) implies 0 <= i < k - 1 by {}
        }
    }
}

/// The renderings of diagnostics joined by newlines.
pub open spec fn join_lines(d: Seq<ScriptCheckDiagnostic>) -> Seq<char>
    decreases d.len(),
{
    if d.len() == 0 {
        Seq::empty()
    } else if d.len() == 1 {
        diagnostic_text(d[0])
    } else {
        join_lines(d.drop_last()) + seq!['\n'] + diagnostic_text(d.last())
    }
}

/// Stable result returned by Luau typechecking APIs.
#[derive(Debug, Clone, PartialEq, Eq)]
pub struct ScriptCheckResult {
    /// Diagnostics emitted by the type checker.
    diagnostics: Vec<ScriptCheckDiagnostic>,
}

impl ScriptCheckResult {
    /// The diagnostics held.
    pub closed spec fn spec_diagnostics(&self) -> Seq<ScriptCheckDiagnostic> {
        self.diagnostics@
    }

    /// Construct a result from type checker diagnostics.
    pub fn from_diagnostics(diagnostics: Vec<ScriptCheckDiagnostic>) -> (r: Self)
        ensures
            r.spec_diagnostics() == diagnostics@,
    {
        ScriptCheckResult { diagnostics }
    }

    /// Return true if there are no failing diagnostics.
    pub fn is_ok(&self) -> (r: bool)
        ensures
            r == (errors_upto(self.spec_diagnostics(), self.spec_diagnostics().len() as int).len() == 0),
    {
        !self.has_errors()
    }

    /// Return all diagnostics.
    pub fn diagnostics(&self) -> (r: &[ScriptCheckDiagnostic])
        ensures
            r@ == self.spec_diagnostics(),
    {
        self.diagnostics.as_slice()
    }

    /// Consume the result and return its diagnostics.
    pub fn into_diagnostics(self) -> (r: Vec<ScriptCheckDiagnostic>)
        ensures
            r@ == self.spec_diagnostics(),
    {
        self.diagnostics
    }

    /// Return true when the result contains failing diagnostics.
    pub fn has_errors(&self) -> (r: bool)
        ensures
            r == (errors_upto(self.spec_diagnostics(), self.spec_diagnostics().len() as int).len() > 0),
    {
        let n = self.diagnostics.len();
        let mut i: usize = 0;
        while i < n
            invariant
                i <= n,
                n == self.diagnostics@.len(),
                errors_upto(self.diagnostics@, i as int).len() == 0,
            decreases n - i,
        {
            if self.diagnostics[i].is_error() {
                proof {
                    lemma_errors_monotone(self.diagnostics@, i as int + 1, n as int);
                }
                return true;
            }
            i = i + 1;
        }
        false
    }

    /// Return failing diagnostics, in order.
    pub fn errors(&self) -> (r: Vec<&ScriptCheckDiagnostic>)
        ensures
            r@.len() == errors_upto(self.spec_diagnostics(), self.spec_diagnostics().len() as int).len(),
            forall|i: int| 0 <= i < r@.len() ==> *#[trigger] r@[i] == errors_upto(self.spec_diagnostics(), self.spec_diagnostics().len() as int)[i],
    {
        let n = self.diagnostics.len();
        let mut out: Vec<&ScriptCheckDiagnostic> = Vec::new();
        let mut i: usize = 0;
        while i < n
            invariant
                i <= n,
                n == self.diagnostics@.len(),
                out@.len() == errors_upto(self.diagnostics@, i as int).len(),
                forall|j: int| 0 <= j < out@.len() ==> *#[trigger] out@[j] == errors_upto(self.diagnostics@, i as int)[j],
            decreases n - i,
        {
            if self.diagnostics[i].is_error() {
                out.push(&self.diagnostics[i]);
            }
            i = i + 1;
        }
        out
    }

    /// Render the failing diagnostics one per line.
    pub fn format_diagnostics(&self) -> (r: String)
        ensures
            r@ == join_lines(errors_upto(self.spec_diagnostics(), self.spec_diagnostics().len() as int)),
    {
        let errs = self.errors();
        let ghost es = errors_upto(self.diagnostics@, self.diagnostics@.len() as int);
        let mut out = String::new();
        let mut i: usize = 0;
        while i < errs.len()
            invariant
                i <= errs@.len(),
                errs@.len() == es.len(),
                forall|j: int| 0 <= j < errs@.len() ==> *#[trigger] errs@[j] == es[j],
                out@ == join_lines(es.subrange(0, i as int)),
            decreases errs@.len() - i,
        {
            if i > 0 {
                push_char(&mut out, '\n');
            }
            let t = errs[i].to_display_string();
            out.append(t.as_str());
            proof {
                let s = es.subrange(0, i + 1);
                assert(s.drop_last() =~= es.subrange(0, i as int));
                assert(s.last() == es[i as int]);
                if i == 0 {
                    assert(out@ =~= join_lines(s));
                } else {
                    assert(out@ =~= join_lines(s));
                }
            }
            i = i + 1;
        }
        assert(es.subrange(0, es.len() as int) =~= es);
        out
    }
}

proof fn lemma_errors_monotone(d: Seq<ScriptCheckDiagnostic>, a: int, b: int)
    requires
        0 <= a <= b,
    ensures
        errors_upto(d, a).len() <= errors_upto(d, b).len(),
    decreases b - a,
{
    if a < b {
        lemma_errors_monotone(d, a, b - 1);
    }
}

/// Persistent script namespace.
#[derive(Clone, Copy, Debug, PartialEq, Eq, Structural)]
pub enum Namespace {
    /// Per-user script root.
    User,
    /// Per-project script root.
    Project,
}

impl Namespace {
    /// Return the user-facing namespace name.
    pub fn name(self) -> (r: &'static str)
        ensures
            self == Namespace::User ==> r@ == "@user"@,
            self == Namespace::Project ==> r@ == "@project"@,
    {
        match self {
            Namespace::User => "@user",
            Namespace::Project => "@project",
        }
    }
}

/// Filesystem roots used by persistent Luau module sources.
#[derive(Clone, Debug, Default, PartialEq, Eq)]
pub struct ScriptModuleRoots {
    /// Per-user script root mounted at `@user`.
    user: Option<String>,
    /// Per-project script root mounted at `@project`.
    project: Option<String>,
}

/// The view of an optional string.
pub open spec fn opt_view(o: Option<String>) -> Option<Seq<char>> {
    match o {
        Some(s) => Some(s@),
        None => None,
    }
}

/// The view of an optional string slice.
pub open spec fn opt_str_view(o: Option<&str>) -> Option<Seq<char>> {
    match o {
        Some(s) => Some(s@),
        None => None,
    }
}

impl ScriptModuleRoots {
    /// The configured `@user` root.
    pub closed spec fn spec_user(&self) -> Option<Seq<char>> {
        opt_view(self.user)
    }

    /// The configured `@project` root.
    pub closed spec fn spec_project(&self) -> Option<Seq<char>> {
        opt_view(self.project)
    }

    /// Construct an empty root set.
    pub fn new() -> (r: Self)
        ensures
            r.spec_user() is None,
            r.spec_project() is None,
    {
        ScriptModuleRoots { user: None, project: None }
    }

    /// Return the configured `@user` root.
    pub fn user_root(&self) -> (r: Option<&str>)
        ensures
            opt_str_view(r) == self.spec_user(),
    {
        match &self.user {
            Some(s) => Some(s.as_str()),
            None => None,
        }
    }

    /// Return the configured `@project` root.
    pub fn project_root(&self) -> (r: Option<&str>)
        ensures
            opt_str_view(r) == self.spec_project(),
    {
        match &self.project {
            Some(s) => Some(s.as_str()),
            None => None,
        }
    }

    /// Mount `@user` at `root`.
    pub fn set_user_root(&mut self, root: &str)
        ensures
            final(self).spec_user() == Some(root@),
            final(self).spec_project() == old(self).spec_project(),
    {
        self.user = Some(owned(root));
    }

    /// Mount `@project` at `root`.
    pub fn set_project_root(&mut self, root: &str)
        ensures
            final(self).spec_project() == Some(root@),
            final(self).spec_user() == old(self).spec_user(),
    {
        self.project = Some(owned(root));
    }

    /// Return the configured root for a namespace.
    pub fn root_for(&self, namespace: Namespace) -> (r: Option<&str>)
        ensures
            namespace == Namespace::User ==> opt_str_view(r) == self.spec_user(),
            namespace == Namespace::Project ==> opt_str_view(r) == self.spec_project(),
    {
        match namespace {
            Namespace::User => self.user_root(),
            Namespace::Project => self.project_root(),
        }
    }

    /// The namespaces with a configured root, in layer order: user, then
    /// project. Startup modules are looked up under these roots.
    pub fn configured_namespaces(&self) -> (r: Vec<Namespace>)
        ensures
            r@ == (if self.spec_user() is Some { seq![Namespace::User] } else { Seq::empty() })
                + (if self.spec_project() is Some { seq![Namespace::Project] } else { Seq::empty() }),
    {
        let mut r: Vec<Namespace> = Vec::new();
        if self.user.is_some() {
            r.push(Namespace::User);
        }
        if self.project.is_some() {
            r.push(Namespace::Project);
        }
        proof {
            let a: Seq<Namespace> = if self.spec_user() is Some { seq![Namespace::User] } else { Seq::empty() };
            let b: Seq<Namespace> = if self.spec_project() is Some { seq![Namespace::Project] } else { Seq::empty() };
            assert(r@ =~= a + b);
        }
        r
    }
}

/// Startup module discovered under a persistent script root.
#[derive(Debug)]
pub struct StartupModule {
    /// Namespace that owns the startup module.
    pub namespace: Namespace,
    /// Filesystem path to the startup script.
    pub path: String,
}

// ---------------------------------------------------------------------------
// Source text
// ---------------------------------------------------------------------------

/// The number of leading whitespace characters of a string.
pub open spec fn leading_whitespace(s: Seq<char>) -> nat
    decreases s.len(),
{
    if s.len() > 0 && white_space(s[0]) {
        1 + leading_whitespace(s.drop_first())
    } else {
        0
    }
}

/// Whether a string starts with a prefix.
pub open spec fn starts_with(s: Seq<char>, p: Seq<char>) -> bool {
    s.len() >= p.len() && s.subrange(0, p.len() as int) == p
}

/// A script with strict mode declared, unless after its leading whitespace
/// it already declares a mode with `--!`.
pub open spec fn strict_source_spec(source: Seq<char>) -> Seq<char> {
    let trimmed = source.subrange(leading_whitespace(source) as int, source.len() as int);
    if starts_with(trimmed, seq!['-', '-', '!']) {
        source
    } else {
        "--!strict\n"@ + source
    }
}

/// Facts about the leading whitespace count.
proof fn lemma_leading_whitespace(s: Seq<char>, k: int)
    requires
        0 <= k <= s.len(),
        forall|i: int| 0 <= i < k ==> white_space(#[trigger] s[i]),
        k == s.len() || !white_space(s[k]),
    ensures
        leading_whitespace(s) == k,
    decreases s.len(),
{
    if k > 0 {
        let d = s.drop_first();
        assert forall|i: int| 0 <= i < k - 1 implies white_space(#[trigger] d[i]) by {
            assert(d[i] == s[i + 1]);
        }
        if k < s.len() {
            assert(d[k - 1] == s[k]);
        }
        lemma_leading_whitespace(d, k - 1);
    }
}

/// Prefix scripts with strict mode unless they already declare a mode.
pub fn strict_source(source: &str) -> (r: String)
    ensures
        r@ == strict_source_spec(source@),
{
    let v = str_to_chars(source);
    let n = v.len();
    let mut k: usize = 0;
    while k < n && char_is_whitespace(v[k])
        invariant
            v@ == source@,
            n == v@.len(),
            k <= n,
            forall|i: int| 0 <= i < k ==> white_space(#[trigger] source@[i]),
        decreases n - k,
    {
        k = k + 1;
    }
    proof {
        lemma_leading_whitespace(source@, k as int);
    }
    let declared = n - k >= 3 && v[k] == '-' && v[k + 1] == '-' && v[k + 2] == '!';
    proof {
        let trimmed = source@.subrange(k as int, n as int);
        if n - k >= 3 {
            assert(trimmed.subrange(0, 3) =~= seq![v@[k as int], v@[k + 1], v@[k + 2]]);
        }
        assert(declared == starts_with(trimmed, seq!['-', '-', '!']));
    }
    if declared {
        owned(source)
    } else {
        let mut out = "--!strict\n".to_string();
        out.append(source);
        out
    }
}

/// A startup script followed by the call of its setup entry point, on a
/// line of its own.
pub open spec fn startup_runtime_spec(source: Seq<char>) -> Seq<char> {
    let body = if source.len() > 0 && source.last() == '\n' { source } else { source.push('\n') };
    body + "setup()\n"@
}

/// Runtime source for a startup script: evaluate the root, then call its
/// obligated setup entry point from the same chunk environment.
pub fn startup_runtime_source(source: &str) -> (r: String)
    ensures
        r@ == startup_runtime_spec(source@),
{
    let mut runtime = owned(source);
    let v = str_to_chars(source);
    if !(v.len() > 0 && v[v.len() - 1] == '\n') {
        push_char(&mut runtime, '\n');
    }
    runtime.append("setup()\n");
    runtime
}

/// The Luau keywords, which cannot name a global.
pub open spec fn luau_keywords() -> Seq<Seq<char>> {
    seq![
        "and"@, "break"@, "continue"@, "do"@, "else"@, "elseif"@, "end"@, "export"@, "false"@, "for"@,
        "function"@, "if"@, "in"@, "local"@, "nil"@, "not"@, "or"@, "repeat"@, "return"@, "then"@, "true"@,
        "type"@, "until"@, "while"@,
    ]
}

/// Return the Luau-safe global name for a command owner: a keyword gets
/// the suffix `_cmd`.
pub fn luau_global_owner_name(owner: &str) -> (r: String)
    ensures
        r@ == if luau_keywords().contains(owner@) { owner@ + "_cmd"@ } else { owner@ },
{
    let keywords: [&str; 24] = [
        "and", "break", "continue", "do", "else", "elseif", "end", "export", "false", "for",
        "function", "if", "in", "local", "nil", "not", "or", "repeat", "return", "then", "true",
        "type", "until", "while",
    ];
    let ghost kw = luau_keywords();
    assert(keywords@.map_values(|k: &str| k@) =~= kw);
    let mut found = false;
    let mut i: usize = 0;
    while i < 24
        invariant
            i <= 24,
            keywords@.len() == 24,
            keywords@.map_values(|k: &str| k@) == kw,
            found == exists|j: int| 0 <= j < i && kw[j] == owner@,
        decreases 24 - i,
    {
        assert(keywords@.map_values(|k: &str| k@)[i as int] == keywords@[i as int]@);
        if str_eq(keywords[i], owner) {
            found = true;
        }
        i = i + 1;
    }
    if found {
        let mut out = owned(owner);
        out.append("_cmd");
        out
    } else {
        owned(owner)
    }
}

// ---------------------------------------------------------------------------
// Value paths
// ---------------------------------------------------------------------------

/// Whether a character is an ASCII letter.
pub open spec fn is_ascii_alpha(c: char) -> bool {
    ('a' <= c && c <= 'z') || ('A' <= c && c <= 'Z')
}

/// Whether a character may continue an identifier.
pub open spec fn is_ident_char(c: char) -> bool {
    c == '_' || is_ascii_alpha(c) || ('0' <= c && c <= '9')
}

/// Whether a string can use dotted Luau field notation: a letter or `_`,
/// then letters, digits and `_`.
pub open spec fn luau_identifier(s: Seq<char>) -> bool {
    &&& s.len() > 0
    &&& (s[0] == '_' || is_ascii_alpha(s[0]))
    &&& forall|i: int| 1 <= i < s.len() ==> is_ident_char(#[trigger] s[i])
}

/// Return whether a string can use dotted Luau field notation.
pub fn is_luau_identifier(value: &str) -> (r: bool)
    ensures
        r == luau_identifier(value@),
{
    let v = str_to_chars(value);
    if v.len() == 0 {
        return false;
    }
    let first = v[0];
    if !(first == '_' || ('a' <= first && first <= 'z') || ('A' <= first && first <= 'Z')) {
        return false;
    }
    let mut i: usize = 1;
    while i < v.len()
        invariant
            v@ == value@,
            1 <= i <= v@.len(),
            forall|j: int| 1 <= j < i ==> is_ident_char(#[trigger] value@[j]),
        decreases v@.len() - i,
    {
        let c = v[i];
        if !(c == '_' || ('a' <= c && c <= 'z') || ('A' <= c && c <= 'Z') || ('0' <= c && c <= '9')) {
            return false;
        }
        i = i + 1;
    }
    true
}

/// A field name quoted for Luau bracket notation: backslashes and double
/// quotes escaped with a backslash.
pub open spec fn escape_field(s: Seq<char>) -> Seq<char>
    decreases s.len(),
{
    if s.len() == 0 {
        Seq::empty()
    } else {
        let c = s.last();
        escape_field(s.drop_last()) + if c == '\\' {
            seq!['\\', '\\']
        } else if c == '"' {
            seq!['\\', '"']
        } else {
            seq![c]
        }
    }
}

/// Location within a nested command value, in Luau notation.
#[derive(Debug, Clone)]
pub struct ValuePath(String);

impl View for ValuePath {
    type V = Seq<char>;

    closed spec fn view(&self) -> Seq<char> {
        self.0@
    }
}

impl ValuePath {
    /// Start a value path at a named boundary.
    pub fn root(name: &str) -> (r: Self)
        ensures
            r@ == name@,
    {
        ValuePath(owned(name))
    }

    /// Return the path text.
    pub fn as_str(&self) -> (r: &str)
        ensures
            r@ == self@,
    {
        self.0.as_str()
    }

    /// Extend this path with a one-based sequence index.
    pub fn index(&self, index: usize) -> (r: Self)
        ensures
            r@ == self@ + seq!['['] + decimal(index as nat) + seq![']'],
    {
        let mut out = self.0.clone();
        push_char(&mut out, '[');
        push_decimal(&mut out, index);
        push_char(&mut out, ']');
        ValuePath(out)
    }

    /// Extend this path with a string map field: dotted for identifiers,
    /// otherwise quoted in brackets.
    pub fn field(&self, field: &str) -> (r: Self)
        ensures
            r@ == if luau_identifier(field@) {
                self@ + seq!['.'] + field@
            } else {
                self@ + seq!['[', '"'] + escape_field(field@) + seq!['"', ']']
            },
    {
        let mut out = self.0.clone();
        if is_luau_identifier(field) {
            push_char(&mut out, '.');
            out.append(field);
            return ValuePath(out);
        }
        push_char(&mut out, '[');
        push_char(&mut out, '"');
        let v = str_to_chars(field);
        let ghost base = out@;
        let mut i: usize = 0;
        while i < v.len()
            invariant
                v@ == field@,
                i <= v@.len(),
                out@ == base + escape_field(field@.subrange(0, i as int)),
            decreases v@.len() - i,
        {
            let c = v[i];
            assert(field@.subrange(0, i + 1).drop_last() =~= field@.subrange(0, i as int));
            if c == '\\' {
                push_char(&mut out, '\\');
                push_char(&mut out, '\\');
            } else if c == '"' {
                push_char(&mut out, '\\');
                push_char(&mut out, '"');
            } else {
                push_char(&mut out, c);
            }
            i = i + 1;
            assert(out@ =~= base + escape_field(field@.subrange(0, i as int)));
        }
        assert(field@.subrange(0, v@.len() as int) =~= field@);
        push_char(&mut out, '"');
        push_char(&mut out, ']');
        ValuePath(out)
    }

    /// Prefix a conversion failure with this path.
    pub fn error(&self, message: &str) -> (r: String)
        ensures
            r@ == self@ + seq![':', ' '] + message@,
    {
        let mut out = self.0.clone();
        push_char(&mut out, ':');
        push_char(&mut out, ' ');
        out.append(message);
        out
    }
}

/// The label of a binding owner: `application`, or `framework:` followed by
/// the group name.
pub open spec fn owner_label_spec(owner: OwnerView) -> Seq<char> {
    match owner {
        OwnerView::Application => "application"@,
        OwnerView::Framework(g) => "framework:"@ + g,
    }
}

/// Return the label scripts see for a binding owner.
pub fn owner_label(owner: BindingOwner) -> (r: String)
    ensures
        r@ == owner_label_spec(owner@),
{
    match owner {
        BindingOwner::Application => "application".to_string(),
        BindingOwner::Framework(group) => {
            let mut out = "framework:".to_string();
            out.append(group.as_str());
            out
        },
    }
}


} // verus!
