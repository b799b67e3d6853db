//! The compile result contract: integration errors, source-attributed
//! diagnostics, and the versioned compile report.
use vstd::prelude::*;
use crate::hir::{self, SourceFile, Span as HirSpan};
use workshop_rs::catalog::CatalogIdentity;

verus! {

#[verifier::external_type_specification]
#[verifier::external_body]
pub struct ExCatalogIdentity(CatalogIdentity);

#[verifier::external_type_specification]
#[verifier::external_body]
pub struct ExWorkshopProgram(workshop_rs::program::Program);

/// Version of the machine-readable compile report contract.
pub const COMPILE_SCHEMA_VERSION: u32 = 1;

/// The name this compiler reports itself under.
pub const COMPILER_NAME: &'static str = "opy-rs";

/// The version this compiler reports itself under.
pub const COMPILER_VERSION: &'static str = "0.1.0";

/// A line and column of a frontend diagnostic.
#[derive(Clone, Copy, Debug, PartialEq, Eq)]
pub struct Position {
    pub line: u32,
    pub col: u32,
}

/// The span of a frontend diagnostic.
#[derive(Clone, Copy, Debug, PartialEq, Eq)]
pub struct DiagSpan {
    pub file: u32,
    pub start: Position,
    pub end: Position,
}

/// How serious a diagnostic is.
#[derive(Clone, Copy, Debug, PartialEq, Eq)]
pub enum DiagnosticSeverity {
    Error,
    Warning,
}

/// Where in which file a diagnostic points.
#[derive(Clone, Debug, PartialEq, Eq)]
pub struct SourceLocation {
    pub file_id: u32,
    pub path: String,
    pub start: Position,
    pub end: Position,
}

/// A diagnostic of the OPY frontend.
#[derive(Clone, Debug, PartialEq, Eq)]
pub struct Diagnostic {
    pub severity: DiagnosticSeverity,
    pub code: String,
    pub message: String,
    pub span: Option<SourceLocation>,
}

/// Stable identity of the compiler that produced a compile report.
#[derive(Debug, Clone, PartialEq, Eq)]
pub struct CompilerIdentity {
    pub name: &'static str,
    pub version: &'static str,
}

/// Whether compilation produced a valid Workshop artifact.
#[derive(Debug, Clone, Copy, PartialEq, Eq)]
pub enum CompileStatus {
    Success,
    Failure,
}

/// Stable classification for a compile failure.
#[derive(Debug, Clone, Copy, PartialEq, Eq)]
pub enum CompileFailureClass {
    Frontend,
    Integration,
}

/// Script-runtime provenance retained alongside the OPY directive anchor.
#[derive(Debug, Clone, PartialEq, Eq)]
pub struct ScriptDiagnostic {
    pub source_name: Option<String>,
    pub line: Option<u32>,
    pub column: Option<u32>,
    pub stack: Option<String>,
}

/// A versioned, source-attributed diagnostic exposed by the compile API.
#[derive(Debug, Clone, PartialEq, Eq)]
pub struct CompileDiagnostic {
    pub severity: DiagnosticSeverity,
    pub code: String,
    pub message: String,
    pub span: Option<SourceLocation>,
    pub script: Option<ScriptDiagnostic>,
}

/// The machine-readable result for one compile operation.
#[derive(Debug, Clone, PartialEq, Eq)]
pub struct CompileResult {
    pub status: CompileStatus,
    pub exit_code: u8,
    pub failure_class: Option<CompileFailureClass>,
    pub diagnostics: Vec<CompileDiagnostic>,
    pub stdout: String,
    pub workshop_exact: String,
    pub workshop: String,
}

/// Complete versioned compile report for CLI, CI, and embedding consumers.
pub struct CompileReport {
    pub schema_version: u32,
    pub compiler: CompilerIdentity,
    pub catalog: CatalogIdentity,
    pub compile: CompileResult,
}

/// A source-attributed integration diagnostic.
#[derive(Debug, Clone, PartialEq, Eq)]
pub struct IntegrationDiagnostic {
    pub code: String,
    pub message: String,
    pub span: Option<HirSpan>,
    pub script: Option<Box<ScriptDiagnostic>>,
}

/// An integration boundary failure.
#[derive(Debug, Clone, PartialEq, Eq)]
pub struct IntegrationError {
    pub diagnostic: IntegrationDiagnostic,
}

/// An error thrown by a script that the macro runtime ran.
#[derive(Debug, Clone, PartialEq, Eq)]
pub struct ScriptError {
    pub message: String,
    pub source_name: Option<String>,
    pub line: Option<u32>,
    pub column: Option<u32>,
    pub stack: Option<String>,
}

/// A failure of the macro runtime, with the text it reports.
#[derive(Debug, Clone, PartialEq, Eq)]
pub enum MacroError {
    Script(ScriptError),
    InvalidResult { message: String },
    Internal(String),
}

/// A source compile result for ordinary embedding callers.
#[derive(Debug, Clone, PartialEq, Eq)]
pub struct CompileOutput {
    /// Workshop text after a declared post-compile hook, if any.
    pub workshop: String,
    /// Workshop text emitted before a declared post-compile hook.
    pub emitted_workshop: String,
    /// Console lines captured while running a declared post-compile hook.
    pub hook_console_output: Vec<String>,
}

/// A validated canonical Workshop `Program` and its emitted Workshop artifact.
pub struct CompilationArtifact {
    pub wir: workshop_rs::program::Program,
    pub emitted: String,
    pub catalog_identity: CatalogIdentity,
    pub final_output: String,
    pub hook_console_output: Vec<String>,
}

impl CompilerIdentity {
    /// The identity of this compiler.
    pub fn current() -> (r: Self)
        ensures
            r.name@ == COMPILER_NAME@,
            r.version@ == COMPILER_VERSION@,
    {
        CompilerIdentity { name: COMPILER_NAME, version: COMPILER_VERSION }
    }
}

impl IntegrationDiagnostic {
    /// A diagnostic without script provenance.
    pub fn new(code: &str, message: String, span: Option<HirSpan>) -> (r: Self)
        ensures
            r.code@ == code@,
            r.message@ == message@,
            r.span == span,
            r.script is None,
    {
        IntegrationDiagnostic { code: code.to_owned(), message, span, script: None }
    }
}

impl IntegrationError {
    /// An integration error with the given code, message and span.
    pub fn new(code: &str, message: String, span: Option<HirSpan>) -> (r: Self)
        ensures
            r.diagnostic.code@ == code@,
            r.diagnostic.message@ == message@,
            r.diagnostic.span == span,
            r.diagnostic.script is None,
    {
        IntegrationError { diagnostic: IntegrationDiagnostic::new(code, message, span) }
    }

    /// The error as text: its code, a colon and its message.
    pub fn to_string(&self) -> (r: String)
        ensures
            r@ == self.diagnostic.code@ + ": "@ + self.diagnostic.message@,
    {
        let mut v: Vec<char> = Vec::new();
        crate::strings::push_str(&mut v, self.diagnostic.code.as_str());
        crate::strings::push_str(&mut v, ": ");
        crate::strings::push_str(&mut v, self.diagnostic.message.as_str());
        crate::strings::string_of(&v)
    }

    /// A failed post-compile hook, anchored at its directive; a script error
    /// keeps its source name, position and stack.
    pub fn post_compile_hook(error: MacroError, span: Option<HirSpan>) -> (r: Self)
        ensures
            r.diagnostic.code@ == "post-compile-hook"@,
            r.diagnostic.message == macro_error_message(error),
            r.diagnostic.span == span,
            match error {
                MacroError::Script(e) => r.diagnostic.script == Some(
                    Box::new(
                        ScriptDiagnostic {
                            source_name: e.source_name,
                            line: e.line,
                            column: e.column,
                            stack: e.stack,
                        },
                    ),
                ),
                _ => r.diagnostic.script is None,
            },
    {
        let (message, script) = match error {
            MacroError::Script(error) => (
                error.message,
                Some(
                    Box::new(
                        ScriptDiagnostic {
                            source_name: error.source_name,
                            line: error.line,
                            column: error.column,
                            stack: error.stack,
                        },
                    ),
                ),
            ),
            MacroError::InvalidResult { message } => (message, None),
            MacroError::Internal(message) => (message, None),
        };
        IntegrationError {
            diagnostic: IntegrationDiagnostic {
                code: "post-compile-hook".to_owned(),
                message,
                span,
                script,
            },
        }
    }
}

/// The text a macro runtime failure reports.
pub open spec fn macro_error_message(error: MacroError) -> String {
    match error {
        MacroError::Script(e) => e.message,
        MacroError::InvalidResult { message } => message,
        MacroError::Internal(message) => message,
    }
}

/// The file of `files` whose id is `id`: the first one, if several are.
pub open spec fn file_with_id(files: Seq<SourceFile>, id: u32) -> Option<SourceFile> {
    if exists|i: int| 0 <= i < files.len() && (#[trigger] files[i]).id == id {
        let i = choose|i: int|
            0 <= i < files.len() && (#[trigger] files[i]).id == id && forall|j: int|
                0 <= j < i ==> files[j].id != id;
        Some(files[i])
    } else {
        None
    }
}

/// The location of a span in the program's files, if its file is one of them.
pub open spec fn location_of(span: HirSpan, files: Seq<SourceFile>) -> Option<SourceLocation> {
    match file_with_id(files, span.file) {
        Some(file) => Some(
            SourceLocation {
                file_id: span.file,
                path: file.path,
                start: Position { line: span.start.line, col: span.start.col },
                end: Position { line: span.end.line, col: span.end.col },
            },
        ),
        None => None,
    }
}

/// The first file with a given id has the smallest such index.
proof fn lemma_first_file(files: Seq<SourceFile>, id: u32, i: int)
    requires
        0 <= i < files.len(),
        files[i].id == id,
        forall|j: int| 0 <= j < i ==> files[j].id != id,
    ensures
        file_with_id(files, id) == Some(files[i]),
{
    let k = choose|k: int|
        0 <= k < files.len() && (#[trigger] files[k]).id == id && forall|j: int|
            0 <= j < k ==> files[j].id != id;
    assert(files[i].id == id);
    if k < i {
        assert(files[k].id != id);
    } else if i < k {
        assert(files[i].id != id);
    }
}

/// The source location of a span, with the path of its file.
pub fn source_location_from_hir(span: HirSpan, files: &[SourceFile]) -> (r: Option<SourceLocation>)
    ensures
        r == location_of(span, files@),
{
    let mut i: usize = 0;
    while i < files.len()
        invariant
            0 <= i <= files@.len(),
            forall|j: int| 0 <= j < i ==> files@[j].id != span.file,
        decreases files@.len() - i,
    {
        if files[i].id == span.file {
            proof {
                lemma_first_file(files@, span.file, i as int);
            }
            return Some(
                SourceLocation {
                    file_id: span.file,
                    path: files[i].path.clone(),
                    start: Position { line: span.start.line, col: span.start.col },
                    end: Position { line: span.end.line, col: span.end.col },
                },
            );
        }
        i = i + 1;
    }
    None
}

/// The compile diagnostic for an integration error, located in the program's files.
pub fn compile_diagnostic(error: IntegrationError, files: &[SourceFile]) -> (r: CompileDiagnostic)
    ensures
        r.severity == DiagnosticSeverity::Error,
        r.code == error.diagnostic.code,
        r.message == error.diagnostic.message,
        r.span == match error.diagnostic.span {
            Some(span) => location_of(span, files@),
            None => None,
        },
        r.script == match error.diagnostic.script {
            Some(script) => Some(*script),
            None => None,
        },
{
    let diagnostic = error.diagnostic;
    let span = match diagnostic.span {
        Some(span) => source_location_from_hir(span, files),
        None => None,
    };
    let script = match diagnostic.script {
        Some(script) => Some(*script),
        None => None,
    };
    CompileDiagnostic {
        severity: DiagnosticSeverity::Error,
        code: diagnostic.code,
        message: diagnostic.message,
        span,
        script,
    }
}

/// The compile diagnostic for a frontend diagnostic.
pub fn compile_frontend_diagnostic(diagnostic: &Diagnostic) -> (r: CompileDiagnostic)
    ensures
        r.severity == diagnostic.severity,
        r.code == diagnostic.code,
        r.message == diagnostic.message,
        r.span == diagnostic.span,
        r.script is None,
{
    CompileDiagnostic {
        severity: diagnostic.severity,
        code: diagnostic.code.clone(),
        message: diagnostic.message.clone(),
        span: clone_location(&diagnostic.span),
        script: None,
    }
}

/// A copy of an optional source location.
fn clone_location(span: &Option<SourceLocation>) -> (r: Option<SourceLocation>)
    ensures
        r == *span,
{
    match span {
        Some(location) => Some(
            SourceLocation {
                file_id: location.file_id,
                path: location.path.clone(),
                start: location.start,
                end: location.end,
            },
        ),
        None => None,
    }
}

/// The program span of a frontend diagnostic span.
pub fn hir_span_from_diag(span: DiagSpan) -> (r: HirSpan)
    ensures
        r == (HirSpan {
            file: span.file,
            start: hir::Position { line: span.start.line, col: span.start.col },
            end: hir::Position { line: span.end.line, col: span.end.col },
        }),
{
    HirSpan {
        file: span.file,
        start: hir::Position { line: span.start.line, col: span.start.col },
        end: hir::Position { line: span.end.line, col: span.end.col },
    }
}

impl CompilationArtifact {
    /// The emitted texts and hook output, without the canonical program.
    pub fn into_output(self) -> (r: CompileOutput)
        ensures
            r.workshop == self.final_output,
            r.emitted_workshop == self.emitted,
            r.hook_console_output == self.hook_console_output,
    {
        CompileOutput {
            workshop: self.final_output,
            emitted_workshop: self.emitted,
            hook_console_output: self.hook_console_output,
        }
    }
}

impl CompileReport {
    /// The report of a compile that produced `artifact`: exit code 0, the
    /// final Workshop text exactly as emitted and in normalized form.
    pub fn success(
        compiler: CompilerIdentity,
        catalog: CatalogIdentity,
        artifact: CompilationArtifact,
        diagnostics: Vec<CompileDiagnostic>,
    ) -> (r: Self)
        ensures
            r.schema_version == COMPILE_SCHEMA_VERSION,
            r.compiler == compiler,
            r.catalog == catalog,
            r.compile.status == CompileStatus::Success,
            r.compile.exit_code == 0,
            r.compile.failure_class is None,
            r.compile.diagnostics == diagnostics,
            r.compile.stdout@.len() == 0,
            r.compile.workshop_exact@ == artifact.final_output@,
            r.compile.workshop@ == crate::workshop_text::normalized_workshop(artifact.final_output@),
    {
        let workshop = crate::workshop_text::normalize_workshop(artifact.final_output.as_str());
        CompileReport {
            schema_version: COMPILE_SCHEMA_VERSION,
            compiler,
            catalog,
            compile: CompileResult {
                status: CompileStatus::Success,
                exit_code: 0,
                failure_class: None,
                diagnostics,
                stdout: String::new(),
                workshop_exact: artifact.final_output,
                workshop,
            },
        }
    }

    /// The report of a failed compile: exit code 1, its failure class and
    /// diagnostics, and no Workshop text.
    pub fn failure(
        compiler: CompilerIdentity,
        catalog: CatalogIdentity,
        failure_class: CompileFailureClass,
        diagnostics: Vec<CompileDiagnostic>,
    ) -> (r: Self)
        ensures
            r.schema_version == COMPILE_SCHEMA_VERSION,
            r.compiler == compiler,
            r.catalog == catalog,
            r.compile.status == CompileStatus::Failure,
            r.compile.exit_code == 1,
            r.compile.failure_class == Some(failure_class),
            r.compile.diagnostics == diagnostics,
            r.compile.stdout@.len() == 0,
            r.compile.workshop_exact@.len() == 0,
            r.compile.workshop@.len() == 0,
    {
        CompileReport {
            schema_version: COMPILE_SCHEMA_VERSION,
            compiler,
            catalog,
            compile: CompileResult {
                status: CompileStatus::Failure,
                exit_code: 1,
                failure_class: Some(failure_class),
                diagnostics,
                stdout: String::new(),
                workshop_exact: String::new(),
                workshop: String::new(),
            },
        }
    }
}

} // verus!
