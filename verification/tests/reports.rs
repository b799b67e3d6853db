use opy_rs::diagnostics::{
    compile_diagnostic, compile_frontend_diagnostic, hir_span_from_diag, source_location_from_hir,
    CompilationArtifact, CompileFailureClass, CompileReport, CompileStatus, CompilerIdentity,
    DiagSpan, Diagnostic, DiagnosticSeverity, IntegrationDiagnostic, IntegrationError, MacroError,
    Position, ScriptDiagnostic, ScriptError, SourceLocation, COMPILE_SCHEMA_VERSION,
};
use opy_rs::hir::{Position as HirPosition, SourceFile, Span};
use workshop_rs::catalog::Catalog;
use workshop_rs::program::Program;

fn hir_span(file: u32) -> Span {
    Span { file, start: HirPosition { line: 3, col: 4 }, end: HirPosition { line: 3, col: 9 } }
}

fn files() -> Vec<SourceFile> {
    vec![
        SourceFile { id: 0, path: "main.opy".to_string() },
        SourceFile { id: 2, path: "lib.opy".to_string() },
    ]
}

#[test]
fn compiler_identity_is_stable() {
    let identity = CompilerIdentity::current();
    assert_eq!(identity.name, "opy-rs");
    assert_eq!(identity.version, "0.1.0");
}

#[test]
fn integration_errors_keep_code_message_and_span() {
    let error = IntegrationError::new("code", "message".to_string(), Some(hir_span(0)));
    assert_eq!(error.diagnostic.code, "code");
    assert_eq!(error.diagnostic.message, "message");
    assert_eq!(error.diagnostic.span, Some(hir_span(0)));
    assert!(error.diagnostic.script.is_none());
    let diagnostic = IntegrationDiagnostic::new("c", "m".to_string(), None);
    assert_eq!(diagnostic.code, "c");
}

#[test]
fn hook_failure_error_keeps_script_provenance() {
    let script = ScriptError {
        message: "boom".to_string(),
        source_name: Some("hook-boom.js".to_string()),
        line: Some(1),
        column: Some(7),
        stack: Some("at hook-boom.js:1".to_string()),
    };
    let error = IntegrationError::post_compile_hook(MacroError::Script(script), Some(hir_span(0)));
    assert_eq!(error.diagnostic.code, "post-compile-hook");
    assert_eq!(error.diagnostic.message, "boom");
    assert_eq!(error.diagnostic.span, Some(hir_span(0)));
    let script = error.diagnostic.script.unwrap();
    assert_eq!(script.source_name.as_deref(), Some("hook-boom.js"));
    assert_eq!(script.line, Some(1));
    assert!(script.stack.unwrap().contains("hook-boom.js:1"));
    let other = IntegrationError::post_compile_hook(MacroError::Internal("bad".to_string()), None);
    assert_eq!(other.diagnostic.message, "bad");
    assert!(other.diagnostic.script.is_none());
}

#[test]
fn spans_resolve_to_their_source_files() {
    let location = source_location_from_hir(hir_span(2), &files()).unwrap();
    assert_eq!(
        location,
        SourceLocation {
            file_id: 2,
            path: "lib.opy".to_string(),
            start: Position { line: 3, col: 4 },
            end: Position { line: 3, col: 9 },
        }
    );
    assert!(source_location_from_hir(hir_span(1), &files()).is_none());
}

#[test]
fn integration_errors_become_compile_diagnostics() {
    let error = IntegrationError::new("index-collision", "dup".to_string(), Some(hir_span(0)));
    let diagnostic = compile_diagnostic(error, &files());
    assert_eq!(diagnostic.severity, DiagnosticSeverity::Error);
    assert_eq!(diagnostic.code, "index-collision");
    assert_eq!(diagnostic.message, "dup");
    assert_eq!(diagnostic.span.unwrap().path, "main.opy");
    assert!(diagnostic.script.is_none());
}

#[test]
fn frontend_diagnostics_keep_their_severity() {
    let frontend = Diagnostic {
        severity: DiagnosticSeverity::Warning,
        code: "w_already_imported".to_string(),
        message: "again".to_string(),
        span: None,
    };
    let diagnostic = compile_frontend_diagnostic(&frontend);
    assert_eq!(diagnostic.severity, DiagnosticSeverity::Warning);
    assert_eq!(diagnostic.code, "w_already_imported");
    assert_eq!(diagnostic.message, "again");
    assert!(diagnostic.span.is_none());
    assert_eq!(diagnostic.script, None::<ScriptDiagnostic>);
}

#[test]
fn diagnostic_spans_convert_to_hir_spans() {
    let span = hir_span_from_diag(DiagSpan {
        file: 5,
        start: Position { line: 1, col: 2 },
        end: Position { line: 3, col: 4 },
    });
    assert_eq!(span, Span { file: 5, start: HirPosition { line: 1, col: 2 }, end: HirPosition { line: 3, col: 4 } });
}

#[test]
fn compile_report_is_versioned() {
    let catalog = Catalog::builtin().unwrap();
    let artifact = CompilationArtifact {
        wir: Program::default(),
        emitted: "rule\r\n".to_string(),
        catalog_identity: catalog.identity(),
        final_output: "rule  \r\n\r\n".to_string(),
        hook_console_output: vec!["log".to_string()],
    };
    let report = CompileReport::success(CompilerIdentity::current(), catalog.identity(), artifact, Vec::new());
    assert_eq!(report.schema_version, COMPILE_SCHEMA_VERSION);
    assert_eq!(report.compile.status, CompileStatus::Success);
    assert_eq!(report.compile.exit_code, 0);
    assert_eq!(report.compile.workshop_exact, "rule  \r\n\r\n");
    assert_eq!(report.compile.workshop, "rule\n");
    let failed = CompileReport::failure(
        CompilerIdentity::current(),
        catalog.identity(),
        CompileFailureClass::Frontend,
        Vec::new(),
    );
    assert_eq!(failed.compile.exit_code, 1);
    assert_eq!(failed.compile.failure_class, Some(CompileFailureClass::Frontend));
    assert!(failed.compile.workshop.is_empty());
}

#[test]
fn artifacts_keep_their_texts() {
    let catalog = Catalog::builtin().unwrap();
    let artifact = CompilationArtifact {
        wir: Program::default(),
        emitted: "emitted".to_string(),
        catalog_identity: catalog.identity(),
        final_output: "final".to_string(),
        hook_console_output: vec!["line".to_string()],
    };
    let output = artifact.into_output();
    assert_eq!(output.workshop, "final");
    assert_eq!(output.emitted_workshop, "emitted");
    assert_eq!(output.hook_console_output, vec!["line".to_string()]);
}

#[test]
fn integration_errors_read_as_code_and_message() {
    let error = IntegrationError::new("index-collision", "slots collide".to_string(), None);
    assert_eq!(error.to_string(), "index-collision: slots collide");
}
