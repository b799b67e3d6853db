use opy_rs::declaration_sections::{
    declaration_marker_text, declaration_markers, omit_declaration_sections, omit_marked_sections,
};
use opy_rs::hir::{Directive, DirectiveState, OptimizationState, Preprocessing, ResolvedProgram};
use opy_rs::pipeline::{finish_compilation, start_compilation};
use workshop_rs::catalog::{Catalog, Locale};
use workshop_rs::program::{Program, Subroutine, Variable};

const OUTPUT: &str = "variables {\n    global:\n        0: score\n    player:\n        3: lives\n}\n\nsubroutines {\n    1: helper\n}\n\nrule (\"r\") {\n    event {\n        Ongoing - Global;\n    }\n}\n\n";

#[test]
fn markers_carry_the_index_when_there_is_one() {
    assert_eq!(declaration_marker_text("score", Some(12)), "12: score");
    assert_eq!(declaration_marker_text("score", None), "score");
    let markers = declaration_markers(&vec![
        ("a".to_string(), Some(0)),
        ("b".to_string(), None),
    ]);
    assert_eq!(markers, vec!["0: a".to_string(), "b".to_string()]);
}

#[test]
fn marked_sections_are_removed_with_their_blank_line() {
    let out = omit_marked_sections(OUTPUT, &vec!["0: score".to_string()]);
    assert_eq!(
        out,
        "subroutines {\n    1: helper\n}\n\nrule (\"r\") {\n    event {\n        Ongoing - Global;\n    }\n}\n\n"
    );
    let both = omit_marked_sections(OUTPUT, &vec!["1: helper".to_string(), "3: lives".to_string()]);
    assert_eq!(both, "rule (\"r\") {\n    event {\n        Ongoing - Global;\n    }\n}\n\n");
}

#[test]
fn no_markers_keep_the_output() {
    assert_eq!(omit_marked_sections(OUTPUT, &Vec::new()), OUTPUT);
    assert_eq!(omit_marked_sections(OUTPUT, &vec!["9: nothing".to_string()]), OUTPUT);
}

#[test]
fn a_marker_without_an_opening_line_removes_nothing() {
    let text = "    0: orphan\nrest\n";
    assert_eq!(omit_marked_sections(text, &vec!["0: orphan".to_string()]), text);
}

#[test]
fn an_unclosed_section_removes_only_its_opening_line() {
    let text = "variables {\n    0: x\n";
    assert_eq!(omit_marked_sections(text, &vec!["0: x".to_string()]), "    0: x\n");
}

#[test]
fn declared_sections_of_a_program_are_omitted() {
    let mut program = Program::new();
    program
        .global_variable(Variable::with_index("score", 0))
        .player_variable(Variable::with_index("lives", 3))
        .subroutine(Subroutine::with_index("helper", 1));
    let out = omit_declaration_sections(OUTPUT, &program);
    assert!(!out.contains("variables {"));
    assert!(!out.contains("subroutines {"));
    assert!(out.starts_with("rule (\"r\") {"));
}

fn hir_with(directives: Vec<&str>) -> ResolvedProgram {
    let optimization =
        OptimizationState { enabled: true, for_size: false, for_size_aggressive: false, strict: false };
    ResolvedProgram {
        files: Vec::new(),
        declarations: Vec::new(),
        rules: Vec::new(),
        preprocessing: Preprocessing {
            directives: directives
                .into_iter()
                .map(|name| Directive {
                    name: name.to_string(),
                    value: None,
                    span: None,
                    state: DirectiveState { optimization },
                })
                .collect(),
            optimization,
            source_file_initial_optimization: Vec::new(),
            translations: None,
        },
        settings: None,
    }
}

#[test]
fn unknown_locales_are_refused_without_a_span() {
    let catalog = Catalog::builtin().expect("catalog");
    let error = start_compilation(hir_with(Vec::new()), &catalog, &Locale::new("xx-XX")).unwrap_err();
    assert_eq!(error.diagnostic.code, "locale-unsupported");
    assert_eq!(error.diagnostic.message, "workshop catalog does not declare locale 'xx-xx'");
    assert_eq!(error.diagnostic.span, None);
    assert!(start_compilation(hir_with(Vec::new()), &catalog, &Locale::new("en-US")).is_ok());
    let refused = start_compilation(hir_with(vec!["writeToOutputFile"]), &catalog, &Locale::new("en-US"))
        .unwrap_err();
    assert_eq!(refused.diagnostic.code, "backend-directive-unsupported");
}

#[test]
fn excluded_variables_leave_the_emitted_text() {
    let catalog = Catalog::builtin().expect("catalog");
    let mut program = Program::new();
    program.global_variable(Variable::with_index("score", 0));
    let plain = finish_compilation(program.clone(), &catalog, &Locale::new("en-US"), &hir_with(Vec::new()))
        .expect("emits");
    assert_eq!(plain.final_output, plain.emitted);
    assert!(plain.emitted.contains("variables {"));
    let excluded = finish_compilation(
        program,
        &catalog,
        &Locale::new("en-US"),
        &hir_with(vec!["excludeVariablesInCompilation"]),
    )
    .expect("emits");
    assert!(!excluded.emitted.contains("variables {"));
}
