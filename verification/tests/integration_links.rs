use opy_rs::hir::{OptimizationState, Position, Preprocessing, ResolvedProgram, SourceFile, Span};
use opy_rs::integration::{
    check_compiler_contract, cross_check_manifest, hir_span_from_workshop, workshop_failure, ContextPolicy, LinkReport,
};
use opy_rs::manifest::{FunctionKind, Manifest, ManifestFunction, ManifestParam};
use workshop_rs::catalog::Catalog;

fn function(id: &str, kind: FunctionKind, catalog_id: Option<&str>, domains: &[Option<&str>]) -> ManifestFunction {
    ManifestFunction {
        id: id.to_string(),
        kind,
        catalog_id: catalog_id.map(|c| c.to_string()),
        params: domains
            .iter()
            .enumerate()
            .map(|(i, d)| ManifestParam { name: format!("p{i}"), domain: d.map(|d| d.to_string()) })
            .collect(),
    }
}

fn no_policy() -> ContextPolicy {
    ContextPolicy { contextual_domains: Vec::new(), options: Vec::new() }
}

#[test]
fn stale_catalog_links_fail_explicitly() {
    let catalog = Catalog::builtin().unwrap();
    let manifest = Manifest {
        functions: vec![function("destroyIcon", FunctionKind::Action, Some("missing-catalog-id"), &[])],
    };
    let error = cross_check_manifest(&manifest, &catalog, &no_policy()).unwrap_err();
    assert_eq!(error.diagnostic.code, "catalog-link-missing");
    assert_eq!(
        error.diagnostic.message,
        "manifest function 'destroyIcon' links to missing Action catalog id 'missing-catalog-id'"
    );
}

#[test]
fn catalog_links_are_counted() {
    let catalog = Catalog::builtin().unwrap();
    let manifest = Manifest {
        functions: vec![
            function("destroyIcon", FunctionKind::Action, Some("destroyIcon"), &[None]),
            function("getMaxHealth", FunctionKind::MemberValue, Some("getMaxHealth"), &[Some("Color"), Some("Ctx")]),
        ],
    };
    let policy = ContextPolicy {
        contextual_domains: vec!["Ctx".to_string()],
        options: vec![("getMaxHealth".to_string(), vec!["Impulse".to_string()])],
    };
    let report = cross_check_manifest(&manifest, &catalog, &policy).unwrap();
    assert_eq!(report, LinkReport { catalog_ids_checked: 2, domains_checked: 2 });
}

#[test]
fn missing_domains_are_reported_by_parameter_and_option() {
    let catalog = Catalog::builtin().unwrap();
    let manifest = Manifest {
        functions: vec![function("getMaxHealth", FunctionKind::Value, None, &[Some("NoSuchDomain")])],
    };
    let error = cross_check_manifest(&manifest, &catalog, &no_policy()).unwrap_err();
    assert_eq!(error.diagnostic.code, "domain-link-missing");
    assert_eq!(
        error.diagnostic.message,
        "manifest function 'getMaxHealth' parameter 'p0' links to missing enum domain 'NoSuchDomain',"
    );
    let manifest = Manifest { functions: vec![function("f", FunctionKind::Value, None, &[])] };
    let policy = ContextPolicy {
        contextual_domains: Vec::new(),
        options: vec![("f".to_string(), vec!["Color".to_string(), "Nope".to_string()])],
    };
    let error = cross_check_manifest(&manifest, &catalog, &policy).unwrap_err();
    assert_eq!(
        error.diagnostic.message,
        "manifest function 'f' contextual option links to missing enum domain 'Nope'"
    );
}

fn program_with_file(id: u32) -> ResolvedProgram {
    ResolvedProgram {
        files: vec![SourceFile { id, path: "main.opy".to_string() }],
        declarations: Vec::new(),
        rules: Vec::new(),
        preprocessing: Preprocessing {
            directives: Vec::new(),
            optimization: OptimizationState {
                enabled: true,
                for_size: false,
                for_size_aggressive: false,
                strict: false,
            },
            source_file_initial_optimization: Vec::new(),
            translations: None,
        },
        settings: None,
    }
}

#[test]
fn workshop_spans_map_to_known_files_only() {
    let span = Span { file: 2, start: Position { line: 1, col: 2 }, end: Position { line: 1, col: 5 } };
    assert_eq!(hir_span_from_workshop(span, &program_with_file(2)), Some(span));
    assert_eq!(hir_span_from_workshop(span, &program_with_file(3)), None);
}

#[test]
fn workshop_failures_keep_their_text_and_anchor() {
    let wspan = workshop_rs::source::Span::new(
        workshop_rs::source::FileId::from_index(2),
        workshop_rs::source::Position::new(4, 1),
        workshop_rs::source::Position::new(4, 9),
    );
    let error = workshop_rs::WorkshopError::Malformed { message: "bad".to_string(), span: Some(wspan) };
    let failure = workshop_failure("workshop-validation", &error, &program_with_file(2));
    assert_eq!(failure.diagnostic.code, "workshop-validation");
    assert_eq!(failure.diagnostic.message, error.to_string());
    assert_eq!(
        failure.diagnostic.span,
        Some(Span { file: 2, start: Position { line: 4, col: 1 }, end: Position { line: 4, col: 9 } })
    );
    let elsewhere = workshop_failure("workshop-emission", &error, &program_with_file(1));
    assert_eq!(elsewhere.diagnostic.span, None);
}

#[test]
fn compiler_contract_refuses_each_failed_load_in_order() {
    let bad = Catalog::load("not a catalog").map(|_| ()).unwrap_err();
    let text = bad.to_string();
    let error = check_compiler_contract(Catalog::load("not a catalog"), Err("no manifest".to_string()), &no_policy(), "0.3.14")
        .err()
        .expect("catalog does not load");
    assert_eq!(error.diagnostic.code, "catalog-load");
    assert_eq!(error.diagnostic.message, text);
    let error = check_compiler_contract(Catalog::builtin(), Err("no manifest".to_string()), &no_policy(), "0.3.14")
        .err()
        .expect("manifest does not load");
    assert_eq!(error.diagnostic.code, "manifest-load");
    assert_eq!(error.diagnostic.message, "no manifest");
    let manifest = Manifest { functions: vec![function("destroyIcon", FunctionKind::Action, Some("destroyIcon"), &[])] };
    let error = check_compiler_contract(Catalog::builtin(), Ok(manifest), &no_policy(), "9.9.9")
        .err()
        .expect("version differs");
    assert_eq!(error.diagnostic.code, "workshop-contract-version");
    assert_eq!(error.diagnostic.message, "expected workshop-rs 9.9.9, loaded 0.3.14");
    let manifest = Manifest { functions: vec![function("destroyIcon", FunctionKind::Action, Some("destroyIcon"), &[])] };
    let (_, _, links) = check_compiler_contract(Catalog::builtin(), Ok(manifest), &no_policy(), "0.3.14")
        .ok()
        .expect("contract holds");
    assert_eq!(links, LinkReport { catalog_ids_checked: 1, domains_checked: 0 });
}
