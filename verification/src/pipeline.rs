//! The stages of a compilation around the lowering: checking the locale,
//! refusing directives the compiler cannot honor and expanding macros
//! before it; validating and emitting the Workshop program after it, and
//! post-processing the emitted text as the directives ask.
use vstd::prelude::*;
use crate::declaration_sections::{markers_of, omit_declaration_sections, omitted, workshop_declarations};
use crate::diagnostics::{CompilationArtifact, IntegrationError};
use crate::directives::{directive_names, first_unlowered, has_directive, reject_unlowered_directives};
use crate::element_counts::{annotated_text, emit_debug_element_counts, report_trees, report_usable, rule_count_seq, summary_order_ok, workshop_element_count, CountNode};
use crate::hir::ResolvedProgram;
use crate::integration::workshop_failure;
use crate::macro_program::{expand_macros, expansion_result, macros_of};
use crate::macros::MacroTable;
use crate::strings::{push_str, string_of};
use workshop_rs::catalog::{Catalog, CatalogIdentity, Locale};
use workshop_rs::program::Program;
use workshop_rs::WorkshopError;

verus! {

#[verifier::external_type_specification]
#[verifier::external_body]
pub struct ExLocale(Locale);

/// The normalized spelling of a locale, as `Locale::as_str` gives it.
pub uninterp spec fn locale_spelling(locale: Locale) -> Seq<char>;

/// Whether a catalog declares the locale of this normalized spelling:
/// `Catalog::supports`, membership in the catalog's locale list.
pub uninterp spec fn catalog_declares(catalog: Catalog, locale: Seq<char>) -> bool;

/// Whether `Program::validate` accepts the program.
pub uninterp spec fn workshop_valid(program: Program) -> bool;

/// Whether `validate::validate_canonical_ids` accepts the program's
/// identities against the catalog.
pub uninterp spec fn workshop_ids_valid(program: Program, catalog: Catalog) -> bool;

/// The Workshop text that `emitter::emit` writes of the program in the
/// locale of this spelling, `None` where it fails.
pub uninterp spec fn workshop_emission(program: Program, catalog: Catalog, locale: Seq<char>) -> Option<Seq<char>>;

/// The identity `Catalog::identity` gives of a catalog.
pub uninterp spec fn workshop_identity(catalog: Catalog) -> CatalogIdentity;

/// `Catalog::supports`, whether the catalog's locale list holds the
/// locale; the contract says that the answer is `catalog_declares` of the
/// catalog and the locale's spelling.
#[verifier::external_body]
fn catalog_supports(catalog: &Catalog, locale: &Locale) -> (r: bool)
    ensures
        r == catalog_declares(*catalog, locale_spelling(*locale)),
{
    catalog.supports(locale)
}

/// `Locale::as_str`, the locale's normalized spelling; the contract says
/// that it is `locale_spelling` of the locale.
#[verifier::external_body]
fn locale_text(locale: &Locale) -> (r: String)
    ensures
        r@ == locale_spelling(*locale),
{
    locale.as_str().to_string()
}

/// `Program::validate`, the structural validation of a Workshop program;
/// the contract says that it succeeds exactly where `workshop_valid` holds.
#[verifier::external_body]
fn validate_program(program: &Program) -> (r: Result<(), WorkshopError>)
    ensures
        r is Ok <==> workshop_valid(*program),
{
    program.validate()
}

/// `validate::validate_canonical_ids`, which checks the program's
/// identities against the catalog; the contract says that it succeeds
/// exactly where `workshop_ids_valid` holds.
#[verifier::external_body]
fn validate_ids(program: &Program, catalog: &Catalog) -> (r: Result<(), WorkshopError>)
    ensures
        r is Ok <==> workshop_ids_valid(*program, *catalog),
{
    workshop_rs::validate::validate_canonical_ids(program, catalog)
}

/// `emitter::emit`, which writes the program as Workshop text in the
/// locale; the contract says that its outcome is `workshop_emission` of
/// the program, the catalog and the locale's spelling.
#[verifier::external_body]
fn emit_workshop(program: &Program, catalog: &Catalog, locale: &Locale) -> (r: Result<String, WorkshopError>)
    ensures
        match r {
            Ok(text) => workshop_emission(*program, *catalog, locale_spelling(*locale)) == Some(text@),
            Err(_) => workshop_emission(*program, *catalog, locale_spelling(*locale)) is None,
        },
{
    workshop_rs::emitter::emit(program, catalog, locale)
}

/// `Catalog::identity`, the catalog's reproducibility identity; the
/// contract says that it is `workshop_identity` of the catalog.
#[verifier::external_body]
fn catalog_identity(catalog: &Catalog) -> (r: CatalogIdentity)
    ensures
        r == workshop_identity(*catalog),
{
    catalog.identity()
}

/// The macro expansion of a program, as `expand_macros` states it.
pub open spec fn expanded(hir: ResolvedProgram, r: Result<ResolvedProgram, IntegrationError>) -> bool {
    exists|t: MacroTable|
        {
            &&& macros_of(hir.declarations@, t.defs@)
            &&& !t.attribute_to_site
            &&& #[trigger] expansion_result(t, hir, r)
        }
}

/// The program to lower: refused with `locale-unsupported`, and no span,
/// where the catalog does not declare the locale; refused at the first
/// directive the compiler cannot honor; and otherwise the program with its
/// macros expanded.
pub fn start_compilation(hir: ResolvedProgram, catalog: &Catalog, locale: &Locale) -> (r: Result<
    ResolvedProgram,
    IntegrationError,
>)
    ensures
        !catalog_declares(*catalog, locale_spelling(*locale)) ==> (r matches Err(e) && e.diagnostic.code@
            == "locale-unsupported"@ && e.diagnostic.message@ == "workshop catalog does not declare locale '"@
            + locale_spelling(*locale) + "'"@ && e.diagnostic.span is None && e.diagnostic.script is None),
        catalog_declares(*catalog, locale_spelling(*locale)) ==> match first_unlowered(
            hir.preprocessing.directives@,
        ) {
            Some(i) => r matches Err(e) && e.diagnostic.code@ == "backend-directive-unsupported"@
                && e.diagnostic.message@ == "directive '"@ + hir.preprocessing.directives@[i].name@
                + "' requires an editor or translation-output capability outside the forward compiler contract"@
                && e.diagnostic.span == hir.preprocessing.directives@[i].span && e.diagnostic.script is None,
            None => expanded(hir, r),
        },
{
    if !catalog_supports(catalog, locale) {
        let mut message: Vec<char> = Vec::new();
        push_str(&mut message, "workshop catalog does not declare locale '");
        let name = locale_text(locale);
        push_str(&mut message, name.as_str());
        push_str(&mut message, "'");
        return Err(IntegrationError::new("locale-unsupported", string_of(&message), None));
    }
    match reject_unlowered_directives(&hir) {
        Err(e) => {
            return Err(e);
        },
        Ok(()) => {},
    }
    let ghost h = hir;
    let r = expand_macros(hir);
    assert(expanded(h, r));
    r
}

/// The emitted text once the directives are honored: without the
/// declaration sections that `markers` name where the program asks to
/// exclude its variables, and with the element counts of `rules` in the
/// order `o` where it asks for them.
pub open spec fn post_processed(
    emitted: Seq<char>,
    hir: ResolvedProgram,
    markers: Seq<Seq<char>>,
    rules: Seq<CountNode>,
    o: Seq<usize>,
) -> Seq<char> {
    let names = directive_names(hir.preprocessing.directives@);
    let e1 = if names.contains("excludeVariablesInCompilation"@) {
        omitted(emitted, markers)
    } else {
        emitted
    };
    if names.contains("debugElementCount"@) {
        annotated_text(e1, rules, hir.files@, o)
    } else {
        e1
    }
}

/// The emitted text of a program in a locale once the directives are
/// honored: without the sections of the program's declarations where it
/// asks to exclude its variables, and with the element counts of `rules` in
/// the order `o` where it asks for them.
pub open spec fn finished_text(
    e: Seq<char>,
    program: Program,
    hir: ResolvedProgram,
    rules: Seq<CountNode>,
    o: Seq<usize>,
) -> Seq<char> {
    post_processed(e, hir, markers_of(workshop_declarations(program)), rules, o)
}

/// Whether the program asks for element counts.
pub open spec fn counts_asked(hir: ResolvedProgram) -> bool {
    directive_names(hir.preprocessing.directives@).contains("debugElementCount"@)
}

/// The compilation of a lowered program: validated, checked against the
/// catalog and emitted in the locale, each failure under its own code and
/// anchored in the program where it can be; the emitted text then honors
/// the directives that exclude the variables and that ask for element
/// counts, and the artifact carries the program and the catalog's identity.
pub fn finish_compilation(program: Program, catalog: &Catalog, locale: &Locale, hir: &ResolvedProgram) -> (r:
    Result<CompilationArtifact, IntegrationError>)
    ensures
        !workshop_valid(program) ==> (r matches Err(e) && e.diagnostic.code@ == "workshop-validation"@),
        workshop_valid(program) && !workshop_ids_valid(program, *catalog) ==> (r matches Err(e)
            && e.diagnostic.code@ == "catalog-validation"@),
        workshop_valid(program) && workshop_ids_valid(program, *catalog) && workshop_emission(
            program,
            *catalog,
            locale_spelling(*locale),
        ) is None ==> (r matches Err(e) && e.diagnostic.code@ == "workshop-emission"@),
        workshop_valid(program) && workshop_ids_valid(program, *catalog) && workshop_emission(
            program,
            *catalog,
            locale_spelling(*locale),
        ) is Some ==> (r is Ok <==> (counts_asked(*hir) ==> report_usable(workshop_element_count(program, *catalog)))),
        r matches Err(e) ==> (e.diagnostic.code@ == "workshop-validation"@ || e.diagnostic.code@
            == "catalog-validation"@ || e.diagnostic.code@ == "workshop-emission"@
            || e.diagnostic.code@ == "element-count"@),
        r matches Ok(a) ==> workshop_valid(program) && workshop_ids_valid(program, *catalog),
        r matches Ok(a) ==> a.wir == program && a.catalog_identity == workshop_identity(*catalog),
        r matches Ok(a) ==> a.final_output == a.emitted && a.hook_console_output@.len() == 0,
        r matches Ok(a) ==> exists|e: Seq<char>, rules: Seq<CountNode>, o: Seq<usize>|
            {
                &&& workshop_emission(program, *catalog, locale_spelling(*locale)) == Some(e)
                &&& counts_asked(*hir) ==> report_trees(workshop_element_count(program, *catalog), rules)
                    && summary_order_ok(o, rule_count_seq(rules))
                &&& a.emitted@ == #[trigger] finished_text(e, program, *hir, rules, o)
            },
{
    match validate_program(&program) {
        Err(error) => {
            return Err(workshop_failure("workshop-validation", &error, hir));
        },
        Ok(()) => {},
    }
    match validate_ids(&program, catalog) {
        Err(error) => {
            return Err(workshop_failure("catalog-validation", &error, hir));
        },
        Ok(()) => {},
    }
    let emitted = match emit_workshop(&program, catalog, locale) {
        Err(error) => {
            return Err(workshop_failure("workshop-emission", &error, hir));
        },
        Ok(text) => text,
    };
    let ghost e = emitted@;
    let exclude = has_directive(hir, "excludeVariablesInCompilation");
    let after_omit = if exclude {
        omit_declaration_sections(emitted.as_str(), &program)
    } else {
        emitted
    };
    let counted = has_directive(hir, "debugElementCount");
    let out = if counted {
        match emit_debug_element_counts(after_omit.as_str(), &program, catalog, hir) {
            Err(error) => {
                return Err(error);
            },
            Ok(text) => text,
        }
    } else {
        after_omit
    };
    let ghost (rules, o) = if counted {
        choose|rules: Seq<CountNode>, o: Seq<usize>|
            report_trees(workshop_element_count(program, *catalog), rules) && summary_order_ok(
                o,
                rule_count_seq(rules),
            ) && out@ == annotated_text(after_omit@, rules, hir.files@, o)
    } else {
        (Seq::<CountNode>::empty(), Seq::<usize>::empty())
    };
    assert(out@ == finished_text(e, program, *hir, rules, o));
    assert(counts_asked(*hir) ==> report_trees(workshop_element_count(program, *catalog), rules)
        && summary_order_ok(o, rule_count_seq(rules)));
    let ghost prog = program;
    let identity = catalog_identity(catalog);
    let final_output = out.clone();
    let a = CompilationArtifact {
        wir: program,
        emitted: out,
        catalog_identity: identity,
        final_output,
        hook_console_output: Vec::new(),
    };
    assert(a.emitted@ == finished_text(e, prog, *hir, rules, o));
    Ok(a)
}

} // verus!
