//! The cross-check of the OPY manifest against the Workshop catalog.
use vstd::prelude::*;
use vstd::string::StringExecFns;
use crate::diagnostics::IntegrationError;
use crate::hir::{Position as HirPosition, ResolvedProgram, SourceFile, Span as HirSpan};
use crate::manifest::{FunctionKind, Manifest, ManifestFunction, ManifestParam};
use crate::strings::{contains_name, str_eq, views};
use workshop_rs::catalog::{Catalog, Kind};
use workshop_rs::WorkshopError;

verus! {

#[verifier::external_type_specification]
#[verifier::external_body]
pub struct ExCatalog(Catalog);

#[verifier::external_type_specification]
#[verifier::external_body]
pub struct ExWorkshopError(WorkshopError);

/// Results of the manifest-to-catalog cross-check.
#[derive(Debug, Clone, Copy, PartialEq, Eq)]
pub struct LinkReport {
    pub catalog_ids_checked: usize,
    pub domains_checked: usize,
}

/// The contextual enum domains of the lowering policy: parameter domains
/// that the lowering resolves from context rather than from the catalog,
/// and, per function id, the domains among which it chooses.
pub struct ContextPolicy {
    pub contextual_domains: Vec<String>,
    pub options: Vec<(String, Vec<String>)>,
}

/// The kinds of catalog entry that a manifest function links to.
#[derive(Clone, Copy, Debug, PartialEq, Eq)]
pub enum LinkKind {
    Action,
    Value,
}

/// The `(kind index, id)` pairs of the entries that a catalog holds, where
/// the index is that of `Kind::Action` (1) or `Kind::Value` (2).
pub uninterp spec fn catalog_entries(c: Catalog) -> Set<(u8, Seq<char>)>;

/// The names of the enum domains that a catalog holds.
pub uninterp spec fn catalog_domains(c: Catalog) -> Set<Seq<char>>;

pub open spec fn link_kind_index(kind: LinkKind) -> u8 {
    match kind {
        LinkKind::Action => 1,
        LinkKind::Value => 2,
    }
}

/// `Catalog::entry`, which looks the id up among the catalog's entries of
/// that kind; the contract says whether it found one, over the catalog's
/// named entries.
#[verifier::external_body]
fn catalog_has_entry(catalog: &Catalog, kind: LinkKind, id: &str) -> (r: bool)
    ensures
        r == catalog_entries(*catalog).contains((link_kind_index(kind), id@)),
{
    let kind = match kind {
        LinkKind::Action => Kind::Action,
        LinkKind::Value => Kind::Value,
    };
    catalog.entry(kind, id).is_some()
}

/// `Catalog::enum_domain`, which looks the name up among the catalog's enum
/// domains; the contract says whether it found one.
#[verifier::external_body]
fn catalog_has_domain(catalog: &Catalog, domain: &str) -> (r: bool)
    ensures
        r == catalog_domains(*catalog).contains(domain@),
{
    catalog.enum_domain(domain).is_some()
}

/// `Catalog::builtin`, which loads the catalog that `workshop-rs` embeds;
/// nothing is stated of the outcome.
#[verifier::external_body]
fn builtin_catalog() -> (r: Result<Catalog, WorkshopError>) {
    Catalog::builtin()
}

/// The text a Workshop error's `Display` writes.
pub uninterp spec fn workshop_error_text(error: WorkshopError) -> Seq<char>;

/// Where a Workshop error points: the span an `Unknown`, `Malformed` or
/// `Unsupported` error carries, as a plain span whose file is the index of
/// its `FileId`; none for the other errors.
pub uninterp spec fn workshop_error_site(error: WorkshopError) -> Option<HirSpan>;

/// The text of a Workshop error, as its `Display` writes it; the contract
/// says that it is `workshop_error_text` of the error.
#[verifier::external_body]
fn catalog_error_text(error: &WorkshopError) -> (r: String)
    ensures
        r@ == workshop_error_text(*error),
{
    error.to_string()
}

/// The version of the `workshop-rs` package this library is built with.
pub open spec fn workshop_package_version() -> Seq<char> {
    "0.3.14"@
}

/// `Catalog::identity`'s implementation version, which `workshop-rs` takes
/// from its own package version (`env!("CARGO_PKG_VERSION")`); the
/// contract says that it is the version of the package this library is
/// built with.
#[verifier::external_body]
fn catalog_implementation_version(catalog: &Catalog) -> (r: String)
    ensures
        r@ == workshop_package_version(),
{
    catalog.identity().implementation_version
}

/// One link check: whether it looks up an enum domain (else a catalog entry),
/// the entry kind, the key looked up, and the message when it is missing.
pub type CheckView = (bool, LinkKind, Seq<char>, Seq<char>);

/// One link check.
pub struct LinkCheck {
    pub domain: bool,
    pub kind: LinkKind,
    pub key: String,
    pub message: String,
}

pub open spec fn check_views(cs: Seq<LinkCheck>) -> Seq<CheckView> {
    cs.map_values(|c: LinkCheck| (c.domain, c.kind, c.key@, c.message@))
}

pub open spec fn link_kind_of(kind: FunctionKind) -> LinkKind {
    match kind {
        FunctionKind::Action | FunctionKind::MemberAction => LinkKind::Action,
        FunctionKind::Value | FunctionKind::MemberValue => LinkKind::Value,
    }
}

pub open spec fn link_kind_name(kind: LinkKind) -> Seq<char> {
    match kind {
        LinkKind::Action => "Action"@,
        LinkKind::Value => "Value"@,
    }
}

pub open spec fn entry_message(function: Seq<char>, kind: LinkKind, id: Seq<char>) -> Seq<char> {
    "manifest function '"@ + function + "' links to missing "@ + link_kind_name(kind)
        + " catalog id '"@ + id + "'"@
}

pub open spec fn param_message(function: Seq<char>, param: Seq<char>, domain: Seq<char>) -> Seq<char> {
    "manifest function '"@ + function + "' parameter '"@ + param
        + "' links to missing enum domain '"@ + domain + "',"@
}

pub open spec fn option_message(function: Seq<char>, domain: Seq<char>) -> Seq<char> {
    "manifest function '"@ + function + "' contextual option links to missing enum domain '"@
        + domain + "'"@
}

/// Whether the policy resolves a domain from context.
pub open spec fn is_contextual(p: ContextPolicy, domain: Seq<char>) -> bool {
    views(p.contextual_domains@).contains(domain)
}

/// The contextual option domains of a function id: those of the first
/// policy entry for it.
pub open spec fn options_for(opts: Seq<(String, Vec<String>)>, id: Seq<char>) -> Option<Seq<Seq<char>>>
    decreases opts.len(),
{
    if opts.len() == 0 {
        None
    } else if opts[0].0@ == id {
        Some(views(opts[0].1@))
    } else {
        options_for(opts.subrange(1, opts.len() as int), id)
    }
}

pub open spec fn entry_checks(f: ManifestFunction) -> Seq<CheckView> {
    match f.catalog_id {
        Some(id) => seq![
            (false, link_kind_of(f.kind), id@, entry_message(f.id@, link_kind_of(f.kind), id@)),
        ],
        None => Seq::empty(),
    }
}

pub open spec fn param_checks(function: Seq<char>, params: Seq<ManifestParam>, p: ContextPolicy) -> Seq<
    CheckView,
>
    decreases params.len(),
{
    if params.len() == 0 {
        Seq::empty()
    } else {
        let last = params.last();
        param_checks(function, params.drop_last(), p) + match last.domain {
            Some(d) => if is_contextual(p, d@) {
                Seq::empty()
            } else {
                seq![(true, LinkKind::Value, d@, param_message(function, last.name@, d@))]
            },
            None => Seq::empty(),
        }
    }
}

pub open spec fn option_checks(function: Seq<char>, p: ContextPolicy) -> Seq<CheckView> {
    match options_for(p.options@, function) {
        Some(ds) => ds.map_values(
            |d: Seq<char>| (true, LinkKind::Value, d, option_message(function, d)),
        ),
        None => Seq::empty(),
    }
}

/// The checks of one manifest function, in order: its catalog id, the
/// domains of its parameters, then its contextual option domains.
pub open spec fn function_checks(f: ManifestFunction, p: ContextPolicy) -> Seq<CheckView> {
    entry_checks(f) + param_checks(f.id@, f.params@, p) + option_checks(f.id@, p)
}

/// The checks of a manifest, function by function.
pub open spec fn manifest_checks(fs: Seq<ManifestFunction>, p: ContextPolicy) -> Seq<CheckView>
    decreases fs.len(),
{
    if fs.len() == 0 {
        Seq::empty()
    } else {
        manifest_checks(fs.drop_last(), p) + function_checks(fs.last(), p)
    }
}

/// Whether the catalog passes a check.
pub open spec fn check_holds(c: Catalog, chk: CheckView) -> bool {
    if chk.0 {
        catalog_domains(c).contains(chk.2)
    } else {
        catalog_entries(c).contains((link_kind_index(chk.1), chk.2))
    }
}

/// The first check that the catalog fails, if any.
pub open spec fn first_failed(c: Catalog, cs: Seq<CheckView>) -> Option<int>
    decreases cs.len(),
{
    if cs.len() == 0 {
        None
    } else if !check_holds(c, cs[0]) {
        Some(0)
    } else {
        match first_failed(c, cs.subrange(1, cs.len() as int)) {
            Some(i) => Some(i + 1),
            None => None,
        }
    }
}

/// How many of the checks look up an enum domain.
pub open spec fn domain_count(cs: Seq<CheckView>) -> nat
    decreases cs.len(),
{
    if cs.len() == 0 {
        0
    } else {
        domain_count(cs.drop_last()) + if cs.last().0 {
            1nat
        } else {
            0nat
        }
    }
}

fn quote3(a: &str, b: &str, c: &str) -> (r: String)
    ensures
        r@ == a@ + b@ + c@,
{
    let mut m = String::new();
    m.append(a);
    m.append(b);
    m.append(c);
    m
}

fn link_kind_name_str(kind: LinkKind) -> (r: &'static str)
    ensures
        r@ == link_kind_name(kind),
{
    match kind {
        LinkKind::Action => "Action",
        LinkKind::Value => "Value",
    }
}

fn push_check(out: &mut Vec<LinkCheck>, c: LinkCheck)
    ensures
        check_views(final(out)@) == check_views(old(out)@).push((c.domain, c.kind, c.key@, c.message@)),
{
    out.push(c);
    assert(check_views(out@) =~= check_views(old(out)@).push((c.domain, c.kind, c.key@, c.message@)));
}

/// The first contextual option entry for a function id, if any.
fn find_options<'a>(opts: &'a Vec<(String, Vec<String>)>, id: &str) -> (r: Option<&'a Vec<String>>)
    ensures
        match r {
            Some(ds) => options_for(opts@, id@) == Some(views(ds@)),
            None => options_for(opts@, id@) is None,
        },
{
    let mut i: usize = 0;
    assert(opts@.subrange(0, opts@.len() as int) =~= opts@);
    while i < opts.len()
        invariant
            i <= opts@.len(),
            options_for(opts@, id@) == options_for(opts@.subrange(i as int, opts@.len() as int), id@),
        decreases opts@.len() - i,
    {
        let ghost rest = opts@.subrange(i as int, opts@.len() as int);
        assert(rest[0] == opts@[i as int]);
        assert(rest.subrange(1, rest.len() as int) =~= opts@.subrange(i + 1, opts@.len() as int));
        if str_eq(opts[i].0.as_str(), id) {
            return Some(&opts[i].1);
        }
        i = i + 1;
    }
    None
}

/// Append the checks of one manifest function.
fn add_function_checks(f: &ManifestFunction, p: &ContextPolicy, out: &mut Vec<LinkCheck>)
    ensures
        check_views(final(out)@) == check_views(old(out)@) + function_checks(*f, *p),
{
    let ghost start = check_views(out@);
    let kind = match f.kind {
        FunctionKind::Action | FunctionKind::MemberAction => LinkKind::Action,
        FunctionKind::Value | FunctionKind::MemberValue => LinkKind::Value,
    };
    if let Some(id) = &f.catalog_id {
        let mut message = quote3("manifest function '", f.id.as_str(), "' links to missing ");
        message.append(link_kind_name_str(kind));
        message.append(" catalog id '");
        message.append(id.as_str());
        message.append("'");
        push_check(out, LinkCheck { domain: false, kind, key: id.clone(), message });
    }
    assert(check_views(out@) =~= start + entry_checks(*f));
    let ghost after_entry = check_views(out@);
    let mut i: usize = 0;
    assert(f.params@.take(0) =~= Seq::<ManifestParam>::empty());
    while i < f.params.len()
        invariant
            i <= f.params@.len(),
            check_views(out@) == after_entry + param_checks(f.id@, f.params@.take(i as int), *p),
        decreases f.params@.len() - i,
    {
        let param = &f.params[i];
        assert(f.params@.take(i + 1).drop_last() =~= f.params@.take(i as int));
        assert(f.params@.take(i + 1).last() == f.params@[i as int]);
        if let Some(d) = &param.domain {
            if !contains_name(&p.contextual_domains, d.as_str()) {
                let mut message = quote3("manifest function '", f.id.as_str(), "' parameter '");
                message.append(param.name.as_str());
                message.append("' links to missing enum domain '");
                message.append(d.as_str());
                message.append("',");
                push_check(
                    out,
                    LinkCheck { domain: true, kind: LinkKind::Value, key: d.clone(), message },
                );
            }
        }
        assert(check_views(out@) =~= after_entry + param_checks(f.id@, f.params@.take(i + 1), *p));
        i = i + 1;
    }
    assert(f.params@.take(f.params@.len() as int) =~= f.params@);
    let ghost after_params = check_views(out@);
    match find_options(&p.options, f.id.as_str()) {
        Some(ds) => {
            let mut k: usize = 0;
            while k < ds.len()
                invariant
                    k <= ds@.len(),
                    check_views(out@) == after_params + views(ds@).take(k as int).map_values(
                        |d: Seq<char>| (true, LinkKind::Value, d, option_message(f.id@, d)),
                    ),
                decreases ds@.len() - k,
            {
                let mut message = quote3(
                    "manifest function '",
                    f.id.as_str(),
                    "' contextual option links to missing enum domain '",
                );
                message.append(ds[k].as_str());
                message.append("'");
                push_check(
                    out,
                    LinkCheck { domain: true, kind: LinkKind::Value, key: ds[k].clone(), message },
                );
                assert(views(ds@).take(k + 1) =~= views(ds@).take(k as int).push(ds@[k as int]@));
                assert(check_views(out@) =~= after_params + views(ds@).take(k + 1).map_values(
                    |d: Seq<char>| (true, LinkKind::Value, d, option_message(f.id@, d)),
                ));
                k = k + 1;
            }
            assert(views(ds@).take(ds@.len() as int) =~= views(ds@));
        },
        None => {},
    }
    assert(check_views(out@) =~= start + function_checks(*f, *p));
}

/// Every check of the manifest, in order.
fn manifest_link_checks(manifest: &Manifest, p: &ContextPolicy) -> (r: Vec<LinkCheck>)
    ensures
        check_views(r@) == manifest_checks(manifest.functions@, *p),
{
    let fs = &manifest.functions;
    let mut out: Vec<LinkCheck> = Vec::new();
    let mut i: usize = 0;
    assert(fs@.take(0) =~= Seq::<ManifestFunction>::empty());
    assert(check_views(out@) =~= Seq::<CheckView>::empty());
    while i < fs.len()
        invariant
            i <= fs@.len(),
            fs@ == manifest.functions@,
            check_views(out@) == manifest_checks(fs@.take(i as int), *p),
        decreases fs@.len() - i,
    {
        assert(fs@.take(i + 1).drop_last() =~= fs@.take(i as int));
        assert(fs@.take(i + 1).last() == fs@[i as int]);
        add_function_checks(&fs[i], p, &mut out);
        i = i + 1;
    }
    assert(fs@.take(fs@.len() as int) =~= fs@);
    out
}

/// Cross-check every manifest catalog id and enum domain against the
/// Workshop catalog, in manifest order; the first link that the catalog
/// lacks is the error.
pub fn cross_check_manifest(manifest: &Manifest, catalog: &Catalog, policy: &ContextPolicy) -> (r: Result<
    LinkReport,
    IntegrationError,
>)
    requires
        manifest_checks(manifest.functions@, *policy).len() <= usize::MAX,
    ensures
        ({
            let cs = manifest_checks(manifest.functions@, *policy);
            match first_failed(*catalog, cs) {
                Some(i) => r matches Err(e) && e.diagnostic.code@ == (if cs[i].0 {
                    "domain-link-missing"@
                } else {
                    "catalog-link-missing"@
                }) && e.diagnostic.message@ == cs[i].3 && e.diagnostic.span is None
                    && e.diagnostic.script is None,
                None => r matches Ok(report) && report.domains_checked == domain_count(cs)
                    && report.catalog_ids_checked + report.domains_checked == cs.len(),
            }
        }),
{
    let checks = manifest_link_checks(manifest, policy);
    let ghost cs = check_views(checks@);
    let mut catalog_ids_checked: usize = 0;
    let mut domains_checked: usize = 0;
    let mut i: usize = 0;
    assert(cs.subrange(0, cs.len() as int) =~= cs);
    assert(cs.take(0) =~= Seq::<CheckView>::empty());
    while i < checks.len()
        invariant
            i <= checks@.len(),
            cs == check_views(checks@),
            cs == manifest_checks(manifest.functions@, *policy),
            cs.len() <= usize::MAX,
            first_failed(*catalog, cs) == match first_failed(
                *catalog,
                cs.subrange(i as int, cs.len() as int),
            ) {
                Some(k) => Some(k + i),
                None => None::<int>,
            },
            domains_checked == domain_count(cs.take(i as int)),
            catalog_ids_checked + domains_checked == i,
        decreases checks@.len() - i,
    {
        let ghost rest = cs.subrange(i as int, cs.len() as int);
        assert(rest[0] == cs[i as int]);
        assert(rest.subrange(1, rest.len() as int) =~= cs.subrange(i + 1, cs.len() as int));
        let check = &checks[i];
        assert(cs[i as int] == (check.domain, check.kind, check.key@, check.message@));
        let ok = if check.domain {
            catalog_has_domain(catalog, check.key.as_str())
        } else {
            catalog_has_entry(catalog, check.kind, check.key.as_str())
        };
        if !ok {
            assert(!check_holds(*catalog, rest[0]));
            assert(first_failed(*catalog, rest) == Some(0int));
            let code = if check.domain {
                "domain-link-missing"
            } else {
                "catalog-link-missing"
            };
            let message = check.message.clone();
            return Err(IntegrationError::new(code, message, None));
        }
        assert(cs.take(i + 1).drop_last() =~= cs.take(i as int));
        if check.domain {
            domains_checked = domains_checked + 1;
        } else {
            catalog_ids_checked = catalog_ids_checked + 1;
        }
        i = i + 1;
    }
    assert(cs.take(cs.len() as int) =~= cs);
    Ok(LinkReport { catalog_ids_checked, domains_checked })
}

/// What the compiler contract is, once the embedded catalog `c` has
/// loaded: the first manifest link that `c` lacks is refused with its own
/// code and message; then a `workshop-rs` whose version is not `expected`
/// is refused with `workshop-contract-version`; otherwise the catalog, the
/// manifest and the link report.
pub open spec fn contract_outcome(
    c: Catalog,
    manifest: Manifest,
    policy: ContextPolicy,
    expected: Seq<char>,
    r: Result<(Catalog, Manifest, LinkReport), IntegrationError>,
) -> bool {
    let cs = manifest_checks(manifest.functions@, policy);
    match first_failed(c, cs) {
        Some(i) => r matches Err(e) && e.diagnostic.code@ == (if cs[i].0 {
            "domain-link-missing"@
        } else {
            "catalog-link-missing"@
        }) && e.diagnostic.message@ == cs[i].3 && e.diagnostic.span is None && e.diagnostic.script is None,
        None => if expected == workshop_package_version() {
            r matches Ok((catalog, m, links)) && catalog == c && m == manifest && links.domains_checked
                == domain_count(cs) && links.catalog_ids_checked + links.domains_checked == cs.len()
        } else {
            r matches Err(e) && e.diagnostic.code@ == "workshop-contract-version"@ && e.diagnostic.message@
                == "expected workshop-rs "@ + expected + ", loaded "@ + workshop_package_version()
                && e.diagnostic.span is None && e.diagnostic.script is None
        },
    }
}

/// The compiler contract from the outcomes of loading the catalog and the
/// manifest: a catalog that did not load is refused with `catalog-load` and
/// its error's text, then a manifest that did not load with
/// `manifest-load` and its error's text; otherwise the outcome is the
/// contract's for the catalog and the manifest that loaded.
pub fn check_compiler_contract(
    catalog: Result<Catalog, WorkshopError>,
    manifest: Result<Manifest, String>,
    policy: &ContextPolicy,
    expected_version: &str,
) -> (r: Result<(Catalog, Manifest, LinkReport), IntegrationError>)
    requires
        manifest matches Ok(m) ==> manifest_checks(m.functions@, *policy).len() <= usize::MAX,
    ensures
        match catalog {
            Err(error) => r matches Err(e) && e.diagnostic.code@ == "catalog-load"@ && e.diagnostic.message@
                == workshop_error_text(error) && e.diagnostic.span is None && e.diagnostic.script is None,
            Ok(c) => match manifest {
                Err(text) => r matches Err(e) && e.diagnostic.code@ == "manifest-load"@ && e.diagnostic.message@
                    == text@ && e.diagnostic.span is None && e.diagnostic.script is None,
                Ok(m) => contract_outcome(c, m, *policy, expected_version@, r),
            },
        },
{
    let catalog = match catalog {
        Ok(c) => c,
        Err(error) => {
            return Err(IntegrationError::new("catalog-load", catalog_error_text(&error), None));
        },
    };
    let manifest = match manifest {
        Ok(m) => m,
        Err(text) => {
            return Err(IntegrationError::new("manifest-load", text, None));
        },
    };
    let links = match cross_check_manifest(&manifest, &catalog, policy) {
        Ok(l) => l,
        Err(e) => {
            let r = Err(e);
            assert(contract_outcome(catalog, manifest, *policy, expected_version@, r));
            return r;
        },
    };
    let version = catalog_implementation_version(&catalog);
    if !str_eq(version.as_str(), expected_version) {
        let mut message = String::new();
        message.append("expected workshop-rs ");
        message.append(expected_version);
        message.append(", loaded ");
        message.append(version.as_str());
        let r = Err(IntegrationError::new("workshop-contract-version", message, None));
        assert(contract_outcome(catalog, manifest, *policy, expected_version@, r));
        return r;
    }
    let ghost c = catalog;
    let ghost m = manifest;
    let r = Ok((catalog, manifest, links));
    assert(contract_outcome(c, m, *policy, expected_version@, r));
    r
}

/// Load the embedded Workshop catalog, cross-check the manifest against it,
/// and refuse a `workshop-rs` whose version is not `expected_version`.
/// Where the embedded catalog does not load, the error is `catalog-load`;
/// otherwise the outcome is the contract's for the catalog that loaded,
/// as `check_compiler_contract` decides it.
pub fn load_compiler_contract(manifest: Manifest, policy: &ContextPolicy, expected_version: &str) -> (r:
    Result<(Catalog, Manifest, LinkReport), IntegrationError>)
    requires
        manifest_checks(manifest.functions@, *policy).len() <= usize::MAX,
    ensures
        (r matches Err(e) && e.diagnostic.code@ == "catalog-load"@ && e.diagnostic.span is None
            && e.diagnostic.script is None) || exists|c: Catalog|
            #[trigger] contract_outcome(c, manifest, *policy, expected_version@, r),
{
    check_compiler_contract(builtin_catalog(), Ok(manifest), policy, expected_version)
}

/// The span a Workshop error points at, as a plain span: `Unknown`,
/// `Malformed` and `Unsupported` errors may carry one, the file being the
/// index of its `FileId`. The contract says that it is
/// `workshop_error_site` of the error.
#[verifier::external_body]
fn workshop_error_span(error: &WorkshopError) -> (r: Option<HirSpan>)
    ensures
        r == workshop_error_site(*error),
{
    let span = match error {
        WorkshopError::Unknown { span, .. } => *span,
        WorkshopError::Malformed { span, .. } => *span,
        WorkshopError::Unsupported { span, .. } => *span,
        WorkshopError::Catalog(_) => None,
        WorkshopError::MissingMapping { .. } => None,
    };
    span.map(|s| HirSpan { file: s.file.index() as u32, start: HirPosition { line: s.start.line, col: s.start.col }, end: HirPosition { line: s.end.line, col: s.end.col } })
}

/// Whether the program has a source file with this id.
pub open spec fn file_known(files: Seq<SourceFile>, id: u32) -> bool {
    exists|i: int| 0 <= i < files.len() && files[i].id == id
}

/// A Workshop span as a span of the program, where its file is one of the
/// program's files.
pub fn hir_span_from_workshop(span: HirSpan, hir: &ResolvedProgram) -> (r: Option<HirSpan>)
    ensures
        r == (if file_known(hir.files@, span.file) {
            Some(span)
        } else {
            None
        }),
{
    let mut i: usize = 0;
    while i < hir.files.len()
        invariant
            i <= hir.files@.len(),
            forall|k: int| 0 <= k < i ==> hir.files@[k].id != span.file,
        decreases hir.files@.len() - i,
    {
        if hir.files[i].id == span.file {
            return Some(span);
        }
        i = i + 1;
    }
    None
}

/// A failure of Workshop validation or emission: the error's text under
/// `code`, anchored where the error points, if that lies in one of the
/// program's files.
pub fn workshop_failure(code: &str, error: &WorkshopError, hir: &ResolvedProgram) -> (r: IntegrationError)
    ensures
        r.diagnostic.code@ == code@,
        r.diagnostic.message@ == workshop_error_text(*error),
        r.diagnostic.script is None,
        r.diagnostic.span == match workshop_error_site(*error) {
            Some(s) => if file_known(hir.files@, s.file) {
                Some(s)
            } else {
                None
            },
            None => None,
        },
{
    let message = catalog_error_text(error);
    let span = match workshop_error_span(error) {
        Some(s) => hir_span_from_workshop(s, hir),
        None => None,
    };
    IntegrationError::new(code, message, span)
}

} // verus!
