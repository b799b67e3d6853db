//! Queries on the preprocessor directives of a program.
use vstd::prelude::*;
use crate::diagnostics::IntegrationError;
use crate::hir::{Directive, ResolvedProgram};
use crate::strings::str_eq;
use vstd::string::StringExecFns;

verus! {

/// The names of the directives, in order.
pub open spec fn directive_names(ds: Seq<Directive>) -> Seq<Seq<char>> {
    ds.map_values(|d: Directive| d.name@)
}

/// Whether the program declares a directive with this name.
pub fn has_directive(hir: &ResolvedProgram, name: &str) -> (r: bool)
    ensures
        r == directive_names(hir.preprocessing.directives@).contains(name@),
{
    let ds = &hir.preprocessing.directives;
    let ghost names = directive_names(ds@);
    let mut i: usize = 0;
    while i < ds.len()
        invariant
            i <= ds@.len(),
            ds@ == hir.preprocessing.directives@,
            names == directive_names(ds@),
            forall|j: int| 0 <= j < i ==> names[j] != name@,
        decreases ds@.len() - i,
    {
        if str_eq(ds[i].name.as_str(), name) {
            assert(names[i as int] == name@);
            assert(names.contains(name@));
            return true;
        }
        i = i + 1;
    }
    false
}

/// The value of the last directive with this name, if that one has a value.
pub open spec fn directive_value_spec(ds: Seq<Directive>, name: Seq<char>) -> Option<Seq<char>>
    decreases ds.len(),
{
    if ds.len() == 0 {
        None
    } else if ds.last().name@ == name {
        match ds.last().value {
            Some(v) => Some(v@),
            None => None,
        }
    } else {
        directive_value_spec(ds.drop_last(), name)
    }
}

/// The value of the last directive with this name, if that one has a value.
pub fn directive_value<'a>(hir: &'a ResolvedProgram, name: &str) -> (r: Option<&'a str>)
    ensures
        match r {
            Some(v) => directive_value_spec(hir.preprocessing.directives@, name@) == Some(v@),
            None => directive_value_spec(hir.preprocessing.directives@, name@) is None,
        },
{
    let ds = &hir.preprocessing.directives;
    let mut k: usize = ds.len();
    assert(ds@.take(k as int) =~= ds@);
    while k > 0
        invariant
            k <= ds@.len(),
            ds@ == hir.preprocessing.directives@,
            directive_value_spec(ds@, name@) == directive_value_spec(ds@.take(k as int), name@),
        decreases k,
    {
        let ghost part = ds@.take(k as int);
        assert(part.drop_last() =~= ds@.take(k - 1));
        assert(part.last() == ds@[k - 1]);
        if str_eq(ds[k - 1].name.as_str(), name) {
            return match &ds[k - 1].value {
                Some(v) => Some(v.as_str()),
                None => None,
            };
        }
        k = k - 1;
    }
    None
}

/// Directives that need an editor or a translation output, which the
/// forward compiler does not have.
pub open spec fn is_unlowered_directive(name: Seq<char>) -> bool {
    name == "disableTranslationSourceLines"@ || name == "keepUnusedTranslations"@ || name
        == "writeToOutputFile"@
}

/// The first directive that the compiler cannot lower, if any.
pub open spec fn first_unlowered(ds: Seq<Directive>) -> Option<int> {
    if exists|i: int| 0 <= i < ds.len() && is_unlowered_directive(#[trigger] ds[i].name@) {
        Some(
            choose|i: int|
                0 <= i < ds.len() && is_unlowered_directive(#[trigger] ds[i].name@) && forall|j: int|
                    0 <= j < i ==> !is_unlowered_directive(#[trigger] ds[j].name@),
        )
    } else {
        None
    }
}

fn is_unlowered(name: &str) -> (r: bool)
    ensures
        r == is_unlowered_directive(name@),
{
    str_eq(name, "disableTranslationSourceLines") || str_eq(name, "keepUnusedTranslations")
        || str_eq(name, "writeToOutputFile")
}

/// Refuse the first directive that needs an editor or a translation output.
pub fn reject_unlowered_directives(hir: &ResolvedProgram) -> (r: Result<(), IntegrationError>)
    ensures
        match first_unlowered(hir.preprocessing.directives@) {
            None => r is Ok,
            Some(i) => r matches Err(e) && e.diagnostic.code@ == "backend-directive-unsupported"@
                && e.diagnostic.message@ == "directive '"@ + hir.preprocessing.directives@[i].name@
                + "' requires an editor or translation-output capability outside the forward compiler contract"@
                && e.diagnostic.span == hir.preprocessing.directives@[i].span
                && e.diagnostic.script is None,
        },
{
    let ds = &hir.preprocessing.directives;
    let mut i: usize = 0;
    while i < ds.len()
        invariant
            i <= ds@.len(),
            ds@ == hir.preprocessing.directives@,
            forall|j: int| 0 <= j < i ==> !is_unlowered_directive(#[trigger] ds@[j].name@),
        decreases ds@.len() - i,
    {
        if is_unlowered(ds[i].name.as_str()) {
            let mut message = String::new();
            message.append("directive '");
            message.append(ds[i].name.as_str());
            message.append(
                "' requires an editor or translation-output capability outside the forward compiler contract",
            );
            proof {
                let f = first_unlowered(ds@);
                assert(is_unlowered_directive(ds@[i as int].name@));
                let c = f->0;
                if c < i {
                    assert(!is_unlowered_directive(ds@[c].name@));
                }
                if c > i {
                    assert(!is_unlowered_directive(ds@[i as int].name@));
                }
            }
            return Err(IntegrationError::new("backend-directive-unsupported", message, ds[i].span));
        }
        i = i + 1;
    }
    Ok(())
}

} // verus!
