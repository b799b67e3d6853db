//! The OPY function manifest: each OPY function, the Workshop catalog entry
//! it links to, and the enum domains of its parameters.
use vstd::prelude::*;

verus! {

/// What kind of Workshop function an OPY function lowers to.
#[derive(Clone, Copy, Debug, PartialEq, Eq)]
pub enum FunctionKind {
    Action,
    Value,
    MemberAction,
    MemberValue,
}

/// One parameter of a manifest function, with the enum domain it takes, if any.
#[derive(Clone, Debug, PartialEq, Eq)]
pub struct ManifestParam {
    pub name: String,
    pub domain: Option<String>,
}

/// One OPY function of the manifest.
#[derive(Clone, Debug, PartialEq, Eq)]
pub struct ManifestFunction {
    pub id: String,
    pub kind: FunctionKind,
    pub catalog_id: Option<String>,
    pub params: Vec<ManifestParam>,
}

/// The OPY function manifest.
#[derive(Clone, Debug, PartialEq, Eq)]
pub struct Manifest {
    pub functions: Vec<ManifestFunction>,
}

pub open spec fn kind_label_spec(kind: FunctionKind) -> Seq<char> {
    match kind {
        FunctionKind::Action => "action"@,
        FunctionKind::Value => "value"@,
        FunctionKind::MemberAction => "member action"@,
        FunctionKind::MemberValue => "member value"@,
    }
}

/// How a function kind is named in messages.
pub fn kind_label(kind: FunctionKind) -> (r: &'static str)
    ensures
        r@ == kind_label_spec(kind),
{
    match kind {
        FunctionKind::Action => "action",
        FunctionKind::Value => "value",
        FunctionKind::MemberAction => "member action",
        FunctionKind::MemberValue => "member value",
    }
}

} // verus!
