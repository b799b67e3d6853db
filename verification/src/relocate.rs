//! Attribution of macro-expanded code to the site that invoked the macro.
use vstd::prelude::*;
use crate::hir::{DictEntry, Expr, IfBranch, Span, Stmt, SwitchArm};
use crate::macros::{same_expr, same_stmt, same_stmts};

verus! {

/// Whether `n` is `o` with every span, at every depth, replaced by `site`.
pub open spec fn relocated_expr(n: Expr, o: Expr, site: Span) -> bool
    decreases o,
{
    let at = Some(site);
    match (n, o) {
        (Expr::Number { text: a, span }, Expr::Number { text: b, .. }) => a == b && span == at,
        (Expr::String { value: a, span }, Expr::String { value: b, .. }) => a == b && span == at,
        (Expr::Bool { value: a, span }, Expr::Bool { value: b, .. }) => a == b && span == at,
        (Expr::Null { span }, Expr::Null { .. }) => span == at,
        (
            Expr::StringModifier { modifier: m1, value: v1, span },
            Expr::StringModifier { modifier: m2, value: v2, .. },
        ) => m1 == m2 && v1 == v2 && span == at,
        (Expr::Local { name: a, span }, Expr::Local { name: b, .. }) => a == b && span == at,
        (
            Expr::Enum { value_type: t1, value: v1, span },
            Expr::Enum { value_type: t2, value: v2, .. },
        ) => t1 == t2 && v1 == v2 && span == at,
        (Expr::GlobalVar { name: a, span }, Expr::GlobalVar { name: b, .. }) => a == b && span
            == at,
        (Expr::HostPlayer { span }, Expr::HostPlayer { .. }) => span == at,
        (Expr::EventPlayer { span }, Expr::EventPlayer { .. }) => span == at,
        (Expr::Constant { name: a, span }, Expr::Constant { name: b, .. }) => a == b && span
            == at,
        (Expr::MacroParam { name: a, span }, Expr::MacroParam { name: b, .. }) => a == b && span
            == at,
        (Expr::Array { elements: na, span }, Expr::Array { elements: oa, .. }) => {
            &&& span == at
            &&& na@.len() == oa@.len()
            &&& forall|i: int| 0 <= i < oa@.len() ==> relocated_expr(#[trigger] na@[i], oa@[i], site)
        },
        (
            Expr::Call { name: n1, args: na, debug_source: d1, span },
            Expr::Call { name: n2, args: oa, debug_source: d2, .. },
        ) => {
            &&& n1 == n2 && d1 == d2 && span == at
            &&& na@.len() == oa@.len()
            &&& forall|i: int| 0 <= i < oa@.len() ==> relocated_expr(#[trigger] na@[i], oa@[i], site)
        },
        (Expr::MacroCall { name: n1, args: na, span }, Expr::MacroCall { name: n2, args: oa, .. }) => {
            &&& n1 == n2 && span == at
            &&& na@.len() == oa@.len()
            &&& forall|i: int| 0 <= i < oa@.len() ==> relocated_expr(#[trigger] na@[i], oa@[i], site)
        },
        (Expr::Type { name: n1, args: na, span }, Expr::Type { name: n2, args: oa, .. }) => {
            &&& n1 == n2 && span == at
            &&& na@.len() == oa@.len()
            &&& forall|i: int| 0 <= i < oa@.len() ==> relocated_expr(#[trigger] na@[i], oa@[i], site)
        },
        (Expr::Format { text: t1, args: na, span }, Expr::Format { text: t2, args: oa, .. }) => {
            &&& t1 == t2 && span == at
            &&& na@.len() == oa@.len()
            &&& forall|i: int| 0 <= i < oa@.len() ==> relocated_expr(#[trigger] na@[i], oa@[i], site)
        },
        (Expr::Dict { entries: ne, span }, Expr::Dict { entries: oe, .. }) => {
            &&& span == at
            &&& ne@.len() == oe@.len()
            &&& forall|i: int|
                0 <= i < oe@.len() ==> {
                    &&& (#[trigger] ne@[i]).span == at
                    &&& relocated_expr(*ne@[i].key, *oe@[i].key, site)
                    &&& relocated_expr(*ne@[i].value, *oe@[i].value, site)
                }
        },
        (
            Expr::Comprehension {
                element: e1,
                variable: v1,
                variable_span,
                index: i1,
                index_span,
                iterable: it1,
                condition: c1,
                span,
            },
            Expr::Comprehension {
                element: e2,
                variable: v2,
                index: i2,
                iterable: it2,
                condition: c2,
                ..
            },
        ) => {
            &&& v1 == v2 && i1 == i2
            &&& variable_span == at && index_span == at && span == at
            &&& relocated_expr(*e1, *e2, site)
            &&& relocated_expr(*it1, *it2, site)
            &&& match (c1, c2) {
                (Some(a), Some(b)) => relocated_expr(*a, *b, site),
                (None, None) => true,
                _ => false,
            }
        },
        (
            Expr::Lambda { params: p1, param_spans, body: b1, span },
            Expr::Lambda { params: p2, param_spans: s2, body: b2, .. },
        ) => {
            &&& p1 == p2 && span == at
            &&& param_spans@.len() == s2@.len()
            &&& forall|i: int| 0 <= i < param_spans@.len() ==> #[trigger] param_spans@[i] == at
            &&& relocated_expr(*b1, *b2, site)
        },
        (Expr::Vector { x: x1, y: y1, z: z1, span }, Expr::Vector { x: x2, y: y2, z: z2, .. }) => {
            &&& span == at
            &&& relocated_expr(*x1, *x2, site)
            &&& relocated_expr(*y1, *y2, site)
            &&& relocated_expr(*z1, *z2, site)
        },
        (
            Expr::PlayerVar { player: p1, name: n1, member_span, span },
            Expr::PlayerVar { player: p2, name: n2, .. },
        ) => n1 == n2 && member_span == at && span == at && relocated_expr(*p1, *p2, site),
        (
            Expr::Member { receiver: r1, member: m1, member_span, span },
            Expr::Member { receiver: r2, member: m2, .. },
        ) => m1 == m2 && member_span == at && span == at && relocated_expr(*r1, *r2, site),
        (
            Expr::ReceiverCall { receiver: r1, name: n1, args: na, span },
            Expr::ReceiverCall { receiver: r2, name: n2, args: oa, .. },
        ) => {
            &&& n1 == n2 && span == at
            &&& relocated_expr(*r1, *r2, site)
            &&& na@.len() == oa@.len()
            &&& forall|i: int| 0 <= i < oa@.len() ==> relocated_expr(#[trigger] na@[i], oa@[i], site)
        },
        (
            Expr::Binary { op: o1, left: l1, right: r1, span },
            Expr::Binary { op: o2, left: l2, right: r2, .. },
        ) => o1 == o2 && span == at && relocated_expr(*l1, *l2, site) && relocated_expr(
            *r1,
            *r2,
            site,
        ),
        (
            Expr::Conditional { then_value: t1, condition: c1, else_value: e1, span },
            Expr::Conditional { then_value: t2, condition: c2, else_value: e2, .. },
        ) => {
            &&& span == at
            &&& relocated_expr(*t1, *t2, site)
            &&& relocated_expr(*c1, *c2, site)
            &&& relocated_expr(*e1, *e2, site)
        },
        (Expr::Unary { op: o1, operand: a, span }, Expr::Unary { op: o2, operand: b, .. }) => o1
            == o2 && span == at && relocated_expr(*a, *b, site),
        (Expr::Index { array: a1, index: i1, span }, Expr::Index { array: a2, index: i2, .. }) => {
            span == at && relocated_expr(*a1, *a2, site) && relocated_expr(*i1, *i2, site)
        },
        _ => false,
    }
}

/// Whether the statements `n` are `o`, each relocated to `site`.
pub open spec fn relocated_body(n: Seq<Stmt>, o: Seq<Stmt>, site: Span) -> bool
    decreases o,
{
    &&& n.len() == o.len()
    &&& forall|i: int| 0 <= i < o.len() ==> relocated_stmt(#[trigger] n[i], o[i], site)
}

/// Whether `n` is `o` with every span, at every depth, replaced by `site`.
pub open spec fn relocated_stmt(n: Stmt, o: Stmt, site: Span) -> bool
    decreases o,
{
    let at = Some(site);
    match (n, o) {
        (Stmt::Expr { expr: a, span }, Stmt::Expr { expr: b, .. }) => span == at && relocated_expr(
            *a,
            *b,
            site,
        ),
        (Stmt::Delete { target: a, span }, Stmt::Delete { target: b, .. }) => span == at
            && relocated_expr(*a, *b, site),
        (Stmt::Assign { target: t1, value: v1, span }, Stmt::Assign { target: t2, value: v2, .. }) => {
            span == at && relocated_expr(*t1, *t2, site) && relocated_expr(*v1, *v2, site)
        },
        (
            Stmt::If { branches: nb, else_body: ne, span },
            Stmt::If { branches: ob, else_body: oe, .. },
        ) => {
            &&& span == at
            &&& nb@.len() == ob@.len()
            &&& forall|i: int|
                0 <= i < ob@.len() ==> {
                    &&& relocated_expr(*(#[trigger] nb@[i]).condition, *ob@[i].condition, site)
                    &&& relocated_body(nb@[i].body@, ob@[i].body@, site)
                }
            &&& match (ne, oe) {
                (Some(a), Some(b)) => relocated_body(a@, b@, site),
                (None, None) => true,
                _ => false,
            }
        },
        (
            Stmt::For { variable: v1, iterable: i1, body: b1, span },
            Stmt::For { variable: v2, iterable: i2, body: b2, .. },
        ) => {
            &&& span == at
            &&& relocated_expr(*v1, *v2, site)
            &&& relocated_expr(*i1, *i2, site)
            &&& relocated_body(b1@, b2@, site)
        },
        (Stmt::While { condition: c1, body: b1, span }, Stmt::While { condition: c2, body: b2, .. }) => {
            span == at && relocated_expr(*c1, *c2, site) && relocated_body(b1@, b2@, site)
        },
        (
            Stmt::DoWhile { condition: c1, body: b1, span },
            Stmt::DoWhile { condition: c2, body: b2, .. },
        ) => span == at && relocated_expr(*c1, *c2, site) && relocated_body(b1@, b2@, site),
        (Stmt::Switch { value: v1, arms: na, span }, Stmt::Switch { value: v2, arms: oa, .. }) => {
            &&& span == at
            &&& relocated_expr(*v1, *v2, site)
            &&& na@.len() == oa@.len()
            &&& forall|i: int|
                0 <= i < oa@.len() ==> match (#[trigger] na@[i], oa@[i]) {
                    (
                        SwitchArm::Case { value: a, body: x, span: s },
                        SwitchArm::Case { value: b, body: y, .. },
                    ) => s == at && relocated_expr(*a, *b, site) && relocated_body(x@, y@, site),
                    (SwitchArm::Default { body: x, span: s }, SwitchArm::Default { body: y, .. }) => s
                        == at && relocated_body(x@, y@, site),
                    _ => false,
                }
        },
        (
            Stmt::Goto { label: l1, offset: o1, rule_start: r1, span },
            Stmt::Goto { label: l2, offset: o2, rule_start: r2, .. },
        ) => {
            &&& l1 == l2 && r1 == r2 && span == at
            &&& match (o1, o2) {
                (Some(a), Some(b)) => relocated_expr(*a, *b, site),
                (None, None) => true,
                _ => false,
            }
        },
        (Stmt::Break { span }, Stmt::Break { .. }) => span == at,
        (Stmt::Return { span }, Stmt::Return { .. }) => span == at,
        (Stmt::Continue { span }, Stmt::Continue { .. }) => span == at,
        (Stmt::Pass { span }, Stmt::Pass { .. }) => span == at,
        (Stmt::Label { name: a, span }, Stmt::Label { name: b, .. }) => a == b && span == at,
        (Stmt::CallSubroutine { name: a, span }, Stmt::CallSubroutine { name: b, .. }) => a == b
            && span == at,
        _ => false,
    }
}

/// Attribute every span of the expressions in `v` to `site`.
fn relocate_exprs(v: &mut Vec<Expr>, site: Span, Ghost(outer): Ghost<Expr>)
    requires
        forall|j: int| 0 <= j < old(v)@.len() ==> decreases_to!(outer => old(v)@[j]),
    ensures
        final(v)@.len() == old(v)@.len(),
        forall|j: int|
            0 <= j < old(v)@.len() ==> relocated_expr(#[trigger] final(v)@[j], old(v)@[j], site),
    decreases outer, 0nat,
{
    let ghost ov = v@;
    let mut i: usize = 0;
    while i < v.len()
        invariant
            v@.len() == ov.len(),
            0 <= i <= v@.len(),
            forall|j: int| 0 <= j < i ==> relocated_expr(#[trigger] v@[j], ov[j], site),
            forall|j: int| i <= j < v@.len() ==> v@[j] == ov[j],
            forall|j: int| 0 <= j < ov.len() ==> decreases_to!(outer => ov[j]),
        decreases v@.len() - i,
    {
        assert(v@[i as int] == ov[i as int]);
        relocate_expr(&mut v[i], site);
        i = i + 1;
    }
}

/// Attribute every span of a dictionary entry to `site`.
fn relocate_entry(entry: &mut DictEntry, site: Span, Ghost(outer): Ghost<Expr>)
    requires
        decreases_to!(outer => *old(entry).key),
        decreases_to!(outer => *old(entry).value),
    ensures
        final(entry).span == Some(site),
        relocated_expr(*final(entry).key, *old(entry).key, site),
        relocated_expr(*final(entry).value, *old(entry).value, site),
    decreases outer, 0nat,
{
    relocate_expr(&mut *entry.key, site);
    relocate_expr(&mut *entry.value, site);
    entry.span = Some(site);
}

/// Attribute every span of an expression to `site`.
pub fn relocate_expr(expression: &mut Expr, site: Span)
    ensures
        relocated_expr(*final(expression), *old(expression), site),
    decreases *old(expression), 1nat,
{
    let ghost unrelocated = *expression;
    let at = Some(site);
    match expression {
        Expr::Number { text, span } => {
            *span = at;
        },
        Expr::String { span, .. } => *span = at,
        Expr::Bool { span, .. } => *span = at,
        Expr::Null { span } => *span = at,
        Expr::StringModifier { span, .. } => *span = at,
        Expr::Local { span, .. } => *span = at,
        Expr::Enum { span, .. } => *span = at,
        Expr::GlobalVar { span, .. } => *span = at,
        Expr::HostPlayer { span } => *span = at,
        Expr::EventPlayer { span } => *span = at,
        Expr::Constant { span, .. } => *span = at,
        Expr::MacroParam { span, .. } => *span = at,
        Expr::Array { elements, span } => {
            relocate_exprs(elements, site, Ghost(unrelocated));
            *span = at;
        },
        Expr::Call { args, span, .. } => {
            relocate_exprs(args, site, Ghost(unrelocated));
            *span = at;
        },
        Expr::MacroCall { args, span, .. } => {
            relocate_exprs(args, site, Ghost(unrelocated));
            *span = at;
        },
        Expr::Type { args, span, .. } => {
            relocate_exprs(args, site, Ghost(unrelocated));
            *span = at;
        },
        Expr::Format { args, span, .. } => {
            relocate_exprs(args, site, Ghost(unrelocated));
            *span = at;
        },
        Expr::Dict { entries, span } => {
            let ghost oe = entries@;
            let mut i: usize = 0;
            while i < entries.len()
                invariant
                    unrelocated == *old(expression),
                    at == Some(site),
                    entries@.len() == oe.len(),
                    0 <= i <= entries@.len(),
                    forall|j: int|
                        0 <= j < i ==> {
                            &&& (#[trigger] entries@[j]).span == at
                            &&& relocated_expr(*entries@[j].key, *oe[j].key, site)
                            &&& relocated_expr(*entries@[j].value, *oe[j].value, site)
                        },
                    forall|j: int| i <= j < entries@.len() ==> entries@[j] == oe[j],
                    forall|j: int|
                        0 <= j < oe.len() ==> decreases_to!(unrelocated => *oe[j].key)
                            && decreases_to!(unrelocated => *oe[j].value),
                decreases entries@.len() - i,
            {
                assert(entries@[i as int] == oe[i as int]);
                relocate_entry(&mut entries[i], site, Ghost(unrelocated));
                i = i + 1;
            }
            *span = at;
        },
        Expr::Comprehension { element, variable_span, index_span, iterable, condition, span, .. } => {
            relocate_expr(&mut **element, site);
            relocate_expr(&mut **iterable, site);
            if let Some(condition) = condition {
                relocate_expr(&mut **condition, site);
            }
            *variable_span = at;
            *index_span = at;
            *span = at;
        },
        Expr::Lambda { param_spans, body, span, .. } => {
            relocate_expr(&mut **body, site);
            let ghost n = param_spans@.len();
            let mut i: usize = 0;
            while i < param_spans.len()
                invariant
                    at == Some(site),
                    param_spans@.len() == n,
                    0 <= i <= param_spans@.len(),
                    forall|j: int| 0 <= j < i ==> #[trigger] param_spans@[j] == at,
                decreases param_spans@.len() - i,
            {
                param_spans.set(i, at);
                i = i + 1;
            }
            *span = at;
        },
        Expr::Vector { x, y, z, span } => {
            relocate_expr(&mut **x, site);
            relocate_expr(&mut **y, site);
            relocate_expr(&mut **z, site);
            *span = at;
        },
        Expr::PlayerVar { player, member_span, span, .. } => {
            relocate_expr(&mut **player, site);
            *member_span = at;
            *span = at;
        },
        Expr::Member { receiver, member_span, span, .. } => {
            relocate_expr(&mut **receiver, site);
            *member_span = at;
            *span = at;
        },
        Expr::ReceiverCall { receiver, args, span, .. } => {
            relocate_expr(&mut **receiver, site);
            relocate_exprs(args, site, Ghost(unrelocated));
            *span = at;
        },
        Expr::Binary { left, right, span, .. } => {
            relocate_expr(&mut **left, site);
            relocate_expr(&mut **right, site);
            *span = at;
        },
        Expr::Conditional { then_value, condition, else_value, span } => {
            relocate_expr(&mut **then_value, site);
            relocate_expr(&mut **condition, site);
            relocate_expr(&mut **else_value, site);
            *span = at;
        },
        Expr::Unary { operand, span, .. } => {
            relocate_expr(&mut **operand, site);
            *span = at;
        },
        Expr::Index { array, index, span } => {
            relocate_expr(&mut **array, site);
            relocate_expr(&mut **index, site);
            *span = at;
        },
    }
}

/// Attribute every span of the statements in `v`, nested inside `outer`, to `site`.
fn relocate_body(v: &mut Vec<Stmt>, site: Span, Ghost(outer): Ghost<Stmt>)
    requires
        forall|j: int| 0 <= j < old(v)@.len() ==> decreases_to!(outer => old(v)@[j]),
    ensures
        relocated_body(final(v)@, old(v)@, site),
    decreases outer, 0nat,
{
    let ghost ov = v@;
    let mut i: usize = 0;
    while i < v.len()
        invariant
            v@.len() == ov.len(),
            0 <= i <= v@.len(),
            forall|j: int| 0 <= j < i ==> relocated_stmt(#[trigger] v@[j], ov[j], site),
            forall|j: int| i <= j < v@.len() ==> v@[j] == ov[j],
            forall|j: int| 0 <= j < ov.len() ==> decreases_to!(outer => ov[j]),
        decreases v@.len() - i,
    {
        assert(v@[i as int] == ov[i as int]);
        relocate_stmt(&mut v[i], site);
        i = i + 1;
    }
}

/// Attribute every span of one `if` branch, nested inside `outer`, to `site`.
fn relocate_branch(branch: &mut IfBranch, site: Span, Ghost(outer): Ghost<Stmt>)
    requires
        forall|j: int| 0 <= j < old(branch).body@.len() ==> decreases_to!(outer => old(branch).body@[j]),
    ensures
        relocated_expr(*final(branch).condition, *old(branch).condition, site),
        relocated_body(final(branch).body@, old(branch).body@, site),
    decreases outer, 1nat,
{
    relocate_expr(&mut *branch.condition, site);
    relocate_body(&mut branch.body, site, Ghost(outer));
}

/// Attribute every span of one `switch` arm, nested inside `outer`, to `site`.
fn relocate_arm(arm: &mut SwitchArm, site: Span, Ghost(outer): Ghost<Stmt>)
    requires
        match *old(arm) {
            SwitchArm::Case { body, .. } => forall|j: int|
                0 <= j < body@.len() ==> decreases_to!(outer => body@[j]),
            SwitchArm::Default { body, .. } => forall|j: int|
                0 <= j < body@.len() ==> decreases_to!(outer => body@[j]),
        },
    ensures
        match (*final(arm), *old(arm)) {
            (SwitchArm::Case { value: a, body: x, span: s }, SwitchArm::Case { value: b, body: y, .. }) => s
                == Some(site) && relocated_expr(*a, *b, site) && relocated_body(x@, y@, site),
            (SwitchArm::Default { body: x, span: s }, SwitchArm::Default { body: y, .. }) => s == Some(
                site,
            ) && relocated_body(x@, y@, site),
            _ => false,
        },
    decreases outer, 1nat,
{
    match arm {
        SwitchArm::Case { value, body, span } => {
            relocate_expr(&mut **value, site);
            relocate_body(body, site, Ghost(outer));
            *span = Some(site);
        },
        SwitchArm::Default { body, span } => {
            relocate_body(body, site, Ghost(outer));
            *span = Some(site);
        },
    }
}

/// Attribute every span of a statement to `site`.
pub fn relocate_stmt(statement: &mut Stmt, site: Span)
    ensures
        relocated_stmt(*final(statement), *old(statement), site),
    decreases *old(statement), 2nat,
{
    let ghost unrelocated = *statement;
    let at = Some(site);
    match statement {
        Stmt::Expr { expr, span } => {
            relocate_expr(&mut **expr, site);
            *span = at;
        },
        Stmt::Delete { target, span } => {
            relocate_expr(&mut **target, site);
            *span = at;
        },
        Stmt::Assign { target, value, span } => {
            relocate_expr(&mut **target, site);
            relocate_expr(&mut **value, site);
            *span = at;
        },
        Stmt::If { branches, else_body, span } => {
            let ghost ob = branches@;
            assert forall|j: int| #![trigger ob[j]] 0 <= j < ob.len() implies forall|k: int|
                0 <= k < ob[j].body@.len() ==> decreases_to!(unrelocated => ob[j].body@[k]) by {
                assert(decreases_to!(unrelocated => ob[j]));
                assert forall|k: int| 0 <= k < ob[j].body@.len() implies decreases_to!(unrelocated => ob[j].body@[k]) by {
                    assert(decreases_to!(ob[j] => ob[j].body@[k]));
                }
            }
            let mut i: usize = 0;
            while i < branches.len()
                invariant
                    unrelocated == *old(statement),
                    branches@.len() == ob.len(),
                    0 <= i <= branches@.len(),
                    forall|j: int|
                        0 <= j < i ==> {
                            &&& relocated_expr(*(#[trigger] branches@[j]).condition, *ob[j].condition, site)
                            &&& relocated_body(branches@[j].body@, ob[j].body@, site)
                        },
                    forall|j: int| i <= j < branches@.len() ==> branches@[j] == ob[j],
                    forall|j: int| #![trigger ob[j]]
                        0 <= j < ob.len() ==> forall|k: int| #![trigger ob[j].body@[k]]
                            0 <= k < ob[j].body@.len() ==> decreases_to!(unrelocated => ob[j].body@[k]),
                decreases branches@.len() - i,
            {
                assert(branches@[i as int] == ob[i as int]);
                relocate_branch(&mut branches[i], site, Ghost(unrelocated));
                i = i + 1;
            }
            if let Some(body) = else_body {
                relocate_body(body, site, Ghost(unrelocated));
            }
            *span = at;
        },
        Stmt::For { variable, iterable, body, span } => {
            relocate_expr(&mut **variable, site);
            relocate_expr(&mut **iterable, site);
            relocate_body(body, site, Ghost(unrelocated));
            *span = at;
        },
        Stmt::While { condition, body, span } => {
            relocate_expr(&mut **condition, site);
            relocate_body(body, site, Ghost(unrelocated));
            *span = at;
        },
        Stmt::DoWhile { condition, body, span } => {
            relocate_expr(&mut **condition, site);
            relocate_body(body, site, Ghost(unrelocated));
            *span = at;
        },
        Stmt::Switch { value, arms, span } => {
            relocate_expr(&mut **value, site);
            let ghost oa = arms@;
            assert forall|j: int| 0 <= j < oa.len() implies match #[trigger] oa[j] {
                SwitchArm::Case { body, .. } => forall|k: int|
                    0 <= k < body@.len() ==> decreases_to!(unrelocated => body@[k]),
                SwitchArm::Default { body, .. } => forall|k: int|
                    0 <= k < body@.len() ==> decreases_to!(unrelocated => body@[k]),
            } by {
                assert(decreases_to!(unrelocated => oa[j]));
                match oa[j] {
                    SwitchArm::Case { body, .. } => {
                        assert forall|k: int| 0 <= k < body@.len() implies decreases_to!(unrelocated => body@[k]) by {
                            assert(decreases_to!(oa[j] => body@[k]));
                        }
                    },
                    SwitchArm::Default { body, .. } => {
                        assert forall|k: int| 0 <= k < body@.len() implies decreases_to!(unrelocated => body@[k]) by {
                            assert(decreases_to!(oa[j] => body@[k]));
                        }
                    },
                }
            }
            let mut i: usize = 0;
            while i < arms.len()
                invariant
                    unrelocated == *old(statement),
                    arms@.len() == oa.len(),
                    0 <= i <= arms@.len(),
                    forall|j: int|
                        0 <= j < i ==> match (#[trigger] arms@[j], oa[j]) {
                            (
                                SwitchArm::Case { value: a, body: x, span: s },
                                SwitchArm::Case { value: b, body: y, .. },
                            ) => s == Some(site) && relocated_expr(*a, *b, site) && relocated_body(
                                x@,
                                y@,
                                site,
                            ),
                            (SwitchArm::Default { body: x, span: s }, SwitchArm::Default { body: y, .. }) => s
                                == Some(site) && relocated_body(x@, y@, site),
                            _ => false,
                        },
                    forall|j: int| i <= j < arms@.len() ==> arms@[j] == oa[j],
                    forall|j: int|
                        0 <= j < oa.len() ==> match #[trigger] oa[j] {
                            SwitchArm::Case { body, .. } => forall|k: int|
                                0 <= k < body@.len() ==> decreases_to!(unrelocated => body@[k]),
                            SwitchArm::Default { body, .. } => forall|k: int|
                                0 <= k < body@.len() ==> decreases_to!(unrelocated => body@[k]),
                        },
                decreases arms@.len() - i,
            {
                assert(arms@[i as int] == oa[i as int]);
                relocate_arm(&mut arms[i], site, Ghost(unrelocated));
                i = i + 1;
            }
            *span = at;
        },
        Stmt::Goto { offset, span, .. } => {
            if let Some(offset) = offset {
                relocate_expr(&mut **offset, site);
            }
            *span = at;
        },
        Stmt::Break { span } => *span = at,
        Stmt::Return { span } => *span = at,
        Stmt::Continue { span } => *span = at,
        Stmt::Label { span, .. } => *span = at,
        Stmt::CallSubroutine { span, .. } => *span = at,
        Stmt::Pass { span } => *span = at,
    }
}

/// Attribute every span of macro-expanded code to the invocation `site`, so
/// source attribution never points into the macro definition.
pub fn relocate_stmts(statements: &mut Vec<Stmt>, site: Span)
    ensures
        relocated_body(final(statements)@, old(statements)@, site),
{
    let ghost ov = statements@;
    let mut i: usize = 0;
    while i < statements.len()
        invariant
            statements@.len() == ov.len(),
            0 <= i <= statements@.len(),
            forall|j: int| 0 <= j < i ==> relocated_stmt(#[trigger] statements@[j], ov[j], site),
            forall|j: int| i <= j < statements@.len() ==> statements@[j] == ov[j],
        decreases statements@.len() - i,
    {
        relocate_stmt(&mut statements[i], site);
        i = i + 1;
    }
}


/// Relocating an expression to `a` and then to `b` relocates it to `b`:
/// the last site wins.
pub proof fn lemma_relocate_twice_expr(m: Expr, n: Expr, o: Expr, a: Span, b: Span)
    requires
        relocated_expr(n, o, a),
        relocated_expr(m, n, b),
    ensures
        relocated_expr(m, o, b),
    decreases o,
{
    match (m, n, o) {
        (Expr::Array { elements: x, .. }, Expr::Array { elements: y, .. }, Expr::Array { elements: z, .. }) => {
            assert forall|i: int| 0 <= i < z@.len() implies relocated_expr(#[trigger] x@[i], z@[i], b) by {
                lemma_relocate_twice_expr(x@[i], y@[i], z@[i], a, b);
            }
        },
        (Expr::Call { args: x, .. }, Expr::Call { args: y, .. }, Expr::Call { args: z, .. }) => {
            assert forall|i: int| 0 <= i < z@.len() implies relocated_expr(#[trigger] x@[i], z@[i], b) by {
                lemma_relocate_twice_expr(x@[i], y@[i], z@[i], a, b);
            }
        },
        (Expr::MacroCall { args: x, .. }, Expr::MacroCall { args: y, .. }, Expr::MacroCall { args: z, .. }) => {
            assert forall|i: int| 0 <= i < z@.len() implies relocated_expr(#[trigger] x@[i], z@[i], b) by {
                lemma_relocate_twice_expr(x@[i], y@[i], z@[i], a, b);
            }
        },
        (Expr::Type { args: x, .. }, Expr::Type { args: y, .. }, Expr::Type { args: z, .. }) => {
            assert forall|i: int| 0 <= i < z@.len() implies relocated_expr(#[trigger] x@[i], z@[i], b) by {
                lemma_relocate_twice_expr(x@[i], y@[i], z@[i], a, b);
            }
        },
        (Expr::Format { args: x, .. }, Expr::Format { args: y, .. }, Expr::Format { args: z, .. }) => {
            assert forall|i: int| 0 <= i < z@.len() implies relocated_expr(#[trigger] x@[i], z@[i], b) by {
                lemma_relocate_twice_expr(x@[i], y@[i], z@[i], a, b);
            }
        },
        (Expr::Dict { entries: x, .. }, Expr::Dict { entries: y, .. }, Expr::Dict { entries: z, .. }) => {
            assert forall|i: int| 0 <= i < z@.len() implies {
                &&& (#[trigger] x@[i]).span == Some(b)
                &&& relocated_expr(*x@[i].key, *z@[i].key, b)
                &&& relocated_expr(*x@[i].value, *z@[i].value, b)
            } by {
                assert(y@[i].span == Some(a));
                lemma_relocate_twice_expr(*x@[i].key, *y@[i].key, *z@[i].key, a, b);
                lemma_relocate_twice_expr(*x@[i].value, *y@[i].value, *z@[i].value, a, b);
            }
        },
        (
            Expr::Comprehension { element: e1, iterable: i1, condition: c1, .. },
            Expr::Comprehension { element: e2, iterable: i2, condition: c2, .. },
            Expr::Comprehension { element: e3, iterable: i3, condition: c3, .. },
        ) => {
            lemma_relocate_twice_expr(*e1, *e2, *e3, a, b);
            lemma_relocate_twice_expr(*i1, *i2, *i3, a, b);
            match (c1, c2, c3) {
                (Some(x), Some(y), Some(z)) => lemma_relocate_twice_expr(*x, *y, *z, a, b),
                _ => {},
            }
        },
        (Expr::Lambda { body: x, .. }, Expr::Lambda { body: y, .. }, Expr::Lambda { body: z, .. }) => {
            lemma_relocate_twice_expr(*x, *y, *z, a, b);
        },
        (
            Expr::Vector { x: x1, y: y1, z: z1, .. },
            Expr::Vector { x: x2, y: y2, z: z2, .. },
            Expr::Vector { x: x3, y: y3, z: z3, .. },
        ) => {
            lemma_relocate_twice_expr(*x1, *x2, *x3, a, b);
            lemma_relocate_twice_expr(*y1, *y2, *y3, a, b);
            lemma_relocate_twice_expr(*z1, *z2, *z3, a, b);
        },
        (Expr::PlayerVar { player: x, .. }, Expr::PlayerVar { player: y, .. }, Expr::PlayerVar { player: z, .. }) => {
            lemma_relocate_twice_expr(*x, *y, *z, a, b);
        },
        (Expr::Member { receiver: x, .. }, Expr::Member { receiver: y, .. }, Expr::Member { receiver: z, .. }) => {
            lemma_relocate_twice_expr(*x, *y, *z, a, b);
        },
        (
            Expr::ReceiverCall { receiver: r1, args: x, .. },
            Expr::ReceiverCall { receiver: r2, args: y, .. },
            Expr::ReceiverCall { receiver: r3, args: z, .. },
        ) => {
            lemma_relocate_twice_expr(*r1, *r2, *r3, a, b);
            assert forall|i: int| 0 <= i < z@.len() implies relocated_expr(#[trigger] x@[i], z@[i], b) by {
                lemma_relocate_twice_expr(x@[i], y@[i], z@[i], a, b);
            }
        },
        (
            Expr::Binary { left: l1, right: r1, .. },
            Expr::Binary { left: l2, right: r2, .. },
            Expr::Binary { left: l3, right: r3, .. },
        ) => {
            lemma_relocate_twice_expr(*l1, *l2, *l3, a, b);
            lemma_relocate_twice_expr(*r1, *r2, *r3, a, b);
        },
        (
            Expr::Conditional { then_value: t1, condition: c1, else_value: e1, .. },
            Expr::Conditional { then_value: t2, condition: c2, else_value: e2, .. },
            Expr::Conditional { then_value: t3, condition: c3, else_value: e3, .. },
        ) => {
            lemma_relocate_twice_expr(*t1, *t2, *t3, a, b);
            lemma_relocate_twice_expr(*c1, *c2, *c3, a, b);
            lemma_relocate_twice_expr(*e1, *e2, *e3, a, b);
        },
        (Expr::Unary { operand: x, .. }, Expr::Unary { operand: y, .. }, Expr::Unary { operand: z, .. }) => {
            lemma_relocate_twice_expr(*x, *y, *z, a, b);
        },
        (
            Expr::Index { array: a1, index: i1, .. },
            Expr::Index { array: a2, index: i2, .. },
            Expr::Index { array: a3, index: i3, .. },
        ) => {
            lemma_relocate_twice_expr(*a1, *a2, *a3, a, b);
            lemma_relocate_twice_expr(*i1, *i2, *i3, a, b);
        },
        _ => {},
    }
}


/// Relocating statements to `a` and then to `b` relocates them to `b`.
pub proof fn lemma_relocate_twice_body(m: Seq<Stmt>, n: Seq<Stmt>, o: Seq<Stmt>, a: Span, b: Span)
    requires
        relocated_body(n, o, a),
        relocated_body(m, n, b),
    ensures
        relocated_body(m, o, b),
    decreases o,
{
    assert forall|i: int| 0 <= i < o.len() implies relocated_stmt(#[trigger] m[i], o[i], b) by {
        lemma_relocate_twice_stmt(m[i], n[i], o[i], a, b);
    }
}

/// Relocating a statement to `a` and then to `b` relocates it to `b`: the
/// last site wins.
pub proof fn lemma_relocate_twice_stmt(m: Stmt, n: Stmt, o: Stmt, a: Span, b: Span)
    requires
        relocated_stmt(n, o, a),
        relocated_stmt(m, n, b),
    ensures
        relocated_stmt(m, o, b),
    decreases o,
{
    match (m, n, o) {
        (Stmt::Expr { expr: x, .. }, Stmt::Expr { expr: y, .. }, Stmt::Expr { expr: z, .. }) => {
            lemma_relocate_twice_expr(*x, *y, *z, a, b);
        },
        (Stmt::Delete { target: x, .. }, Stmt::Delete { target: y, .. }, Stmt::Delete { target: z, .. }) => {
            lemma_relocate_twice_expr(*x, *y, *z, a, b);
        },
        (
            Stmt::Assign { target: t1, value: v1, .. },
            Stmt::Assign { target: t2, value: v2, .. },
            Stmt::Assign { target: t3, value: v3, .. },
        ) => {
            lemma_relocate_twice_expr(*t1, *t2, *t3, a, b);
            lemma_relocate_twice_expr(*v1, *v2, *v3, a, b);
        },
        (
            Stmt::If { branches: x, else_body: e1, .. },
            Stmt::If { branches: y, else_body: e2, .. },
            Stmt::If { branches: z, else_body: e3, .. },
        ) => {
            assert forall|i: int| 0 <= i < z@.len() implies {
                &&& relocated_expr(*(#[trigger] x@[i]).condition, *z@[i].condition, b)
                &&& relocated_body(x@[i].body@, z@[i].body@, b)
            } by {
                assert(relocated_expr(*y@[i].condition, *z@[i].condition, a));
                lemma_relocate_twice_expr(*x@[i].condition, *y@[i].condition, *z@[i].condition, a, b);
                lemma_relocate_twice_body(x@[i].body@, y@[i].body@, z@[i].body@, a, b);
            }
            match (e1, e2, e3) {
                (Some(p), Some(q), Some(r)) => lemma_relocate_twice_body(p@, q@, r@, a, b),
                _ => {},
            }
        },
        (
            Stmt::For { variable: v1, iterable: i1, body: b1, .. },
            Stmt::For { variable: v2, iterable: i2, body: b2, .. },
            Stmt::For { variable: v3, iterable: i3, body: b3, .. },
        ) => {
            lemma_relocate_twice_expr(*v1, *v2, *v3, a, b);
            lemma_relocate_twice_expr(*i1, *i2, *i3, a, b);
            lemma_relocate_twice_body(b1@, b2@, b3@, a, b);
        },
        (
            Stmt::While { condition: c1, body: b1, .. },
            Stmt::While { condition: c2, body: b2, .. },
            Stmt::While { condition: c3, body: b3, .. },
        ) => {
            lemma_relocate_twice_expr(*c1, *c2, *c3, a, b);
            lemma_relocate_twice_body(b1@, b2@, b3@, a, b);
        },
        (
            Stmt::DoWhile { condition: c1, body: b1, .. },
            Stmt::DoWhile { condition: c2, body: b2, .. },
            Stmt::DoWhile { condition: c3, body: b3, .. },
        ) => {
            lemma_relocate_twice_expr(*c1, *c2, *c3, a, b);
            lemma_relocate_twice_body(b1@, b2@, b3@, a, b);
        },
        (
            Stmt::Switch { value: v1, arms: x, .. },
            Stmt::Switch { value: v2, arms: y, .. },
            Stmt::Switch { value: v3, arms: z, .. },
        ) => {
            lemma_relocate_twice_expr(*v1, *v2, *v3, a, b);
            assert forall|i: int| 0 <= i < z@.len() implies match (#[trigger] x@[i], z@[i]) {
                (SwitchArm::Case { value: p, body: q, span: s }, SwitchArm::Case { value: r, body: t, .. }) => s
                    == Some(b) && relocated_expr(*p, *r, b) && relocated_body(q@, t@, b),
                (SwitchArm::Default { body: q, span: s }, SwitchArm::Default { body: t, .. }) => s == Some(b)
                    && relocated_body(q@, t@, b),
                _ => false,
            } by {
                let yi = y@[i];
                assert(match (yi, z@[i]) {
                    (SwitchArm::Case { value: p, body: q, span: s }, SwitchArm::Case { value: r, body: t, .. }) => s
                        == Some(a) && relocated_expr(*p, *r, a) && relocated_body(q@, t@, a),
                    (SwitchArm::Default { body: q, span: s }, SwitchArm::Default { body: t, .. }) => s == Some(a)
                        && relocated_body(q@, t@, a),
                    _ => false,
                });
                match (x@[i], yi, z@[i]) {
                    (
                        SwitchArm::Case { value: p1, body: q1, .. },
                        SwitchArm::Case { value: p2, body: q2, .. },
                        SwitchArm::Case { value: p3, body: q3, .. },
                    ) => {
                        lemma_relocate_twice_expr(*p1, *p2, *p3, a, b);
                        lemma_relocate_twice_body(q1@, q2@, q3@, a, b);
                    },
                    (
                        SwitchArm::Default { body: q1, .. },
                        SwitchArm::Default { body: q2, .. },
                        SwitchArm::Default { body: q3, .. },
                    ) => {
                        lemma_relocate_twice_body(q1@, q2@, q3@, a, b);
                    },
                    _ => {},
                }
            }
        },
        (Stmt::Goto { offset: o1, .. }, Stmt::Goto { offset: o2, .. }, Stmt::Goto { offset: o3, .. }) => {
            match (o1, o2, o3) {
                (Some(x), Some(y), Some(z)) => lemma_relocate_twice_expr(*x, *y, *z, a, b),
                _ => {},
            }
        },
        _ => {},
    }
}

/// Two relocations of one expression to the same site agree at every
/// depth: each is the other relocated to that site.
pub proof fn lemma_relocations_agree_expr(m: Expr, n: Expr, o: Expr, b: Span)
    requires
        relocated_expr(n, o, b),
        relocated_expr(m, o, b),
    ensures
        relocated_expr(m, n, b),
    decreases o,
{
    match (m, n, o) {
        (Expr::Array { elements: x, .. }, Expr::Array { elements: y, .. }, Expr::Array { elements: z, .. }) => {
            assert forall|i: int| 0 <= i < z@.len() implies relocated_expr(#[trigger] x@[i], y@[i], b) by {
                lemma_relocations_agree_expr(x@[i], y@[i], z@[i], b);
            }
        },
        (Expr::Call { args: x, .. }, Expr::Call { args: y, .. }, Expr::Call { args: z, .. }) => {
            assert forall|i: int| 0 <= i < z@.len() implies relocated_expr(#[trigger] x@[i], y@[i], b) by {
                lemma_relocations_agree_expr(x@[i], y@[i], z@[i], b);
            }
        },
        (Expr::MacroCall { args: x, .. }, Expr::MacroCall { args: y, .. }, Expr::MacroCall { args: z, .. }) => {
            assert forall|i: int| 0 <= i < z@.len() implies relocated_expr(#[trigger] x@[i], y@[i], b) by {
                lemma_relocations_agree_expr(x@[i], y@[i], z@[i], b);
            }
        },
        (Expr::Type { args: x, .. }, Expr::Type { args: y, .. }, Expr::Type { args: z, .. }) => {
            assert forall|i: int| 0 <= i < z@.len() implies relocated_expr(#[trigger] x@[i], y@[i], b) by {
                lemma_relocations_agree_expr(x@[i], y@[i], z@[i], b);
            }
        },
        (Expr::Format { args: x, .. }, Expr::Format { args: y, .. }, Expr::Format { args: z, .. }) => {
            assert forall|i: int| 0 <= i < z@.len() implies relocated_expr(#[trigger] x@[i], y@[i], b) by {
                lemma_relocations_agree_expr(x@[i], y@[i], z@[i], b);
            }
        },
        (Expr::Dict { entries: x, .. }, Expr::Dict { entries: y, .. }, Expr::Dict { entries: z, .. }) => {
            assert forall|i: int| 0 <= i < z@.len() implies {
                &&& (#[trigger] x@[i]).span == Some(b)
                &&& relocated_expr(*x@[i].key, *y@[i].key, b)
                &&& relocated_expr(*x@[i].value, *y@[i].value, b)
            } by {
                assert(y@[i].span == Some(b));
                lemma_relocations_agree_expr(*x@[i].key, *y@[i].key, *z@[i].key, b);
                lemma_relocations_agree_expr(*x@[i].value, *y@[i].value, *z@[i].value, b);
            }
        },
        (
            Expr::Comprehension { element: e1, iterable: i1, condition: c1, .. },
            Expr::Comprehension { element: e2, iterable: i2, condition: c2, .. },
            Expr::Comprehension { element: e3, iterable: i3, condition: c3, .. },
        ) => {
            lemma_relocations_agree_expr(*e1, *e2, *e3, b);
            lemma_relocations_agree_expr(*i1, *i2, *i3, b);
            match (c1, c2, c3) {
                (Some(x), Some(y), Some(z)) => lemma_relocations_agree_expr(*x, *y, *z, b),
                _ => {},
            }
        },
        (Expr::Lambda { body: x, .. }, Expr::Lambda { body: y, .. }, Expr::Lambda { body: z, .. }) => {
            lemma_relocations_agree_expr(*x, *y, *z, b);
        },
        (
            Expr::Vector { x: x1, y: y1, z: z1, .. },
            Expr::Vector { x: x2, y: y2, z: z2, .. },
            Expr::Vector { x: x3, y: y3, z: z3, .. },
        ) => {
            lemma_relocations_agree_expr(*x1, *x2, *x3, b);
            lemma_relocations_agree_expr(*y1, *y2, *y3, b);
            lemma_relocations_agree_expr(*z1, *z2, *z3, b);
        },
        (Expr::PlayerVar { player: x, .. }, Expr::PlayerVar { player: y, .. }, Expr::PlayerVar { player: z, .. }) => {
            lemma_relocations_agree_expr(*x, *y, *z, b);
        },
        (Expr::Member { receiver: x, .. }, Expr::Member { receiver: y, .. }, Expr::Member { receiver: z, .. }) => {
            lemma_relocations_agree_expr(*x, *y, *z, b);
        },
        (
            Expr::ReceiverCall { receiver: r1, args: x, .. },
            Expr::ReceiverCall { receiver: r2, args: y, .. },
            Expr::ReceiverCall { receiver: r3, args: z, .. },
        ) => {
            lemma_relocations_agree_expr(*r1, *r2, *r3, b);
            assert forall|i: int| 0 <= i < z@.len() implies relocated_expr(#[trigger] x@[i], y@[i], b) by {
                lemma_relocations_agree_expr(x@[i], y@[i], z@[i], b);
            }
        },
        (
            Expr::Binary { left: l1, right: r1, .. },
            Expr::Binary { left: l2, right: r2, .. },
            Expr::Binary { left: l3, right: r3, .. },
        ) => {
            lemma_relocations_agree_expr(*l1, *l2, *l3, b);
            lemma_relocations_agree_expr(*r1, *r2, *r3, b);
        },
        (
            Expr::Conditional { then_value: t1, condition: c1, else_value: e1, .. },
            Expr::Conditional { then_value: t2, condition: c2, else_value: e2, .. },
            Expr::Conditional { then_value: t3, condition: c3, else_value: e3, .. },
        ) => {
            lemma_relocations_agree_expr(*t1, *t2, *t3, b);
            lemma_relocations_agree_expr(*c1, *c2, *c3, b);
            lemma_relocations_agree_expr(*e1, *e2, *e3, b);
        },
        (Expr::Unary { operand: x, .. }, Expr::Unary { operand: y, .. }, Expr::Unary { operand: z, .. }) => {
            lemma_relocations_agree_expr(*x, *y, *z, b);
        },
        (
            Expr::Index { array: a1, index: i1, .. },
            Expr::Index { array: a2, index: i2, .. },
            Expr::Index { array: a3, index: i3, .. },
        ) => {
            lemma_relocations_agree_expr(*a1, *a2, *a3, b);
            lemma_relocations_agree_expr(*i1, *i2, *i3, b);
        },
        _ => {},
    }
}


/// An expression that is another relocated to `b`, where that other is
/// itself relocated to `b`, is that other expression, node for node.
pub proof fn lemma_relocated_same_expr(m: Expr, n: Expr, o: Expr, b: Span)
    requires
        relocated_expr(m, n, b),
        relocated_expr(n, o, b),
    ensures
        same_expr(m, n),
    decreases o,
{
    match (m, n, o) {
        (Expr::Array { elements: x, .. }, Expr::Array { elements: y, .. }, Expr::Array { elements: z, .. }) => {
            assert forall|i: int| 0 <= i < z@.len() implies same_expr(#[trigger] x@[i], y@[i]) by {
                lemma_relocated_same_expr(x@[i], y@[i], z@[i], b);
            }
        },
        (Expr::Call { args: x, .. }, Expr::Call { args: y, .. }, Expr::Call { args: z, .. }) => {
            assert forall|i: int| 0 <= i < z@.len() implies same_expr(#[trigger] x@[i], y@[i]) by {
                lemma_relocated_same_expr(x@[i], y@[i], z@[i], b);
            }
        },
        (Expr::MacroCall { args: x, .. }, Expr::MacroCall { args: y, .. }, Expr::MacroCall { args: z, .. }) => {
            assert forall|i: int| 0 <= i < z@.len() implies same_expr(#[trigger] x@[i], y@[i]) by {
                lemma_relocated_same_expr(x@[i], y@[i], z@[i], b);
            }
        },
        (Expr::Type { args: x, .. }, Expr::Type { args: y, .. }, Expr::Type { args: z, .. }) => {
            assert forall|i: int| 0 <= i < z@.len() implies same_expr(#[trigger] x@[i], y@[i]) by {
                lemma_relocated_same_expr(x@[i], y@[i], z@[i], b);
            }
        },
        (Expr::Format { args: x, .. }, Expr::Format { args: y, .. }, Expr::Format { args: z, .. }) => {
            assert forall|i: int| 0 <= i < z@.len() implies same_expr(#[trigger] x@[i], y@[i]) by {
                lemma_relocated_same_expr(x@[i], y@[i], z@[i], b);
            }
        },
        (Expr::Dict { entries: x, .. }, Expr::Dict { entries: y, .. }, Expr::Dict { entries: z, .. }) => {
            assert forall|i: int| 0 <= i < z@.len() implies {
                &&& (#[trigger] x@[i]).span == y@[i].span
                &&& same_expr(*x@[i].key, *y@[i].key)
                &&& same_expr(*x@[i].value, *y@[i].value)
            } by {
                assert(y@[i].span == Some(b));
                assert(x@[i].span == Some(b));
                lemma_relocated_same_expr(*x@[i].key, *y@[i].key, *z@[i].key, b);
                lemma_relocated_same_expr(*x@[i].value, *y@[i].value, *z@[i].value, b);
            }
        },
        (
            Expr::Comprehension { element: e1, iterable: i1, condition: c1, .. },
            Expr::Comprehension { element: e2, iterable: i2, condition: c2, .. },
            Expr::Comprehension { element: e3, iterable: i3, condition: c3, .. },
        ) => {
            lemma_relocated_same_expr(*e1, *e2, *e3, b);
            lemma_relocated_same_expr(*i1, *i2, *i3, b);
            match (c1, c2, c3) {
                (Some(x), Some(y), Some(z)) => lemma_relocated_same_expr(*x, *y, *z, b),
                _ => {},
            }
        },
        (
            Expr::Lambda { param_spans: q1, body: x, .. },
            Expr::Lambda { param_spans: q2, body: y, .. },
            Expr::Lambda { body: z, .. },
        ) => {
            assert(q1@ =~= q2@);
            lemma_relocated_same_expr(*x, *y, *z, b);
        },
        (
            Expr::Vector { x: x1, y: y1, z: z1, .. },
            Expr::Vector { x: x2, y: y2, z: z2, .. },
            Expr::Vector { x: x3, y: y3, z: z3, .. },
        ) => {
            lemma_relocated_same_expr(*x1, *x2, *x3, b);
            lemma_relocated_same_expr(*y1, *y2, *y3, b);
            lemma_relocated_same_expr(*z1, *z2, *z3, b);
        },
        (Expr::PlayerVar { player: x, .. }, Expr::PlayerVar { player: y, .. }, Expr::PlayerVar { player: z, .. }) => {
            lemma_relocated_same_expr(*x, *y, *z, b);
        },
        (Expr::Member { receiver: x, .. }, Expr::Member { receiver: y, .. }, Expr::Member { receiver: z, .. }) => {
            lemma_relocated_same_expr(*x, *y, *z, b);
        },
        (
            Expr::ReceiverCall { receiver: r1, args: x, .. },
            Expr::ReceiverCall { receiver: r2, args: y, .. },
            Expr::ReceiverCall { receiver: r3, args: z, .. },
        ) => {
            lemma_relocated_same_expr(*r1, *r2, *r3, b);
            assert forall|i: int| 0 <= i < z@.len() implies same_expr(#[trigger] x@[i], y@[i]) by {
                lemma_relocated_same_expr(x@[i], y@[i], z@[i], b);
            }
        },
        (
            Expr::Binary { left: l1, right: r1, .. },
            Expr::Binary { left: l2, right: r2, .. },
            Expr::Binary { left: l3, right: r3, .. },
        ) => {
            lemma_relocated_same_expr(*l1, *l2, *l3, b);
            lemma_relocated_same_expr(*r1, *r2, *r3, b);
        },
        (
            Expr::Conditional { then_value: t1, condition: c1, else_value: e1, .. },
            Expr::Conditional { then_value: t2, condition: c2, else_value: e2, .. },
            Expr::Conditional { then_value: t3, condition: c3, else_value: e3, .. },
        ) => {
            lemma_relocated_same_expr(*t1, *t2, *t3, b);
            lemma_relocated_same_expr(*c1, *c2, *c3, b);
            lemma_relocated_same_expr(*e1, *e2, *e3, b);
        },
        (Expr::Unary { operand: x, .. }, Expr::Unary { operand: y, .. }, Expr::Unary { operand: z, .. }) => {
            lemma_relocated_same_expr(*x, *y, *z, b);
        },
        (
            Expr::Index { array: a1, index: i1, .. },
            Expr::Index { array: a2, index: i2, .. },
            Expr::Index { array: a3, index: i3, .. },
        ) => {
            lemma_relocated_same_expr(*a1, *a2, *a3, b);
            lemma_relocated_same_expr(*i1, *i2, *i3, b);
        },
        _ => {},
    }
}



/// Two relocations of the same statements to one site agree at every depth.
pub proof fn lemma_relocations_agree_body(m: Seq<Stmt>, n: Seq<Stmt>, o: Seq<Stmt>, b: Span)
    requires
        relocated_body(n, o, b),
        relocated_body(m, o, b),
    ensures
        relocated_body(m, n, b),
    decreases o,
{
    assert forall|i: int| 0 <= i < o.len() implies relocated_stmt(#[trigger] m[i], n[i], b) by {
        lemma_relocations_agree_stmt(m[i], n[i], o[i], b);
    }
}

/// Two relocations of one statement to the same site agree at every depth.
pub proof fn lemma_relocations_agree_stmt(m: Stmt, n: Stmt, o: Stmt, b: Span)
    requires
        relocated_stmt(n, o, b),
        relocated_stmt(m, o, b),
    ensures
        relocated_stmt(m, n, b),
    decreases o,
{
    match (m, n, o) {
        (Stmt::Expr { expr: x, .. }, Stmt::Expr { expr: y, .. }, Stmt::Expr { expr: z, .. }) => {
            lemma_relocations_agree_expr(*x, *y, *z, b);
        },
        (Stmt::Delete { target: x, .. }, Stmt::Delete { target: y, .. }, Stmt::Delete { target: z, .. }) => {
            lemma_relocations_agree_expr(*x, *y, *z, b);
        },
        (
            Stmt::Assign { target: t1, value: v1, .. },
            Stmt::Assign { target: t2, value: v2, .. },
            Stmt::Assign { target: t3, value: v3, .. },
        ) => {
            lemma_relocations_agree_expr(*t1, *t2, *t3, b);
            lemma_relocations_agree_expr(*v1, *v2, *v3, b);
        },
        (
            Stmt::If { branches: x, else_body: e1, .. },
            Stmt::If { branches: y, else_body: e2, .. },
            Stmt::If { branches: z, else_body: e3, .. },
        ) => {
            assert forall|i: int| 0 <= i < z@.len() implies {
                &&& relocated_expr(*(#[trigger] x@[i]).condition, *y@[i].condition, b)
                &&& relocated_body(x@[i].body@, y@[i].body@, b)
            } by {
                assert(relocated_expr(*y@[i].condition, *z@[i].condition, b));
                lemma_relocations_agree_expr(*x@[i].condition, *y@[i].condition, *z@[i].condition, b);
                lemma_relocations_agree_body(x@[i].body@, y@[i].body@, z@[i].body@, b);
            }
            match (e1, e2, e3) {
                (Some(p), Some(q), Some(r)) => lemma_relocations_agree_body(p@, q@, r@, b),
                _ => {},
            }
        },
        (
            Stmt::For { variable: v1, iterable: i1, body: b1, .. },
            Stmt::For { variable: v2, iterable: i2, body: b2, .. },
            Stmt::For { variable: v3, iterable: i3, body: b3, .. },
        ) => {
            lemma_relocations_agree_expr(*v1, *v2, *v3, b);
            lemma_relocations_agree_expr(*i1, *i2, *i3, b);
            lemma_relocations_agree_body(b1@, b2@, b3@, b);
        },
        (
            Stmt::While { condition: c1, body: b1, .. },
            Stmt::While { condition: c2, body: b2, .. },
            Stmt::While { condition: c3, body: b3, .. },
        ) => {
            lemma_relocations_agree_expr(*c1, *c2, *c3, b);
            lemma_relocations_agree_body(b1@, b2@, b3@, b);
        },
        (
            Stmt::DoWhile { condition: c1, body: b1, .. },
            Stmt::DoWhile { condition: c2, body: b2, .. },
            Stmt::DoWhile { condition: c3, body: b3, .. },
        ) => {
            lemma_relocations_agree_expr(*c1, *c2, *c3, b);
            lemma_relocations_agree_body(b1@, b2@, b3@, b);
        },
        (
            Stmt::Switch { value: v1, arms: x, .. },
            Stmt::Switch { value: v2, arms: y, .. },
            Stmt::Switch { value: v3, arms: z, .. },
        ) => {
            lemma_relocations_agree_expr(*v1, *v2, *v3, b);
            assert forall|i: int| 0 <= i < z@.len() implies match (#[trigger] x@[i], y@[i]) {
                (SwitchArm::Case { value: p, body: q, span: s }, SwitchArm::Case { value: r, body: t, .. }) => s
                    == Some(b) && relocated_expr(*p, *r, b) && relocated_body(q@, t@, b),
                (SwitchArm::Default { body: q, span: s }, SwitchArm::Default { body: t, .. }) => s == Some(b)
                    && relocated_body(q@, t@, b),
                _ => false,
            } by {
                let yi = y@[i];
                assert(match (yi, z@[i]) {
                    (SwitchArm::Case { value: p, body: q, span: s }, SwitchArm::Case { value: r, body: t, .. }) => s
                        == Some(b) && relocated_expr(*p, *r, b) && relocated_body(q@, t@, b),
                    (SwitchArm::Default { body: q, span: s }, SwitchArm::Default { body: t, .. }) => s == Some(b)
                        && relocated_body(q@, t@, b),
                    _ => false,
                });
                match (x@[i], yi, z@[i]) {
                    (
                        SwitchArm::Case { value: p1, body: q1, .. },
                        SwitchArm::Case { value: p2, body: q2, .. },
                        SwitchArm::Case { value: p3, body: q3, .. },
                    ) => {
                        lemma_relocations_agree_expr(*p1, *p2, *p3, b);
                        lemma_relocations_agree_body(q1@, q2@, q3@, b);
                    },
                    (
                        SwitchArm::Default { body: q1, .. },
                        SwitchArm::Default { body: q2, .. },
                        SwitchArm::Default { body: q3, .. },
                    ) => {
                        lemma_relocations_agree_body(q1@, q2@, q3@, b);
                    },
                    _ => {},
                }
            }
        },
        (Stmt::Goto { offset: o1, .. }, Stmt::Goto { offset: o2, .. }, Stmt::Goto { offset: o3, .. }) => {
            match (o1, o2, o3) {
                (Some(x), Some(y), Some(z)) => lemma_relocations_agree_expr(*x, *y, *z, b),
                _ => {},
            }
        },
        _ => {},
    }
}

/// Statements that are others relocated to `b`, where those others are
/// themselves relocated to `b`, are those statements, node for node.
pub proof fn lemma_relocated_same_body(m: Seq<Stmt>, n: Seq<Stmt>, o: Seq<Stmt>, b: Span)
    requires
        relocated_body(m, n, b),
        relocated_body(n, o, b),
    ensures
        same_stmts(m, n),
    decreases o,
{
    assert forall|i: int| 0 <= i < o.len() implies same_stmt(#[trigger] m[i], n[i]) by {
        lemma_relocated_same_stmt(m[i], n[i], o[i], b);
    }
}

/// A statement that is another relocated to `b`, where that other is
/// itself relocated to `b`, is that other statement, node for node.
pub proof fn lemma_relocated_same_stmt(m: Stmt, n: Stmt, o: Stmt, b: Span)
    requires
        relocated_stmt(m, n, b),
        relocated_stmt(n, o, b),
    ensures
        same_stmt(m, n),
    decreases o,
{
    match (m, n, o) {
        (Stmt::Expr { expr: x, .. }, Stmt::Expr { expr: y, .. }, Stmt::Expr { expr: z, .. }) => {
            lemma_relocated_same_expr(*x, *y, *z, b);
        },
        (Stmt::Delete { target: x, .. }, Stmt::Delete { target: y, .. }, Stmt::Delete { target: z, .. }) => {
            lemma_relocated_same_expr(*x, *y, *z, b);
        },
        (
            Stmt::Assign { target: t1, value: v1, .. },
            Stmt::Assign { target: t2, value: v2, .. },
            Stmt::Assign { target: t3, value: v3, .. },
        ) => {
            lemma_relocated_same_expr(*t1, *t2, *t3, b);
            lemma_relocated_same_expr(*v1, *v2, *v3, b);
        },
        (
            Stmt::If { branches: x, else_body: e1, .. },
            Stmt::If { branches: y, else_body: e2, .. },
            Stmt::If { branches: z, else_body: e3, .. },
        ) => {
            assert forall|i: int| 0 <= i < z@.len() implies {
                &&& same_expr(*(#[trigger] x@[i]).condition, *y@[i].condition)
                &&& x@[i].body@.len() == y@[i].body@.len()
                &&& forall|j: int| 0 <= j < x@[i].body@.len() ==> same_stmt(#[trigger] x@[i].body@[j], y@[i].body@[j])
            } by {
                assert(relocated_expr(*y@[i].condition, *z@[i].condition, b));
                assert(relocated_expr(*x@[i].condition, *y@[i].condition, b));
                lemma_relocated_same_expr(*x@[i].condition, *y@[i].condition, *z@[i].condition, b);
                lemma_relocated_same_body(x@[i].body@, y@[i].body@, z@[i].body@, b);
            }
            match (e1, e2, e3) {
                (Some(p), Some(q), Some(r)) => lemma_relocated_same_body(p@, q@, r@, b),
                _ => {},
            }
        },
        (
            Stmt::For { variable: v1, iterable: i1, body: b1, .. },
            Stmt::For { variable: v2, iterable: i2, body: b2, .. },
            Stmt::For { variable: v3, iterable: i3, body: b3, .. },
        ) => {
            lemma_relocated_same_expr(*v1, *v2, *v3, b);
            lemma_relocated_same_expr(*i1, *i2, *i3, b);
            lemma_relocated_same_body(b1@, b2@, b3@, b);
        },
        (
            Stmt::While { condition: c1, body: b1, .. },
            Stmt::While { condition: c2, body: b2, .. },
            Stmt::While { condition: c3, body: b3, .. },
        ) => {
            lemma_relocated_same_expr(*c1, *c2, *c3, b);
            lemma_relocated_same_body(b1@, b2@, b3@, b);
        },
        (
            Stmt::DoWhile { condition: c1, body: b1, .. },
            Stmt::DoWhile { condition: c2, body: b2, .. },
            Stmt::DoWhile { condition: c3, body: b3, .. },
        ) => {
            lemma_relocated_same_expr(*c1, *c2, *c3, b);
            lemma_relocated_same_body(b1@, b2@, b3@, b);
        },
        (
            Stmt::Switch { value: v1, arms: x, .. },
            Stmt::Switch { value: v2, arms: y, .. },
            Stmt::Switch { value: v3, arms: z, .. },
        ) => {
            lemma_relocated_same_expr(*v1, *v2, *v3, b);
            assert forall|i: int| 0 <= i < z@.len() implies match (#[trigger] x@[i], y@[i]) {
                (
                    SwitchArm::Case { value: p, body: q, span: s },
                    SwitchArm::Case { value: r, body: t, span: u },
                ) => {
                    &&& s == u && same_expr(*p, *r)
                    &&& q@.len() == t@.len()
                    &&& forall|j: int| 0 <= j < q@.len() ==> same_stmt(#[trigger] q@[j], t@[j])
                },
                (SwitchArm::Default { body: q, span: s }, SwitchArm::Default { body: t, span: u }) => {
                    &&& s == u
                    &&& q@.len() == t@.len()
                    &&& forall|j: int| 0 <= j < q@.len() ==> same_stmt(#[trigger] q@[j], t@[j])
                },
                _ => false,
            } by {
                assert(match (x@[i], y@[i]) {
                    (SwitchArm::Case { value: p, body: q, span: s }, SwitchArm::Case { value: r, body: t, .. }) => s
                        == Some(b) && relocated_expr(*p, *r, b) && relocated_body(q@, t@, b),
                    (SwitchArm::Default { body: q, span: s }, SwitchArm::Default { body: t, .. }) => s == Some(b)
                        && relocated_body(q@, t@, b),
                    _ => false,
                });
                let yi = y@[i];
                assert(match (yi, z@[i]) {
                    (SwitchArm::Case { value: p, body: q, span: s }, SwitchArm::Case { value: r, body: t, .. }) => s
                        == Some(b) && relocated_expr(*p, *r, b) && relocated_body(q@, t@, b),
                    (SwitchArm::Default { body: q, span: s }, SwitchArm::Default { body: t, .. }) => s == Some(b)
                        && relocated_body(q@, t@, b),
                    _ => false,
                });
                match (x@[i], yi, z@[i]) {
                    (
                        SwitchArm::Case { value: p1, body: q1, .. },
                        SwitchArm::Case { value: p2, body: q2, .. },
                        SwitchArm::Case { value: p3, body: q3, .. },
                    ) => {
                        lemma_relocated_same_expr(*p1, *p2, *p3, b);
                        lemma_relocated_same_body(q1@, q2@, q3@, b);
                    },
                    (
                        SwitchArm::Default { body: q1, .. },
                        SwitchArm::Default { body: q2, .. },
                        SwitchArm::Default { body: q3, .. },
                    ) => {
                        lemma_relocated_same_body(q1@, q2@, q3@, b);
                    },
                    _ => {},
                }
            }
        },
        (Stmt::Goto { offset: o1, .. }, Stmt::Goto { offset: o2, .. }, Stmt::Goto { offset: o3, .. }) => {
            match (o1, o2, o3) {
                (Some(x), Some(y), Some(z)) => lemma_relocated_same_expr(*x, *y, *z, b),
                _ => {},
            }
        },
        _ => {},
    }
}


/// Relocating an expression to `a` and then to `b` gives the same
/// expression, node for node, as relocating it once to `b`: the last site
/// wins.
pub proof fn lemma_relocating_twice_is_relocating_once(o: Expr, n: Expr, m: Expr, once: Expr, a: Span, b: Span)
    requires
        relocated_expr(n, o, a),
        relocated_expr(m, n, b),
        relocated_expr(once, o, b),
    ensures
        relocated_expr(m, once, b),
        same_expr(m, once),
{
    lemma_relocate_twice_expr(m, n, o, a, b);
    lemma_relocations_agree_expr(m, once, o, b);
    lemma_relocated_same_expr(m, once, o, b);
}

/// Relocating a statement to `a` and then to `b` gives the same statement,
/// node for node, as relocating it once to `b`: the last site wins.
pub proof fn lemma_relocating_statement_twice_is_relocating_once(
    o: Stmt,
    n: Stmt,
    m: Stmt,
    once: Stmt,
    a: Span,
    b: Span,
)
    requires
        relocated_stmt(n, o, a),
        relocated_stmt(m, n, b),
        relocated_stmt(once, o, b),
    ensures
        relocated_stmt(m, once, b),
        same_stmt(m, once),
{
    lemma_relocate_twice_stmt(m, n, o, a, b);
    lemma_relocations_agree_stmt(m, once, o, b);
    lemma_relocated_same_stmt(m, once, o, b);
}

} // verus!
