//! Shapes of control flow that the lowering recognizes before it emits
//! Workshop actions.
use vstd::prelude::*;
use crate::hir::{Expr, Span, Stmt, SwitchArm};

verus! {

/// `continue`, or an `if` without `else` whose only branch holds exactly one
/// statement of this shape: the conditions met on the way, outermost first.
pub open spec fn continue_conditions(statement: Stmt) -> Option<Seq<Expr>>
    decreases statement,
{
    match statement {
        Stmt::Continue { .. } => Some(Seq::empty()),
        Stmt::If { branches, else_body: None, .. } => {
            if branches@.len() == 1 && branches@[0].body@.len() == 1 {
                match continue_conditions(branches@[0].body@[0]) {
                    Some(inner) => Some(seq![*branches@[0].condition] + inner),
                    None => None,
                }
            } else {
                None
            }
        },
        _ => None,
    }
}

/// A plain `goto label`, or an `if` without `else` whose only branch holds
/// exactly one statement of this shape: the conditions and the label.
pub open spec fn goto_conditions(statement: Stmt) -> Option<(Seq<Expr>, Seq<char>)>
    decreases statement,
{
    match statement {
        Stmt::Goto { label: Some(label), offset: None, rule_start: false, .. } => Some(
            (Seq::empty(), label@),
        ),
        Stmt::If { branches, else_body: None, .. } => {
            if branches@.len() == 1 && branches@[0].body@.len() == 1 {
                match goto_conditions(branches@[0].body@[0]) {
                    Some((inner, label)) => Some((seq![*branches@[0].condition] + inner, label)),
                    None => None,
                }
            } else {
                None
            }
        },
        _ => None,
    }
}

/// The referenced expressions, as values.
pub open spec fn derefs(v: Seq<&Expr>) -> Seq<Expr> {
    v.map_values(|e: &Expr| *e)
}

/// The conditions under which a statement only continues the loop.
pub fn pure_continue_conditions(statement: &Stmt) -> (r: Option<Vec<&Expr>>)
    ensures
        r matches Some(v) ==> continue_conditions(*statement) == Some(derefs(v@)),
        r is None ==> continue_conditions(*statement) is None,
    decreases statement,
{
    match statement {
        Stmt::Continue { .. } => {
            let v: Vec<&Expr> = Vec::new();
            assert(derefs(v@) =~= Seq::<Expr>::empty());
            Some(v)
        },
        Stmt::If { branches, else_body: None, .. } => {
            if branches.len() == 1 && branches[0].body.len() == 1 {
                assert(decreases_to!(statement => branches@[0].body@[0]));
                match pure_continue_conditions(&branches[0].body[0]) {
                    Some(mut conditions) => {
                        let ghost inner = conditions@;
                        conditions.insert(0, &*branches[0].condition);
                        assert(derefs(conditions@) =~= seq![*branches@[0].condition] + derefs(
                            inner,
                        ));
                        Some(conditions)
                    },
                    None => None,
                }
            } else {
                None
            }
        },
        _ => None,
    }
}

/// The conditions under which a statement only jumps to a label, and the label.
pub fn pure_goto_conditions(statement: &Stmt) -> (r: Option<(Vec<&Expr>, &str)>)
    ensures
        r matches Some((v, label)) ==> goto_conditions(*statement) == Some((derefs(v@), label@)),
        r is None ==> goto_conditions(*statement) is None,
    decreases statement,
{
    match statement {
        Stmt::Goto { label: Some(label), offset: None, rule_start: false, .. } => {
            let v: Vec<&Expr> = Vec::new();
            assert(derefs(v@) =~= Seq::<Expr>::empty());
            Some((v, label.as_str()))
        },
        Stmt::If { branches, else_body: None, .. } => {
            if branches.len() == 1 && branches[0].body.len() == 1 {
                assert(decreases_to!(statement => branches@[0].body@[0]));
                match pure_goto_conditions(&branches[0].body[0]) {
                    Some((mut conditions, label)) => {
                        let ghost inner = conditions@;
                        conditions.insert(0, &*branches[0].condition);
                        assert(derefs(conditions@) =~= seq![*branches@[0].condition] + derefs(
                            inner,
                        ));
                        Some((conditions, label))
                    },
                    None => None,
                }
            } else {
                None
            }
        },
        _ => None,
    }
}

/// An `if` without `else` whose one branch only holds `goto label`: the
/// condition, the label and the span of the `if`.
pub open spec fn conditional_goto(statement: Stmt) -> Option<(Expr, Seq<char>, Option<Span>)> {
    match statement {
        Stmt::If { branches, else_body: None, span } => {
            if branches@.len() == 1 && branches@[0].body@.len() == 1 {
                match branches@[0].body@[0] {
                    Stmt::Goto { label: Some(label), offset: None, rule_start: false, .. } => Some(
                        (*branches@[0].condition, label@, span),
                    ),
                    _ => None,
                }
            } else {
                None
            }
        },
        _ => None,
    }
}

/// An `if` without `else` whose one branch only holds a `goto` by a computed
/// offset: the condition, the offset and the span of the `if`.
pub open spec fn conditional_dynamic_goto(statement: Stmt) -> Option<(Expr, Expr, Option<Span>)> {
    match statement {
        Stmt::If { branches, else_body: None, span } => {
            if branches@.len() == 1 && branches@[0].body@.len() == 1 {
                match branches@[0].body@[0] {
                    Stmt::Goto { label: None, offset: Some(offset), rule_start: false, .. } => Some(
                        (*branches@[0].condition, *offset, span),
                    ),
                    _ => None,
                }
            } else {
                None
            }
        },
        _ => None,
    }
}

/// The parts of an `if` that only jumps to a label.
pub fn direct_conditional_goto(statement: &Stmt) -> (r: Option<(&Expr, &str, Option<Span>)>)
    ensures
        r matches Some((c, label, span)) ==> conditional_goto(*statement) == Some(
            (*c, label@, span),
        ),
        r is None ==> conditional_goto(*statement) is None,
{
    match statement {
        Stmt::If { branches, else_body: None, span } => {
            if branches.len() == 1 && branches[0].body.len() == 1 {
                match &branches[0].body[0] {
                    Stmt::Goto { label: Some(label), offset: None, rule_start: false, .. } => Some(
                        (&*branches[0].condition, label.as_str(), *span),
                    ),
                    _ => None,
                }
            } else {
                None
            }
        },
        _ => None,
    }
}

/// The parts of an `if` that only jumps by a computed offset.
pub fn direct_conditional_dynamic_goto(statement: &Stmt) -> (r: Option<(&Expr, &Expr, Option<Span>)>)
    ensures
        r matches Some((c, offset, span)) ==> conditional_dynamic_goto(*statement) == Some(
            (*c, *offset, span),
        ),
        r is None ==> conditional_dynamic_goto(*statement) is None,
{
    match statement {
        Stmt::If { branches, else_body: None, span } => {
            if branches.len() == 1 && branches[0].body.len() == 1 {
                match &branches[0].body[0] {
                    Stmt::Goto { label: None, offset: Some(offset), rule_start: false, .. } => Some(
                        (&*branches[0].condition, &**offset, *span),
                    ),
                    _ => None,
                }
            } else {
                None
            }
        },
        _ => None,
    }
}

/// Whether a `continue` of the enclosing loop occurs in the statement: in
/// the bodies of `if` and `switch`, not inside a nested loop.
pub open spec fn has_loop_continue(statement: Stmt) -> bool
    decreases statement,
{
    match statement {
        Stmt::Continue { .. } => true,
        Stmt::If { branches, else_body, .. } => {
            ||| exists|i: int, k: int|
                0 <= i < branches@.len() && 0 <= k < branches@[i].body@.len() && has_loop_continue(
                    #[trigger] branches@[i].body@[k],
                )
            ||| match else_body {
                Some(body) => exists|k: int| 0 <= k < body@.len() && has_loop_continue(#[trigger] body@[k]),
                None => false,
            }
        },
        Stmt::Switch { arms, .. } => exists|i: int, k: int|
            0 <= i < arms@.len() && 0 <= k < arm_body(arms@[i]).len() && has_loop_continue(
                #[trigger] arm_body(arms@[i])[k],
            ),
        _ => false,
    }
}

/// The statements of a `switch` arm.
pub open spec fn arm_body(arm: SwitchArm) -> Seq<Stmt> {
    match arm {
        SwitchArm::Case { body, .. } => body@,
        SwitchArm::Default { body, .. } => body@,
    }
}

/// The statements of a `switch` arm.
fn arm_statements(arm: &SwitchArm) -> (r: &Vec<Stmt>)
    ensures
        r@ == arm_body(*arm),
{
    match arm {
        SwitchArm::Case { body, .. } => body,
        SwitchArm::Default { body, .. } => body,
    }
}

/// Whether any statement of `body`, nested inside `outer`, continues the loop.
fn any_loop_continue(body: &Vec<Stmt>, Ghost(outer): Ghost<Stmt>) -> (r: bool)
    requires
        forall|k: int| 0 <= k < body@.len() ==> decreases_to!(outer => body@[k]),
    ensures
        r == exists|k: int| 0 <= k < body@.len() && has_loop_continue(#[trigger] body@[k]),
    decreases outer, 0nat,
{
    let mut k: usize = 0;
    while k < body.len()
        invariant
            0 <= k <= body@.len(),
            forall|j: int| 0 <= j < k ==> !has_loop_continue(#[trigger] body@[j]),
            forall|j: int| 0 <= j < body@.len() ==> decreases_to!(outer => body@[j]),
        decreases body@.len() - k,
    {
        if contains_loop_continue(&body[k]) {
            return true;
        }
        k = k + 1;
    }
    false
}

/// Whether a `continue` of the enclosing loop occurs in the statement.
#[verifier::loop_isolation(false)]
pub fn contains_loop_continue(statement: &Stmt) -> (r: bool)
    ensures
        r == has_loop_continue(*statement),
    decreases *statement, 1nat,
{
    match statement {
        Stmt::Continue { .. } => true,
        Stmt::If { branches, else_body, .. } => {
            let mut i: usize = 0;
            while i < branches.len()
                invariant
                    0 <= i <= branches@.len(),
                    forall|j: int, k: int|
                        0 <= j < i && 0 <= k < branches@[j].body@.len() ==> !has_loop_continue(
                            #[trigger] branches@[j].body@[k],
                        ),
                decreases branches@.len() - i,
            {
                assert(decreases_to!(*statement => branches@[i as int]));
                assert forall|k: int| 0 <= k < branches@[i as int].body@.len() implies decreases_to!(
                    *statement => branches@[i as int].body@[k]) by {
                    assert(decreases_to!(branches@[i as int] => branches@[i as int].body@[k]));
                }
                if any_loop_continue(&branches[i].body, Ghost(*statement)) {
                    proof {
                        let k = choose|k: int|
                            0 <= k < branches@[i as int].body@.len() && has_loop_continue(
                                #[trigger] branches@[i as int].body@[k],
                            );
                        assert(has_loop_continue(branches@[i as int].body@[k]));
                    }
                    return true;
                }
                i = i + 1;
            }
            match else_body {
                Some(body) => any_loop_continue(body, Ghost(*statement)),
                None => false,
            }
        },
        Stmt::Switch { arms, .. } => {
            let mut i: usize = 0;
            while i < arms.len()
                invariant
                    0 <= i <= arms@.len(),
                    forall|j: int, k: int|
                        0 <= j < i && 0 <= k < arm_body(arms@[j]).len() ==> !has_loop_continue(
                            #[trigger] arm_body(arms@[j])[k],
                        ),
                decreases arms@.len() - i,
            {
                assert(decreases_to!(*statement => arms@[i as int]));
                assert forall|k: int| 0 <= k < arm_body(arms@[i as int]).len() implies decreases_to!(
                    *statement => arm_body(arms@[i as int])[k]) by {
                    assert(decreases_to!(arms@[i as int] => arm_body(arms@[i as int])[k]));
                }
                if any_loop_continue(arm_statements(&arms[i]), Ghost(*statement)) {
                    proof {
                        let k = choose|k: int|
                            0 <= k < arm_body(arms@[i as int]).len() && has_loop_continue(
                                #[trigger] arm_body(arms@[i as int])[k],
                            );
                        assert(has_loop_continue(arm_body(arms@[i as int])[k]));
                    }
                    return true;
                }
                i = i + 1;
            }
            false
        },
        _ => false,
    }
}

/// Whether a statement does nothing inside a `switch`: `pass`, `break`, or
/// an `if` or `switch` all of whose bodies are such statements.
pub open spec fn stmt_is_noop(statement: Stmt) -> bool
    decreases statement,
{
    match statement {
        Stmt::Pass { .. } | Stmt::Break { .. } => true,
        Stmt::If { branches, else_body, .. } => {
            &&& forall|i: int, k: int|
                0 <= i < branches@.len() && 0 <= k < branches@[i].body@.len() ==> stmt_is_noop(
                    #[trigger] branches@[i].body@[k],
                )
            &&& match else_body {
                Some(body) => forall|k: int| 0 <= k < body@.len() ==> stmt_is_noop(#[trigger] body@[k]),
                None => true,
            }
        },
        Stmt::Switch { arms, .. } => forall|i: int, k: int|
            0 <= i < arms@.len() && 0 <= k < arm_body(arms@[i]).len() ==> stmt_is_noop(
                #[trigger] arm_body(arms@[i])[k],
            ),
        _ => false,
    }
}

/// Whether every statement of `body`, nested inside `outer`, does nothing.
fn all_noop(body: &Vec<Stmt>, Ghost(outer): Ghost<Stmt>) -> (r: bool)
    requires
        forall|k: int| 0 <= k < body@.len() ==> decreases_to!(outer => body@[k]),
    ensures
        r == forall|k: int| 0 <= k < body@.len() ==> stmt_is_noop(#[trigger] body@[k]),
    decreases outer, 0nat,
{
    let mut k: usize = 0;
    while k < body.len()
        invariant
            0 <= k <= body@.len(),
            forall|j: int| 0 <= j < k ==> stmt_is_noop(#[trigger] body@[j]),
            forall|j: int| 0 <= j < body@.len() ==> decreases_to!(outer => body@[j]),
        decreases body@.len() - k,
    {
        if !statement_is_noop(&body[k]) {
            return false;
        }
        k = k + 1;
    }
    true
}

/// Whether one statement does nothing inside a `switch`.
#[verifier::loop_isolation(false)]
fn statement_is_noop(statement: &Stmt) -> (r: bool)
    ensures
        r == stmt_is_noop(*statement),
    decreases *statement, 1nat,
{
    match statement {
        Stmt::Pass { .. } | Stmt::Break { .. } => true,
        Stmt::If { branches, else_body, .. } => {
            let mut i: usize = 0;
            while i < branches.len()
                invariant
                    0 <= i <= branches@.len(),
                    forall|j: int, k: int|
                        0 <= j < i && 0 <= k < branches@[j].body@.len() ==> stmt_is_noop(
                            #[trigger] branches@[j].body@[k],
                        ),
                decreases branches@.len() - i,
            {
                assert(decreases_to!(*statement => branches@[i as int]));
                assert forall|k: int| 0 <= k < branches@[i as int].body@.len() implies decreases_to!(
                    *statement => branches@[i as int].body@[k]) by {
                    assert(decreases_to!(branches@[i as int] => branches@[i as int].body@[k]));
                }
                if !all_noop(&branches[i].body, Ghost(*statement)) {
                    return false;
                }
                i = i + 1;
            }
            match else_body {
                Some(body) => all_noop(body, Ghost(*statement)),
                None => true,
            }
        },
        Stmt::Switch { arms, .. } => {
            let mut i: usize = 0;
            while i < arms.len()
                invariant
                    0 <= i <= arms@.len(),
                    forall|j: int, k: int|
                        0 <= j < i && 0 <= k < arm_body(arms@[j]).len() ==> stmt_is_noop(
                            #[trigger] arm_body(arms@[j])[k],
                        ),
                decreases arms@.len() - i,
            {
                assert(decreases_to!(*statement => arms@[i as int]));
                assert forall|k: int| 0 <= k < arm_body(arms@[i as int]).len() implies decreases_to!(
                    *statement => arm_body(arms@[i as int])[k]) by {
                    assert(decreases_to!(arms@[i as int] => arm_body(arms@[i as int])[k]));
                }
                if !all_noop(arm_statements(&arms[i]), Ghost(*statement)) {
                    return false;
                }
                i = i + 1;
            }
            true
        },
        _ => false,
    }
}

/// Whether a `switch` body does nothing: every statement is `pass`, `break`,
/// or an `if` or `switch` whose bodies do nothing.
pub fn switch_body_is_noop(statements: &[Stmt]) -> (r: bool)
    ensures
        r == forall|k: int| 0 <= k < statements@.len() ==> stmt_is_noop(#[trigger] statements@[k]),
{
    let mut k: usize = 0;
    while k < statements.len()
        invariant
            0 <= k <= statements@.len(),
            forall|j: int| 0 <= j < k ==> stmt_is_noop(#[trigger] statements@[j]),
        decreases statements@.len() - k,
    {
        if !statement_is_noop(&statements[k]) {
            return false;
        }
        k = k + 1;
    }
    true
}

} // verus!
