//! The source spans of the arguments of the actions a statement lowers to:
//! each argument of an assignment, a deletion, a condition or a `for`
//! range is traced back to the expression it came from.
use vstd::prelude::*;
use crate::expr_queries::{derefs, indexed_target_parts, target_indices};
use crate::hir::{Expr, IfBranch, Span, Stmt};
use crate::strings::str_eq;

verus! {

/// The span an expression was written at.
pub open spec fn expr_span(e: Expr) -> Option<Span> {
    match e {
        Expr::Number { span, .. } => span,
        Expr::String { span, .. } => span,
        Expr::Bool { span, .. } => span,
        Expr::Null { span } => span,
        Expr::StringModifier { span, .. } => span,
        Expr::Local { span, .. } => span,
        Expr::Enum { span, .. } => span,
        Expr::GlobalVar { span, .. } => span,
        Expr::HostPlayer { span } => span,
        Expr::EventPlayer { span } => span,
        Expr::Constant { span, .. } => span,
        Expr::MacroParam { span, .. } => span,
        Expr::Array { span, .. } => span,
        Expr::Call { span, .. } => span,
        Expr::MacroCall { span, .. } => span,
        Expr::Type { span, .. } => span,
        Expr::Format { span, .. } => span,
        Expr::Dict { span, .. } => span,
        Expr::Comprehension { span, .. } => span,
        Expr::Lambda { span, .. } => span,
        Expr::Vector { span, .. } => span,
        Expr::PlayerVar { span, .. } => span,
        Expr::Member { span, .. } => span,
        Expr::ReceiverCall { span, .. } => span,
        Expr::Binary { span, .. } => span,
        Expr::Conditional { span, .. } => span,
        Expr::Unary { span, .. } => span,
        Expr::Index { span, .. } => span,
    }
}

/// The span an expression was written at.
pub fn span_of(e: &Expr) -> (r: Option<Span>)
    ensures
        r == expr_span(*e),
{
    match e {
        Expr::Number { span, .. } => *span,
        Expr::String { span, .. } => *span,
        Expr::Bool { span, .. } => *span,
        Expr::Null { span } => *span,
        Expr::StringModifier { span, .. } => *span,
        Expr::Local { span, .. } => *span,
        Expr::Enum { span, .. } => *span,
        Expr::GlobalVar { span, .. } => *span,
        Expr::HostPlayer { span } => *span,
        Expr::EventPlayer { span } => *span,
        Expr::Constant { span, .. } => *span,
        Expr::MacroParam { span, .. } => *span,
        Expr::Array { span, .. } => *span,
        Expr::Call { span, .. } => *span,
        Expr::MacroCall { span, .. } => *span,
        Expr::Type { span, .. } => *span,
        Expr::Format { span, .. } => *span,
        Expr::Dict { span, .. } => *span,
        Expr::Comprehension { span, .. } => *span,
        Expr::Lambda { span, .. } => *span,
        Expr::Vector { span, .. } => *span,
        Expr::PlayerVar { span, .. } => *span,
        Expr::Member { span, .. } => *span,
        Expr::ReceiverCall { span, .. } => *span,
        Expr::Binary { span, .. } => *span,
        Expr::Conditional { span, .. } => *span,
        Expr::Unary { span, .. } => *span,
        Expr::Index { span, .. } => *span,
    }
}

/// A lowered Workshop action, as far as argument spans tell actions apart.
pub enum ActionShape {
    SetGlobalVariable,
    ModifyGlobalVariable,
    SetPlayerVariable,
    ModifyPlayerVariable,
    If,
    ElseIf,
    End,
    While,
    ForGlobalVariable,
    ForPlayerVariable,
    Call(String),
    Other,
}

/// Whether an action is a call of one of these catalog names.
pub open spec fn calls(a: ActionShape, x: Seq<char>, y: Seq<char>) -> bool {
    a matches ActionShape::Call(n) && (n@ == x || n@ == y)
}

pub open spec fn spans1(a: Option<Span>) -> Seq<Option<Span>> {
    seq![a]
}

/// The argument spans of an action an assignment lowers to.
pub open spec fn assign_marks(target: Expr, value: Expr, a: ActionShape) -> Option<Seq<Option<Span>>> {
    let (target_span, index_span) = match target {
        Expr::Index { array, index, .. } => (expr_span(*array), expr_span(*index)),
        _ => (expr_span(target), None),
    };
    let value_span = expr_span(value);
    let modified = match value {
        Expr::Binary { right, .. } => expr_span(*right),
        _ => value_span,
    };
    let player_span = match target {
        Expr::PlayerVar { player, .. } => expr_span(*player),
        _ => None,
    };
    match a {
        ActionShape::SetGlobalVariable => Some(seq![value_span]),
        ActionShape::ModifyGlobalVariable => Some(seq![modified]),
        ActionShape::SetPlayerVariable => Some(seq![player_span, value_span]),
        ActionShape::ModifyPlayerVariable => Some(seq![player_span, modified]),
        _ => if calls(a, "setGlobalVariableAtIndex"@, "setPlayerVariableAtIndex"@) {
            Some(seq![target_span, index_span, value_span])
        } else if calls(a, "modifyGlobalVariableAtIndex"@, "modifyPlayerVariableAtIndex"@) {
            Some(seq![target_span, index_span, None, modified])
        } else {
            None
        },
    }
}

/// The argument spans of an action a deletion lowers to: the target, and
/// for indexed targets the innermost and the outermost index.
pub open spec fn delete_marks(target: Expr, a: ActionShape) -> Option<Seq<Option<Span>>> {
    let t = expr_span(target);
    let ix = target_indices(target);
    let inner = if ix.len() > 0 { expr_span(ix.last()) } else { None };
    let outer = if ix.len() > 0 { expr_span(ix[0]) } else { None };
    match a {
        ActionShape::SetGlobalVariable => Some(seq![t]),
        ActionShape::ModifyGlobalVariable => Some(seq![t]),
        ActionShape::SetPlayerVariable => Some(seq![None, t]),
        ActionShape::ModifyPlayerVariable => Some(seq![None, t]),
        _ => if calls(a, "setGlobalVariableAtIndex"@, "setPlayerVariableAtIndex"@) {
            Some(seq![t, inner, t])
        } else if calls(a, "modifyGlobalVariableAtIndex"@, "modifyPlayerVariableAtIndex"@) {
            Some(seq![t, inner, None, outer])
        } else {
            None
        },
    }
}

/// The span of the condition of branch `b`, where there is one.
pub open spec fn branch_span(branches: Seq<IfBranch>, b: int) -> Option<Span> {
    if 0 <= b < branches.len() {
        expr_span(*branches[b].condition)
    } else {
        None
    }
}

/// The nesting depth and the branch reached after the first `k` actions of
/// an `if`: an `If` opens a level, an `End` closes one, and an `ElseIf` at
/// the outer level moves to the next branch.
pub open spec fn if_scan(acts: Seq<ActionShape>, k: int) -> (nat, nat)
    decreases k,
{
    if k <= 0 {
        (0, 0)
    } else {
        let (depth, branch) = if_scan(acts, k - 1);
        match acts[k - 1] {
            ActionShape::If => (depth + 1, branch),
            ActionShape::ElseIf => if depth == 1 {
                (depth, branch + 1)
            } else {
                (depth, branch)
            },
            ActionShape::End => (if depth > 0 { (depth - 1) as nat } else { 0 }, branch),
            _ => (depth, branch),
        }
    }
}

/// The argument spans of the `k`-th action of an `if`: the outer `If`
/// and each outer `ElseIf` take the span of their branch's condition.
pub open spec fn if_marks(branches: Seq<IfBranch>, acts: Seq<ActionShape>, k: int) -> Option<Seq<Option<Span>>> {
    let (depth, branch) = if_scan(acts, k);
    match acts[k] {
        ActionShape::If => if depth == 0 {
            Some(seq![branch_span(branches, 0)])
        } else {
            None
        },
        ActionShape::ElseIf => if depth == 1 {
            Some(seq![branch_span(branches, (branch + 1) as int)])
        } else {
            None
        },
        _ => None,
    }
}

/// The spans of a `range` call's start, stop and step, where the iterable
/// is one with one to three arguments.
pub open spec fn range_spans(iterable: Expr) -> Option<Seq<Option<Span>>> {
    match iterable {
        Expr::Call { args, .. } => if args@.len() == 1 {
            Some(seq![None, expr_span(args@[0]), None])
        } else if args@.len() == 2 {
            Some(seq![expr_span(args@[0]), expr_span(args@[1]), None])
        } else if args@.len() == 3 {
            Some(seq![expr_span(args@[0]), expr_span(args@[1]), expr_span(args@[2])])
        } else {
            None
        },
        _ => None,
    }
}

/// The argument spans of the `k`-th action a statement lowers to, where the
/// statement gives it any.
pub open spec fn statement_marks(s: Stmt, acts: Seq<ActionShape>, k: int) -> Option<Seq<Option<Span>>> {
    match s {
        Stmt::Assign { target, value, .. } => assign_marks(*target, *value, acts[k]),
        Stmt::If { branches, .. } => if_marks(branches@, acts, k),
        Stmt::While { condition, .. } => if k == 0 && acts[0] is While {
            Some(seq![expr_span(*condition)])
        } else {
            None
        },
        Stmt::For { variable, iterable, .. } => match range_spans(*iterable) {
            Some(r) => if k == 0 && (acts[0] is ForGlobalVariable || acts[0] is ForPlayerVariable) {
                Some(
                    match *variable {
                        Expr::PlayerVar { player, .. } => seq![expr_span(*player)] + r,
                        _ => r,
                    },
                )
            } else {
                None
            },
            None => None,
        },
        Stmt::DoWhile { condition, .. } => if k == acts.len() - 1 && calls(acts[k], "loopIf"@, "loopIf"@) {
            Some(seq![expr_span(*condition)])
        } else {
            None
        },
        Stmt::Delete { target, .. } => delete_marks(*target, acts[k]),
        _ => None,
    }
}

/// The argument spans of one action.
pub open spec fn marked(old_spans: Seq<Option<Span>>, m: Option<Seq<Option<Span>>>) -> Seq<Option<Span>> {
    match m {
        Some(s) => s,
        None => old_spans,
    }
}


/// Whether an action is a call of one of these catalog names.
fn is_call(a: &ActionShape, x: &str, y: &str) -> (r: bool)
    ensures
        r == calls(*a, x@, y@),
{
    match a {
        ActionShape::Call(n) => str_eq(n.as_str(), x) || str_eq(n.as_str(), y),
        _ => false,
    }
}

fn one(a: Option<Span>) -> (r: Vec<Option<Span>>)
    ensures
        r@ == seq![a],
{
    let mut v = Vec::new();
    v.push(a);
    assert(v@ =~= seq![a]);
    v
}

fn two(a: Option<Span>, b: Option<Span>) -> (r: Vec<Option<Span>>)
    ensures
        r@ == seq![a, b],
{
    let mut v = Vec::new();
    v.push(a);
    v.push(b);
    assert(v@ =~= seq![a, b]);
    v
}

fn three(a: Option<Span>, b: Option<Span>, c: Option<Span>) -> (r: Vec<Option<Span>>)
    ensures
        r@ == seq![a, b, c],
{
    let mut v = Vec::new();
    v.push(a);
    v.push(b);
    v.push(c);
    assert(v@ =~= seq![a, b, c]);
    v
}

fn four(a: Option<Span>, b: Option<Span>, c: Option<Span>, d: Option<Span>) -> (r: Vec<Option<Span>>)
    ensures
        r@ == seq![a, b, c, d],
{
    let mut v = Vec::new();
    v.push(a);
    v.push(b);
    v.push(c);
    v.push(d);
    assert(v@ =~= seq![a, b, c, d]);
    v
}

/// Whether `r` is the optional span list `m`.
pub open spec fn same_marks(r: Option<Vec<Option<Span>>>, m: Option<Seq<Option<Span>>>) -> bool {
    match r {
        Some(v) => m == Some(v@),
        None => m is None,
    }
}

fn assign_marks_of(target: &Expr, value: &Expr, a: &ActionShape) -> (r: Option<Vec<Option<Span>>>)
    ensures
        same_marks(r, assign_marks(*target, *value, *a)),
{
    let (target_span, index_span) = match target {
        Expr::Index { array, index, .. } => (span_of(array), span_of(index)),
        _ => (span_of(target), None),
    };
    let value_span = span_of(value);
    let modified = match value {
        Expr::Binary { right, .. } => span_of(right),
        _ => value_span,
    };
    let player_span = match target {
        Expr::PlayerVar { player, .. } => span_of(player),
        _ => None,
    };
    match a {
        ActionShape::SetGlobalVariable => Some(one(value_span)),
        ActionShape::ModifyGlobalVariable => Some(one(modified)),
        ActionShape::SetPlayerVariable => Some(two(player_span, value_span)),
        ActionShape::ModifyPlayerVariable => Some(two(player_span, modified)),
        _ => if is_call(a, "setGlobalVariableAtIndex", "setPlayerVariableAtIndex") {
            Some(three(target_span, index_span, value_span))
        } else if is_call(a, "modifyGlobalVariableAtIndex", "modifyPlayerVariableAtIndex") {
            Some(four(target_span, index_span, None, modified))
        } else {
            None
        },
    }
}

fn delete_marks_of(target: &Expr, inner: Option<Span>, outer: Option<Span>, a: &ActionShape) -> (r: Option<
    Vec<Option<Span>>,
>)
    requires
        inner == (if target_indices(*target).len() > 0 {
            expr_span(target_indices(*target).last())
        } else {
            None
        }),
        outer == (if target_indices(*target).len() > 0 {
            expr_span(target_indices(*target)[0])
        } else {
            None
        }),
    ensures
        same_marks(r, delete_marks(*target, *a)),
{
    let t = span_of(target);
    match a {
        ActionShape::SetGlobalVariable => Some(one(t)),
        ActionShape::ModifyGlobalVariable => Some(one(t)),
        ActionShape::SetPlayerVariable => Some(two(None, t)),
        ActionShape::ModifyPlayerVariable => Some(two(None, t)),
        _ => if is_call(a, "setGlobalVariableAtIndex", "setPlayerVariableAtIndex") {
            Some(three(t, inner, t))
        } else if is_call(a, "modifyGlobalVariableAtIndex", "modifyPlayerVariableAtIndex") {
            Some(four(t, inner, None, outer))
        } else {
            None
        },
    }
}

fn branch_span_at(branches: &Vec<IfBranch>, b: usize) -> (r: Option<Span>)
    ensures
        r == branch_span(branches@, b as int),
{
    if b < branches.len() {
        span_of(&branches[b].condition)
    } else {
        None
    }
}

fn range_spans_of(iterable: &Expr) -> (r: Option<Vec<Option<Span>>>)
    ensures
        same_marks(r, range_spans(*iterable)),
{
    match iterable {
        Expr::Call { args, .. } => if args.len() == 1 {
            Some(three(None, span_of(&args[0]), None))
        } else if args.len() == 2 {
            Some(three(span_of(&args[0]), span_of(&args[1]), None))
        } else if args.len() == 3 {
            Some(three(span_of(&args[0]), span_of(&args[1]), span_of(&args[2])))
        } else {
            None
        },
        _ => None,
    }
}

/// Give each action a statement lowered to the spans of its arguments, as
/// far as the statement tells them: the value, player, target and indices
/// of an assignment or a deletion, the condition of each outer branch of
/// an `if`, of a `while` and of a `do`-`while`, and the player and range
/// bounds of a `for`. The other actions keep the spans they have.
pub fn mark_statement_argument_origins(
    statement: &Stmt,
    actions: &Vec<ActionShape>,
    origins: &mut Vec<Vec<Option<Span>>>,
)
    requires
        old(origins)@.len() == actions@.len(),
    ensures
        final(origins)@.len() == old(origins)@.len(),
        forall|k: int|
            0 <= k < actions@.len() ==> (#[trigger] final(origins)@[k])@ == marked(
                old(origins)@[k]@,
                statement_marks(*statement, actions@, k),
            ),
{
    let ghost start = origins@;
    let n = actions.len();
    let mut inner: Option<Span> = None;
    let mut outer: Option<Span> = None;
    let mut range: Option<Vec<Option<Span>>> = None;
    match statement {
        Stmt::Delete { target, .. } => {
            let mut indices: Vec<&Expr> = Vec::new();
            let _ = indexed_target_parts(target, &mut indices);
            assert(derefs(indices@) =~= target_indices(**target)) by {
                assert(derefs(Seq::<&Expr>::empty()) =~= Seq::<Expr>::empty());
            }
            if indices.len() > 0 {
                inner = span_of(indices[indices.len() - 1]);
                outer = span_of(indices[0]);
                assert(derefs(indices@)[indices@.len() - 1] == *indices@[indices@.len() - 1]);
                assert(derefs(indices@)[0] == *indices@[0]);
            }
        },
        Stmt::For { variable, iterable, .. } => {
            match range_spans_of(iterable) {
                Some(r) => {
                    let spans = match &**variable {
                        Expr::PlayerVar { player, .. } => {
                            let mut v = one(span_of(player));
                            let mut j: usize = 0;
                            let ghost head = v@;
                            while j < r.len()
                                invariant
                                    j <= r@.len(),
                                    v@ == head + r@.take(j as int),
                                decreases r@.len() - j,
                            {
                                v.push(r[j]);
                                j = j + 1;
                                assert(v@ =~= head + r@.take(j as int));
                            }
                            assert(r@.take(j as int) =~= r@);
                            v
                        },
                        _ => r,
                    };
                    range = Some(spans);
                },
                None => {},
            }
        },
        _ => {},
    }
    let mut k: usize = 0;
    let mut depth: usize = 0;
    let mut branch: usize = 0;
    while k < n
        invariant
            n == actions@.len(),
            k <= n,
            depth <= k && branch <= k,
            (depth as nat, branch as nat) == if_scan(actions@, k as int),
            origins@.len() == n,
            start.len() == n,
            match statement {
                Stmt::Delete { target, .. } => {
                    &&& inner == (if target_indices(**target).len() > 0 {
                        expr_span(target_indices(**target).last())
                    } else {
                        None
                    })
                    &&& outer == (if target_indices(**target).len() > 0 {
                        expr_span(target_indices(**target)[0])
                    } else {
                        None
                    })
                },
                Stmt::For { variable, iterable, .. } => match range_spans(**iterable) {
                    Some(r) => range matches Some(v) && v@ == match **variable {
                        Expr::PlayerVar { player, .. } => seq![expr_span(*player)] + r,
                        _ => r,
                    },
                    None => range is None,
                },
                _ => true,
            },
            forall|j: int| 0 <= j < k ==> (#[trigger] origins@[j])@ == marked(start[j]@, statement_marks(*statement, actions@, j)),
            forall|j: int| k <= j < n ==> #[trigger] origins@[j] == start[j],
        decreases n - k,
    {
        let a = &actions[k];
        let m: Option<Vec<Option<Span>>> = match statement {
            Stmt::Assign { target, value, .. } => assign_marks_of(target, value, a),
            Stmt::If { branches, .. } => match a {
                ActionShape::If => if depth == 0 {
                    Some(one(branch_span_at(branches, 0)))
                } else {
                    None
                },
                ActionShape::ElseIf => if depth == 1 {
                    Some(one(branch_span_at(branches, branch + 1)))
                } else {
                    None
                },
                _ => None,
            },
            Stmt::While { condition, .. } => if k == 0 && matches!(a, ActionShape::While) {
                Some(one(span_of(condition)))
            } else {
                None
            },
            Stmt::For { .. } => if k == 0 && (matches!(a, ActionShape::ForGlobalVariable) || matches!(
                a,
                ActionShape::ForPlayerVariable,
            )) {
                match &range {
                    Some(v) => {
                        let mut c: Vec<Option<Span>> = Vec::new();
                        let mut j: usize = 0;
                        while j < v.len()
                            invariant
                                j <= v@.len(),
                                c@ == v@.take(j as int),
                            decreases v@.len() - j,
                        {
                            c.push(v[j]);
                            j = j + 1;
                            assert(c@ =~= v@.take(j as int));
                        }
                        assert(v@.take(j as int) =~= v@);
                        Some(c)
                    },
                    None => None,
                }
            } else {
                None
            },
            Stmt::DoWhile { condition, .. } => if k == n - 1 && is_call(a, "loopIf", "loopIf") {
                Some(one(span_of(condition)))
            } else {
                None
            },
            Stmt::Delete { target, .. } => delete_marks_of(target, inner, outer, a),
            _ => None,
        };
        assert(same_marks(m, statement_marks(*statement, actions@, k as int)));
        let ghost before = origins@;
        match m {
            Some(v) => {
                origins.set(k, v);
            },
            None => {},
        }
        assert(forall|j: int| 0 <= j < n && j != k ==> origins@[j] == before[j]);
        match a {
            ActionShape::If => {
                depth = depth + 1;
            },
            ActionShape::ElseIf => {
                if depth == 1 {
                    branch = branch + 1;
                }
            },
            ActionShape::End => {
                if depth > 0 {
                    depth = depth - 1;
                }
            },
            _ => {},
        }
        k = k + 1;
    }
}

} // verus!
