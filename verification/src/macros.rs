//! Expansion of OPY macros.
//!
//! A macro call is replaced by the macro's body, in which each parameter
//! stands for the matching argument after that argument was expanded. A call
//! in statement position splices the body's statements in its place; a call
//! in value position must expand to exactly one expression statement.
use vstd::prelude::*;
use vstd::string::StringExecFns;
use crate::diagnostics::IntegrationError;
use crate::hir::{Declaration, DictEntry, Expr, IfBranch, ResolvedProgram, Span, Stmt, SwitchArm};
use crate::relocate::{relocate_stmts, relocated_body, relocated_stmt};
use crate::strings::{contains_name, decimal, decimal_chars, str_eq, string_of, views};
use crate::macro_free::{
    free_expr, free_exprs, free_stmt, free_stmts, lemma_relocated_body_free, lemma_same_expr_free,
};

verus! {

broadcast use {vstd::set::group_set_axioms, vstd::seq_lib::seq_to_set_is_finite};

/// A macro declaration.
pub struct MacroDef {
    pub name: String,
    pub params: Vec<String>,
    pub body: Vec<Stmt>,
}

/// The declared macros, and whether expanded code is attributed to the call
/// site that produced it.
pub struct MacroTable {
    pub defs: Vec<MacroDef>,
    pub attribute_to_site: bool,
}

/// The arguments that the parameters of the macro being expanded stand for.
/// When a name occurs twice, the later parameter is the one that counts.
pub struct MacroBindings {
    pub names: Vec<String>,
    pub values: Vec<Expr>,
}

/// Expands macros against a table of declarations, keeping the chain of
/// macros being expanded so that a macro cannot expand itself.
pub struct MacroExpander {
    pub table: MacroTable,
    pub stack: Vec<String>,
}

/// An error by its code, message and span.
pub type ErrorView = (Seq<char>, Seq<char>, Option<Span>);

pub open spec fn error_view(e: IntegrationError) -> ErrorView {
    (e.diagnostic.code@, e.diagnostic.message@, e.diagnostic.span)
}

/// The last position of `name` in `keys`.
pub open spec fn last_index(keys: Seq<Seq<char>>, name: Seq<char>) -> Option<int>
    decreases keys.len(),
{
    if keys.len() == 0 {
        None
    } else if keys.last() == name {
        Some(keys.len() - 1)
    } else {
        last_index(keys.drop_last(), name)
    }
}

/// The names of the declared macros, in declaration order.
pub open spec fn macro_names(defs: Seq<MacroDef>) -> Seq<Seq<char>> {
    defs.map_values(|d: MacroDef| d.name@)
}

/// The declaration that a name refers to: the last one with that name.
pub open spec fn find_macro(defs: Seq<MacroDef>, name: Seq<char>) -> Option<int> {
    last_index(macro_names(defs), name)
}

/// The bound parameter names: those that have a value.
pub open spec fn bound_keys(names: Seq<String>, count: nat) -> Seq<Seq<char>> {
    let n = if names.len() <= count { names.len() } else { count };
    Seq::new(n, |j: int| names[j]@)
}

/// The value a parameter name stands for.
pub open spec fn binding(names: Seq<String>, values: Seq<Expr>, name: Seq<char>) -> Option<Expr> {
    match last_index(bound_keys(names, values.len()), name) {
        Some(j) => Some(values[j]),
        None => None,
    }
}

/// How many declared macro names are not being expanded: it shrinks with
/// each nested expansion.
pub open spec fn remaining(defs: Seq<MacroDef>, stack: Seq<Seq<char>>) -> nat {
    macro_names(defs).to_set().difference(stack.to_set()).len()
}

pub proof fn lemma_last_index(keys: Seq<Seq<char>>, name: Seq<char>)
    ensures
        match last_index(keys, name) {
            Some(i) => 0 <= i < keys.len() && keys[i] == name && forall|j: int|
                i < j < keys.len() ==> keys[j] != name,
            None => forall|j: int| 0 <= j < keys.len() ==> keys[j] != name,
        },
    decreases keys.len(),
{
    if keys.len() > 0 && keys.last() != name {
        let rest = keys.drop_last();
        lemma_last_index(rest, name);
        assert forall|j: int| 0 <= j < rest.len() implies rest[j] == keys[j] by {}
        assert(keys[keys.len() - 1] != name);
    }
}

/// Entering a declared macro that is not yet being expanded leaves fewer
/// macros to enter.
pub proof fn lemma_remaining_push(defs: Seq<MacroDef>, stack: Seq<Seq<char>>, name: Seq<char>)
    requires
        find_macro(defs, name) is Some,
        !stack.contains(name),
    ensures
        remaining(defs, stack.push(name)) < remaining(defs, stack),
{
    lemma_last_index(macro_names(defs), name);
    let i = find_macro(defs, name)->0;
    let all = macro_names(defs).to_set();
    assert(macro_names(defs).contains(name)) by {
        assert(macro_names(defs)[i] == name);
    }
    assert(stack.push(name).to_set() =~= stack.to_set().insert(name)) by {
        assert forall|n: Seq<char>| stack.push(name).contains(n) <==> stack.contains(n) || n == name by {
            if stack.push(name).contains(n) {
                let k = choose|k: int| 0 <= k < stack.push(name).len() && stack.push(name)[k] == n;
                if k < stack.len() {
                    assert(stack[k] == n);
                }
            }
            if stack.contains(n) {
                let k = choose|k: int| 0 <= k < stack.len() && stack[k] == n;
                assert(stack.push(name)[k] == n);
            }
            if n == name {
                assert(stack.push(name)[stack.len() as int] == n);
            }
        }
    }
    assert(all.difference(stack.to_set().insert(name)) =~= all.difference(stack.to_set()).remove(
        name,
    ));
    assert(all.difference(stack.to_set()).contains(name));
}

/// The number of nodes of an expression.
pub open spec fn expr_size(e: Expr) -> nat
    decreases e,
{
    1 + match e {
        Expr::MacroCall { args, .. } => exprs_size(args@),
        Expr::Array { elements, .. } => exprs_size(elements@),
        Expr::Dict { entries, .. } => entries_size(entries@),
        Expr::Comprehension { element, iterable, condition, .. } => expr_size(*element) + expr_size(
            *iterable,
        ) + match condition {
            Some(c) => expr_size(*c),
            None => 0,
        },
        Expr::Lambda { body, .. } => expr_size(*body),
        Expr::Type { args, .. } => exprs_size(args@),
        Expr::Vector { x, y, z, .. } => expr_size(*x) + expr_size(*y) + expr_size(*z),
        Expr::PlayerVar { player, .. } => expr_size(*player),
        Expr::Member { receiver, .. } => expr_size(*receiver),
        Expr::Call { args, .. } => exprs_size(args@),
        Expr::ReceiverCall { receiver, args, .. } => expr_size(*receiver) + exprs_size(args@),
        Expr::Binary { left, right, .. } => expr_size(*left) + expr_size(*right),
        Expr::Conditional { then_value, condition, else_value, .. } => expr_size(*then_value)
            + expr_size(*condition) + expr_size(*else_value),
        Expr::Unary { operand, .. } => expr_size(*operand),
        Expr::Index { array, index, .. } => expr_size(*array) + expr_size(*index),
        Expr::Format { args, .. } => exprs_size(args@),
        _ => 0,
    }
}

pub open spec fn exprs_size(es: Seq<Expr>) -> nat
    decreases es,
{
    if es.len() == 0 {
        0
    } else {
        1 + expr_size(es[0]) + exprs_size(es.subrange(1, es.len() as int))
    }
}

pub open spec fn entries_size(es: Seq<DictEntry>) -> nat
    decreases es,
{
    if es.len() == 0 {
        0
    } else {
        1 + expr_size(*es[0].key) + expr_size(*es[0].value) + entries_size(
            es.subrange(1, es.len() as int),
        )
    }
}

/// The number of nodes of a statement.
pub open spec fn stmt_size(s: Stmt) -> nat
    decreases s,
{
    1 + match s {
        Stmt::Expr { expr, .. } => expr_size(*expr),
        Stmt::Assign { target, value, .. } => expr_size(*target) + expr_size(*value),
        Stmt::If { branches, else_body, .. } => branches_size(branches@) + match else_body {
            Some(b) => stmts_size(b@),
            None => 0,
        },
        Stmt::For { variable, iterable, body, .. } => expr_size(*variable) + expr_size(*iterable)
            + stmts_size(body@),
        Stmt::While { condition, body, .. } => expr_size(*condition) + stmts_size(body@),
        Stmt::DoWhile { condition, body, .. } => expr_size(*condition) + stmts_size(body@),
        Stmt::Switch { value, arms, .. } => expr_size(*value) + arms_size(arms@),
        Stmt::Delete { target, .. } => expr_size(*target),
        Stmt::Goto { offset, .. } => match offset {
            Some(o) => expr_size(*o),
            None => 0,
        },
        _ => 0,
    }
}

pub open spec fn stmts_size(ss: Seq<Stmt>) -> nat
    decreases ss,
{
    if ss.len() == 0 {
        0
    } else {
        2 + stmt_size(ss[0]) + stmts_size(ss.subrange(1, ss.len() as int))
    }
}

pub open spec fn branches_size(bs: Seq<IfBranch>) -> nat
    decreases bs,
{
    if bs.len() == 0 {
        0
    } else {
        1 + expr_size(*bs[0].condition) + stmts_size(bs[0].body@) + branches_size(
            bs.subrange(1, bs.len() as int),
        )
    }
}

pub open spec fn arms_size(arms: Seq<SwitchArm>) -> nat
    decreases arms,
{
    if arms.len() == 0 {
        0
    } else {
        let head = match arms[0] {
            SwitchArm::Case { value, body, .. } => expr_size(*value) + stmts_size(body@),
            SwitchArm::Default { body, .. } => stmts_size(body@),
        };
        1 + head + arms_size(arms.subrange(1, arms.len() as int))
    }
}

/// The first of two errors, in evaluation order.
pub open spec fn first_error(a: Option<ErrorView>, b: Option<ErrorView>) -> Option<ErrorView> {
    if a is Some {
        a
    } else {
        b
    }
}

pub open spec fn unbound_param_error(name: Seq<char>, span: Option<Span>) -> ErrorView {
    (
        "unsupported-integration-surface"@,
        "macro parameter '"@ + name + "' has no expansion binding"@,
        span,
    )
}

pub open spec fn undeclared_error(name: Seq<char>, span: Option<Span>) -> ErrorView {
    ("unsupported-integration-surface"@, "macro '"@ + name + "' has no declaration"@, span)
}

pub open spec fn arity_error(name: Seq<char>, expected: nat, got: nat, span: Option<Span>) -> ErrorView {
    (
        "macro-arity"@,
        "macro '"@ + name + "' expects "@ + decimal(expected) + " argument(s) but got "@ + decimal(
            got,
        ),
        span,
    )
}

pub open spec fn recursion_error(name: Seq<char>, span: Option<Span>) -> ErrorView {
    ("macro-recursion"@, "recursive macro expansion detected for '"@ + name + "'"@, span)
}

pub open spec fn value_count_error(name: Seq<char>, span: Option<Span>) -> ErrorView {
    (
        "macro-invalid"@,
        "macro '"@ + name + "' must produce one expression in value position"@,
        span,
    )
}

pub open spec fn value_kind_error(name: Seq<char>, span: Option<Span>) -> ErrorView {
    (
        "macro-invalid"@,
        "macro '"@ + name + "' must produce an expression in value position"@,
        span,
    )
}

/// Whether a statement is a macro call in statement position.
pub open spec fn is_macro_stmt(s: Stmt) -> bool {
    match s {
        Stmt::Expr { expr, .. } => *expr is MacroCall,
        _ => false,
    }
}

/// For each statement that the expansion of `ss` yields, whether it is an
/// expression statement.
pub open spec fn shape_stmts(t: MacroTable, st: Seq<Seq<char>>, ss: Seq<Stmt>) -> Seq<bool>
    decreases remaining(t.defs@, st), 1nat, stmts_size(ss),
{
    if ss.len() == 0 {
        seq![]
    } else {
        shape_head(t, st, ss[0]) + shape_stmts(t, st, ss.subrange(1, ss.len() as int))
    }
}

/// The shape of what one statement yields.
pub open spec fn shape_head(t: MacroTable, st: Seq<Seq<char>>, s: Stmt) -> Seq<bool>
    decreases remaining(t.defs@, st), 1nat, stmt_size(s) + 1,
{
    if is_macro_stmt(s) {
        shape_macro_stmt(t, st, s)
    } else {
        seq![s is Expr]
    }
}

/// The first error that expanding one statement of a list meets.
pub open spec fn err_head(t: MacroTable, st: Seq<Seq<char>>, keys: Seq<Seq<char>>, s: Stmt) -> Option<
    ErrorView,
>
    decreases remaining(t.defs@, st), 1nat, stmt_size(s) + 1,
{
    if is_macro_stmt(s) {
        err_macro_stmt(t, st, keys, s)
    } else {
        err_stmt(t, st, keys, s)
    }
}

/// The shape of what a macro call in statement position yields.
pub open spec fn shape_macro_stmt(t: MacroTable, st: Seq<Seq<char>>, s: Stmt) -> Seq<bool>
    decreases remaining(t.defs@, st), 1nat, stmt_size(s),
{
    match s {
        Stmt::Expr { expr, .. } => match *expr {
            Expr::MacroCall { name, .. } => shape_call(t, st, name@),
            _ => seq![],
        },
        _ => seq![],
    }
}

/// The first error that a macro call in statement position meets: its
/// arguments first, then the call.
pub open spec fn err_macro_stmt(t: MacroTable, st: Seq<Seq<char>>, keys: Seq<Seq<char>>, s: Stmt) -> Option<
    ErrorView,
>
    decreases remaining(t.defs@, st), 1nat, stmt_size(s),
{
    match s {
        Stmt::Expr { expr, .. } => match *expr {
            Expr::MacroCall { name, args, span } => first_error(
                err_exprs(t, st, keys, args@),
                err_call(t, st, name@, args.len() as nat, span),
            ),
            _ => None,
        },
        _ => None,
    }
}

/// The shape of what a call of macro `name` yields.
pub open spec fn shape_call(t: MacroTable, st: Seq<Seq<char>>, name: Seq<char>) -> Seq<bool>
    decreases remaining(t.defs@, st), 0nat, 0nat,
{
    match find_macro(t.defs@, name) {
        Some(i) => if st.contains(name) {
            seq![]
        } else {
            proof {
                lemma_remaining_push(t.defs@, st, name);
            }
            shape_stmts(t, st.push(name), t.defs@[i].body@)
        },
        None => seq![],
    }
}

/// The error that a call of macro `name` with `nargs` arguments meets, if any.
pub open spec fn err_call(
    t: MacroTable,
    st: Seq<Seq<char>>,
    name: Seq<char>,
    nargs: nat,
    span: Option<Span>,
) -> Option<ErrorView>
    decreases remaining(t.defs@, st), 0nat, 0nat,
{
    match find_macro(t.defs@, name) {
        None => Some(undeclared_error(name, span)),
        Some(i) => {
            let d = t.defs@[i];
            if d.params.len() != nargs {
                Some(arity_error(name, d.params.len() as nat, nargs, span))
            } else if st.contains(name) {
                Some(recursion_error(name, span))
            } else {
                proof {
                    lemma_remaining_push(t.defs@, st, name);
                }
                err_stmts(t, st.push(name), bound_keys(d.params@, nargs), d.body@)
            }
        },
    }
}

/// The value-position check of a call whose body yields statements of shape `sh`.
pub open spec fn value_shape_error(name: Seq<char>, span: Option<Span>, sh: Seq<bool>) -> Option<
    ErrorView,
> {
    if sh.len() != 1 {
        Some(value_count_error(name, span))
    } else if !sh[0] {
        Some(value_kind_error(name, span))
    } else {
        None
    }
}

/// The first error that expanding `es` in order meets.
pub open spec fn err_exprs(t: MacroTable, st: Seq<Seq<char>>, keys: Seq<Seq<char>>, es: Seq<Expr>) -> Option<
    ErrorView,
>
    decreases remaining(t.defs@, st), 1nat, exprs_size(es),
{
    if es.len() == 0 {
        None
    } else {
        first_error(err_expr(t, st, keys, es[0]), err_exprs(t, st, keys, es.subrange(1, es.len() as int)))
    }
}

pub open spec fn err_entries(
    t: MacroTable,
    st: Seq<Seq<char>>,
    keys: Seq<Seq<char>>,
    es: Seq<DictEntry>,
) -> Option<ErrorView>
    decreases remaining(t.defs@, st), 1nat, entries_size(es),
{
    if es.len() == 0 {
        None
    } else {
        first_error(
            err_expr(t, st, keys, *es[0].key),
            first_error(
                err_expr(t, st, keys, *es[0].value),
                err_entries(t, st, keys, es.subrange(1, es.len() as int)),
            ),
        )
    }
}

/// The first error that expanding `e` meets, where `keys` are the bound
/// parameter names.
pub open spec fn err_expr(t: MacroTable, st: Seq<Seq<char>>, keys: Seq<Seq<char>>, e: Expr) -> Option<
    ErrorView,
>
    decreases remaining(t.defs@, st), 1nat, expr_size(e),
{
    match e {
        Expr::MacroParam { name, span } => if keys.contains(name@) {
            None
        } else {
            Some(unbound_param_error(name@, span))
        },
        Expr::MacroCall { name, args, span } => first_error(
            err_exprs(t, st, keys, args@),
            first_error(
                err_call(t, st, name@, args.len() as nat, span),
                value_shape_error(name@, span, shape_call(t, st, name@)),
            ),
        ),
        Expr::Array { elements, .. } => err_exprs(t, st, keys, elements@),
        Expr::Dict { entries, .. } => err_entries(t, st, keys, entries@),
        Expr::Comprehension { element, iterable, condition, .. } => first_error(
            err_expr(t, st, keys, *element),
            first_error(
                err_expr(t, st, keys, *iterable),
                match condition {
                    Some(c) => err_expr(t, st, keys, *c),
                    None => None,
                },
            ),
        ),
        Expr::Lambda { body, .. } => err_expr(t, st, keys, *body),
        Expr::Type { args, .. } => err_exprs(t, st, keys, args@),
        Expr::Vector { x, y, z, .. } => first_error(
            err_expr(t, st, keys, *x),
            first_error(err_expr(t, st, keys, *y), err_expr(t, st, keys, *z)),
        ),
        Expr::PlayerVar { player, .. } => err_expr(t, st, keys, *player),
        Expr::Member { receiver, .. } => err_expr(t, st, keys, *receiver),
        Expr::Call { args, .. } => err_exprs(t, st, keys, args@),
        Expr::ReceiverCall { receiver, args, .. } => first_error(
            err_expr(t, st, keys, *receiver),
            err_exprs(t, st, keys, args@),
        ),
        Expr::Binary { left, right, .. } => first_error(
            err_expr(t, st, keys, *left),
            err_expr(t, st, keys, *right),
        ),
        Expr::Conditional { then_value, condition, else_value, .. } => first_error(
            err_expr(t, st, keys, *then_value),
            first_error(err_expr(t, st, keys, *condition), err_expr(t, st, keys, *else_value)),
        ),
        Expr::Unary { operand, .. } => err_expr(t, st, keys, *operand),
        Expr::Index { array, index, .. } => first_error(
            err_expr(t, st, keys, *array),
            err_expr(t, st, keys, *index),
        ),
        Expr::Format { args, .. } => err_exprs(t, st, keys, args@),
        _ => None,
    }
}

/// The first error that expanding the statements `ss` in order meets.
pub open spec fn err_stmts(t: MacroTable, st: Seq<Seq<char>>, keys: Seq<Seq<char>>, ss: Seq<Stmt>) -> Option<
    ErrorView,
>
    decreases remaining(t.defs@, st), 1nat, stmts_size(ss),
{
    if ss.len() == 0 {
        None
    } else {
        first_error(err_head(t, st, keys, ss[0]), err_stmts(t, st, keys, ss.subrange(1, ss.len() as int)))
    }
}

pub open spec fn err_branches(
    t: MacroTable,
    st: Seq<Seq<char>>,
    keys: Seq<Seq<char>>,
    bs: Seq<IfBranch>,
) -> Option<ErrorView>
    decreases remaining(t.defs@, st), 1nat, branches_size(bs),
{
    if bs.len() == 0 {
        None
    } else {
        first_error(
            err_expr(t, st, keys, *bs[0].condition),
            first_error(
                err_stmts(t, st, keys, bs[0].body@),
                err_branches(t, st, keys, bs.subrange(1, bs.len() as int)),
            ),
        )
    }
}

pub open spec fn err_arms(t: MacroTable, st: Seq<Seq<char>>, keys: Seq<Seq<char>>, arms: Seq<SwitchArm>) -> Option<
    ErrorView,
>
    decreases remaining(t.defs@, st), 1nat, arms_size(arms),
{
    if arms.len() == 0 {
        None
    } else {
        let head = match arms[0] {
            SwitchArm::Case { value, body, .. } => first_error(
                err_expr(t, st, keys, *value),
                err_stmts(t, st, keys, body@),
            ),
            SwitchArm::Default { body, .. } => err_stmts(t, st, keys, body@),
        };
        first_error(head, err_arms(t, st, keys, arms.subrange(1, arms.len() as int)))
    }
}

/// The first error that expanding one statement meets.
pub open spec fn err_stmt(t: MacroTable, st: Seq<Seq<char>>, keys: Seq<Seq<char>>, s: Stmt) -> Option<
    ErrorView,
>
    decreases remaining(t.defs@, st), 1nat, stmt_size(s),
{
    match s {
        Stmt::Expr { expr, .. } => err_expr(t, st, keys, *expr),
        Stmt::Assign { target, value, .. } => first_error(
            err_expr(t, st, keys, *target),
            err_expr(t, st, keys, *value),
        ),
        Stmt::If { branches, else_body, .. } => first_error(
            err_branches(t, st, keys, branches@),
            match else_body {
                Some(b) => err_stmts(t, st, keys, b@),
                None => None,
            },
        ),
        Stmt::For { variable, iterable, body, .. } => first_error(
            err_expr(t, st, keys, *variable),
            first_error(err_expr(t, st, keys, *iterable), err_stmts(t, st, keys, body@)),
        ),
        Stmt::While { condition, body, .. } => first_error(
            err_expr(t, st, keys, *condition),
            err_stmts(t, st, keys, body@),
        ),
        Stmt::DoWhile { condition, body, .. } => first_error(
            err_expr(t, st, keys, *condition),
            err_stmts(t, st, keys, body@),
        ),
        Stmt::Switch { value, arms, .. } => first_error(
            err_expr(t, st, keys, *value),
            err_arms(t, st, keys, arms@),
        ),
        Stmt::Delete { target, .. } => err_expr(t, st, keys, *target),
        Stmt::Goto { offset, .. } => match offset {
            Some(o) => err_expr(t, st, keys, *o),
            None => None,
        },
        _ => None,
    }
}

pub proof fn lemma_exprs_size(es: Seq<Expr>)
    ensures
        forall|i: int| 0 <= i < es.len() ==> expr_size(#[trigger] es[i]) < exprs_size(es),
    decreases es.len(),
{
    if es.len() > 0 {
        let rest = es.subrange(1, es.len() as int);
        lemma_exprs_size(rest);
        assert forall|i: int| 0 <= i < es.len() implies expr_size(#[trigger] es[i]) < exprs_size(es) by {
            if i > 0 {
                assert(es[i] == rest[i - 1]);
            }
        }
    }
}

pub proof fn lemma_entries_size(es: Seq<DictEntry>)
    ensures
        forall|i: int|
            0 <= i < es.len() ==> expr_size(*(#[trigger] es[i]).key) < entries_size(es) && expr_size(
                *es[i].value,
            ) < entries_size(es),
    decreases es.len(),
{
    if es.len() > 0 {
        let rest = es.subrange(1, es.len() as int);
        lemma_entries_size(rest);
        assert forall|i: int| 0 <= i < es.len() implies expr_size(*(#[trigger] es[i]).key)
            < entries_size(es) && expr_size(*es[i].value) < entries_size(es) by {
            if i > 0 {
                assert(es[i] == rest[i - 1]);
            }
        }
    }
}

pub proof fn lemma_branches_size(bs: Seq<IfBranch>)
    ensures
        forall|i: int|
            0 <= i < bs.len() ==> expr_size(*(#[trigger] bs[i]).condition) < branches_size(bs)
                && stmts_size(bs[i].body@) < branches_size(bs),
    decreases bs.len(),
{
    if bs.len() > 0 {
        let rest = bs.subrange(1, bs.len() as int);
        lemma_branches_size(rest);
        assert forall|i: int| 0 <= i < bs.len() implies expr_size(*(#[trigger] bs[i]).condition)
            < branches_size(bs) && stmts_size(bs[i].body@) < branches_size(bs) by {
            if i > 0 {
                assert(bs[i] == rest[i - 1]);
            }
        }
    }
}

/// The expression and body of a switch arm; a default arm has no expression.
pub open spec fn arm_parts(a: SwitchArm) -> (Option<Expr>, Seq<Stmt>) {
    match a {
        SwitchArm::Case { value, body, .. } => (Some(*value), body@),
        SwitchArm::Default { body, .. } => (None, body@),
    }
}

pub proof fn lemma_arms_size(arms: Seq<SwitchArm>)
    ensures
        forall|i: int|
            0 <= i < arms.len() ==> stmts_size((#[trigger] arm_parts(arms[i])).1) < arms_size(arms)
                && match arm_parts(arms[i]).0 {
                Some(v) => expr_size(v) < arms_size(arms),
                None => true,
            },
    decreases arms.len(),
{
    if arms.len() > 0 {
        let rest = arms.subrange(1, arms.len() as int);
        lemma_arms_size(rest);
        assert forall|i: int| 0 <= i < arms.len() implies stmts_size(
            (#[trigger] arm_parts(arms[i])).1,
        ) < arms_size(arms) && match arm_parts(arms[i]).0 {
            Some(v) => expr_size(v) < arms_size(arms),
            None => true,
        } by {
            if i > 0 {
                assert(arms[i] == rest[i - 1]);
            }
        }
    }
}

/// Whether `a` and `b` are the same expression, node for node.
pub open spec fn same_expr(a: Expr, b: Expr) -> bool
    decreases a,
{
    match (a, b) {
        (Expr::Array { elements: x, span: s1 }, Expr::Array { elements: y, span: s2 }) => {
            &&& s1 == s2 && x@.len() == y@.len()
            &&& forall|i: int| 0 <= i < x@.len() ==> same_expr(#[trigger] x@[i], y@[i])
        },
        (
            Expr::Call { name: n1, args: x, debug_source: d1, span: s1 },
            Expr::Call { name: n2, args: y, debug_source: d2, span: s2 },
        ) => {
            &&& n1 == n2 && d1 == d2 && s1 == s2 && x@.len() == y@.len()
            &&& forall|i: int| 0 <= i < x@.len() ==> same_expr(#[trigger] x@[i], y@[i])
        },
        (
            Expr::MacroCall { name: n1, args: x, span: s1 },
            Expr::MacroCall { name: n2, args: y, span: s2 },
        ) => {
            &&& n1 == n2 && s1 == s2 && x@.len() == y@.len()
            &&& forall|i: int| 0 <= i < x@.len() ==> same_expr(#[trigger] x@[i], y@[i])
        },
        (Expr::Type { name: n1, args: x, span: s1 }, Expr::Type { name: n2, args: y, span: s2 }) => {
            &&& n1 == n2 && s1 == s2 && x@.len() == y@.len()
            &&& forall|i: int| 0 <= i < x@.len() ==> same_expr(#[trigger] x@[i], y@[i])
        },
        (Expr::Format { text: n1, args: x, span: s1 }, Expr::Format { text: n2, args: y, span: s2 }) => {
            &&& n1 == n2 && s1 == s2 && x@.len() == y@.len()
            &&& forall|i: int| 0 <= i < x@.len() ==> same_expr(#[trigger] x@[i], y@[i])
        },
        (Expr::Dict { entries: x, span: s1 }, Expr::Dict { entries: y, span: s2 }) => {
            &&& s1 == s2 && x@.len() == y@.len()
            &&& forall|i: int|
                0 <= i < x@.len() ==> {
                    &&& (#[trigger] x@[i]).span == y@[i].span
                    &&& same_expr(*x@[i].key, *y@[i].key)
                    &&& same_expr(*x@[i].value, *y@[i].value)
                }
        },
        (
            Expr::Comprehension {
                element: e1,
                variable: v1,
                variable_span: vs1,
                index: i1,
                index_span: is1,
                iterable: it1,
                condition: c1,
                span: s1,
            },
            Expr::Comprehension {
                element: e2,
                variable: v2,
                variable_span: vs2,
                index: i2,
                index_span: is2,
                iterable: it2,
                condition: c2,
                span: s2,
            },
        ) => {
            &&& v1 == v2 && vs1 == vs2 && i1 == i2 && is1 == is2 && s1 == s2
            &&& same_expr(*e1, *e2)
            &&& same_expr(*it1, *it2)
            &&& match (c1, c2) {
                (Some(x), Some(y)) => same_expr(*x, *y),
                (None, None) => true,
                _ => false,
            }
        },
        (
            Expr::Lambda { params: p1, param_spans: ps1, body: b1, span: s1 },
            Expr::Lambda { params: p2, param_spans: ps2, body: b2, span: s2 },
        ) => p1@ == p2@ && ps1@ == ps2@ && s1 == s2 && same_expr(*b1, *b2),
        (
            Expr::Vector { x: x1, y: y1, z: z1, span: s1 },
            Expr::Vector { x: x2, y: y2, z: z2, span: s2 },
        ) => s1 == s2 && same_expr(*x1, *x2) && same_expr(*y1, *y2) && same_expr(*z1, *z2),
        (
            Expr::PlayerVar { player: p1, name: n1, member_span: m1, span: s1 },
            Expr::PlayerVar { player: p2, name: n2, member_span: m2, span: s2 },
        ) => n1 == n2 && m1 == m2 && s1 == s2 && same_expr(*p1, *p2),
        (
            Expr::Member { receiver: r1, member: n1, member_span: m1, span: s1 },
            Expr::Member { receiver: r2, member: n2, member_span: m2, span: s2 },
        ) => n1 == n2 && m1 == m2 && s1 == s2 && same_expr(*r1, *r2),
        (
            Expr::ReceiverCall { receiver: r1, name: n1, args: x, span: s1 },
            Expr::ReceiverCall { receiver: r2, name: n2, args: y, span: s2 },
        ) => {
            &&& n1 == n2 && s1 == s2 && same_expr(*r1, *r2) && x@.len() == y@.len()
            &&& forall|i: int| 0 <= i < x@.len() ==> same_expr(#[trigger] x@[i], y@[i])
        },
        (
            Expr::Binary { op: o1, left: l1, right: r1, span: s1 },
            Expr::Binary { op: o2, left: l2, right: r2, span: s2 },
        ) => o1 == o2 && s1 == s2 && same_expr(*l1, *l2) && same_expr(*r1, *r2),
        (
            Expr::Conditional { then_value: t1, condition: c1, else_value: e1, span: s1 },
            Expr::Conditional { then_value: t2, condition: c2, else_value: e2, span: s2 },
        ) => s1 == s2 && same_expr(*t1, *t2) && same_expr(*c1, *c2) && same_expr(*e1, *e2),
        (
            Expr::Unary { op: o1, operand: x, span: s1 },
            Expr::Unary { op: o2, operand: y, span: s2 },
        ) => o1 == o2 && s1 == s2 && same_expr(*x, *y),
        (
            Expr::Index { array: a1, index: i1, span: s1 },
            Expr::Index { array: a2, index: i2, span: s2 },
        ) => s1 == s2 && same_expr(*a1, *a2) && same_expr(*i1, *i2),
        _ => a == b,
    }
}

/// The expression of an expression statement.
pub open spec fn stmt_expr(s: Stmt) -> Option<Expr> {
    match s {
        Stmt::Expr { expr, .. } => Some(*expr),
        _ => None,
    }
}

/// Whether `a2` can be the expansion of the arguments `args`: as many of them.
pub open spec fn expanded_args(args: Seq<Expr>, a2: Seq<Expr>) -> bool {
    a2.len() == args.len()
}

/// Whether `hs` is the expansion `raw` placed at the call: moved to the call
/// site when the table attributes expanded code to it, else unchanged.
pub open spec fn placed(attr: bool, span: Option<Span>, hs: Seq<Stmt>, raw: Seq<Stmt>) -> bool {
    match span {
        Some(site) => if attr {
            relocated_body(hs, raw, site)
        } else {
            hs == raw
        },
        None => hs == raw,
    }
}

/// Whether `hs` is what a call of macro `name` with the expanded arguments
/// `args` yields.
pub open spec fn ok_call(
    t: MacroTable,
    st: Seq<Seq<char>>,
    name: Seq<char>,
    args: Seq<Expr>,
    span: Option<Span>,
    hs: Seq<Stmt>,
) -> bool
    decreases remaining(t.defs@, st), 0nat, 0nat,
{
    match find_macro(t.defs@, name) {
        None => false,
        Some(i) => {
            let d = t.defs@[i];
            if d.params.len() != args.len() || st.contains(name) {
                false
            } else {
                proof {
                    lemma_remaining_push(t.defs@, st, name);
                }
                exists|raw: Seq<Stmt>|
                    ok_stmts(t, st.push(name), d.params@, args, d.body@, raw) && #[trigger] placed(
                        t.attribute_to_site,
                        span,
                        hs,
                        raw,
                    )
            }
        },
    }
}

/// Whether `rs` is the expansion of the expressions `es`, one for one.
pub open spec fn ok_exprs(
    t: MacroTable,
    st: Seq<Seq<char>>,
    names: Seq<String>,
    values: Seq<Expr>,
    es: Seq<Expr>,
    rs: Seq<Expr>,
) -> bool
    decreases remaining(t.defs@, st), 1nat, exprs_size(es),
{
    proof {
        lemma_exprs_size(es);
    }
    &&& rs.len() == es.len()
    &&& forall|i: int| 0 <= i < es.len() ==> ok_expr(t, st, names, values, #[trigger] es[i], rs[i])
}

pub open spec fn ok_entries(
    t: MacroTable,
    st: Seq<Seq<char>>,
    names: Seq<String>,
    values: Seq<Expr>,
    es: Seq<DictEntry>,
    rs: Seq<DictEntry>,
) -> bool
    decreases remaining(t.defs@, st), 1nat, entries_size(es),
{
    proof {
        lemma_entries_size(es);
    }
    &&& rs.len() == es.len()
    &&& forall|i: int|
        0 <= i < es.len() ==> {
            &&& (#[trigger] rs[i]).span == es[i].span
            &&& ok_expr(t, st, names, values, *es[i].key, *rs[i].key)
            &&& ok_expr(t, st, names, values, *es[i].value, *rs[i].value)
        }
}

/// Whether `r` is the expansion of `e`, where the parameters `names` stand
/// for `values`.
pub open spec fn ok_expr(
    t: MacroTable,
    st: Seq<Seq<char>>,
    names: Seq<String>,
    values: Seq<Expr>,
    e: Expr,
    r: Expr,
) -> bool
    decreases remaining(t.defs@, st), 1nat, expr_size(e),
{
    match e {
        Expr::MacroParam { name, .. } => match binding(names, values, name@) {
            Some(v) => same_expr(r, v),
            None => false,
        },
        Expr::MacroCall { name, args, span } => exists|a2: Seq<Expr>, hs: Seq<Stmt>|
            #![trigger expanded_args(args@, a2), stmt_expr(hs[0])]
            expanded_args(args@, a2) && ok_exprs(t, st, names, values, args@, a2) && ok_call(
                t,
                st,
                name@,
                a2,
                span,
                hs,
            ) && hs.len() == 1 && stmt_expr(hs[0]) == Some(r),
        Expr::Array { elements, span } => match r {
            Expr::Array { elements: x, span: s } => s == span && ok_exprs(
                t,
                st,
                names,
                values,
                elements@,
                x@,
            ),
            _ => false,
        },
        Expr::Dict { entries, span } => match r {
            Expr::Dict { entries: x, span: s } => s == span && ok_entries(
                t,
                st,
                names,
                values,
                entries@,
                x@,
            ),
            _ => false,
        },
        Expr::Comprehension {
            element,
            variable,
            variable_span,
            index,
            index_span,
            iterable,
            condition,
            span,
        } => match r {
            Expr::Comprehension {
                element: e2,
                variable: v2,
                variable_span: vs2,
                index: i2,
                index_span: is2,
                iterable: it2,
                condition: c2,
                span: s2,
            } => {
                &&& v2 == variable && vs2 == variable_span && i2 == index && is2 == index_span
                    && s2 == span
                &&& ok_expr(t, st, names, values, *element, *e2)
                &&& ok_expr(t, st, names, values, *iterable, *it2)
                &&& match (condition, c2) {
                    (Some(a), Some(b)) => ok_expr(t, st, names, values, *a, *b),
                    (None, None) => true,
                    _ => false,
                }
            },
            _ => false,
        },
        Expr::Lambda { params, param_spans, body, span } => match r {
            Expr::Lambda { params: p2, param_spans: ps2, body: b2, span: s2 } => p2@ == params@
                && ps2@ == param_spans@ && s2 == span && ok_expr(t, st, names, values, *body, *b2),
            _ => false,
        },
        Expr::Type { name, args, span } => match r {
            Expr::Type { name: n2, args: a2, span: s2 } => n2 == name && s2 == span && ok_exprs(
                t,
                st,
                names,
                values,
                args@,
                a2@,
            ),
            _ => false,
        },
        Expr::Vector { x, y, z, span } => match r {
            Expr::Vector { x: x2, y: y2, z: z2, span: s2 } => s2 == span && ok_expr(
                t,
                st,
                names,
                values,
                *x,
                *x2,
            ) && ok_expr(t, st, names, values, *y, *y2) && ok_expr(t, st, names, values, *z, *z2),
            _ => false,
        },
        Expr::PlayerVar { player, name, member_span, span } => match r {
            Expr::PlayerVar { player: p2, name: n2, member_span: m2, span: s2 } => n2 == name && m2
                == member_span && s2 == span && ok_expr(t, st, names, values, *player, *p2),
            _ => false,
        },
        Expr::Member { receiver, member, member_span, span } => match r {
            Expr::Member { receiver: r2, member: n2, member_span: m2, span: s2 } => n2 == member
                && m2 == member_span && s2 == span && ok_expr(t, st, names, values, *receiver, *r2),
            _ => false,
        },
        Expr::Call { name, args, debug_source, span } => match r {
            Expr::Call { name: n2, args: a2, debug_source: d2, span: s2 } => n2 == name && d2
                == debug_source && s2 == span && ok_exprs(t, st, names, values, args@, a2@),
            _ => false,
        },
        Expr::ReceiverCall { receiver, name, args, span } => match r {
            Expr::ReceiverCall { receiver: r2, name: n2, args: a2, span: s2 } => n2 == name && s2
                == span && ok_expr(t, st, names, values, *receiver, *r2) && ok_exprs(
                t,
                st,
                names,
                values,
                args@,
                a2@,
            ),
            _ => false,
        },
        Expr::Binary { op, left, right, span } => match r {
            Expr::Binary { op: o2, left: l2, right: r2, span: s2 } => o2 == op && s2 == span
                && ok_expr(t, st, names, values, *left, *l2) && ok_expr(
                t,
                st,
                names,
                values,
                *right,
                *r2,
            ),
            _ => false,
        },
        Expr::Conditional { then_value, condition, else_value, span } => match r {
            Expr::Conditional { then_value: t2, condition: c2, else_value: e2, span: s2 } => {
                &&& s2 == span
                &&& ok_expr(t, st, names, values, *then_value, *t2)
                &&& ok_expr(t, st, names, values, *condition, *c2)
                &&& ok_expr(t, st, names, values, *else_value, *e2)
            },
            _ => false,
        },
        Expr::Unary { op, operand, span } => match r {
            Expr::Unary { op: o2, operand: x, span: s2 } => o2 == op && s2 == span && ok_expr(
                t,
                st,
                names,
                values,
                *operand,
                *x,
            ),
            _ => false,
        },
        Expr::Index { array, index, span } => match r {
            Expr::Index { array: a2, index: i2, span: s2 } => s2 == span && ok_expr(
                t,
                st,
                names,
                values,
                *array,
                *a2,
            ) && ok_expr(t, st, names, values, *index, *i2),
            _ => false,
        },
        Expr::Format { text, args, span } => match r {
            Expr::Format { text: x, args: a2, span: s2 } => x == text && s2 == span && ok_exprs(
                t,
                st,
                names,
                values,
                args@,
                a2@,
            ),
            _ => false,
        },
        _ => r == e,
    }
}

/// Whether `rs` is the expansion of the statements `ss`: each statement
/// yields one statement, but a macro call in statement position yields the
/// statements of the macro's body.
pub open spec fn ok_stmts(
    t: MacroTable,
    st: Seq<Seq<char>>,
    names: Seq<String>,
    values: Seq<Expr>,
    ss: Seq<Stmt>,
    rs: Seq<Stmt>,
) -> bool
    decreases remaining(t.defs@, st), 1nat, stmts_size(ss),
{
    if ss.len() == 0 {
        rs.len() == 0
    } else {
        exists|k: int|
            #![trigger rs.take(k)]
            0 <= k <= rs.len() && ok_head(t, st, names, values, ss[0], rs.take(k)) && ok_stmts(
                t,
                st,
                names,
                values,
                ss.subrange(1, ss.len() as int),
                rs.skip(k),
            )
    }
}

/// Whether `hs` is what one statement yields.
pub open spec fn ok_head(
    t: MacroTable,
    st: Seq<Seq<char>>,
    names: Seq<String>,
    values: Seq<Expr>,
    s: Stmt,
    hs: Seq<Stmt>,
) -> bool
    decreases remaining(t.defs@, st), 1nat, stmt_size(s) + 1,
{
    if is_macro_stmt(s) {
        match s {
            Stmt::Expr { expr, .. } => match *expr {
                Expr::MacroCall { name, args, span } => exists|a2: Seq<Expr>|
                    #[trigger] expanded_args(args@, a2) && ok_exprs(t, st, names, values, args@, a2)
                        && ok_call(t, st, name@, a2, span, hs),
                _ => false,
            },
            _ => false,
        }
    } else {
        hs.len() == 1 && ok_stmt(t, st, names, values, s, hs[0])
    }
}

pub open spec fn ok_branches(
    t: MacroTable,
    st: Seq<Seq<char>>,
    names: Seq<String>,
    values: Seq<Expr>,
    bs: Seq<IfBranch>,
    rs: Seq<IfBranch>,
) -> bool
    decreases remaining(t.defs@, st), 1nat, branches_size(bs),
{
    proof {
        lemma_branches_size(bs);
    }
    &&& rs.len() == bs.len()
    &&& forall|i: int|
        0 <= i < bs.len() ==> {
            &&& ok_expr(t, st, names, values, *(#[trigger] bs[i]).condition, *rs[i].condition)
            &&& ok_stmts(t, st, names, values, bs[i].body@, rs[i].body@)
        }
}

pub open spec fn ok_arms(
    t: MacroTable,
    st: Seq<Seq<char>>,
    names: Seq<String>,
    values: Seq<Expr>,
    arms: Seq<SwitchArm>,
    rs: Seq<SwitchArm>,
) -> bool
    decreases remaining(t.defs@, st), 1nat, arms_size(arms),
{
    proof {
        lemma_arms_size(arms);
    }
    &&& rs.len() == arms.len()
    &&& forall|i: int|
        0 <= i < arms.len() ==> match (#[trigger] arm_parts(arms[i]), rs[i]) {
            ((Some(v), b), SwitchArm::Case { value: v2, body: b2, span: s2 }) => {
                &&& arms[i] is Case && s2 == arms[i]->Case_span
                &&& ok_expr(t, st, names, values, v, *v2)
                &&& ok_stmts(t, st, names, values, b, b2@)
            },
            ((None, b), SwitchArm::Default { body: b2, span: s2 }) => {
                &&& s2 == arms[i]->Default_span
                &&& ok_stmts(t, st, names, values, b, b2@)
            },
            _ => false,
        }
}

/// Whether `r` is the expansion of a statement that is not a macro call.
pub open spec fn ok_stmt(
    t: MacroTable,
    st: Seq<Seq<char>>,
    names: Seq<String>,
    values: Seq<Expr>,
    s: Stmt,
    r: Stmt,
) -> bool
    decreases remaining(t.defs@, st), 1nat, stmt_size(s),
{
    match s {
        Stmt::Expr { expr, span } => match r {
            Stmt::Expr { expr: x, span: s2 } => s2 == span && ok_expr(t, st, names, values, *expr, *x),
            _ => false,
        },
        Stmt::Assign { target, value, span } => match r {
            Stmt::Assign { target: t2, value: v2, span: s2 } => s2 == span && ok_expr(
                t,
                st,
                names,
                values,
                *target,
                *t2,
            ) && ok_expr(t, st, names, values, *value, *v2),
            _ => false,
        },
        Stmt::If { branches, else_body, span } => match r {
            Stmt::If { branches: b2, else_body: e2, span: s2 } => {
                &&& s2 == span
                &&& ok_branches(t, st, names, values, branches@, b2@)
                &&& match (else_body, e2) {
                    (Some(a), Some(b)) => ok_stmts(t, st, names, values, a@, b@),
                    (None, None) => true,
                    _ => false,
                }
            },
            _ => false,
        },
        Stmt::For { variable, iterable, body, span } => match r {
            Stmt::For { variable: v2, iterable: i2, body: b2, span: s2 } => {
                &&& s2 == span
                &&& ok_expr(t, st, names, values, *variable, *v2)
                &&& ok_expr(t, st, names, values, *iterable, *i2)
                &&& ok_stmts(t, st, names, values, body@, b2@)
            },
            _ => false,
        },
        Stmt::While { condition, body, span } => match r {
            Stmt::While { condition: c2, body: b2, span: s2 } => s2 == span && ok_expr(
                t,
                st,
                names,
                values,
                *condition,
                *c2,
            ) && ok_stmts(t, st, names, values, body@, b2@),
            _ => false,
        },
        Stmt::DoWhile { condition, body, span } => match r {
            Stmt::DoWhile { condition: c2, body: b2, span: s2 } => s2 == span && ok_expr(
                t,
                st,
                names,
                values,
                *condition,
                *c2,
            ) && ok_stmts(t, st, names, values, body@, b2@),
            _ => false,
        },
        Stmt::Switch { value, arms, span } => match r {
            Stmt::Switch { value: v2, arms: a2, span: s2 } => s2 == span && ok_expr(
                t,
                st,
                names,
                values,
                *value,
                *v2,
            ) && ok_arms(t, st, names, values, arms@, a2@),
            _ => false,
        },
        Stmt::Delete { target, span } => match r {
            Stmt::Delete { target: t2, span: s2 } => s2 == span && ok_expr(
                t,
                st,
                names,
                values,
                *target,
                *t2,
            ),
            _ => false,
        },
        Stmt::Goto { label, offset, rule_start, span } => match r {
            Stmt::Goto { label: l2, offset: o2, rule_start: r2, span: s2 } => {
                &&& l2 == label && r2 == rule_start && s2 == span
                &&& match (offset, o2) {
                    (Some(a), Some(b)) => ok_expr(t, st, names, values, *a, *b),
                    (None, None) => true,
                    _ => false,
                }
            },
            _ => false,
        },
        _ => r == s,
    }
}

/// A copy of a list of names.
fn copy_strings(v: &Vec<String>) -> (r: Vec<String>)
    ensures
        r@ == v@,
{
    let mut r: Vec<String> = Vec::new();
    let mut i: usize = 0;
    while i < v.len()
        invariant
            i <= v@.len(),
            r@ == v@.take(i as int),
        decreases v@.len() - i,
    {
        r.push(v[i].clone());
        i = i + 1;
        assert(r@ =~= v@.take(i as int));
    }
    assert(v@.take(v@.len() as int) =~= v@);
    r
}

/// A copy of a list of optional spans.
fn copy_spans(v: &Vec<Option<Span>>) -> (r: Vec<Option<Span>>)
    ensures
        r@ == v@,
{
    let mut r: Vec<Option<Span>> = Vec::new();
    let mut i: usize = 0;
    while i < v.len()
        invariant
            i <= v@.len(),
            r@ == v@.take(i as int),
        decreases v@.len() - i,
    {
        let x: Option<Span> = match v[i] {
            Some(sp) => Some(sp),
            None => None,
        };
        r.push(x);
        i = i + 1;
        assert(r@ =~= v@.take(i as int));
    }
    assert(v@.take(v@.len() as int) =~= v@);
    r
}

fn copy_opt_string(o: &Option<String>) -> (r: Option<String>)
    ensures
        r == *o,
{
    match o {
        Some(x) => Some(x.clone()),
        None => None,
    }
}

/// A copy of a list of expressions.
fn copy_exprs(v: &Vec<Expr>) -> (r: Vec<Expr>)
    ensures
        r@.len() == v@.len(),
        forall|i: int| 0 <= i < v@.len() ==> same_expr(#[trigger] r@[i], v@[i]),
    decreases exprs_size(v@), 0nat,
{
    proof {
        lemma_exprs_size(v@);
    }
    let mut r: Vec<Expr> = Vec::new();
    let mut i: usize = 0;
    while i < v.len()
        invariant
            i <= v@.len(),
            r@.len() == i,
            forall|j: int| 0 <= j < i ==> same_expr(#[trigger] r@[j], v@[j]),
            forall|j: int| 0 <= j < v@.len() ==> expr_size(#[trigger] v@[j]) < exprs_size(v@),
        decreases v@.len() - i,
    {
        let c = copy_expr(&v[i]);
        r.push(c);
        i = i + 1;
    }
    r
}

/// A copy of a list of dictionary entries.
fn copy_entries(v: &Vec<DictEntry>) -> (r: Vec<DictEntry>)
    ensures
        r@.len() == v@.len(),
        forall|i: int|
            0 <= i < v@.len() ==> {
                &&& (#[trigger] r@[i]).span == v@[i].span
                &&& same_expr(*r@[i].key, *v@[i].key)
                &&& same_expr(*r@[i].value, *v@[i].value)
            },
    decreases entries_size(v@), 0nat,
{
    proof {
        lemma_entries_size(v@);
    }
    let mut r: Vec<DictEntry> = Vec::new();
    let mut i: usize = 0;
    while i < v.len()
        invariant
            i <= v@.len(),
            r@.len() == i,
            forall|j: int|
                0 <= j < i ==> {
                    &&& (#[trigger] r@[j]).span == v@[j].span
                    &&& same_expr(*r@[j].key, *v@[j].key)
                    &&& same_expr(*r@[j].value, *v@[j].value)
                },
            forall|j: int|
                0 <= j < v@.len() ==> expr_size(*(#[trigger] v@[j]).key) < entries_size(v@)
                    && expr_size(*v@[j].value) < entries_size(v@),
        decreases v@.len() - i,
    {
        let entry = &v[i];
        let key = copy_expr(&entry.key);
        let value = copy_expr(&entry.value);
        r.push(DictEntry { key: Box::new(key), value: Box::new(value), span: entry.span });
        i = i + 1;
    }
    r
}

/// A copy of an expression.
pub fn copy_expr(e: &Expr) -> (r: Expr)
    ensures
        same_expr(r, *e),
    decreases expr_size(*e), 1nat,
{
    match e {
        Expr::Number { text, span } => Expr::Number { text: text.clone(), span: *span },
        Expr::String { value, span } => Expr::String { value: value.clone(), span: *span },
        Expr::Bool { value, span } => Expr::Bool { value: *value, span: *span },
        Expr::Null { span } => Expr::Null { span: *span },
        Expr::StringModifier { modifier, value, span } => Expr::StringModifier {
            modifier: modifier.clone(),
            value: value.clone(),
            span: *span,
        },
        Expr::Local { name, span } => Expr::Local { name: name.clone(), span: *span },
        Expr::Enum { value_type, value, span } => Expr::Enum {
            value_type: value_type.clone(),
            value: value.clone(),
            span: *span,
        },
        Expr::GlobalVar { name, span } => Expr::GlobalVar { name: name.clone(), span: *span },
        Expr::HostPlayer { span } => Expr::HostPlayer { span: *span },
        Expr::EventPlayer { span } => Expr::EventPlayer { span: *span },
        Expr::Constant { name, span } => Expr::Constant { name: name.clone(), span: *span },
        Expr::MacroParam { name, span } => Expr::MacroParam { name: name.clone(), span: *span },
        Expr::Array { elements, span } => Expr::Array { elements: copy_exprs(elements), span: *span },
        Expr::Call { name, args, debug_source, span } => Expr::Call {
            name: name.clone(),
            args: copy_exprs(args),
            debug_source: copy_opt_string(debug_source),
            span: *span,
        },
        Expr::MacroCall { name, args, span } => Expr::MacroCall {
            name: name.clone(),
            args: copy_exprs(args),
            span: *span,
        },
        Expr::Type { name, args, span } => Expr::Type {
            name: name.clone(),
            args: copy_exprs(args),
            span: *span,
        },
        Expr::Format { text, args, span } => Expr::Format {
            text: text.clone(),
            args: copy_exprs(args),
            span: *span,
        },
        Expr::Dict { entries, span } => Expr::Dict { entries: copy_entries(entries), span: *span },
        Expr::Comprehension {
            element,
            variable,
            variable_span,
            index,
            index_span,
            iterable,
            condition,
            span,
        } => {
            let c = match condition {
                Some(c) => Some(Box::new(copy_expr(c))),
                None => None,
            };
            Expr::Comprehension {
                element: Box::new(copy_expr(element)),
                variable: variable.clone(),
                variable_span: *variable_span,
                index: copy_opt_string(index),
                index_span: *index_span,
                iterable: Box::new(copy_expr(iterable)),
                condition: c,
                span: *span,
            }
        },
        Expr::Lambda { params, param_spans, body, span } => Expr::Lambda {
            params: copy_strings(params),
            param_spans: copy_spans(param_spans),
            body: Box::new(copy_expr(body)),
            span: *span,
        },
        Expr::Vector { x, y, z, span } => Expr::Vector {
            x: Box::new(copy_expr(x)),
            y: Box::new(copy_expr(y)),
            z: Box::new(copy_expr(z)),
            span: *span,
        },
        Expr::PlayerVar { player, name, member_span, span } => Expr::PlayerVar {
            player: Box::new(copy_expr(player)),
            name: name.clone(),
            member_span: *member_span,
            span: *span,
        },
        Expr::Member { receiver, member, member_span, span } => Expr::Member {
            receiver: Box::new(copy_expr(receiver)),
            member: member.clone(),
            member_span: *member_span,
            span: *span,
        },
        Expr::ReceiverCall { receiver, name, args, span } => Expr::ReceiverCall {
            receiver: Box::new(copy_expr(receiver)),
            name: name.clone(),
            args: copy_exprs(args),
            span: *span,
        },
        Expr::Binary { op, left, right, span } => Expr::Binary {
            op: op.clone(),
            left: Box::new(copy_expr(left)),
            right: Box::new(copy_expr(right)),
            span: *span,
        },
        Expr::Conditional { then_value, condition, else_value, span } => Expr::Conditional {
            then_value: Box::new(copy_expr(then_value)),
            condition: Box::new(copy_expr(condition)),
            else_value: Box::new(copy_expr(else_value)),
            span: *span,
        },
        Expr::Unary { op, operand, span } => Expr::Unary {
            op: op.clone(),
            operand: Box::new(copy_expr(operand)),
            span: *span,
        },
        Expr::Index { array, index, span } => Expr::Index {
            array: Box::new(copy_expr(array)),
            index: Box::new(copy_expr(index)),
            span: *span,
        },
    }
}

/// The declaration that `name` refers to, if any.
fn find_def(defs: &Vec<MacroDef>, name: &str) -> (r: Option<usize>)
    ensures
        match r {
            Some(i) => find_macro(defs@, name@) == Some(i as int) && i < defs@.len(),
            None => find_macro(defs@, name@) is None,
        },
{
    proof {
        lemma_last_index(macro_names(defs@), name@);
    }
    let mut k: usize = defs.len();
    while k > 0
        invariant
            k <= defs@.len(),
            forall|j: int| k <= j < defs@.len() ==> (#[trigger] defs@[j]).name@ != name@,
        decreases k,
    {
        if str_eq(defs[k - 1].name.as_str(), name) {
            let j = k - 1;
            proof {
                let names = macro_names(defs@);
                lemma_last_index(names, name@);
                assert(names[j as int] == name@);
                assert forall|m: int| j < m < names.len() implies names[m] != name@ by {
                    assert(names[m] == defs@[m].name@);
                }
            }
            return Some(j);
        }
        k = k - 1;
    }
    proof {
        let names = macro_names(defs@);
        lemma_last_index(names, name@);
        assert forall|m: int| 0 <= m < names.len() implies names[m] != name@ by {
            assert(names[m] == defs@[m].name@);
        }
    }
    None
}

/// The bound parameter names of `b`.
pub open spec fn keys_of(b: MacroBindings) -> Seq<Seq<char>> {
    bound_keys(b.names@, b.values@.len())
}

/// The position of the value that parameter `name` stands for, if any.
fn find_binding(b: &MacroBindings, name: &str) -> (r: Option<usize>)
    ensures
        match r {
            Some(j) => last_index(keys_of(*b), name@) == Some(j as int) && j < b.names@.len() && j
                < b.values@.len(),
            None => last_index(keys_of(*b), name@) is None,
        },
{
    let n = if b.names.len() <= b.values.len() {
        b.names.len()
    } else {
        b.values.len()
    };
    let ghost keys = keys_of(*b);
    proof {
        lemma_last_index(keys, name@);
    }
    assert(keys.len() == n);
    let mut k: usize = n;
    while k > 0
        invariant
            k <= n,
            keys == keys_of(*b),
            keys.len() == n,
            n <= b.names@.len(),
            forall|j: int| k <= j < n ==> keys[j] != name@,
        decreases k,
    {
        if str_eq(b.names[k - 1].as_str(), name) {
            assert(keys[k - 1] == b.names@[k - 1]@);
            proof {
                lemma_last_index(keys, name@);
            }
            return Some(k - 1);
        }
        assert(keys[k - 1] == b.names@[k - 1]@);
        k = k - 1;
    }
    proof {
        lemma_last_index(keys, name@);
    }
    None
}

pub proof fn lemma_last_index_contains(keys: Seq<Seq<char>>, name: Seq<char>)
    ensures
        (last_index(keys, name) is Some) == keys.contains(name),
{
    lemma_last_index(keys, name);
    if let Some(i) = last_index(keys, name) {
        assert(keys[i] == name);
    }
}

fn quoted_message(before: &str, name: &str, after: &str) -> (r: String)
    ensures
        r@ == before@ + name@ + after@,
{
    let mut m = String::new();
    m.append(before);
    m.append(name);
    m.append(after);
    m
}

fn unbound_param(name: &str, span: Option<Span>) -> (r: IntegrationError)
    ensures
        error_view(r) == unbound_param_error(name@, span),
        r.diagnostic.script is None,
{
    let m = quoted_message("macro parameter '", name, "' has no expansion binding");
    IntegrationError::new("unsupported-integration-surface", m, span)
}

fn undeclared(name: &str, span: Option<Span>) -> (r: IntegrationError)
    ensures
        error_view(r) == undeclared_error(name@, span),
        r.diagnostic.script is None,
{
    let m = quoted_message("macro '", name, "' has no declaration");
    IntegrationError::new("unsupported-integration-surface", m, span)
}

fn arity_mismatch(name: &str, expected: usize, got: usize, span: Option<Span>) -> (r: IntegrationError)
    ensures
        error_view(r) == arity_error(name@, expected as nat, got as nat, span),
        r.diagnostic.script is None,
{
    let mut m = quoted_message("macro '", name, "' expects ");
    let e = string_of(&decimal_chars(expected as u64));
    m.append(e.as_str());
    m.append(" argument(s) but got ");
    let g = string_of(&decimal_chars(got as u64));
    m.append(g.as_str());
    IntegrationError::new("macro-arity", m, span)
}

fn recursive_call(name: &str, span: Option<Span>) -> (r: IntegrationError)
    ensures
        error_view(r) == recursion_error(name@, span),
        r.diagnostic.script is None,
{
    let m = quoted_message("recursive macro expansion detected for '", name, "'");
    IntegrationError::new("macro-recursion", m, span)
}

fn value_count(name: &str, span: Option<Span>) -> (r: IntegrationError)
    ensures
        error_view(r) == value_count_error(name@, span),
        r.diagnostic.script is None,
{
    let m = quoted_message("macro '", name, "' must produce one expression in value position");
    IntegrationError::new("macro-invalid", m, span)
}

fn value_kind(name: &str, span: Option<Span>) -> (r: IntegrationError)
    ensures
        error_view(r) == value_kind_error(name@, span),
        r.diagnostic.script is None,
{
    let m = quoted_message("macro '", name, "' must produce an expression in value position");
    IntegrationError::new("macro-invalid", m, span)
}

/// For each statement, whether it is an expression statement.
pub open spec fn expr_flags(rs: Seq<Stmt>) -> Seq<bool> {
    rs.map_values(|s: Stmt| s is Expr)
}

pub proof fn lemma_stmts_size(ss: Seq<Stmt>)
    ensures
        forall|i: int| 0 <= i < ss.len() ==> stmt_size(#[trigger] ss[i]) + 1 < stmts_size(ss),
    decreases ss.len(),
{
    if ss.len() > 0 {
        let rest = ss.subrange(1, ss.len() as int);
        lemma_stmts_size(rest);
        assert forall|i: int| 0 <= i < ss.len() implies stmt_size(#[trigger] ss[i]) + 1 < stmts_size(
            ss,
        ) by {
            if i > 0 {
                assert(ss[i] == rest[i - 1]);
            }
        }
    }
}

/// Relocation keeps each statement's kind.
pub proof fn lemma_relocated_flags(hs: Seq<Stmt>, raw: Seq<Stmt>, site: Span)
    requires
        relocated_body(hs, raw, site),
    ensures
        expr_flags(hs) == expr_flags(raw),
{
    assert forall|i: int| 0 <= i < hs.len() implies (#[trigger] hs[i] is Expr) == (raw[i] is Expr) by {
        assert(relocated_stmt(hs[i], raw[i], site));
    }
    assert(expr_flags(hs) =~= expr_flags(raw));
}

/// Expand a list of expressions in order.
fn ex_exprs(t: &MacroTable, stack: &mut Vec<String>, b: &MacroBindings, es: &Vec<Expr>) -> (res: Result<
    Vec<Expr>,
    IntegrationError,
>)
    ensures
        final(stack)@ == old(stack)@,
        free_exprs(b.values@) ==> (res matches Ok(rs) ==> free_exprs(rs@)),
        match res {
            Ok(rs) => err_exprs(*t, views(old(stack)@), keys_of(*b), es@) is None && ok_exprs(
                *t,
                views(old(stack)@),
                b.names@,
                b.values@,
                es@,
                rs@,
            ),
            Err(x) => err_exprs(*t, views(old(stack)@), keys_of(*b), es@) == Some(error_view(x))
                && x.diagnostic.script is None,
        },
    decreases remaining(t.defs@, views(old(stack)@)), 1nat, exprs_size(es@),
{
    let ghost st = views(stack@);
    proof {
        lemma_exprs_size(es@);
    }
    let mut out: Vec<Expr> = Vec::new();
    let mut i: usize = 0;
    assert(es@.subrange(0, es@.len() as int) =~= es@);
    while i < es.len()
        invariant
            i <= es@.len(),
            stack@ == old(stack)@,
            st == views(old(stack)@),
            out@.len() == i,
            free_exprs(b.values@) ==> forall|j: int| 0 <= j < i ==> free_expr(#[trigger] out@[j]),
            forall|j: int|
                0 <= j < i ==> ok_expr(*t, st, b.names@, b.values@, #[trigger] es@[j], out@[j]),
            err_exprs(*t, st, keys_of(*b), es@) == err_exprs(
                *t,
                st,
                keys_of(*b),
                es@.subrange(i as int, es@.len() as int),
            ),
            forall|j: int| 0 <= j < es@.len() ==> expr_size(#[trigger] es@[j]) < exprs_size(es@),
        decreases es@.len() - i,
    {
        proof {
            let rest = es@.subrange(i as int, es@.len() as int);
            assert(rest[0] == es@[i as int]);
            assert(rest.subrange(1, rest.len() as int) =~= es@.subrange(i + 1, es@.len() as int));
        }
        match ex_expr(t, stack, b, &es[i]) {
            Ok(v) => {
                out.push(v);
            },
            Err(x) => {
                return Err(x);
            },
        }
        i = i + 1;
    }
    assert(es@.subrange(es@.len() as int, es@.len() as int) =~= Seq::<Expr>::empty());
    Ok(out)
}

/// Expand the entries of a dictionary in order, each key before its value.
fn ex_entries(t: &MacroTable, stack: &mut Vec<String>, b: &MacroBindings, es: &Vec<DictEntry>) -> (res:
    Result<Vec<DictEntry>, IntegrationError>)
    ensures
        final(stack)@ == old(stack)@,
        free_exprs(b.values@) ==> (res matches Ok(rs) ==> forall|i: int|
            0 <= i < rs@.len() ==> free_expr(*(#[trigger] rs@[i]).key) && free_expr(*rs@[i].value)),
        match res {
            Ok(rs) => err_entries(*t, views(old(stack)@), keys_of(*b), es@) is None && ok_entries(
                *t,
                views(old(stack)@),
                b.names@,
                b.values@,
                es@,
                rs@,
            ),
            Err(x) => err_entries(*t, views(old(stack)@), keys_of(*b), es@) == Some(error_view(x))
                && x.diagnostic.script is None,
        },
    decreases remaining(t.defs@, views(old(stack)@)), 1nat, entries_size(es@),
{
    let ghost st = views(stack@);
    proof {
        lemma_entries_size(es@);
    }
    let mut out: Vec<DictEntry> = Vec::new();
    let mut i: usize = 0;
    assert(es@.subrange(0, es@.len() as int) =~= es@);
    while i < es.len()
        invariant
            i <= es@.len(),
            stack@ == old(stack)@,
            st == views(old(stack)@),
            out@.len() == i,
            free_exprs(b.values@) ==> forall|j: int|
                0 <= j < i ==> free_expr(*(#[trigger] out@[j]).key) && free_expr(*out@[j].value),
            forall|j: int|
                0 <= j < i ==> {
                    &&& (#[trigger] out@[j]).span == es@[j].span
                    &&& ok_expr(*t, st, b.names@, b.values@, *es@[j].key, *out@[j].key)
                    &&& ok_expr(*t, st, b.names@, b.values@, *es@[j].value, *out@[j].value)
                },
            err_entries(*t, st, keys_of(*b), es@) == err_entries(
                *t,
                st,
                keys_of(*b),
                es@.subrange(i as int, es@.len() as int),
            ),
            forall|j: int|
                0 <= j < es@.len() ==> expr_size(*(#[trigger] es@[j]).key) < entries_size(es@)
                    && expr_size(*es@[j].value) < entries_size(es@),
        decreases es@.len() - i,
    {
        proof {
            let rest = es@.subrange(i as int, es@.len() as int);
            assert(rest[0] == es@[i as int]);
            assert(rest.subrange(1, rest.len() as int) =~= es@.subrange(i + 1, es@.len() as int));
        }
        let entry = &es[i];
        let key = match ex_expr(t, stack, b, &entry.key) {
            Ok(v) => v,
            Err(x) => {
                return Err(x);
            },
        };
        let value = match ex_expr(t, stack, b, &entry.value) {
            Ok(v) => v,
            Err(x) => {
                return Err(x);
            },
        };
        out.push(DictEntry { key: Box::new(key), value: Box::new(value), span: entry.span });
        i = i + 1;
    }
    assert(es@.subrange(es@.len() as int, es@.len() as int) =~= Seq::<DictEntry>::empty());
    Ok(out)
}

/// Expand one expression.
#[verifier::rlimit(40)]
#[verifier::spinoff_prover]
fn ex_expr(t: &MacroTable, stack: &mut Vec<String>, b: &MacroBindings, e: &Expr) -> (res: Result<
    Expr,
    IntegrationError,
>)
    ensures
        final(stack)@ == old(stack)@,
        free_exprs(b.values@) ==> (res matches Ok(r) ==> free_expr(r)),
        match res {
            Ok(r) => err_expr(*t, views(old(stack)@), keys_of(*b), *e) is None && ok_expr(
                *t,
                views(old(stack)@),
                b.names@,
                b.values@,
                *e,
                r,
            ),
            Err(x) => err_expr(*t, views(old(stack)@), keys_of(*b), *e) == Some(error_view(x))
                && x.diagnostic.script is None,
        },
    decreases remaining(t.defs@, views(old(stack)@)), 1nat, expr_size(*e),
{
    match e {
        Expr::MacroParam { name, span } => {
            proof {
                lemma_last_index_contains(keys_of(*b), name@);
            }
            match find_binding(b, name.as_str()) {
                Some(j) => {
                    let r = copy_expr(&b.values[j]);
                    proof {
                        if free_exprs(b.values@) {
                            assert(free_expr(b.values@[j as int]));
                            lemma_same_expr_free(r, b.values@[j as int]);
                        }
                    }
                    Ok(r)
                },
                None => Err(unbound_param(name.as_str(), *span)),
            }
        },
        Expr::MacroCall { name, args, span } => {
            let a2 = match ex_exprs(t, stack, b, args) {
                Ok(v) => v,
                Err(x) => {
                    return Err(x);
                },
            };
            let ghost a2v = a2@;
            let mut body = match ex_call(t, stack, name.as_str(), a2, *span) {
                Ok(h) => h,
                Err(x) => {
                    return Err(x);
                },
            };
            let ghost hs = body@;
            if body.len() != 1 {
                return Err(value_count(name.as_str(), *span));
            }
            let first = body.pop();
            assert(first == Some(hs[0]));
            match first {
                Some(Stmt::Expr { expr, .. }) => {
                    let r = *expr;
                    assert(expanded_args(args@, a2v) && stmt_expr(hs[0]) == Some(r));
                    assert(free_exprs(b.values@) ==> free_stmt(hs[0]));
                    Ok(r)
                },
                _ => Err(value_kind(name.as_str(), *span)),
            }
        },
        Expr::Array { elements, span } => {
            let x = match ex_exprs(t, stack, b, elements) {
                Ok(v) => v,
                Err(x) => {
                    return Err(x);
                },
            };
            Ok(Expr::Array { elements: x, span: *span })
        },
        Expr::Dict { entries, span } => {
            let x = match ex_entries(t, stack, b, entries) {
                Ok(v) => v,
                Err(x) => {
                    return Err(x);
                },
            };
            Ok(Expr::Dict { entries: x, span: *span })
        },
        Expr::Comprehension {
            element,
            variable,
            variable_span,
            index,
            index_span,
            iterable,
            condition,
            span,
        } => {
            let e2 = match ex_expr(t, stack, b, element) {
                Ok(v) => v,
                Err(x) => {
                    return Err(x);
                },
            };
            let it2 = match ex_expr(t, stack, b, iterable) {
                Ok(v) => v,
                Err(x) => {
                    return Err(x);
                },
            };
            let c2 = match condition {
                Some(c) => match ex_expr(t, stack, b, c) {
                    Ok(v) => Some(Box::new(v)),
                    Err(x) => {
                        return Err(x);
                    },
                },
                None => None,
            };
            Ok(
                Expr::Comprehension {
                    element: Box::new(e2),
                    variable: variable.clone(),
                    variable_span: *variable_span,
                    index: copy_opt_string(index),
                    index_span: *index_span,
                    iterable: Box::new(it2),
                    condition: c2,
                    span: *span,
                },
            )
        },
        Expr::Lambda { params, param_spans, body, span } => {
            let b2 = match ex_expr(t, stack, b, body) {
                Ok(v) => v,
                Err(x) => {
                    return Err(x);
                },
            };
            Ok(
                Expr::Lambda {
                    params: copy_strings(params),
                    param_spans: copy_spans(param_spans),
                    body: Box::new(b2),
                    span: *span,
                },
            )
        },
        Expr::Type { name, args, span } => {
            let x = match ex_exprs(t, stack, b, args) {
                Ok(v) => v,
                Err(x) => {
                    return Err(x);
                },
            };
            Ok(Expr::Type { name: name.clone(), args: x, span: *span })
        },
        Expr::Vector { x, y, z, span } => {
            let x2 = match ex_expr(t, stack, b, x) {
                Ok(v) => v,
                Err(err) => {
                    return Err(err);
                },
            };
            let y2 = match ex_expr(t, stack, b, y) {
                Ok(v) => v,
                Err(err) => {
                    return Err(err);
                },
            };
            let z2 = match ex_expr(t, stack, b, z) {
                Ok(v) => v,
                Err(err) => {
                    return Err(err);
                },
            };
            Ok(Expr::Vector { x: Box::new(x2), y: Box::new(y2), z: Box::new(z2), span: *span })
        },
        Expr::PlayerVar { player, name, member_span, span } => {
            let p2 = match ex_expr(t, stack, b, player) {
                Ok(v) => v,
                Err(x) => {
                    return Err(x);
                },
            };
            Ok(
                Expr::PlayerVar {
                    player: Box::new(p2),
                    name: name.clone(),
                    member_span: *member_span,
                    span: *span,
                },
            )
        },
        Expr::Member { receiver, member, member_span, span } => {
            let r2 = match ex_expr(t, stack, b, receiver) {
                Ok(v) => v,
                Err(x) => {
                    return Err(x);
                },
            };
            Ok(
                Expr::Member {
                    receiver: Box::new(r2),
                    member: member.clone(),
                    member_span: *member_span,
                    span: *span,
                },
            )
        },
        Expr::Call { name, args, debug_source, span } => {
            let x = match ex_exprs(t, stack, b, args) {
                Ok(v) => v,
                Err(x) => {
                    return Err(x);
                },
            };
            Ok(
                Expr::Call {
                    name: name.clone(),
                    args: x,
                    debug_source: copy_opt_string(debug_source),
                    span: *span,
                },
            )
        },
        Expr::ReceiverCall { receiver, name, args, span } => {
            let r2 = match ex_expr(t, stack, b, receiver) {
                Ok(v) => v,
                Err(x) => {
                    return Err(x);
                },
            };
            let x = match ex_exprs(t, stack, b, args) {
                Ok(v) => v,
                Err(x) => {
                    return Err(x);
                },
            };
            Ok(
                Expr::ReceiverCall {
                    receiver: Box::new(r2),
                    name: name.clone(),
                    args: x,
                    span: *span,
                },
            )
        },
        Expr::Binary { op, left, right, span } => {
            let l2 = match ex_expr(t, stack, b, left) {
                Ok(v) => v,
                Err(x) => {
                    return Err(x);
                },
            };
            let r2 = match ex_expr(t, stack, b, right) {
                Ok(v) => v,
                Err(x) => {
                    return Err(x);
                },
            };
            Ok(Expr::Binary { op: op.clone(), left: Box::new(l2), right: Box::new(r2), span: *span })
        },
        Expr::Conditional { then_value, condition, else_value, span } => {
            let t2 = match ex_expr(t, stack, b, then_value) {
                Ok(v) => v,
                Err(x) => {
                    return Err(x);
                },
            };
            let c2 = match ex_expr(t, stack, b, condition) {
                Ok(v) => v,
                Err(x) => {
                    return Err(x);
                },
            };
            let e2 = match ex_expr(t, stack, b, else_value) {
                Ok(v) => v,
                Err(x) => {
                    return Err(x);
                },
            };
            Ok(
                Expr::Conditional {
                    then_value: Box::new(t2),
                    condition: Box::new(c2),
                    else_value: Box::new(e2),
                    span: *span,
                },
            )
        },
        Expr::Unary { op, operand, span } => {
            let x = match ex_expr(t, stack, b, operand) {
                Ok(v) => v,
                Err(x) => {
                    return Err(x);
                },
            };
            Ok(Expr::Unary { op: op.clone(), operand: Box::new(x), span: *span })
        },
        Expr::Index { array, index, span } => {
            let a2 = match ex_expr(t, stack, b, array) {
                Ok(v) => v,
                Err(x) => {
                    return Err(x);
                },
            };
            let i2 = match ex_expr(t, stack, b, index) {
                Ok(v) => v,
                Err(x) => {
                    return Err(x);
                },
            };
            Ok(Expr::Index { array: Box::new(a2), index: Box::new(i2), span: *span })
        },
        Expr::Format { text, args, span } => {
            let x = match ex_exprs(t, stack, b, args) {
                Ok(v) => v,
                Err(x) => {
                    return Err(x);
                },
            };
            Ok(Expr::Format { text: text.clone(), args: x, span: *span })
        },
        Expr::Number { text, span } => Ok(Expr::Number { text: text.clone(), span: *span }),
        Expr::String { value, span } => Ok(Expr::String { value: value.clone(), span: *span }),
        Expr::Bool { value, span } => Ok(Expr::Bool { value: *value, span: *span }),
        Expr::Null { span } => Ok(Expr::Null { span: *span }),
        Expr::StringModifier { modifier, value, span } => Ok(
            Expr::StringModifier { modifier: modifier.clone(), value: value.clone(), span: *span },
        ),
        Expr::Local { name, span } => Ok(Expr::Local { name: name.clone(), span: *span }),
        Expr::Enum { value_type, value, span } => Ok(
            Expr::Enum { value_type: value_type.clone(), value: value.clone(), span: *span },
        ),
        Expr::GlobalVar { name, span } => Ok(Expr::GlobalVar { name: name.clone(), span: *span }),
        Expr::HostPlayer { span } => Ok(Expr::HostPlayer { span: *span }),
        Expr::EventPlayer { span } => Ok(Expr::EventPlayer { span: *span }),
        Expr::Constant { name, span } => Ok(Expr::Constant { name: name.clone(), span: *span }),
    }
}

/// Expand a call of macro `name` whose arguments were expanded to `args`:
/// the macro's body, with its parameters standing for `args`.
fn ex_call(t: &MacroTable, stack: &mut Vec<String>, name: &str, args: Vec<Expr>, span: Option<Span>) -> (res:
    Result<Vec<Stmt>, IntegrationError>)
    ensures
        final(stack)@ == old(stack)@,
        free_exprs(args@) ==> (res matches Ok(hs) ==> free_stmts(hs@)),
        match res {
            Ok(hs) => {
                &&& err_call(*t, views(old(stack)@), name@, args@.len(), span) is None
                &&& ok_call(*t, views(old(stack)@), name@, args@, span, hs@)
                &&& shape_call(*t, views(old(stack)@), name@) == expr_flags(hs@)
            },
            Err(x) => err_call(*t, views(old(stack)@), name@, args@.len(), span) == Some(
                error_view(x),
            ) && x.diagnostic.script is None,
        },
    decreases remaining(t.defs@, views(old(stack)@)), 0nat, 0nat,
{
    let ghost st = views(stack@);
    let i = match find_def(&t.defs, name) {
        Some(i) => i,
        None => {
            return Err(undeclared(name, span));
        },
    };
    let d = &t.defs[i];
    assert(find_macro(t.defs@, name@) == Some(i as int));
    assert(t.defs@[i as int] == *d);
    if d.params.len() != args.len() {
        let x = arity_mismatch(name, d.params.len(), args.len(), span);
        assert(err_call(*t, st, name@, args@.len(), span) == Some(arity_error(name@, d.params@.len(), args@.len(), span)));
        return Err(x);
    }
    if contains_name(stack, name) {
        return Err(recursive_call(name, span));
    }
    let ghost argv = args@;
    let bindings = MacroBindings { names: copy_strings(&d.params), values: args };
    proof {
        lemma_remaining_push(t.defs@, st, name@);
    }
    stack.push(name.to_owned());
    assert(views(stack@) =~= st.push(name@));
    assert(keys_of(bindings) =~= bound_keys(d.params@, argv.len()));
    let result = ex_stmts(t, stack, &bindings, &d.body);
    stack.pop();
    assert(stack@ =~= old(stack)@);
    let mut raw = match result {
        Ok(v) => v,
        Err(x) => {
            return Err(x);
        },
    };
    let ghost rv = raw@;
    if t.attribute_to_site {
        if let Some(site) = span {
            relocate_stmts(&mut raw, site);
            proof {
                lemma_relocated_flags(raw@, rv, site);
                if free_exprs(argv) {
                    lemma_relocated_body_free(raw@, rv, site);
                }
            }
        }
    }
    assert(placed(t.attribute_to_site, span, raw@, rv));
    Ok(raw)
}

/// Expand a macro call in statement position: its arguments, then the call.
fn ex_macro_stmt(t: &MacroTable, stack: &mut Vec<String>, b: &MacroBindings, s: &Stmt) -> (res: Result<
    Vec<Stmt>,
    IntegrationError,
>)
    requires
        is_macro_stmt(*s),
    ensures
        final(stack)@ == old(stack)@,
        free_exprs(b.values@) ==> (res matches Ok(hs) ==> free_stmts(hs@)),
        match res {
            Ok(hs) => {
                &&& err_macro_stmt(*t, views(old(stack)@), keys_of(*b), *s) is None
                &&& ok_head(*t, views(old(stack)@), b.names@, b.values@, *s, hs@)
                &&& shape_macro_stmt(*t, views(old(stack)@), *s) == expr_flags(hs@)
            },
            Err(x) => err_macro_stmt(*t, views(old(stack)@), keys_of(*b), *s) == Some(
                error_view(x),
            ) && x.diagnostic.script is None,
        },
    decreases remaining(t.defs@, views(old(stack)@)), 1nat, stmt_size(*s),
{
    let ghost st = views(stack@);
    match s {
        Stmt::Expr { expr, .. } => match &**expr {
            Expr::MacroCall { name, args, span } => {
                let a2 = match ex_exprs(t, stack, b, args) {
                    Ok(v) => v,
                    Err(x) => {
                        return Err(x);
                    },
                };
                let ghost a2v = a2@;
                let hs = match ex_call(t, stack, name.as_str(), a2, *span) {
                    Ok(h) => h,
                    Err(x) => {
                        return Err(x);
                    },
                };
                assert(ok_exprs(*t, st, b.names@, b.values@, args@, a2v));
                assert(expanded_args(args@, a2v));
                Ok(hs)
            },
            _ => {
                assert(false);
                Ok(Vec::new())
            },
        },
        _ => {
            assert(false);
            Ok(Vec::new())
        },
    }
}

/// Whether a statement is a macro call in statement position.
fn is_macro_call_stmt(s: &Stmt) -> (r: bool)
    ensures
        r == is_macro_stmt(*s),
{
    match s {
        Stmt::Expr { expr, .. } => match &**expr {
            Expr::MacroCall { .. } => true,
            _ => false,
        },
        _ => false,
    }
}

/// Expand one statement of a list: a macro call yields the macro's body.
fn ex_head(t: &MacroTable, stack: &mut Vec<String>, b: &MacroBindings, s: &Stmt) -> (res: Result<
    Vec<Stmt>,
    IntegrationError,
>)
    ensures
        final(stack)@ == old(stack)@,
        free_exprs(b.values@) ==> (res matches Ok(hs) ==> free_stmts(hs@)),
        match res {
            Ok(hs) => {
                &&& err_head(*t, views(old(stack)@), keys_of(*b), *s) is None
                &&& ok_head(*t, views(old(stack)@), b.names@, b.values@, *s, hs@)
                &&& shape_head(*t, views(old(stack)@), *s) == expr_flags(hs@)
            },
            Err(x) => err_head(*t, views(old(stack)@), keys_of(*b), *s) == Some(error_view(x))
                && x.diagnostic.script is None,
        },
    decreases remaining(t.defs@, views(old(stack)@)), 1nat, stmt_size(*s) + 1,
{
    if is_macro_call_stmt(s) {
        return ex_macro_stmt(t, stack, b, s);
    }
    match ex_stmt(t, stack, b, s) {
        Ok(r) => {
            let mut h: Vec<Stmt> = Vec::new();
            h.push(r);
            assert(expr_flags(h@) =~= seq![*s is Expr]);
            Ok(h)
        },
        Err(x) => Err(x),
    }
}

/// Expand a list of statements in order.
fn ex_stmts(t: &MacroTable, stack: &mut Vec<String>, b: &MacroBindings, ss: &Vec<Stmt>) -> (res: Result<
    Vec<Stmt>,
    IntegrationError,
>)
    ensures
        final(stack)@ == old(stack)@,
        free_exprs(b.values@) ==> (res matches Ok(rs) ==> free_stmts(rs@)),
        match res {
            Ok(rs) => {
                &&& err_stmts(*t, views(old(stack)@), keys_of(*b), ss@) is None
                &&& ok_stmts(*t, views(old(stack)@), b.names@, b.values@, ss@, rs@)
                &&& shape_stmts(*t, views(old(stack)@), ss@) == expr_flags(rs@)
            },
            Err(x) => err_stmts(*t, views(old(stack)@), keys_of(*b), ss@) == Some(error_view(x))
                && x.diagnostic.script is None,
        },
    decreases remaining(t.defs@, views(old(stack)@)), 1nat, stmts_size(ss@),
{
    let ghost st = views(stack@);
    let ghost names = b.names@;
    let ghost values = b.values@;
    proof {
        lemma_stmts_size(ss@);
        assert(ss@.subrange(0, ss@.len() as int) =~= ss@);
        assert forall|x: Seq<Stmt>| ok_stmts(*t, st, names, values, ss@, x) implies ok_stmts(
            *t,
            st,
            names,
            values,
            ss@,
            Seq::<Stmt>::empty() + x,
        ) by {
            assert(Seq::<Stmt>::empty() + x =~= x);
        }
        assert(expr_flags(Seq::<Stmt>::empty()) =~= Seq::<bool>::empty());
    }
    let mut out: Vec<Stmt> = Vec::new();
    let mut i: usize = 0;
    while i < ss.len()
        invariant
            i <= ss@.len(),
            stack@ == old(stack)@,
            st == views(old(stack)@),
            names == b.names@,
            values == b.values@,
            free_exprs(b.values@) ==> free_stmts(out@),
            err_stmts(*t, st, keys_of(*b), ss@) == err_stmts(
                *t,
                st,
                keys_of(*b),
                ss@.subrange(i as int, ss@.len() as int),
            ),
            forall|x: Seq<Stmt>|
                #[trigger] ok_stmts(
                    *t,
                    st,
                    names,
                    values,
                    ss@.subrange(i as int, ss@.len() as int),
                    x,
                ) ==> ok_stmts(*t, st, names, values, ss@, out@ + x),
            shape_stmts(*t, st, ss@) == expr_flags(out@) + shape_stmts(
                *t,
                st,
                ss@.subrange(i as int, ss@.len() as int),
            ),
            forall|j: int| 0 <= j < ss@.len() ==> stmt_size(#[trigger] ss@[j]) + 1 < stmts_size(ss@),
        decreases ss@.len() - i,
    {
        let ghost rest = ss@.subrange(i as int, ss@.len() as int);
        let ghost next = ss@.subrange(i + 1, ss@.len() as int);
        proof {
            assert(rest[0] == ss@[i as int]);
            assert(rest.subrange(1, rest.len() as int) =~= next);
        }
        let mut h = match ex_head(t, stack, b, &ss[i]) {
            Ok(h) => h,
            Err(x) => {
                return Err(x);
            },
        };
        let ghost hv = h@;
        let ghost before = out@;
        out.append(&mut h);
        proof {
            assert forall|x: Seq<Stmt>| #[trigger]
                ok_stmts(*t, st, names, values, next, x) implies ok_stmts(
                *t,
                st,
                names,
                values,
                ss@,
                out@ + x,
            ) by {
                let y = hv + x;
                assert(y.take(hv.len() as int) =~= hv);
                assert(y.skip(hv.len() as int) =~= x);
                assert(ok_head(*t, st, names, values, rest[0], y.take(hv.len() as int)));
                assert(ok_stmts(*t, st, names, values, rest.subrange(1, rest.len() as int), y.skip(hv.len() as int)));
                assert(ok_stmts(*t, st, names, values, rest, y));
                assert(before + y =~= out@ + x);
            }
            assert(expr_flags(out@) =~= expr_flags(before) + expr_flags(hv));
            if free_exprs(b.values@) {
                assert forall|j: int| 0 <= j < out@.len() implies free_stmt(#[trigger] out@[j]) by {
                    if j < before.len() {
                        assert(out@[j] == before[j]);
                    } else {
                        assert(out@[j] == hv[j - before.len()]);
                    }
                }
            }
        }
        i = i + 1;
    }
    proof {
        let empty = ss@.subrange(ss@.len() as int, ss@.len() as int);
        assert(empty =~= Seq::<Stmt>::empty());
        assert(ok_stmts(*t, st, names, values, empty, Seq::<Stmt>::empty()));
        assert(out@ + Seq::<Stmt>::empty() =~= out@);
        assert(expr_flags(out@) + Seq::<bool>::empty() =~= expr_flags(out@));
    }
    Ok(out)
}

/// Expand the branches of an `if`, each condition before its body.
fn ex_branches(t: &MacroTable, stack: &mut Vec<String>, b: &MacroBindings, bs: &Vec<IfBranch>) -> (res:
    Result<Vec<IfBranch>, IntegrationError>)
    ensures
        final(stack)@ == old(stack)@,
        free_exprs(b.values@) ==> (res matches Ok(rs) ==> forall|i: int|
            0 <= i < rs@.len() ==> free_expr(*(#[trigger] rs@[i]).condition) && free_stmts(rs@[i].body@)),
        match res {
            Ok(rs) => err_branches(*t, views(old(stack)@), keys_of(*b), bs@) is None && ok_branches(
                *t,
                views(old(stack)@),
                b.names@,
                b.values@,
                bs@,
                rs@,
            ),
            Err(x) => err_branches(*t, views(old(stack)@), keys_of(*b), bs@) == Some(error_view(x))
                && x.diagnostic.script is None,
        },
    decreases remaining(t.defs@, views(old(stack)@)), 1nat, branches_size(bs@),
{
    let ghost st = views(stack@);
    proof {
        lemma_branches_size(bs@);
    }
    let mut out: Vec<IfBranch> = Vec::new();
    let mut i: usize = 0;
    assert(bs@.subrange(0, bs@.len() as int) =~= bs@);
    while i < bs.len()
        invariant
            i <= bs@.len(),
            stack@ == old(stack)@,
            st == views(old(stack)@),
            out@.len() == i,
            free_exprs(b.values@) ==> forall|j: int|
                0 <= j < i ==> free_expr(*(#[trigger] out@[j]).condition) && free_stmts(out@[j].body@),
            forall|j: int|
                0 <= j < i ==> {
                    &&& ok_expr(
                        *t,
                        st,
                        b.names@,
                        b.values@,
                        *(#[trigger] bs@[j]).condition,
                        *out@[j].condition,
                    )
                    &&& ok_stmts(*t, st, b.names@, b.values@, bs@[j].body@, out@[j].body@)
                },
            err_branches(*t, st, keys_of(*b), bs@) == err_branches(
                *t,
                st,
                keys_of(*b),
                bs@.subrange(i as int, bs@.len() as int),
            ),
            forall|j: int|
                0 <= j < bs@.len() ==> expr_size(*(#[trigger] bs@[j]).condition) < branches_size(bs@)
                    && stmts_size(bs@[j].body@) < branches_size(bs@),
        decreases bs@.len() - i,
    {
        proof {
            let rest = bs@.subrange(i as int, bs@.len() as int);
            assert(rest[0] == bs@[i as int]);
            assert(rest.subrange(1, rest.len() as int) =~= bs@.subrange(i + 1, bs@.len() as int));
        }
        let branch = &bs[i];
        let c = match ex_expr(t, stack, b, &branch.condition) {
            Ok(v) => v,
            Err(x) => {
                return Err(x);
            },
        };
        let body = match ex_stmts(t, stack, b, &branch.body) {
            Ok(v) => v,
            Err(x) => {
                return Err(x);
            },
        };
        out.push(IfBranch { condition: Box::new(c), body });
        i = i + 1;
    }
    assert(bs@.subrange(bs@.len() as int, bs@.len() as int) =~= Seq::<IfBranch>::empty());
    Ok(out)
}

/// Expand the arms of a `switch` in order.
fn ex_arms(t: &MacroTable, stack: &mut Vec<String>, b: &MacroBindings, arms: &Vec<SwitchArm>) -> (res:
    Result<Vec<SwitchArm>, IntegrationError>)
    ensures
        final(stack)@ == old(stack)@,
        free_exprs(b.values@) ==> (res matches Ok(rs) ==> forall|i: int|
            0 <= i < rs@.len() ==> match #[trigger] rs@[i] {
                SwitchArm::Case { value, body, .. } => free_expr(*value) && free_stmts(body@),
                SwitchArm::Default { body, .. } => free_stmts(body@),
            }),
        match res {
            Ok(rs) => err_arms(*t, views(old(stack)@), keys_of(*b), arms@) is None && ok_arms(
                *t,
                views(old(stack)@),
                b.names@,
                b.values@,
                arms@,
                rs@,
            ),
            Err(x) => err_arms(*t, views(old(stack)@), keys_of(*b), arms@) == Some(error_view(x))
                && x.diagnostic.script is None,
        },
    decreases remaining(t.defs@, views(old(stack)@)), 1nat, arms_size(arms@),
{
    let ghost st = views(stack@);
    proof {
        lemma_arms_size(arms@);
    }
    let mut out: Vec<SwitchArm> = Vec::new();
    let mut i: usize = 0;
    assert(arms@.subrange(0, arms@.len() as int) =~= arms@);
    while i < arms.len()
        invariant
            i <= arms@.len(),
            stack@ == old(stack)@,
            st == views(old(stack)@),
            out@.len() == i,
            free_exprs(b.values@) ==> forall|j: int|
                0 <= j < i ==> match #[trigger] out@[j] {
                    SwitchArm::Case { value, body, .. } => free_expr(*value) && free_stmts(body@),
                    SwitchArm::Default { body, .. } => free_stmts(body@),
                },
            forall|j: int|
                0 <= j < i ==> match (#[trigger] arm_parts(arms@[j]), out@[j]) {
                    ((Some(v), bd), SwitchArm::Case { value: v2, body: b2, span: s2 }) => {
                        &&& arms@[j] is Case && s2 == arms@[j]->Case_span
                        &&& ok_expr(*t, st, b.names@, b.values@, v, *v2)
                        &&& ok_stmts(*t, st, b.names@, b.values@, bd, b2@)
                    },
                    ((None, bd), SwitchArm::Default { body: b2, span: s2 }) => {
                        &&& s2 == arms@[j]->Default_span
                        &&& ok_stmts(*t, st, b.names@, b.values@, bd, b2@)
                    },
                    _ => false,
                },
            err_arms(*t, st, keys_of(*b), arms@) == err_arms(
                *t,
                st,
                keys_of(*b),
                arms@.subrange(i as int, arms@.len() as int),
            ),
            forall|j: int|
                0 <= j < arms@.len() ==> stmts_size((#[trigger] arm_parts(arms@[j])).1) < arms_size(
                    arms@,
                ) && match arm_parts(arms@[j]).0 {
                    Some(v) => expr_size(v) < arms_size(arms@),
                    None => true,
                },
        decreases arms@.len() - i,
    {
        proof {
            let rest = arms@.subrange(i as int, arms@.len() as int);
            assert(rest[0] == arms@[i as int]);
            assert(rest.subrange(1, rest.len() as int) =~= arms@.subrange(i + 1, arms@.len() as int));
            let _ = arm_parts(arms@[i as int]);
        }
        let arm = match &arms[i] {
            SwitchArm::Case { value, body, span } => {
                let v = match ex_expr(t, stack, b, value) {
                    Ok(v) => v,
                    Err(x) => {
                        return Err(x);
                    },
                };
                let bd = match ex_stmts(t, stack, b, body) {
                    Ok(v) => v,
                    Err(x) => {
                        return Err(x);
                    },
                };
                SwitchArm::Case { value: Box::new(v), body: bd, span: *span }
            },
            SwitchArm::Default { body, span } => {
                let bd = match ex_stmts(t, stack, b, body) {
                    Ok(v) => v,
                    Err(x) => {
                        return Err(x);
                    },
                };
                SwitchArm::Default { body: bd, span: *span }
            },
        };
        out.push(arm);
        i = i + 1;
    }
    assert(arms@.subrange(arms@.len() as int, arms@.len() as int) =~= Seq::<SwitchArm>::empty());
    Ok(out)
}

/// Expand one statement that is not a macro call in statement position.
fn ex_stmt(t: &MacroTable, stack: &mut Vec<String>, b: &MacroBindings, s: &Stmt) -> (res: Result<
    Stmt,
    IntegrationError,
>)
    ensures
        final(stack)@ == old(stack)@,
        free_exprs(b.values@) ==> (res matches Ok(r) ==> free_stmt(r)),
        match res {
            Ok(r) => {
                &&& err_stmt(*t, views(old(stack)@), keys_of(*b), *s) is None
                &&& ok_stmt(*t, views(old(stack)@), b.names@, b.values@, *s, r)
                &&& (r is Expr) == (*s is Expr)
            },
            Err(x) => err_stmt(*t, views(old(stack)@), keys_of(*b), *s) == Some(error_view(x))
                && x.diagnostic.script is None,
        },
    decreases remaining(t.defs@, views(old(stack)@)), 1nat, stmt_size(*s),
{
    match s {
        Stmt::Expr { expr, span } => {
            let x = match ex_expr(t, stack, b, expr) {
                Ok(v) => v,
                Err(x) => {
                    return Err(x);
                },
            };
            Ok(Stmt::Expr { expr: Box::new(x), span: *span })
        },
        Stmt::Assign { target, value, span } => {
            let t2 = match ex_expr(t, stack, b, target) {
                Ok(v) => v,
                Err(x) => {
                    return Err(x);
                },
            };
            let v2 = match ex_expr(t, stack, b, value) {
                Ok(v) => v,
                Err(x) => {
                    return Err(x);
                },
            };
            Ok(Stmt::Assign { target: Box::new(t2), value: Box::new(v2), span: *span })
        },
        Stmt::If { branches, else_body, span } => {
            let nb = match ex_branches(t, stack, b, branches) {
                Ok(v) => v,
                Err(x) => {
                    return Err(x);
                },
            };
            let ne = match else_body {
                Some(body) => match ex_stmts(t, stack, b, body) {
                    Ok(v) => Some(v),
                    Err(x) => {
                        return Err(x);
                    },
                },
                None => None,
            };
            Ok(Stmt::If { branches: nb, else_body: ne, span: *span })
        },
        Stmt::For { variable, iterable, body, span } => {
            let v2 = match ex_expr(t, stack, b, variable) {
                Ok(v) => v,
                Err(x) => {
                    return Err(x);
                },
            };
            let i2 = match ex_expr(t, stack, b, iterable) {
                Ok(v) => v,
                Err(x) => {
                    return Err(x);
                },
            };
            let b2 = match ex_stmts(t, stack, b, body) {
                Ok(v) => v,
                Err(x) => {
                    return Err(x);
                },
            };
            Ok(Stmt::For { variable: Box::new(v2), iterable: Box::new(i2), body: b2, span: *span })
        },
        Stmt::While { condition, body, span } => {
            let c2 = match ex_expr(t, stack, b, condition) {
                Ok(v) => v,
                Err(x) => {
                    return Err(x);
                },
            };
            let b2 = match ex_stmts(t, stack, b, body) {
                Ok(v) => v,
                Err(x) => {
                    return Err(x);
                },
            };
            Ok(Stmt::While { condition: Box::new(c2), body: b2, span: *span })
        },
        Stmt::DoWhile { condition, body, span } => {
            let c2 = match ex_expr(t, stack, b, condition) {
                Ok(v) => v,
                Err(x) => {
                    return Err(x);
                },
            };
            let b2 = match ex_stmts(t, stack, b, body) {
                Ok(v) => v,
                Err(x) => {
                    return Err(x);
                },
            };
            Ok(Stmt::DoWhile { condition: Box::new(c2), body: b2, span: *span })
        },
        Stmt::Switch { value, arms, span } => {
            let v2 = match ex_expr(t, stack, b, value) {
                Ok(v) => v,
                Err(x) => {
                    return Err(x);
                },
            };
            let a2 = match ex_arms(t, stack, b, arms) {
                Ok(v) => v,
                Err(x) => {
                    return Err(x);
                },
            };
            Ok(Stmt::Switch { value: Box::new(v2), arms: a2, span: *span })
        },
        Stmt::Delete { target, span } => {
            let t2 = match ex_expr(t, stack, b, target) {
                Ok(v) => v,
                Err(x) => {
                    return Err(x);
                },
            };
            Ok(Stmt::Delete { target: Box::new(t2), span: *span })
        },
        Stmt::Goto { label, offset, rule_start, span } => {
            let o2 = match offset {
                Some(o) => match ex_expr(t, stack, b, o) {
                    Ok(v) => Some(Box::new(v)),
                    Err(x) => {
                        return Err(x);
                    },
                },
                None => None,
            };
            Ok(
                Stmt::Goto {
                    label: copy_opt_string(label),
                    offset: o2,
                    rule_start: *rule_start,
                    span: *span,
                },
            )
        },
        Stmt::Break { span } => Ok(Stmt::Break { span: *span }),
        Stmt::Return { span } => Ok(Stmt::Return { span: *span }),
        Stmt::Continue { span } => Ok(Stmt::Continue { span: *span }),
        Stmt::Pass { span } => Ok(Stmt::Pass { span: *span }),
        Stmt::Label { name, span } => Ok(Stmt::Label { name: name.clone(), span: *span }),
        Stmt::CallSubroutine { name, span } => Ok(
            Stmt::CallSubroutine { name: name.clone(), span: *span },
        ),
    }
}

impl MacroBindings {
    /// No parameter bound.
    pub fn new() -> (b: Self)
        ensures
            b.names@.len() == 0,
            b.values@.len() == 0,
    {
        MacroBindings { names: Vec::new(), values: Vec::new() }
    }
}

impl MacroExpander {
    /// An expander over the given declarations, expanding no macro yet.
    pub fn new(defs: Vec<MacroDef>, attribute_to_site: bool) -> (x: Self)
        ensures
            x.table.defs@ == defs@,
            x.table.attribute_to_site == attribute_to_site,
            x.stack@.len() == 0,
    {
        MacroExpander { table: MacroTable { defs, attribute_to_site }, stack: Vec::new() }
    }

    /// Expand the macros in an expression, where the parameters of
    /// `bindings` stand for its values.
    pub fn expand_expr(&mut self, expression: &Expr, bindings: &MacroBindings) -> (res: Result<
        Expr,
        IntegrationError,
    >)
        ensures
            final(self).table == old(self).table,
            final(self).stack@ == old(self).stack@,
            free_exprs(bindings.values@) ==> (res matches Ok(r) ==> free_expr(r)),
            match res {
                Ok(r) => err_expr(old(self).table, views(old(self).stack@), keys_of(*bindings), *expression)
                    is None && ok_expr(
                    old(self).table,
                    views(old(self).stack@),
                    bindings.names@,
                    bindings.values@,
                    *expression,
                    r,
                ),
                Err(x) => err_expr(
                    old(self).table,
                    views(old(self).stack@),
                    keys_of(*bindings),
                    *expression,
                ) == Some(error_view(x)) && x.diagnostic.script is None,
            },
    {
        ex_expr(&self.table, &mut self.stack, bindings, expression)
    }

    /// Expand the macros in one statement; a macro call in statement
    /// position inside it yields the statements of the macro's body.
    pub fn expand_stmt(&mut self, statement: &Stmt, bindings: &MacroBindings) -> (res: Result<
        Stmt,
        IntegrationError,
    >)
        ensures
            final(self).table == old(self).table,
            final(self).stack@ == old(self).stack@,
            free_exprs(bindings.values@) ==> (res matches Ok(r) ==> free_stmt(r)),
            match res {
                Ok(r) => {
                    &&& err_stmt(old(self).table, views(old(self).stack@), keys_of(*bindings), *statement) is None
                    &&& ok_stmt(
                        old(self).table,
                        views(old(self).stack@),
                        bindings.names@,
                        bindings.values@,
                        *statement,
                        r,
                    )
                },
                Err(x) => err_stmt(old(self).table, views(old(self).stack@), keys_of(*bindings), *statement)
                    == Some(error_view(x)) && x.diagnostic.script is None,
            },
    {
        ex_stmt(&self.table, &mut self.stack, bindings, statement)
    }

    /// Expand the macros in a list of statements: a macro call in statement
    /// position yields the statements of the macro's body.
    pub fn expand_stmts(&mut self, statements: &Vec<Stmt>, bindings: &MacroBindings) -> (res: Result<
        Vec<Stmt>,
        IntegrationError,
    >)
        ensures
            final(self).table == old(self).table,
            final(self).stack@ == old(self).stack@,
            free_exprs(bindings.values@) ==> (res matches Ok(rs) ==> free_stmts(rs@)),
            match res {
                Ok(rs) => {
                    &&& err_stmts(
                        old(self).table,
                        views(old(self).stack@),
                        keys_of(*bindings),
                        statements@,
                    ) is None
                    &&& ok_stmts(
                        old(self).table,
                        views(old(self).stack@),
                        bindings.names@,
                        bindings.values@,
                        statements@,
                        rs@,
                    )
                },
                Err(x) => err_stmts(
                    old(self).table,
                    views(old(self).stack@),
                    keys_of(*bindings),
                    statements@,
                ) == Some(error_view(x)) && x.diagnostic.script is None,
            },
    {
        ex_stmts(&self.table, &mut self.stack, bindings, statements)
    }

    /// The expansion of a call of macro `name` with the already expanded
    /// arguments `args`, made at `span`.
    pub fn expand_macro_body(&mut self, name: &str, args: Vec<Expr>, span: Option<Span>) -> (res:
        Result<Vec<Stmt>, IntegrationError>)
        ensures
            final(self).table == old(self).table,
            final(self).stack@ == old(self).stack@,
            free_exprs(args@) ==> (res matches Ok(hs) ==> free_stmts(hs@)),
            match res {
                Ok(hs) => err_call(old(self).table, views(old(self).stack@), name@, args@.len(), span)
                    is None && ok_call(old(self).table, views(old(self).stack@), name@, args@, span, hs@),
                Err(x) => err_call(old(self).table, views(old(self).stack@), name@, args@.len(), span)
                    == Some(error_view(x)) && x.diagnostic.script is None,
            },
    {
        ex_call(&self.table, &mut self.stack, name, args, span)
    }
}

/// Whether `a` and `b` are the same statement, node for node.
pub open spec fn same_stmt(a: Stmt, b: Stmt) -> bool
    decreases a,
{
    match (a, b) {
        (Stmt::Expr { expr: x, span: s1 }, Stmt::Expr { expr: y, span: s2 }) => s1 == s2
            && same_expr(*x, *y),
        (Stmt::Delete { target: x, span: s1 }, Stmt::Delete { target: y, span: s2 }) => s1 == s2
            && same_expr(*x, *y),
        (
            Stmt::Assign { target: t1, value: v1, span: s1 },
            Stmt::Assign { target: t2, value: v2, span: s2 },
        ) => s1 == s2 && same_expr(*t1, *t2) && same_expr(*v1, *v2),
        (
            Stmt::If { branches: b1, else_body: e1, span: s1 },
            Stmt::If { branches: b2, else_body: e2, span: s2 },
        ) => {
            &&& s1 == s2
            &&& b1@.len() == b2@.len()
            &&& forall|i: int|
                0 <= i < b1@.len() ==> {
                    &&& same_expr(*(#[trigger] b1@[i]).condition, *b2@[i].condition)
                    &&& b1@[i].body@.len() == b2@[i].body@.len()
                    &&& forall|j: int|
                        0 <= j < b1@[i].body@.len() ==> same_stmt(
                            #[trigger] b1@[i].body@[j],
                            b2@[i].body@[j],
                        )
                }
            &&& match (e1, e2) {
                (Some(x), Some(y)) => x@.len() == y@.len() && forall|j: int|
                    0 <= j < x@.len() ==> same_stmt(#[trigger] x@[j], y@[j]),
                (None, None) => true,
                _ => false,
            }
        },
        (
            Stmt::For { variable: v1, iterable: i1, body: b1, span: s1 },
            Stmt::For { variable: v2, iterable: i2, body: b2, span: s2 },
        ) => {
            &&& s1 == s2 && same_expr(*v1, *v2) && same_expr(*i1, *i2)
            &&& b1@.len() == b2@.len()
            &&& forall|j: int| 0 <= j < b1@.len() ==> same_stmt(#[trigger] b1@[j], b2@[j])
        },
        (
            Stmt::While { condition: c1, body: b1, span: s1 },
            Stmt::While { condition: c2, body: b2, span: s2 },
        ) => {
            &&& s1 == s2 && same_expr(*c1, *c2)
            &&& b1@.len() == b2@.len()
            &&& forall|j: int| 0 <= j < b1@.len() ==> same_stmt(#[trigger] b1@[j], b2@[j])
        },
        (
            Stmt::DoWhile { condition: c1, body: b1, span: s1 },
            Stmt::DoWhile { condition: c2, body: b2, span: s2 },
        ) => {
            &&& s1 == s2 && same_expr(*c1, *c2)
            &&& b1@.len() == b2@.len()
            &&& forall|j: int| 0 <= j < b1@.len() ==> same_stmt(#[trigger] b1@[j], b2@[j])
        },
        (
            Stmt::Switch { value: v1, arms: a1, span: s1 },
            Stmt::Switch { value: v2, arms: a2, span: s2 },
        ) => {
            &&& s1 == s2 && same_expr(*v1, *v2)
            &&& a1@.len() == a2@.len()
            &&& forall|i: int|
                0 <= i < a1@.len() ==> match (#[trigger] a1@[i], a2@[i]) {
                    (
                        SwitchArm::Case { value: x, body: bx, span: sx },
                        SwitchArm::Case { value: y, body: by, span: sy },
                    ) => {
                        &&& sx == sy && same_expr(*x, *y)
                        &&& bx@.len() == by@.len()
                        &&& forall|j: int| 0 <= j < bx@.len() ==> same_stmt(#[trigger] bx@[j], by@[j])
                    },
                    (
                        SwitchArm::Default { body: bx, span: sx },
                        SwitchArm::Default { body: by, span: sy },
                    ) => {
                        &&& sx == sy
                        &&& bx@.len() == by@.len()
                        &&& forall|j: int| 0 <= j < bx@.len() ==> same_stmt(#[trigger] bx@[j], by@[j])
                    },
                    _ => false,
                }
        },
        (
            Stmt::Goto { label: l1, offset: o1, rule_start: r1, span: s1 },
            Stmt::Goto { label: l2, offset: o2, rule_start: r2, span: s2 },
        ) => {
            &&& l1 == l2 && r1 == r2 && s1 == s2
            &&& match (o1, o2) {
                (Some(x), Some(y)) => same_expr(*x, *y),
                (None, None) => true,
                _ => false,
            }
        },
        _ => a == b,
    }
}

/// Whether two statement lists are the same, statement for statement.
pub open spec fn same_stmts(a: Seq<Stmt>, b: Seq<Stmt>) -> bool {
    a.len() == b.len() && forall|j: int| 0 <= j < a.len() ==> same_stmt(#[trigger] a[j], b[j])
}

fn copy_stmt_list(v: &Vec<Stmt>, Ghost(outer): Ghost<Stmt>) -> (r: Vec<Stmt>)
    requires
        forall|j: int| 0 <= j < v@.len() ==> decreases_to!(outer => v@[j]),
    ensures
        same_stmts(r@, v@),
    decreases outer, 0nat,
{
    let mut r: Vec<Stmt> = Vec::new();
    let mut i: usize = 0;
    while i < v.len()
        invariant
            i <= v@.len(),
            r@.len() == i,
            forall|j: int| 0 <= j < v@.len() ==> decreases_to!(outer => v@[j]),
            forall|j: int| 0 <= j < i ==> same_stmt(#[trigger] r@[j], v@[j]),
        decreases v@.len() - i,
    {
        let c = copy_stmt(&v[i]);
        r.push(c);
        i = i + 1;
    }
    r
}

/// A copy of a statement.
pub fn copy_stmt(s: &Stmt) -> (r: Stmt)
    ensures
        same_stmt(r, *s),
    decreases *s, 1nat,
{
    match s {
        Stmt::Expr { expr, span } => Stmt::Expr { expr: Box::new(copy_expr(expr)), span: *span },
        Stmt::Delete { target, span } => Stmt::Delete {
            target: Box::new(copy_expr(target)),
            span: *span,
        },
        Stmt::Assign { target, value, span } => Stmt::Assign {
            target: Box::new(copy_expr(target)),
            value: Box::new(copy_expr(value)),
            span: *span,
        },
        Stmt::If { branches, else_body, span } => {
            let ghost ob = branches@;
            proof {
                assert forall|j: int| #![trigger ob[j]] 0 <= j < ob.len() implies forall|k: int|
                    0 <= k < ob[j].body@.len() ==> decreases_to!(*s => ob[j].body@[k]) by {
                    assert(decreases_to!(*s => ob[j]));
                    assert forall|k: int| 0 <= k < ob[j].body@.len() implies decreases_to!(
                        *s => ob[j].body@[k]
                    ) by {
                        assert(decreases_to!(ob[j] => ob[j].body@[k]));
                    }
                }
            }
            let mut nb: Vec<IfBranch> = Vec::new();
            let mut i: usize = 0;
            while i < branches.len()
                invariant
                    ob == branches@,
                    i <= branches@.len(),
                    nb@.len() == i,
                    forall|k: int|
                        0 <= k < i ==> {
                            &&& same_expr(*(#[trigger] nb@[k]).condition, *branches@[k].condition)
                            &&& same_stmts(nb@[k].body@, branches@[k].body@)
                        },
                    forall|j: int| #![trigger ob[j]]
                        0 <= j < ob.len() ==> forall|k: int| #![trigger ob[j].body@[k]]
                            0 <= k < ob[j].body@.len() ==> decreases_to!(*s => ob[j].body@[k]),
                decreases branches@.len() - i,
            {
                assert(ob[i as int] == branches@[i as int]);
                let c = copy_expr(&branches[i].condition);
                let b = copy_stmt_list(&branches[i].body, Ghost(*s));
                nb.push(IfBranch { condition: Box::new(c), body: b });
                i = i + 1;
            }
            let ne = match else_body {
                Some(b) => Some(copy_stmt_list(b, Ghost(*s))),
                None => None,
            };
            Stmt::If { branches: nb, else_body: ne, span: *span }
        },
        Stmt::For { variable, iterable, body, span } => Stmt::For {
            variable: Box::new(copy_expr(variable)),
            iterable: Box::new(copy_expr(iterable)),
            body: copy_stmt_list(body, Ghost(*s)),
            span: *span,
        },
        Stmt::While { condition, body, span } => Stmt::While {
            condition: Box::new(copy_expr(condition)),
            body: copy_stmt_list(body, Ghost(*s)),
            span: *span,
        },
        Stmt::DoWhile { condition, body, span } => Stmt::DoWhile {
            condition: Box::new(copy_expr(condition)),
            body: copy_stmt_list(body, Ghost(*s)),
            span: *span,
        },
        Stmt::Switch { value, arms, span } => {
            let ghost oa = arms@;
            proof {
                assert forall|j: int| 0 <= j < oa.len() implies forall|k: int|
                    0 <= k < (#[trigger] arm_parts(oa[j])).1.len() ==> decreases_to!(
                        *s => arm_parts(oa[j]).1[k]
                    ) by {
                    assert(decreases_to!(*s => oa[j]));
                    match oa[j] {
                        SwitchArm::Case { body, .. } => {
                            assert forall|k: int| 0 <= k < body@.len() implies decreases_to!(
                                *s => body@[k]
                            ) by {
                                assert(decreases_to!(oa[j] => body@[k]));
                            }
                        },
                        SwitchArm::Default { body, .. } => {
                            assert forall|k: int| 0 <= k < body@.len() implies decreases_to!(
                                *s => body@[k]
                            ) by {
                                assert(decreases_to!(oa[j] => body@[k]));
                            }
                        },
                    }
                }
            }
            let mut na: Vec<SwitchArm> = Vec::new();
            let mut i: usize = 0;
            while i < arms.len()
                invariant
                    oa == arms@,
                    i <= arms@.len(),
                    na@.len() == i,
                    forall|k: int|
                        0 <= k < i ==> match (#[trigger] na@[k], arms@[k]) {
                            (
                                SwitchArm::Case { value: x, body: bx, span: sx },
                                SwitchArm::Case { value: y, body: by, span: sy },
                            ) => sx == sy && same_expr(*x, *y) && same_stmts(bx@, by@),
                            (
                                SwitchArm::Default { body: bx, span: sx },
                                SwitchArm::Default { body: by, span: sy },
                            ) => sx == sy && same_stmts(bx@, by@),
                            _ => false,
                        },
                    forall|j: int|
                        0 <= j < oa.len() ==> forall|k: int|
                            0 <= k < (#[trigger] arm_parts(oa[j])).1.len() ==> decreases_to!(
                                *s => arm_parts(oa[j]).1[k]
                            ),
                decreases arms@.len() - i,
            {
                let ghost ai = arms@[i as int];
                let ghost parts = arm_parts(ai);
                let arm = match &arms[i] {
                    SwitchArm::Case { value, body, span } => {
                        assert(parts.1 == body@);
                        SwitchArm::Case {
                            value: Box::new(copy_expr(value)),
                            body: copy_stmt_list(body, Ghost(*s)),
                            span: *span,
                        }
                    },
                    SwitchArm::Default { body, span } => {
                        assert(parts.1 == body@);
                        SwitchArm::Default { body: copy_stmt_list(body, Ghost(*s)), span: *span }
                    },
                };
                na.push(arm);
                i = i + 1;
            }
            Stmt::Switch { value: Box::new(copy_expr(value)), arms: na, span: *span }
        },
        Stmt::Goto { label, offset, rule_start, span } => {
            let o = match offset {
                Some(o) => Some(Box::new(copy_expr(o))),
                None => None,
            };
            Stmt::Goto { label: copy_opt_string(label), offset: o, rule_start: *rule_start, span: *span }
        },
        Stmt::Break { span } => Stmt::Break { span: *span },
        Stmt::Return { span } => Stmt::Return { span: *span },
        Stmt::Continue { span } => Stmt::Continue { span: *span },
        Stmt::Pass { span } => Stmt::Pass { span: *span },
        Stmt::Label { name, span } => Stmt::Label { name: name.clone(), span: *span },
        Stmt::CallSubroutine { name, span } => Stmt::CallSubroutine { name: name.clone(), span: *span },
    }
}

/// A copy of a list of statements.
pub fn copy_stmts(v: &Vec<Stmt>) -> (r: Vec<Stmt>)
    ensures
        same_stmts(r@, v@),
{
    let mut r: Vec<Stmt> = Vec::new();
    let mut i: usize = 0;
    while i < v.len()
        invariant
            i <= v@.len(),
            r@.len() == i,
            forall|j: int| 0 <= j < i ==> same_stmt(#[trigger] r@[j], v@[j]),
        decreases v@.len() - i,
    {
        let c = copy_stmt(&v[i]);
        r.push(c);
        i = i + 1;
    }
    r
}

} // verus!
