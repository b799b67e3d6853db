//! Code without macros: no macro call and no macro parameter, at any depth.
use vstd::prelude::*;
use crate::hir::{Expr, Span, Stmt, SwitchArm};
use crate::macros::{same_expr, same_stmt};
use crate::relocate::{relocated_body, relocated_expr, relocated_stmt};

verus! {

/// Whether an expression holds no macro call and no macro parameter.
pub open spec fn free_expr(e: Expr) -> bool
    decreases e,
{
    match e {
        Expr::MacroCall { .. } => false,
        Expr::MacroParam { .. } => false,
        Expr::Array { elements: x, .. } => forall|i: int| 0 <= i < x@.len() ==> free_expr(#[trigger] x@[i]),
        Expr::Call { args: x, .. } => forall|i: int| 0 <= i < x@.len() ==> free_expr(#[trigger] x@[i]),
        Expr::Type { args: x, .. } => forall|i: int| 0 <= i < x@.len() ==> free_expr(#[trigger] x@[i]),
        Expr::Format { args: x, .. } => forall|i: int| 0 <= i < x@.len() ==> free_expr(#[trigger] x@[i]),
        Expr::Dict { entries: x, .. } => forall|i: int|
            0 <= i < x@.len() ==> free_expr(*(#[trigger] x@[i]).key) && free_expr(*x@[i].value),
        Expr::Comprehension { element, iterable, condition, .. } => free_expr(*element) && free_expr(
            *iterable,
        ) && match condition {
            Some(c) => free_expr(*c),
            None => true,
        },
        Expr::Lambda { body, .. } => free_expr(*body),
        Expr::Vector { x, y, z, .. } => free_expr(*x) && free_expr(*y) && free_expr(*z),
        Expr::PlayerVar { player, .. } => free_expr(*player),
        Expr::Member { receiver, .. } => free_expr(*receiver),
        Expr::ReceiverCall { receiver, args: x, .. } => free_expr(*receiver) && forall|i: int|
            0 <= i < x@.len() ==> free_expr(#[trigger] x@[i]),
        Expr::Binary { left, right, .. } => free_expr(*left) && free_expr(*right),
        Expr::Conditional { then_value, condition, else_value, .. } => free_expr(*then_value)
            && free_expr(*condition) && free_expr(*else_value),
        Expr::Unary { operand, .. } => free_expr(*operand),
        Expr::Index { array, index, .. } => free_expr(*array) && free_expr(*index),
        _ => true,
    }
}

/// Whether a statement holds no macro call and no macro parameter.
pub open spec fn free_stmt(s: Stmt) -> bool
    decreases s,
{
    match s {
        Stmt::Expr { expr, .. } => free_expr(*expr),
        Stmt::Delete { target, .. } => free_expr(*target),
        Stmt::Assign { target, value, .. } => free_expr(*target) && free_expr(*value),
        Stmt::If { branches, else_body, .. } => {
            &&& forall|i: int|
                0 <= i < branches@.len() ==> {
                    &&& free_expr(*(#[trigger] branches@[i]).condition)
                    &&& forall|j: int|
                        0 <= j < branches@[i].body@.len() ==> free_stmt(#[trigger] branches@[i].body@[j])
                }
            &&& match else_body {
                Some(b) => forall|j: int| 0 <= j < b@.len() ==> free_stmt(#[trigger] b@[j]),
                None => true,
            }
        },
        Stmt::For { variable, iterable, body, .. } => free_expr(*variable) && free_expr(*iterable)
            && forall|j: int| 0 <= j < body@.len() ==> free_stmt(#[trigger] body@[j]),
        Stmt::While { condition, body, .. } => free_expr(*condition) && forall|j: int|
            0 <= j < body@.len() ==> free_stmt(#[trigger] body@[j]),
        Stmt::DoWhile { condition, body, .. } => free_expr(*condition) && forall|j: int|
            0 <= j < body@.len() ==> free_stmt(#[trigger] body@[j]),
        Stmt::Switch { value, arms, .. } => free_expr(*value) && forall|i: int|
            0 <= i < arms@.len() ==> match #[trigger] arms@[i] {
                SwitchArm::Case { value: v, body, .. } => free_expr(*v) && forall|j: int|
                    0 <= j < body@.len() ==> free_stmt(#[trigger] body@[j]),
                SwitchArm::Default { body, .. } => forall|j: int|
                    0 <= j < body@.len() ==> free_stmt(#[trigger] body@[j]),
            },
        Stmt::Goto { offset, .. } => match offset {
            Some(o) => free_expr(*o),
            None => true,
        },
        _ => true,
    }
}

/// Whether every expression of a list is free of macros.
pub open spec fn free_exprs(es: Seq<Expr>) -> bool {
    forall|i: int| 0 <= i < es.len() ==> free_expr(#[trigger] es[i])
}

/// Whether every statement of a list is free of macros.
pub open spec fn free_stmts(ss: Seq<Stmt>) -> bool {
    forall|i: int| 0 <= i < ss.len() ==> free_stmt(#[trigger] ss[i])
}

/// A copy of a macro-free expression is free of macros.
pub proof fn lemma_same_expr_free(a: Expr, b: Expr)
    requires
        same_expr(a, b),
        free_expr(b),
    ensures
        free_expr(a),
    decreases a,
{
    match (a, b) {
        (Expr::Array { elements: x, .. }, Expr::Array { elements: y, .. }) => {
            assert forall|i: int| 0 <= i < x@.len() implies free_expr(#[trigger] x@[i]) by {
                lemma_same_expr_free(x@[i], y@[i]);
            }
        },
        (Expr::Call { args: x, .. }, Expr::Call { args: y, .. }) => {
            assert forall|i: int| 0 <= i < x@.len() implies free_expr(#[trigger] x@[i]) by {
                lemma_same_expr_free(x@[i], y@[i]);
            }
        },
        (Expr::Type { args: x, .. }, Expr::Type { args: y, .. }) => {
            assert forall|i: int| 0 <= i < x@.len() implies free_expr(#[trigger] x@[i]) by {
                lemma_same_expr_free(x@[i], y@[i]);
            }
        },
        (Expr::Format { args: x, .. }, Expr::Format { args: y, .. }) => {
            assert forall|i: int| 0 <= i < x@.len() implies free_expr(#[trigger] x@[i]) by {
                lemma_same_expr_free(x@[i], y@[i]);
            }
        },
        (Expr::Dict { entries: x, .. }, Expr::Dict { entries: y, .. }) => {
            assert forall|i: int| 0 <= i < x@.len() implies free_expr(*(#[trigger] x@[i]).key)
                && free_expr(*x@[i].value) by {
                lemma_same_expr_free(*x@[i].key, *y@[i].key);
                lemma_same_expr_free(*x@[i].value, *y@[i].value);
            }
        },
        (
            Expr::Comprehension { element: e1, iterable: i1, condition: c1, .. },
            Expr::Comprehension { element: e2, iterable: i2, condition: c2, .. },
        ) => {
            lemma_same_expr_free(*e1, *e2);
            lemma_same_expr_free(*i1, *i2);
            if let (Some(x), Some(y)) = (c1, c2) {
                lemma_same_expr_free(*x, *y);
            }
        },
        (Expr::Lambda { body: x, .. }, Expr::Lambda { body: y, .. }) => {
            lemma_same_expr_free(*x, *y);
        },
        (Expr::Vector { x: x1, y: y1, z: z1, .. }, Expr::Vector { x: x2, y: y2, z: z2, .. }) => {
            lemma_same_expr_free(*x1, *x2);
            lemma_same_expr_free(*y1, *y2);
            lemma_same_expr_free(*z1, *z2);
        },
        (Expr::PlayerVar { player: x, .. }, Expr::PlayerVar { player: y, .. }) => {
            lemma_same_expr_free(*x, *y);
        },
        (Expr::Member { receiver: x, .. }, Expr::Member { receiver: y, .. }) => {
            lemma_same_expr_free(*x, *y);
        },
        (
            Expr::ReceiverCall { receiver: r1, args: x, .. },
            Expr::ReceiverCall { receiver: r2, args: y, .. },
        ) => {
            lemma_same_expr_free(*r1, *r2);
            assert forall|i: int| 0 <= i < x@.len() implies free_expr(#[trigger] x@[i]) by {
                lemma_same_expr_free(x@[i], y@[i]);
            }
        },
        (Expr::Binary { left: l1, right: r1, .. }, Expr::Binary { left: l2, right: r2, .. }) => {
            lemma_same_expr_free(*l1, *l2);
            lemma_same_expr_free(*r1, *r2);
        },
        (
            Expr::Conditional { then_value: t1, condition: c1, else_value: e1, .. },
            Expr::Conditional { then_value: t2, condition: c2, else_value: e2, .. },
        ) => {
            lemma_same_expr_free(*t1, *t2);
            lemma_same_expr_free(*c1, *c2);
            lemma_same_expr_free(*e1, *e2);
        },
        (Expr::Unary { operand: x, .. }, Expr::Unary { operand: y, .. }) => {
            lemma_same_expr_free(*x, *y);
        },
        (Expr::Index { array: a1, index: i1, .. }, Expr::Index { array: a2, index: i2, .. }) => {
            lemma_same_expr_free(*a1, *a2);
            lemma_same_expr_free(*i1, *i2);
        },
        _ => {},
    }
}

/// Moving the spans of a macro-free expression keeps it free of macros.
pub proof fn lemma_relocated_expr_free(n: Expr, o: Expr, site: Span)
    requires
        relocated_expr(n, o, site),
        free_expr(o),
    ensures
        free_expr(n),
    decreases o,
{
    match (n, o) {
        (Expr::Array { elements: x, .. }, Expr::Array { elements: y, .. }) => {
            assert forall|i: int| 0 <= i < x@.len() implies free_expr(#[trigger] x@[i]) by {
                lemma_relocated_expr_free(x@[i], y@[i], site);
            }
        },
        (Expr::Call { args: x, .. }, Expr::Call { args: y, .. }) => {
            assert forall|i: int| 0 <= i < x@.len() implies free_expr(#[trigger] x@[i]) by {
                lemma_relocated_expr_free(x@[i], y@[i], site);
            }
        },
        (Expr::Type { args: x, .. }, Expr::Type { args: y, .. }) => {
            assert forall|i: int| 0 <= i < x@.len() implies free_expr(#[trigger] x@[i]) by {
                lemma_relocated_expr_free(x@[i], y@[i], site);
            }
        },
        (Expr::Format { args: x, .. }, Expr::Format { args: y, .. }) => {
            assert forall|i: int| 0 <= i < x@.len() implies free_expr(#[trigger] x@[i]) by {
                lemma_relocated_expr_free(x@[i], y@[i], site);
            }
        },
        (Expr::Dict { entries: x, .. }, Expr::Dict { entries: y, .. }) => {
            assert forall|i: int| 0 <= i < x@.len() implies free_expr(*(#[trigger] x@[i]).key)
                && free_expr(*x@[i].value) by {
                lemma_relocated_expr_free(*x@[i].key, *y@[i].key, site);
                lemma_relocated_expr_free(*x@[i].value, *y@[i].value, site);
            }
        },
        (
            Expr::Comprehension { element: e1, iterable: i1, condition: c1, .. },
            Expr::Comprehension { element: e2, iterable: i2, condition: c2, .. },
        ) => {
            lemma_relocated_expr_free(*e1, *e2, site);
            lemma_relocated_expr_free(*i1, *i2, site);
            if let (Some(x), Some(y)) = (c1, c2) {
                lemma_relocated_expr_free(*x, *y, site);
            }
        },
        (Expr::Lambda { body: x, .. }, Expr::Lambda { body: y, .. }) => {
            lemma_relocated_expr_free(*x, *y, site);
        },
        (Expr::Vector { x: x1, y: y1, z: z1, .. }, Expr::Vector { x: x2, y: y2, z: z2, .. }) => {
            lemma_relocated_expr_free(*x1, *x2, site);
            lemma_relocated_expr_free(*y1, *y2, site);
            lemma_relocated_expr_free(*z1, *z2, site);
        },
        (Expr::PlayerVar { player: x, .. }, Expr::PlayerVar { player: y, .. }) => {
            lemma_relocated_expr_free(*x, *y, site);
        },
        (Expr::Member { receiver: x, .. }, Expr::Member { receiver: y, .. }) => {
            lemma_relocated_expr_free(*x, *y, site);
        },
        (
            Expr::ReceiverCall { receiver: r1, args: x, .. },
            Expr::ReceiverCall { receiver: r2, args: y, .. },
        ) => {
            lemma_relocated_expr_free(*r1, *r2, site);
            assert forall|i: int| 0 <= i < x@.len() implies free_expr(#[trigger] x@[i]) by {
                lemma_relocated_expr_free(x@[i], y@[i], site);
            }
        },
        (Expr::Binary { left: l1, right: r1, .. }, Expr::Binary { left: l2, right: r2, .. }) => {
            lemma_relocated_expr_free(*l1, *l2, site);
            lemma_relocated_expr_free(*r1, *r2, site);
        },
        (
            Expr::Conditional { then_value: t1, condition: c1, else_value: e1, .. },
            Expr::Conditional { then_value: t2, condition: c2, else_value: e2, .. },
        ) => {
            lemma_relocated_expr_free(*t1, *t2, site);
            lemma_relocated_expr_free(*c1, *c2, site);
            lemma_relocated_expr_free(*e1, *e2, site);
        },
        (Expr::Unary { operand: x, .. }, Expr::Unary { operand: y, .. }) => {
            lemma_relocated_expr_free(*x, *y, site);
        },
        (Expr::Index { array: a1, index: i1, .. }, Expr::Index { array: a2, index: i2, .. }) => {
            lemma_relocated_expr_free(*a1, *a2, site);
            lemma_relocated_expr_free(*i1, *i2, site);
        },
        _ => {},
    }
}

/// Moving the spans of macro-free statements keeps them free of macros.
pub proof fn lemma_relocated_body_free(n: Seq<Stmt>, o: Seq<Stmt>, site: Span)
    requires
        relocated_body(n, o, site),
        free_stmts(o),
    ensures
        free_stmts(n),
    decreases o,
{
    assert forall|i: int| 0 <= i < n.len() implies free_stmt(#[trigger] n[i]) by {
        lemma_relocated_stmt_free(n[i], o[i], site);
    }
}

pub proof fn lemma_relocated_stmt_free(n: Stmt, o: Stmt, site: Span)
    requires
        relocated_stmt(n, o, site),
        free_stmt(o),
    ensures
        free_stmt(n),
    decreases o,
{
    match (n, o) {
        (Stmt::Expr { expr: a, .. }, Stmt::Expr { expr: b, .. }) => {
            lemma_relocated_expr_free(*a, *b, site);
        },
        (Stmt::Delete { target: a, .. }, Stmt::Delete { target: b, .. }) => {
            lemma_relocated_expr_free(*a, *b, site);
        },
        (Stmt::Assign { target: t1, value: v1, .. }, Stmt::Assign { target: t2, value: v2, .. }) => {
            lemma_relocated_expr_free(*t1, *t2, site);
            lemma_relocated_expr_free(*v1, *v2, site);
        },
        (Stmt::If { branches: nb, else_body: ne, .. }, Stmt::If { branches: ob, else_body: oe, .. }) => {
            assert forall|i: int| 0 <= i < nb@.len() implies {
                &&& free_expr(*(#[trigger] nb@[i]).condition)
                &&& forall|j: int| 0 <= j < nb@[i].body@.len() ==> free_stmt(#[trigger] nb@[i].body@[j])
            } by {
                lemma_relocated_expr_free(*nb@[i].condition, *ob@[i].condition, site);
                assert(relocated_body(nb@[i].body@, ob@[i].body@, site));
                assert forall|j: int| 0 <= j < nb@[i].body@.len() implies free_stmt(
                    #[trigger] nb@[i].body@[j],
                ) by {
                    lemma_relocated_stmt_free(nb@[i].body@[j], ob@[i].body@[j], site);
                }
            }
            if let (Some(a), Some(b)) = (ne, oe) {
                assert forall|j: int| 0 <= j < a@.len() implies free_stmt(#[trigger] a@[j]) by {
                    lemma_relocated_stmt_free(a@[j], b@[j], site);
                }
            }
        },
        (
            Stmt::For { variable: v1, iterable: i1, body: b1, .. },
            Stmt::For { variable: v2, iterable: i2, body: b2, .. },
        ) => {
            lemma_relocated_expr_free(*v1, *v2, site);
            lemma_relocated_expr_free(*i1, *i2, site);
            assert forall|j: int| 0 <= j < b1@.len() implies free_stmt(#[trigger] b1@[j]) by {
                lemma_relocated_stmt_free(b1@[j], b2@[j], site);
            }
        },
        (Stmt::While { condition: c1, body: b1, .. }, Stmt::While { condition: c2, body: b2, .. }) => {
            lemma_relocated_expr_free(*c1, *c2, site);
            assert forall|j: int| 0 <= j < b1@.len() implies free_stmt(#[trigger] b1@[j]) by {
                lemma_relocated_stmt_free(b1@[j], b2@[j], site);
            }
        },
        (
            Stmt::DoWhile { condition: c1, body: b1, .. },
            Stmt::DoWhile { condition: c2, body: b2, .. },
        ) => {
            lemma_relocated_expr_free(*c1, *c2, site);
            assert forall|j: int| 0 <= j < b1@.len() implies free_stmt(#[trigger] b1@[j]) by {
                lemma_relocated_stmt_free(b1@[j], b2@[j], site);
            }
        },
        (Stmt::Switch { value: v1, arms: na, .. }, Stmt::Switch { value: v2, arms: oa, .. }) => {
            lemma_relocated_expr_free(*v1, *v2, site);
            assert forall|i: int| 0 <= i < na@.len() implies match #[trigger] na@[i] {
                SwitchArm::Case { value: v, body, .. } => free_expr(*v) && forall|j: int|
                    0 <= j < body@.len() ==> free_stmt(#[trigger] body@[j]),
                SwitchArm::Default { body, .. } => forall|j: int|
                    0 <= j < body@.len() ==> free_stmt(#[trigger] body@[j]),
            } by {
                match (na@[i], oa@[i]) {
                    (SwitchArm::Case { value: a, body: x, .. }, SwitchArm::Case { value: b, body: y, .. }) => {
                        lemma_relocated_expr_free(*a, *b, site);
                        assert forall|j: int| 0 <= j < x@.len() implies free_stmt(#[trigger] x@[j]) by {
                            lemma_relocated_stmt_free(x@[j], y@[j], site);
                        }
                    },
                    (SwitchArm::Default { body: x, .. }, SwitchArm::Default { body: y, .. }) => {
                        assert forall|j: int| 0 <= j < x@.len() implies free_stmt(#[trigger] x@[j]) by {
                            lemma_relocated_stmt_free(x@[j], y@[j], site);
                        }
                    },
                    _ => {},
                }
            }
        },
        (Stmt::Goto { offset: o1, .. }, Stmt::Goto { offset: o2, .. }) => {
            if let (Some(a), Some(b)) = (o1, o2) {
                lemma_relocated_expr_free(*a, *b, site);
            }
        },
        _ => {},
    }
}

} // verus!
