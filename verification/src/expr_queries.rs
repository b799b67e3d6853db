//! Questions the lowering asks of an expression before it lowers it.
use vstd::prelude::*;
use crate::hir::{DictEntry, Expr};
use crate::strings::{chars_of, matches_at, starts_with};

verus! {

/// Whether the expression calls a `random.` function anywhere inside it.
pub open spec fn contains_random(e: Expr) -> bool
    decreases e,
{
    match e {
        Expr::Call { name, args, .. } => starts_with(name@, "random."@) || exists|i: int|
            0 <= i < args@.len() && contains_random(#[trigger] args@[i]),
        Expr::MacroCall { name, args, .. } => starts_with(name@, "random."@) || exists|i: int|
            0 <= i < args@.len() && contains_random(#[trigger] args@[i]),
        Expr::Array { elements, .. } => exists|i: int|
            0 <= i < elements@.len() && contains_random(#[trigger] elements@[i]),
        Expr::Dict { entries, .. } => exists|i: int|
            0 <= i < entries@.len() && (contains_random(*(#[trigger] entries@[i]).key)
                || contains_random(*entries@[i].value)),
        Expr::Comprehension { element, iterable, condition, .. } => contains_random(*element)
            || contains_random(*iterable) || match condition {
            Some(c) => contains_random(*c),
            None => false,
        },
        Expr::Lambda { body, .. } => contains_random(*body),
        Expr::Unary { operand, .. } => contains_random(*operand),
        Expr::Vector { x, y, z, .. } => contains_random(*x) || contains_random(*y) || contains_random(
            *z,
        ),
        Expr::PlayerVar { player, .. } => contains_random(*player),
        Expr::Member { receiver, .. } => contains_random(*receiver),
        Expr::ReceiverCall { receiver, args, .. } => contains_random(*receiver) || exists|i: int|
            0 <= i < args@.len() && contains_random(#[trigger] args@[i]),
        Expr::Type { args, .. } => exists|i: int|
            0 <= i < args@.len() && contains_random(#[trigger] args@[i]),
        Expr::Format { args, .. } => exists|i: int|
            0 <= i < args@.len() && contains_random(#[trigger] args@[i]),
        Expr::Binary { left, right, .. } => contains_random(*left) || contains_random(*right),
        Expr::Conditional { then_value, condition, else_value, .. } => contains_random(*then_value)
            || contains_random(*condition) || contains_random(*else_value),
        Expr::Index { array, index, .. } => contains_random(*array) || contains_random(*index),
        _ => false,
    }
}

/// Whether some expression of the list calls a `random.` function.
fn any_contains_random(list: &Vec<Expr>, Ghost(outer): Ghost<Expr>) -> (r: bool)
    requires
        forall|j: int| 0 <= j < list@.len() ==> decreases_to!(outer => list@[j]),
    ensures
        r == exists|i: int| 0 <= i < list@.len() && contains_random(#[trigger] list@[i]),
    decreases outer, 0nat,
{
    let mut i: usize = 0;
    while i < list.len()
        invariant
            i <= list@.len(),
            forall|j: int| 0 <= j < list@.len() ==> decreases_to!(outer => list@[j]),
            forall|j: int| 0 <= j < i ==> !contains_random(#[trigger] list@[j]),
        decreases list@.len() - i,
    {
        assert(decreases_to!(outer => list@[i as int]));
        if expr_contains_random(&list[i]) {
            return true;
        }
        i = i + 1;
    }
    false
}

/// Whether the key or the value of some entry calls a `random.` function.
fn any_entry_contains_random(entries: &Vec<DictEntry>, Ghost(outer): Ghost<Expr>) -> (r: bool)
    requires
        forall|j: int|
            0 <= j < entries@.len() ==> decreases_to!(outer => *entries@[j].key) && decreases_to!(
                outer => *entries@[j].value
            ),
    ensures
        r == exists|i: int|
            0 <= i < entries@.len() && (contains_random(*(#[trigger] entries@[i]).key)
                || contains_random(*entries@[i].value)),
    decreases outer, 0nat,
{
    let mut i: usize = 0;
    while i < entries.len()
        invariant
            i <= entries@.len(),
            forall|j: int|
                0 <= j < entries@.len() ==> decreases_to!(outer => *entries@[j].key)
                    && decreases_to!(outer => *entries@[j].value),
            forall|j: int|
                0 <= j < i ==> !contains_random(*(#[trigger] entries@[j]).key) && !contains_random(
                    *entries@[j].value,
                ),
        decreases entries@.len() - i,
    {
        assert(decreases_to!(outer => *entries@[i as int].key));
        assert(decreases_to!(outer => *entries@[i as int].value));
        if expr_contains_random(&entries[i].key) || expr_contains_random(&entries[i].value) {
            return true;
        }
        i = i + 1;
    }
    false
}

/// Whether `name` begins with `random.`.
fn is_random_name(name: &str) -> (r: bool)
    ensures
        r == starts_with(name@, "random."@),
{
    let s = chars_of(name);
    let p = chars_of("random.");
    let r = matches_at(&s, 0, &p);
    assert(s@.skip(0) =~= s@);
    r
}

/// Whether the expression calls a `random.` function anywhere inside it.
pub fn expr_contains_random(expr: &Expr) -> (r: bool)
    ensures
        r == contains_random(*expr),
    decreases *expr, 1nat,
{
    match expr {
        Expr::Call { name, args, .. } => {
            if is_random_name(name.as_str()) {
                return true;
            }
            proof {
                assert forall|j: int| 0 <= j < args@.len() implies decreases_to!(*expr => args@[j]) by {
                    assert(decreases_to!(*expr => args@[j]));
                }
            }
            any_contains_random(args, Ghost(*expr))
        },
        Expr::MacroCall { name, args, .. } => {
            if is_random_name(name.as_str()) {
                return true;
            }
            proof {
                assert forall|j: int| 0 <= j < args@.len() implies decreases_to!(*expr => args@[j]) by {
                    assert(decreases_to!(*expr => args@[j]));
                }
            }
            any_contains_random(args, Ghost(*expr))
        },
        Expr::Array { elements, .. } => {
            proof {
                assert forall|j: int| 0 <= j < elements@.len() implies decreases_to!(
                    *expr => elements@[j]
                ) by {
                    assert(decreases_to!(*expr => elements@[j]));
                }
            }
            any_contains_random(elements, Ghost(*expr))
        },
        Expr::Dict { entries, .. } => {
            proof {
                assert forall|j: int| 0 <= j < entries@.len() implies decreases_to!(
                    *expr => *entries@[j].key
                ) && decreases_to!(*expr => *entries@[j].value) by {
                    assert(decreases_to!(*expr => entries@[j]));
                    assert(decreases_to!(entries@[j] => entries@[j].key));
                    assert(decreases_to!(entries@[j] => entries@[j].value));
                }
            }
            any_entry_contains_random(entries, Ghost(*expr))
        },
        Expr::Comprehension { element, iterable, condition, .. } => {
            if expr_contains_random(element) || expr_contains_random(iterable) {
                return true;
            }
            match condition {
                Some(c) => expr_contains_random(c),
                None => false,
            }
        },
        Expr::Lambda { body, .. } => expr_contains_random(body),
        Expr::Unary { operand, .. } => expr_contains_random(operand),
        Expr::Vector { x, y, z, .. } => expr_contains_random(x) || expr_contains_random(y)
            || expr_contains_random(z),
        Expr::PlayerVar { player, .. } => expr_contains_random(player),
        Expr::Member { receiver, .. } => expr_contains_random(receiver),
        Expr::ReceiverCall { receiver, args, .. } => {
            if expr_contains_random(receiver) {
                return true;
            }
            proof {
                assert forall|j: int| 0 <= j < args@.len() implies decreases_to!(*expr => args@[j]) by {
                    assert(decreases_to!(*expr => args@[j]));
                }
            }
            any_contains_random(args, Ghost(*expr))
        },
        Expr::Type { args, .. } => {
            proof {
                assert forall|j: int| 0 <= j < args@.len() implies decreases_to!(*expr => args@[j]) by {
                    assert(decreases_to!(*expr => args@[j]));
                }
            }
            any_contains_random(args, Ghost(*expr))
        },
        Expr::Format { args, .. } => {
            proof {
                assert forall|j: int| 0 <= j < args@.len() implies decreases_to!(*expr => args@[j]) by {
                    assert(decreases_to!(*expr => args@[j]));
                }
            }
            any_contains_random(args, Ghost(*expr))
        },
        Expr::Binary { left, right, .. } => expr_contains_random(left) || expr_contains_random(right),
        Expr::Conditional { then_value, condition, else_value, .. } => expr_contains_random(
            then_value,
        ) || expr_contains_random(condition) || expr_contains_random(else_value),
        Expr::Index { array, index, .. } => expr_contains_random(array) || expr_contains_random(index),
        _ => false,
    }
}

/// Whether the expression is a literal that can key a lookup: a number, a
/// string, a boolean or null.
pub fn is_literal_key(expr: &Expr) -> (r: bool)
    ensures
        r == (*expr is Number || *expr is String || *expr is Bool || *expr is Null),
{
    match expr {
        Expr::Number { .. } | Expr::String { .. } | Expr::Bool { .. } | Expr::Null { .. } => true,
        _ => false,
    }
}

/// Whether the expression is a literal that a membership test can list;
/// strings only where the test is not strict.
pub fn is_membership_literal(expr: &Expr, strict: bool) -> (r: bool)
    ensures
        r == ((*expr is Number || *expr is String || *expr is Bool || *expr is Null) && (!strict
            || !(*expr is String))),
{
    is_literal_key(expr) && (!strict || !matches!(expr, Expr::String { .. }))
}

/// Whether the expression is the number literal written `0`.
pub fn is_zero_initializer(expr: &Expr) -> (r: bool)
    ensures
        r == (*expr matches Expr::Number { text, .. } && text@ == "0"@),
{
    match expr {
        Expr::Number { text, .. } => crate::strings::str_eq(text.as_str(), "0"),
        _ => false,
    }
}

/// The indices of an indexed assignment target, innermost last.
pub open spec fn target_indices(e: Expr) -> Seq<Expr>
    decreases e,
{
    match e {
        Expr::Index { array, index, .. } => seq![*index] + target_indices(*array),
        _ => Seq::empty(),
    }
}

/// The variable under the indices of an assignment target, where the
/// target is a global or player variable indexed zero or more times.
pub open spec fn target_base(e: Expr) -> Option<Expr>
    decreases e,
{
    match e {
        Expr::Index { array, .. } => target_base(*array),
        Expr::GlobalVar { .. } => Some(e),
        Expr::PlayerVar { .. } => Some(e),
        _ => None,
    }
}

/// The plain values behind a list of references.
pub open spec fn derefs(v: Seq<&Expr>) -> Seq<Expr> {
    v.map_values(|x: &Expr| *x)
}

/// Splits an assignment target into its variable and its indices: the
/// indices are appended to `indices`, outermost first.
pub fn indexed_target_parts<'a>(target: &'a Expr, indices: &mut Vec<&'a Expr>) -> (r: Option<
    &'a Expr,
>)
    ensures
        derefs(final(indices)@) == derefs(old(indices)@) + target_indices(*target),
        match r {
            Some(b) => target_base(*target) == Some(*b),
            None => target_base(*target) is None,
        },
    decreases *target,
{
    match target {
        Expr::Index { array, index, .. } => {
            let ghost before = indices@;
            indices.push(&**index);
            assert(derefs(indices@) =~= derefs(before) + seq![**index]);
            let r = indexed_target_parts(&**array, indices);
            assert(derefs(indices@) =~= derefs(before) + target_indices(*target));
            r
        },
        Expr::GlobalVar { .. } | Expr::PlayerVar { .. } => {
            assert(derefs(indices@) =~= derefs(indices@) + target_indices(*target));
            Some(target)
        },
        _ => {
            assert(derefs(indices@) =~= derefs(indices@) + target_indices(*target));
            None
        },
    }
}

} // verus!
