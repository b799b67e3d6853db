//! Default Workshop variables that a program uses without declaring them.
//!
//! A program may read and write the Workshop's default variables (`A` to
//! `DX`) without a `globalvar` or `playervar` declaration. The lowering
//! collects them, each with the span of its first use, in the order of first
//! use, so that their slots can be reserved.
use vstd::prelude::*;
use crate::hir::{default_var_index_spec, DictEntry, Expr, IfBranch, Span, Stmt, SwitchArm};
use crate::strings::{contains_name, views};

verus! {

/// One use of a variable: its name and where it was used.
pub type Use = (Seq<char>, Option<Span>);

/// A name that is a default Workshop variable and is not declared.
pub open spec fn is_implicit(name: Seq<char>, declared: Seq<Seq<char>>) -> bool {
    !declared.contains(name) && default_var_index_spec(name) is Some
}

/// The first span that is present.
pub open spec fn first_span(a: Option<Span>, b: Option<Span>) -> Option<Span> {
    match a {
        Some(s) => Some(s),
        None => b,
    }
}

/// The uses of undeclared default variables in an expression, in the order
/// the lowering visits them: global variables when `player` is false,
/// player variables when it is true.
pub open spec fn uses(e: Expr, dg: Seq<Seq<char>>, dp: Seq<Seq<char>>, player: bool) -> Seq<Use>
    decreases e,
{
    match e {
        Expr::GlobalVar { name, span } => if !player && is_implicit(name@, dg) {
            seq![(name@, span)]
        } else {
            Seq::empty()
        },
        Expr::PlayerVar { player: p, name, member_span, span } => (if player && is_implicit(
            name@,
            dp,
        ) {
            seq![(name@, first_span(member_span, span))]
        } else {
            Seq::empty()
        }) + uses(*p, dg, dp, player),
        Expr::Member { receiver, member, span, .. } => (if player && is_implicit(member@, dp) {
            seq![(member@, span)]
        } else {
            Seq::empty()
        }) + uses(*receiver, dg, dp, player),
        Expr::Array { elements, .. } => uses_list(elements@, dg, dp, player),
        Expr::Dict { entries, .. } => uses_entries(entries@, dg, dp, player),
        Expr::Comprehension { element, iterable, condition, .. } => uses(*element, dg, dp, player)
            + uses(*iterable, dg, dp, player) + match condition {
            Some(c) => uses(*c, dg, dp, player),
            None => Seq::empty(),
        },
        Expr::Lambda { body, .. } => uses(*body, dg, dp, player),
        Expr::Type { args, .. } => uses_list(args@, dg, dp, player),
        Expr::Call { args, .. } => uses_list(args@, dg, dp, player),
        Expr::MacroCall { args, .. } => uses_list(args@, dg, dp, player),
        Expr::Format { args, .. } => uses_list(args@, dg, dp, player),
        Expr::Vector { x, y, z, .. } => uses(*x, dg, dp, player) + uses(*y, dg, dp, player) + uses(
            *z,
            dg,
            dp,
            player,
        ),
        Expr::ReceiverCall { receiver, args, .. } => uses(*receiver, dg, dp, player) + uses_list(
            args@,
            dg,
            dp,
            player,
        ),
        Expr::Binary { left, right, .. } => uses(*left, dg, dp, player) + uses(
            *right,
            dg,
            dp,
            player,
        ),
        Expr::Conditional { then_value, condition, else_value, .. } => uses(
            *then_value,
            dg,
            dp,
            player,
        ) + uses(*condition, dg, dp, player) + uses(*else_value, dg, dp, player),
        Expr::Unary { operand, .. } => uses(*operand, dg, dp, player),
        Expr::Index { array, index, .. } => uses(*array, dg, dp, player) + uses(
            *index,
            dg,
            dp,
            player,
        ),
        _ => Seq::empty(),
    }
}

/// The uses in a list of expressions, in order.
pub open spec fn uses_list(s: Seq<Expr>, dg: Seq<Seq<char>>, dp: Seq<Seq<char>>, player: bool) -> Seq<
    Use,
>
    decreases s,
{
    if s.len() == 0 {
        Seq::empty()
    } else {
        uses_list(s.drop_last(), dg, dp, player) + uses(s.last(), dg, dp, player)
    }
}

/// The uses in dictionary entries, key before value, in order.
pub open spec fn uses_entries(
    s: Seq<DictEntry>,
    dg: Seq<Seq<char>>,
    dp: Seq<Seq<char>>,
    player: bool,
) -> Seq<Use>
    decreases s,
{
    if s.len() == 0 {
        Seq::empty()
    } else {
        uses_entries(s.drop_last(), dg, dp, player) + uses(*s.last().key, dg, dp, player) + uses(
            *s.last().value,
            dg,
            dp,
            player,
        )
    }
}

/// The uses in a statement, in the order the lowering visits them.
pub open spec fn stmt_uses(s: Stmt, dg: Seq<Seq<char>>, dp: Seq<Seq<char>>, player: bool) -> Seq<Use>
    decreases s,
{
    match s {
        Stmt::Expr { expr, .. } => uses(*expr, dg, dp, player),
        Stmt::Assign { target, value, .. } => uses(*target, dg, dp, player) + uses(
            *value,
            dg,
            dp,
            player,
        ),
        Stmt::Delete { target, .. } => uses(*target, dg, dp, player),
        Stmt::If { branches, else_body, .. } => branch_uses(branches@, dg, dp, player) + match else_body {
            Some(body) => stmts_uses(body@, dg, dp, player),
            None => Seq::empty(),
        },
        Stmt::For { variable, iterable, body, .. } => uses(*variable, dg, dp, player) + uses(
            *iterable,
            dg,
            dp,
            player,
        ) + stmts_uses(body@, dg, dp, player),
        Stmt::While { condition, body, .. } => uses(*condition, dg, dp, player) + stmts_uses(
            body@,
            dg,
            dp,
            player,
        ),
        Stmt::DoWhile { condition, body, .. } => uses(*condition, dg, dp, player) + stmts_uses(
            body@,
            dg,
            dp,
            player,
        ),
        Stmt::Switch { value, arms, .. } => uses(*value, dg, dp, player) + arm_uses(
            arms@,
            dg,
            dp,
            player,
        ),
        Stmt::Goto { offset, .. } => match offset {
            Some(o) => uses(*o, dg, dp, player),
            None => Seq::empty(),
        },
        _ => Seq::empty(),
    }
}

/// The uses in a list of statements, in order.
pub open spec fn stmts_uses(s: Seq<Stmt>, dg: Seq<Seq<char>>, dp: Seq<Seq<char>>, player: bool) -> Seq<
    Use,
>
    decreases s,
{
    if s.len() == 0 {
        Seq::empty()
    } else {
        stmts_uses(s.drop_last(), dg, dp, player) + stmt_uses(s.last(), dg, dp, player)
    }
}

/// The uses in `if` branches, each condition before its body, in order.
pub open spec fn branch_uses(
    s: Seq<IfBranch>,
    dg: Seq<Seq<char>>,
    dp: Seq<Seq<char>>,
    player: bool,
) -> Seq<Use>
    decreases s,
{
    if s.len() == 0 {
        Seq::empty()
    } else {
        branch_uses(s.drop_last(), dg, dp, player) + uses(*s.last().condition, dg, dp, player)
            + stmts_uses(s.last().body@, dg, dp, player)
    }
}

/// The uses in `switch` arms, each case value before its body, in order.
pub open spec fn arm_uses(
    s: Seq<SwitchArm>,
    dg: Seq<Seq<char>>,
    dp: Seq<Seq<char>>,
    player: bool,
) -> Seq<Use>
    decreases s,
{
    if s.len() == 0 {
        Seq::empty()
    } else {
        arm_uses(s.drop_last(), dg, dp, player) + match s.last() {
            SwitchArm::Case { value, body, .. } => uses(*value, dg, dp, player) + stmts_uses(
                body@,
                dg,
                dp,
                player,
            ),
            SwitchArm::Default { body, .. } => stmts_uses(body@, dg, dp, player),
        }
    }
}

/// A table of variables by name, with the span of their first use.
pub open spec fn table_view(t: Seq<(String, Option<Span>)>) -> Seq<Use> {
    t.map_values(|p: (String, Option<Span>)| (p.0@, p.1))
}

/// The table with `u` added, unless its name is already there.
pub open spec fn record_first(t: Seq<Use>, u: Use) -> Seq<Use> {
    if exists|i: int| 0 <= i < t.len() && (#[trigger] t[i]).0 == u.0 {
        t
    } else {
        t.push(u)
    }
}

/// The table with every use of `us` recorded, in order.
pub open spec fn record_all(t: Seq<Use>, us: Seq<Use>) -> Seq<Use>
    decreases us.len(),
{
    if us.len() == 0 {
        t
    } else {
        record_first(record_all(t, us.drop_last()), us.last())
    }
}

/// Recording two lists of uses one after the other records their concatenation.
pub proof fn lemma_record_all_concat(t: Seq<Use>, a: Seq<Use>, b: Seq<Use>)
    ensures
        record_all(t, a + b) == record_all(record_all(t, a), b),
    decreases b.len(),
{
    if b.len() == 0 {
        assert(a + b =~= a);
    } else {
        lemma_record_all_concat(t, a, b.drop_last());
        assert((a + b).drop_last() =~= a + b.drop_last());
        assert((a + b).last() == b.last());
    }
}

/// Whether no name occurs twice in the table.
pub open spec fn distinct_names(t: Seq<Use>) -> bool {
    forall|i: int, j: int| 0 <= i < j < t.len() ==> (#[trigger] t[i]).0 != (#[trigger] t[j]).0
}

/// Recording uses keeps every name in the table once: a variable is
/// collected once, however often the program uses it.
pub proof fn lemma_record_all_distinct(t: Seq<Use>, us: Seq<Use>)
    requires
        distinct_names(t),
    ensures
        distinct_names(record_all(t, us)),
    decreases us.len(),
{
    if us.len() > 0 {
        lemma_record_all_distinct(t, us.drop_last());
        let prev = record_all(t, us.drop_last());
        let u = us.last();
        if !(exists|i: int| 0 <= i < prev.len() && (#[trigger] prev[i]).0 == u.0) {
            let next = prev.push(u);
            assert forall|i: int, j: int| 0 <= i < j < next.len() implies (#[trigger] next[i]).0
                != (#[trigger] next[j]).0 by {
                if j == prev.len() {
                    assert(next[i] == prev[i]);
                } else {
                    assert(next[i] == prev[i]);
                    assert(next[j] == prev[j]);
                }
            }
        }
    }
}

/// Record a use of `name` at `span`, unless the name is already in the table.
fn record(table: &mut Vec<(String, Option<Span>)>, name: &String, span: Option<Span>)
    ensures
        table_view(final(table)@) == record_first(table_view(old(table)@), (name@, span)),
{
    let ghost t = table_view(table@);
    let mut i: usize = 0;
    while i < table.len()
        invariant
            table_view(table@) == t,
            0 <= i <= table@.len(),
            forall|j: int| 0 <= j < i ==> (#[trigger] t[j]).0 != name@,
        decreases table@.len() - i,
    {
        if crate::strings::str_eq(table[i].0.as_str(), name.as_str()) {
            assert(t[i as int].0 == name@);
            return;
        }
        i = i + 1;
    }
    table.push((name.clone(), span));
    assert(table_view(table@) =~= t.push((name@, span)));
}

/// Record a use of a variable name if it is an undeclared default variable.
fn record_implicit(
    table: &mut Vec<(String, Option<Span>)>,
    declared: &Vec<String>,
    name: &String,
    span: Option<Span>,
)
    ensures
        table_view(final(table)@) == if is_implicit(name@, views(declared@)) {
            record_first(table_view(old(table)@), (name@, span))
        } else {
            table_view(old(table)@)
        },
{
    if !contains_name(declared, name.as_str())
        && crate::hir::default_var_index(name.as_str()).is_some() {
        record(table, name, span);
    }
}

/// What the global and player tables become after visiting `uses_g` and `uses_p`.
pub open spec fn visited(
    g: Seq<(String, Option<Span>)>,
    p: Seq<(String, Option<Span>)>,
    g0: Seq<(String, Option<Span>)>,
    p0: Seq<(String, Option<Span>)>,
    uses_g: Seq<Use>,
    uses_p: Seq<Use>,
) -> bool {
    &&& table_view(g) == record_all(table_view(g0), uses_g)
    &&& table_view(p) == record_all(table_view(p0), uses_p)
}

/// Collect from the expressions of `list`, nested inside `outer`.
fn collect_list(
    list: &Vec<Expr>,
    declared_globals: &Vec<String>,
    declared_players: &Vec<String>,
    globals: &mut Vec<(String, Option<Span>)>,
    players: &mut Vec<(String, Option<Span>)>,
    Ghost(outer): Ghost<Expr>,
)
    requires
        forall|j: int| 0 <= j < list@.len() ==> decreases_to!(outer => list@[j]),
    ensures
        visited(
            final(globals)@,
            final(players)@,
            old(globals)@,
            old(players)@,
            uses_list(list@, views(declared_globals@), views(declared_players@), false),
            uses_list(list@, views(declared_globals@), views(declared_players@), true),
        ),
    decreases outer, 0nat,
{
    let ghost dg = views(declared_globals@);
    let ghost dp = views(declared_players@);
    let ghost g0 = globals@;
    let ghost p0 = players@;
    let mut k: usize = 0;
    assert(list@.take(0) =~= Seq::<Expr>::empty());
    while k < list.len()
        invariant
            0 <= k <= list@.len(),
            dg == views(declared_globals@),
            dp == views(declared_players@),
            forall|j: int| 0 <= j < list@.len() ==> decreases_to!(outer => list@[j]),
            visited(
                globals@,
                players@,
                g0,
                p0,
                uses_list(list@.take(k as int), dg, dp, false),
                uses_list(list@.take(k as int), dg, dp, true),
            ),
        decreases list@.len() - k,
    {
        let ghost before_g = uses_list(list@.take(k as int), dg, dp, false);
        let ghost before_p = uses_list(list@.take(k as int), dg, dp, true);
        collect_implicit_expr(&list[k], declared_globals, declared_players, globals, players);
        assert(list@.take(k + 1).drop_last() =~= list@.take(k as int));
        assert(list@.take(k + 1).last() == list@[k as int]);
        proof {
            lemma_record_all_concat(table_view(g0), before_g, uses(list@[k as int], dg, dp, false));
            lemma_record_all_concat(table_view(p0), before_p, uses(list@[k as int], dg, dp, true));
        }
        k = k + 1;
    }
    assert(list@.take(list@.len() as int) =~= list@);
}

/// Collect every undeclared default variable that an expression uses.
#[verifier::loop_isolation(false)]
pub fn collect_implicit_expr(
    expr: &Expr,
    declared_globals: &Vec<String>,
    declared_players: &Vec<String>,
    globals: &mut Vec<(String, Option<Span>)>,
    players: &mut Vec<(String, Option<Span>)>,
)
    ensures
        visited(
            final(globals)@,
            final(players)@,
            old(globals)@,
            old(players)@,
            uses(*expr, views(declared_globals@), views(declared_players@), false),
            uses(*expr, views(declared_globals@), views(declared_players@), true),
        ),
    decreases *expr, 1nat,
{
    let ghost dg = views(declared_globals@);
    let ghost dp = views(declared_players@);
    let ghost g0 = globals@;
    let ghost p0 = players@;
    match expr {
        Expr::GlobalVar { name, span } => {
            record_implicit(globals, declared_globals, name, *span);
            proof {
                reveal_with_fuel(record_all, 2);
            }
        },
        Expr::PlayerVar { player, name, member_span, span } => {
            let first = match member_span {
                Some(s) => Some(*s),
                None => *span,
            };
            record_implicit(players, declared_players, name, first);
            let ghost g1 = globals@;
            let ghost p1 = players@;
            collect_implicit_expr(player, declared_globals, declared_players, globals, players);
            proof {
                reveal_with_fuel(record_all, 2);
                let own: Seq<Use> = if is_implicit(name@, dp) {
                    seq![(name@, first)]
                } else {
                    Seq::empty()
                };
                lemma_record_all_concat(table_view(p0), own, uses(**player, dg, dp, true));
                assert(Seq::<Use>::empty() + uses(**player, dg, dp, false) =~= uses(**player, dg, dp, false));
            }
        },
        Expr::Member { receiver, member, span, .. } => {
            record_implicit(players, declared_players, member, *span);
            collect_implicit_expr(receiver, declared_globals, declared_players, globals, players);
            proof {
                reveal_with_fuel(record_all, 2);
                let own: Seq<Use> = if is_implicit(member@, dp) {
                    seq![(member@, *span)]
                } else {
                    Seq::empty()
                };
                lemma_record_all_concat(table_view(p0), own, uses(**receiver, dg, dp, true));
                assert(Seq::<Use>::empty() + uses(**receiver, dg, dp, false) =~= uses(**receiver, dg, dp, false));
            }
        },
        Expr::Array { elements, .. } => {
            collect_list(elements, declared_globals, declared_players, globals, players, Ghost(*expr));
        },
        Expr::Type { args, .. } => {
            collect_list(args, declared_globals, declared_players, globals, players, Ghost(*expr));
        },
        Expr::Call { args, .. } => {
            collect_list(args, declared_globals, declared_players, globals, players, Ghost(*expr));
        },
        Expr::MacroCall { args, .. } => {
            collect_list(args, declared_globals, declared_players, globals, players, Ghost(*expr));
        },
        Expr::Format { args, .. } => {
            collect_list(args, declared_globals, declared_players, globals, players, Ghost(*expr));
        },
        Expr::Dict { entries, .. } => {
            let mut k: usize = 0;
            assert(entries@.take(0) =~= Seq::<DictEntry>::empty());
            while k < entries.len()
                invariant
                    0 <= k <= entries@.len(),
                    visited(
                        globals@,
                        players@,
                        g0,
                        p0,
                        uses_entries(entries@.take(k as int), dg, dp, false),
                        uses_entries(entries@.take(k as int), dg, dp, true),
                    ),
                decreases entries@.len() - k,
            {
                let ghost before_g = uses_entries(entries@.take(k as int), dg, dp, false);
                let ghost before_p = uses_entries(entries@.take(k as int), dg, dp, true);
                let ghost g1 = globals@;
                let ghost p1 = players@;
                let entry = &entries[k];
                assert(decreases_to!(*expr => entries@[k as int]));
                collect_implicit_expr(&entry.key, declared_globals, declared_players, globals, players);
                collect_implicit_expr(&entry.value, declared_globals, declared_players, globals, players);
                assert(entries@.take(k + 1).drop_last() =~= entries@.take(k as int));
                assert(entries@.take(k + 1).last() == entries@[k as int]);
                proof {
                    let kg = uses(*entry.key, dg, dp, false);
                    let vg = uses(*entry.value, dg, dp, false);
                    let kp = uses(*entry.key, dg, dp, true);
                    let vp = uses(*entry.value, dg, dp, true);
                    lemma_record_all_concat(table_view(g0), before_g, kg);
                    lemma_record_all_concat(table_view(g0), before_g + kg, vg);
                    lemma_record_all_concat(table_view(p0), before_p, kp);
                    lemma_record_all_concat(table_view(p0), before_p + kp, vp);
                }
                k = k + 1;
            }
            assert(entries@.take(entries@.len() as int) =~= entries@);
        },
        Expr::Comprehension { element, iterable, condition, .. } => {
            collect_implicit_expr(element, declared_globals, declared_players, globals, players);
            collect_implicit_expr(iterable, declared_globals, declared_players, globals, players);
            let ghost cg: Seq<Use> = match condition {
                Some(c) => uses(**c, dg, dp, false),
                None => Seq::empty(),
            };
            let ghost cp: Seq<Use> = match condition {
                Some(c) => uses(**c, dg, dp, true),
                None => Seq::empty(),
            };
            if let Some(condition) = condition {
                collect_implicit_expr(condition, declared_globals, declared_players, globals, players);
            }
            proof {
                let eg = uses(**element, dg, dp, false);
                let ig = uses(**iterable, dg, dp, false);
                let ep = uses(**element, dg, dp, true);
                let ip = uses(**iterable, dg, dp, true);
                lemma_record_all_concat(table_view(g0), eg, ig);
                lemma_record_all_concat(table_view(g0), eg + ig, cg);
                lemma_record_all_concat(table_view(p0), ep, ip);
                lemma_record_all_concat(table_view(p0), ep + ip, cp);
            }
        },
        Expr::Lambda { body, .. } => {
            collect_implicit_expr(body, declared_globals, declared_players, globals, players);
        },
        Expr::Vector { x, y, z, .. } => {
            collect_implicit_expr(x, declared_globals, declared_players, globals, players);
            collect_implicit_expr(y, declared_globals, declared_players, globals, players);
            collect_implicit_expr(z, declared_globals, declared_players, globals, players);
            proof {
                let (xg, yg, zg) = (uses(**x, dg, dp, false), uses(**y, dg, dp, false), uses(**z, dg, dp, false));
                let (xp, yp, zp) = (uses(**x, dg, dp, true), uses(**y, dg, dp, true), uses(**z, dg, dp, true));
                lemma_record_all_concat(table_view(g0), xg, yg);
                lemma_record_all_concat(table_view(g0), xg + yg, zg);
                lemma_record_all_concat(table_view(p0), xp, yp);
                lemma_record_all_concat(table_view(p0), xp + yp, zp);
            }
        },
        Expr::ReceiverCall { receiver, args, .. } => {
            collect_implicit_expr(receiver, declared_globals, declared_players, globals, players);
            collect_list(args, declared_globals, declared_players, globals, players, Ghost(*expr));
            proof {
                lemma_record_all_concat(table_view(g0), uses(**receiver, dg, dp, false), uses_list(args@, dg, dp, false));
                lemma_record_all_concat(table_view(p0), uses(**receiver, dg, dp, true), uses_list(args@, dg, dp, true));
            }
        },
        Expr::Binary { left, right, .. } => {
            collect_implicit_expr(left, declared_globals, declared_players, globals, players);
            collect_implicit_expr(right, declared_globals, declared_players, globals, players);
            proof {
                lemma_record_all_concat(table_view(g0), uses(**left, dg, dp, false), uses(**right, dg, dp, false));
                lemma_record_all_concat(table_view(p0), uses(**left, dg, dp, true), uses(**right, dg, dp, true));
            }
        },
        Expr::Conditional { then_value, condition, else_value, .. } => {
            collect_implicit_expr(then_value, declared_globals, declared_players, globals, players);
            collect_implicit_expr(condition, declared_globals, declared_players, globals, players);
            collect_implicit_expr(else_value, declared_globals, declared_players, globals, players);
            proof {
                let (tg, cg, eg) = (uses(**then_value, dg, dp, false), uses(**condition, dg, dp, false), uses(**else_value, dg, dp, false));
                let (tp, cp, ep) = (uses(**then_value, dg, dp, true), uses(**condition, dg, dp, true), uses(**else_value, dg, dp, true));
                lemma_record_all_concat(table_view(g0), tg, cg);
                lemma_record_all_concat(table_view(g0), tg + cg, eg);
                lemma_record_all_concat(table_view(p0), tp, cp);
                lemma_record_all_concat(table_view(p0), tp + cp, ep);
            }
        },
        Expr::Unary { operand, .. } => {
            collect_implicit_expr(operand, declared_globals, declared_players, globals, players);
        },
        Expr::Index { array, index, .. } => {
            collect_implicit_expr(array, declared_globals, declared_players, globals, players);
            collect_implicit_expr(index, declared_globals, declared_players, globals, players);
            proof {
                lemma_record_all_concat(table_view(g0), uses(**array, dg, dp, false), uses(**index, dg, dp, false));
                lemma_record_all_concat(table_view(p0), uses(**array, dg, dp, true), uses(**index, dg, dp, true));
            }
        },
        _ => {},
    }
}

/// Collect from the statements of `body`, nested inside `outer`.
fn collect_body(
    body: &Vec<Stmt>,
    declared_globals: &Vec<String>,
    declared_players: &Vec<String>,
    globals: &mut Vec<(String, Option<Span>)>,
    players: &mut Vec<(String, Option<Span>)>,
    Ghost(outer): Ghost<Stmt>,
)
    requires
        forall|j: int| 0 <= j < body@.len() ==> decreases_to!(outer => body@[j]),
    ensures
        visited(
            final(globals)@,
            final(players)@,
            old(globals)@,
            old(players)@,
            stmts_uses(body@, views(declared_globals@), views(declared_players@), false),
            stmts_uses(body@, views(declared_globals@), views(declared_players@), true),
        ),
    decreases outer, 0nat,
{
    let ghost dg = views(declared_globals@);
    let ghost dp = views(declared_players@);
    let ghost g0 = globals@;
    let ghost p0 = players@;
    let mut k: usize = 0;
    assert(body@.take(0) =~= Seq::<Stmt>::empty());
    while k < body.len()
        invariant
            0 <= k <= body@.len(),
            dg == views(declared_globals@),
            dp == views(declared_players@),
            forall|j: int| 0 <= j < body@.len() ==> decreases_to!(outer => body@[j]),
            visited(
                globals@,
                players@,
                g0,
                p0,
                stmts_uses(body@.take(k as int), dg, dp, false),
                stmts_uses(body@.take(k as int), dg, dp, true),
            ),
        decreases body@.len() - k,
    {
        let ghost before_g = stmts_uses(body@.take(k as int), dg, dp, false);
        let ghost before_p = stmts_uses(body@.take(k as int), dg, dp, true);
        collect_statement(&body[k], declared_globals, declared_players, globals, players);
        assert(body@.take(k + 1).drop_last() =~= body@.take(k as int));
        assert(body@.take(k + 1).last() == body@[k as int]);
        proof {
            lemma_record_all_concat(table_view(g0), before_g, stmt_uses(body@[k as int], dg, dp, false));
            lemma_record_all_concat(table_view(p0), before_p, stmt_uses(body@[k as int], dg, dp, true));
        }
        k = k + 1;
    }
    assert(body@.take(body@.len() as int) =~= body@);
}

/// Collect from one statement.
#[verifier::loop_isolation(false)]
fn collect_statement(
    statement: &Stmt,
    declared_globals: &Vec<String>,
    declared_players: &Vec<String>,
    globals: &mut Vec<(String, Option<Span>)>,
    players: &mut Vec<(String, Option<Span>)>,
)
    ensures
        visited(
            final(globals)@,
            final(players)@,
            old(globals)@,
            old(players)@,
            stmt_uses(*statement, views(declared_globals@), views(declared_players@), false),
            stmt_uses(*statement, views(declared_globals@), views(declared_players@), true),
        ),
    decreases *statement, 1nat,
{
    let ghost dg = views(declared_globals@);
    let ghost dp = views(declared_players@);
    let ghost g0 = globals@;
    let ghost p0 = players@;
    match statement {
        Stmt::Expr { expr, .. } => {
            collect_implicit_expr(expr, declared_globals, declared_players, globals, players);
        },
        Stmt::Delete { target, .. } => {
            collect_implicit_expr(target, declared_globals, declared_players, globals, players);
        },
        Stmt::Assign { target, value, .. } => {
            collect_implicit_expr(target, declared_globals, declared_players, globals, players);
            collect_implicit_expr(value, declared_globals, declared_players, globals, players);
            proof {
                lemma_record_all_concat(table_view(g0), uses(**target, dg, dp, false), uses(**value, dg, dp, false));
                lemma_record_all_concat(table_view(p0), uses(**target, dg, dp, true), uses(**value, dg, dp, true));
            }
        },
        Stmt::If { branches, else_body, .. } => {
            let mut i: usize = 0;
            assert(branches@.take(0) =~= Seq::<IfBranch>::empty());
            while i < branches.len()
                invariant
                    0 <= i <= branches@.len(),
                    visited(
                        globals@,
                        players@,
                        g0,
                        p0,
                        branch_uses(branches@.take(i as int), dg, dp, false),
                        branch_uses(branches@.take(i as int), dg, dp, true),
                    ),
                decreases branches@.len() - i,
            {
                let ghost before_g = branch_uses(branches@.take(i as int), dg, dp, false);
                let ghost before_p = branch_uses(branches@.take(i as int), dg, dp, true);
                let branch = &branches[i];
                assert(decreases_to!(*statement => branches@[i as int]));
                assert forall|k: int| 0 <= k < branch.body@.len() implies decreases_to!(
                    *statement => branch.body@[k]) by {
                    assert(decreases_to!(branches@[i as int] => branch.body@[k]));
                }
                collect_implicit_expr(&branch.condition, declared_globals, declared_players, globals, players);
                collect_body(&branch.body, declared_globals, declared_players, globals, players, Ghost(*statement));
                assert(branches@.take(i + 1).drop_last() =~= branches@.take(i as int));
                assert(branches@.take(i + 1).last() == branches@[i as int]);
                proof {
                    let cg = uses(*branch.condition, dg, dp, false);
                    let cp = uses(*branch.condition, dg, dp, true);
                    lemma_record_all_concat(table_view(g0), before_g, cg);
                    lemma_record_all_concat(table_view(g0), before_g + cg, stmts_uses(branch.body@, dg, dp, false));
                    lemma_record_all_concat(table_view(p0), before_p, cp);
                    lemma_record_all_concat(table_view(p0), before_p + cp, stmts_uses(branch.body@, dg, dp, true));
                }
                i = i + 1;
            }
            assert(branches@.take(branches@.len() as int) =~= branches@);
            let ghost bg = branch_uses(branches@, dg, dp, false);
            let ghost bp = branch_uses(branches@, dg, dp, true);
            if let Some(body) = else_body {
                collect_body(body, declared_globals, declared_players, globals, players, Ghost(*statement));
                proof {
                    lemma_record_all_concat(table_view(g0), bg, stmts_uses(body@, dg, dp, false));
                    lemma_record_all_concat(table_view(p0), bp, stmts_uses(body@, dg, dp, true));
                }
            } else {
                assert(bg + Seq::<Use>::empty() =~= bg);
                assert(bp + Seq::<Use>::empty() =~= bp);
            }
        },
        Stmt::For { variable, iterable, body, .. } => {
            collect_implicit_expr(variable, declared_globals, declared_players, globals, players);
            collect_implicit_expr(iterable, declared_globals, declared_players, globals, players);
            collect_body(body, declared_globals, declared_players, globals, players, Ghost(*statement));
            proof {
                let (vg, ig) = (uses(**variable, dg, dp, false), uses(**iterable, dg, dp, false));
                let (vp, ip) = (uses(**variable, dg, dp, true), uses(**iterable, dg, dp, true));
                lemma_record_all_concat(table_view(g0), vg, ig);
                lemma_record_all_concat(table_view(g0), vg + ig, stmts_uses(body@, dg, dp, false));
                lemma_record_all_concat(table_view(p0), vp, ip);
                lemma_record_all_concat(table_view(p0), vp + ip, stmts_uses(body@, dg, dp, true));
            }
        },
        Stmt::While { condition, body, .. } => {
            collect_implicit_expr(condition, declared_globals, declared_players, globals, players);
            collect_body(body, declared_globals, declared_players, globals, players, Ghost(*statement));
            proof {
                lemma_record_all_concat(table_view(g0), uses(**condition, dg, dp, false), stmts_uses(body@, dg, dp, false));
                lemma_record_all_concat(table_view(p0), uses(**condition, dg, dp, true), stmts_uses(body@, dg, dp, true));
            }
        },
        Stmt::DoWhile { condition, body, .. } => {
            collect_implicit_expr(condition, declared_globals, declared_players, globals, players);
            collect_body(body, declared_globals, declared_players, globals, players, Ghost(*statement));
            proof {
                lemma_record_all_concat(table_view(g0), uses(**condition, dg, dp, false), stmts_uses(body@, dg, dp, false));
                lemma_record_all_concat(table_view(p0), uses(**condition, dg, dp, true), stmts_uses(body@, dg, dp, true));
            }
        },
        Stmt::Switch { value, arms, .. } => {
            collect_implicit_expr(value, declared_globals, declared_players, globals, players);
            let ghost vg = uses(**value, dg, dp, false);
            let ghost vp = uses(**value, dg, dp, true);
            let mut i: usize = 0;
            assert(arms@.take(0) =~= Seq::<SwitchArm>::empty());
            assert(vg + Seq::<Use>::empty() =~= vg);
            assert(vp + Seq::<Use>::empty() =~= vp);
            while i < arms.len()
                invariant
                    0 <= i <= arms@.len(),
                    visited(
                        globals@,
                        players@,
                        g0,
                        p0,
                        vg + arm_uses(arms@.take(i as int), dg, dp, false),
                        vp + arm_uses(arms@.take(i as int), dg, dp, true),
                    ),
                decreases arms@.len() - i,
            {
                let ghost before_g = vg + arm_uses(arms@.take(i as int), dg, dp, false);
                let ghost before_p = vp + arm_uses(arms@.take(i as int), dg, dp, true);
                assert(decreases_to!(*statement => arms@[i as int]));
                assert(arms@.take(i + 1).drop_last() =~= arms@.take(i as int));
                assert(arms@.take(i + 1).last() == arms@[i as int]);
                match &arms[i] {
                    SwitchArm::Case { value: case, body, .. } => {
                        assert forall|k: int| 0 <= k < body@.len() implies decreases_to!(
                            *statement => body@[k]) by {
                            assert(decreases_to!(arms@[i as int] => body@[k]));
                        }
                        collect_implicit_expr(case, declared_globals, declared_players, globals, players);
                        collect_body(body, declared_globals, declared_players, globals, players, Ghost(*statement));
                        proof {
                            let (cg, bg) = (uses(**case, dg, dp, false), stmts_uses(body@, dg, dp, false));
                            let (cp, bp) = (uses(**case, dg, dp, true), stmts_uses(body@, dg, dp, true));
                            lemma_record_all_concat(table_view(g0), before_g, cg);
                            lemma_record_all_concat(table_view(g0), before_g + cg, bg);
                            lemma_record_all_concat(table_view(p0), before_p, cp);
                            lemma_record_all_concat(table_view(p0), before_p + cp, bp);
                            assert(vg + arm_uses(arms@.take(i + 1), dg, dp, false) =~= before_g + cg + bg);
                            assert(vp + arm_uses(arms@.take(i + 1), dg, dp, true) =~= before_p + cp + bp);
                        }
                    },
                    SwitchArm::Default { body, .. } => {
                        assert forall|k: int| 0 <= k < body@.len() implies decreases_to!(
                            *statement => body@[k]) by {
                            assert(decreases_to!(arms@[i as int] => body@[k]));
                        }
                        collect_body(body, declared_globals, declared_players, globals, players, Ghost(*statement));
                        proof {
                            let bg = stmts_uses(body@, dg, dp, false);
                            let bp = stmts_uses(body@, dg, dp, true);
                            lemma_record_all_concat(table_view(g0), before_g, bg);
                            lemma_record_all_concat(table_view(p0), before_p, bp);
                            assert(vg + arm_uses(arms@.take(i + 1), dg, dp, false) =~= before_g + bg);
                            assert(vp + arm_uses(arms@.take(i + 1), dg, dp, true) =~= before_p + bp);
                        }
                    },
                }
                i = i + 1;
            }
            assert(arms@.take(arms@.len() as int) =~= arms@);
        },
        Stmt::Goto { offset, .. } => {
            if let Some(offset) = offset {
                collect_implicit_expr(offset, declared_globals, declared_players, globals, players);
            }
        },
        _ => {},
    }
}

/// Collect every undeclared default variable that the statements use.
pub fn collect_implicit_stmts(
    statements: &[Stmt],
    declared_globals: &Vec<String>,
    declared_players: &Vec<String>,
    globals: &mut Vec<(String, Option<Span>)>,
    players: &mut Vec<(String, Option<Span>)>,
)
    ensures
        visited(
            final(globals)@,
            final(players)@,
            old(globals)@,
            old(players)@,
            stmts_uses(statements@, views(declared_globals@), views(declared_players@), false),
            stmts_uses(statements@, views(declared_globals@), views(declared_players@), true),
        ),
{
    let ghost dg = views(declared_globals@);
    let ghost dp = views(declared_players@);
    let ghost g0 = globals@;
    let ghost p0 = players@;
    let mut k: usize = 0;
    assert(statements@.take(0) =~= Seq::<Stmt>::empty());
    while k < statements.len()
        invariant
            0 <= k <= statements@.len(),
            dg == views(declared_globals@),
            dp == views(declared_players@),
            visited(
                globals@,
                players@,
                g0,
                p0,
                stmts_uses(statements@.take(k as int), dg, dp, false),
                stmts_uses(statements@.take(k as int), dg, dp, true),
            ),
        decreases statements@.len() - k,
    {
        let ghost before_g = stmts_uses(statements@.take(k as int), dg, dp, false);
        let ghost before_p = stmts_uses(statements@.take(k as int), dg, dp, true);
        collect_statement(&statements[k], declared_globals, declared_players, globals, players);
        assert(statements@.take(k + 1).drop_last() =~= statements@.take(k as int));
        assert(statements@.take(k + 1).last() == statements@[k as int]);
        proof {
            lemma_record_all_concat(table_view(g0), before_g, stmt_uses(statements@[k as int], dg, dp, false));
            lemma_record_all_concat(table_view(p0), before_p, stmt_uses(statements@[k as int], dg, dp, true));
        }
        k = k + 1;
    }
    assert(statements@.take(statements@.len() as int) =~= statements@);
}


/// Whether every use in `s` is of a default variable that `declared` does
/// not declare.
pub open spec fn all_implicit(s: Seq<Use>, declared: Seq<Seq<char>>) -> bool {
    forall|i: int| 0 <= i < s.len() ==> is_implicit(#[trigger] s[i].0, declared)
}

proof fn lemma_all_implicit_concat(a: Seq<Use>, b: Seq<Use>, declared: Seq<Seq<char>>)
    requires
        all_implicit(a, declared),
        all_implicit(b, declared),
    ensures
        all_implicit(a + b, declared),
{
    assert forall|i: int| 0 <= i < (a + b).len() implies is_implicit(#[trigger] (a + b)[i].0, declared) by {
        if i < a.len() {
            assert((a + b)[i] == a[i]);
        } else {
            assert((a + b)[i] == b[i - a.len()]);
        }
    }
}

/// The names an expression's uses record are undeclared default variables.
proof fn lemma_uses_implicit(e: Expr, dg: Seq<Seq<char>>, dp: Seq<Seq<char>>, player: bool)
    ensures
        all_implicit(uses(e, dg, dp, player), if player { dp } else { dg }),
    decreases e, 0nat,
{
    let d = if player { dp } else { dg };
    match e {
        Expr::PlayerVar { player: p, .. } => {
            lemma_uses_implicit(*p, dg, dp, player);
            lemma_all_implicit_concat(
                if player && is_implicit(e->PlayerVar_name@, dp) {
                    seq![(e->PlayerVar_name@, first_span(e->PlayerVar_member_span, e->PlayerVar_span))]
                } else {
                    Seq::empty()
                },
                uses(*p, dg, dp, player),
                d,
            );
        },
        Expr::Member { receiver, member, span, .. } => {
            lemma_uses_implicit(*receiver, dg, dp, player);
            lemma_all_implicit_concat(
                if player && is_implicit(member@, dp) {
                    seq![(member@, span)]
                } else {
                    Seq::empty()
                },
                uses(*receiver, dg, dp, player),
                d,
            );
        },
        Expr::Array { elements, .. } => lemma_uses_list_implicit(elements@, dg, dp, player),
        Expr::Dict { entries, .. } => lemma_uses_entries_implicit(entries@, dg, dp, player),
        Expr::Comprehension { element, iterable, condition, .. } => {
            lemma_uses_implicit(*element, dg, dp, player);
            lemma_uses_implicit(*iterable, dg, dp, player);
            lemma_all_implicit_concat(uses(*element, dg, dp, player), uses(*iterable, dg, dp, player), d);
            let c = match condition {
                Some(c) => uses(*c, dg, dp, player),
                None => Seq::empty(),
            };
            match condition {
                Some(x) => lemma_uses_implicit(*x, dg, dp, player),
                None => {},
            }
            lemma_all_implicit_concat(uses(*element, dg, dp, player) + uses(*iterable, dg, dp, player), c, d);
        },
        Expr::Lambda { body, .. } => lemma_uses_implicit(*body, dg, dp, player),
        Expr::Type { args, .. } => lemma_uses_list_implicit(args@, dg, dp, player),
        Expr::Call { args, .. } => lemma_uses_list_implicit(args@, dg, dp, player),
        Expr::MacroCall { args, .. } => lemma_uses_list_implicit(args@, dg, dp, player),
        Expr::Format { args, .. } => lemma_uses_list_implicit(args@, dg, dp, player),
        Expr::Vector { x, y, z, .. } => {
            lemma_uses_implicit(*x, dg, dp, player);
            lemma_uses_implicit(*y, dg, dp, player);
            lemma_uses_implicit(*z, dg, dp, player);
            lemma_all_implicit_concat(uses(*x, dg, dp, player), uses(*y, dg, dp, player), d);
            lemma_all_implicit_concat(uses(*x, dg, dp, player) + uses(*y, dg, dp, player), uses(*z, dg, dp, player), d);
        },
        Expr::ReceiverCall { receiver, args, .. } => {
            lemma_uses_implicit(*receiver, dg, dp, player);
            lemma_uses_list_implicit(args@, dg, dp, player);
            lemma_all_implicit_concat(uses(*receiver, dg, dp, player), uses_list(args@, dg, dp, player), d);
        },
        Expr::Binary { left, right, .. } => {
            lemma_uses_implicit(*left, dg, dp, player);
            lemma_uses_implicit(*right, dg, dp, player);
            lemma_all_implicit_concat(uses(*left, dg, dp, player), uses(*right, dg, dp, player), d);
        },
        Expr::Conditional { then_value, condition, else_value, .. } => {
            lemma_uses_implicit(*then_value, dg, dp, player);
            lemma_uses_implicit(*condition, dg, dp, player);
            lemma_uses_implicit(*else_value, dg, dp, player);
            lemma_all_implicit_concat(uses(*then_value, dg, dp, player), uses(*condition, dg, dp, player), d);
            lemma_all_implicit_concat(
                uses(*then_value, dg, dp, player) + uses(*condition, dg, dp, player),
                uses(*else_value, dg, dp, player),
                d,
            );
        },
        Expr::Unary { operand, .. } => lemma_uses_implicit(*operand, dg, dp, player),
        Expr::Index { array, index, .. } => {
            lemma_uses_implicit(*array, dg, dp, player);
            lemma_uses_implicit(*index, dg, dp, player);
            lemma_all_implicit_concat(uses(*array, dg, dp, player), uses(*index, dg, dp, player), d);
        },
        _ => {},
    }
}

proof fn lemma_uses_list_implicit(s: Seq<Expr>, dg: Seq<Seq<char>>, dp: Seq<Seq<char>>, player: bool)
    ensures
        all_implicit(uses_list(s, dg, dp, player), if player { dp } else { dg }),
    decreases s, 1nat,
{
    if s.len() > 0 {
        lemma_uses_list_implicit(s.drop_last(), dg, dp, player);
        lemma_uses_implicit(s.last(), dg, dp, player);
        lemma_all_implicit_concat(
            uses_list(s.drop_last(), dg, dp, player),
            uses(s.last(), dg, dp, player),
            if player { dp } else { dg },
        );
    }
}

proof fn lemma_uses_entries_implicit(s: Seq<DictEntry>, dg: Seq<Seq<char>>, dp: Seq<Seq<char>>, player: bool)
    ensures
        all_implicit(uses_entries(s, dg, dp, player), if player { dp } else { dg }),
    decreases s, 1nat,
{
    if s.len() > 0 {
        let d = if player { dp } else { dg };
        lemma_uses_entries_implicit(s.drop_last(), dg, dp, player);
        lemma_uses_implicit(*s.last().key, dg, dp, player);
        lemma_uses_implicit(*s.last().value, dg, dp, player);
        lemma_all_implicit_concat(uses_entries(s.drop_last(), dg, dp, player), uses(*s.last().key, dg, dp, player), d);
        lemma_all_implicit_concat(
            uses_entries(s.drop_last(), dg, dp, player) + uses(*s.last().key, dg, dp, player),
            uses(*s.last().value, dg, dp, player),
            d,
        );
    }
}

/// Recording uses keeps the table's entries as they were, first span
/// included, and adds only entries taken from the uses.
proof fn lemma_record_all_keeps(t: Seq<Use>, us: Seq<Use>)
    ensures
        record_all(t, us).len() >= t.len(),
        forall|k: int| 0 <= k < t.len() ==> #[trigger] record_all(t, us)[k] == t[k],
        forall|k: int| t.len() <= k < record_all(t, us).len() ==> us.contains(#[trigger] record_all(t, us)[k]),
    decreases us.len(),
{
    if us.len() > 0 {
        lemma_record_all_keeps(t, us.drop_last());
        let prev = record_all(t, us.drop_last());
        assert forall|k: int| t.len() <= k < record_all(t, us).len() implies us.contains(
            #[trigger] record_all(t, us)[k],
        ) by {
            if k < prev.len() {
                assert(record_all(t, us)[k] == prev[k]);
                let j = choose|j: int| 0 <= j < us.drop_last().len() && us.drop_last()[j] == prev[k];
                assert(us[j] == prev[k]);
            } else {
                assert(record_all(t, us)[k] == us.last());
                assert(us[us.len() - 1] == us.last());
            }
        }
    }
}

/// Collecting the default variables of an expression keeps every entry
/// already in the tables, with the span first recorded for it, and adds
/// only undeclared default variables: globals to the global table and
/// player variables to the player table.
pub proof fn lemma_collection_keeps_first_spans(
    e: Expr,
    dg: Seq<Seq<char>>,
    dp: Seq<Seq<char>>,
    g0: Seq<Use>,
    p0: Seq<Use>,
)
    ensures
        ({
            let g = record_all(g0, uses(e, dg, dp, false));
            &&& g.len() >= g0.len()
            &&& forall|k: int| 0 <= k < g0.len() ==> #[trigger] g[k] == g0[k]
            &&& forall|k: int| g0.len() <= k < g.len() ==> is_implicit(#[trigger] g[k].0, dg)
        }),
        ({
            let p = record_all(p0, uses(e, dg, dp, true));
            &&& p.len() >= p0.len()
            &&& forall|k: int| 0 <= k < p0.len() ==> #[trigger] p[k] == p0[k]
            &&& forall|k: int| p0.len() <= k < p.len() ==> is_implicit(#[trigger] p[k].0, dp)
        }),
{
    let ug = uses(e, dg, dp, false);
    let up = uses(e, dg, dp, true);
    lemma_record_all_keeps(g0, ug);
    lemma_record_all_keeps(p0, up);
    lemma_uses_implicit(e, dg, dp, false);
    lemma_uses_implicit(e, dg, dp, true);
    let g = record_all(g0, ug);
    assert forall|k: int| g0.len() <= k < g.len() implies is_implicit(#[trigger] g[k].0, dg) by {
        assert(ug.contains(g[k]));
        let j = choose|j: int| 0 <= j < ug.len() && ug[j] == g[k];
        assert(is_implicit(ug[j].0, dg));
    }
    let p = record_all(p0, up);
    assert forall|k: int| p0.len() <= k < p.len() implies is_implicit(#[trigger] p[k].0, dp) by {
        assert(up.contains(p[k]));
        let j = choose|j: int| 0 <= j < up.len() && up[j] == p[k];
        assert(is_implicit(up[j].0, dp));
    }
}


/// A player variable used for the first time is recorded with the span of
/// its member name where it has one, else with the span of the use.
pub proof fn lemma_player_variable_first_span(e: Expr, dg: Seq<Seq<char>>, dp: Seq<Seq<char>>, p0: Seq<Use>)
    requires
        e matches Expr::PlayerVar { name, .. } && is_implicit(name@, dp) && forall|k: int|
            0 <= k < p0.len() ==> (#[trigger] p0[k]).0 != name@,
    ensures
        e matches Expr::PlayerVar { name, member_span, span, .. } && record_all(p0, uses(e, dg, dp, true)).len()
            > p0.len() && record_all(p0, uses(e, dg, dp, true))[p0.len() as int] == (
            name@,
            first_span(member_span, span),
        ),
{
    match e {
        Expr::PlayerVar { player, name, member_span, span } => {
            let u = (name@, first_span(member_span, span));
            let rest = uses(*player, dg, dp, true);
            assert(uses(e, dg, dp, true) == seq![u] + rest);
            lemma_record_all_concat(p0, seq![u], rest);
            assert(seq![u].drop_last() =~= Seq::<Use>::empty());
            assert(seq![u].last() == u);
            assert(record_all(p0, Seq::<Use>::empty()) == p0);
            assert(record_all(p0, seq![u]) == record_first(record_all(p0, seq![u].drop_last()), u));
            assert(record_all(p0, seq![u]) == record_first(p0, u));
            assert(record_first(p0, u) == p0.push(u));
            lemma_record_all_keeps(p0.push(u), rest);
            assert(record_all(p0.push(u), rest)[p0.len() as int] == p0.push(u)[p0.len() as int]);
        },
        _ => {},
    }
}

} // verus!
