//! The undeclared default variables of a whole program.
//!
//! Global and player variables have separate fixed Workshop slots; only a
//! player variable read or written through a player creates an implicit
//! player variable.
use vstd::prelude::*;
use crate::directives::{directive_names, has_directive};
use crate::hir::{Declaration, ResolvedProgram, RuleEntry, Span};
use crate::implicit::{
    collect_implicit_expr, collect_implicit_stmts, lemma_record_all_concat, record_all,
    stmts_uses, table_view, uses, uses_list, visited, Use, distinct_names, lemma_record_all_distinct,
};
use crate::strings::{str_eq, views};

verus! {

/// The names that the declarations declare as global variables (`player`
/// false) or as player variables (`player` true), in order.
pub open spec fn declared_names(ds: Seq<Declaration>, player: bool) -> Seq<Seq<char>>
    decreases ds.len(),
{
    if ds.len() == 0 {
        Seq::empty()
    } else {
        let prev = declared_names(ds.drop_last(), player);
        match ds.last() {
            Declaration::GlobalVariable { name, .. } => if player {
                prev
            } else {
                prev.push(name@)
            },
            Declaration::PlayerVariable { name, .. } => if player {
                prev.push(name@)
            } else {
                prev
            },
            _ => prev,
        }
    }
}

/// The uses in the initializers of variables and in the values of constants.
pub open spec fn declaration_uses(
    ds: Seq<Declaration>,
    dg: Seq<Seq<char>>,
    dp: Seq<Seq<char>>,
    player: bool,
) -> Seq<Use>
    decreases ds.len(),
{
    if ds.len() == 0 {
        Seq::empty()
    } else {
        declaration_uses(ds.drop_last(), dg, dp, player) + match ds.last() {
            Declaration::GlobalVariable { initializer, .. } => match initializer {
                Some(e) => uses(*e, dg, dp, player),
                None => Seq::empty(),
            },
            Declaration::PlayerVariable { initializer, .. } => match initializer {
                Some(e) => uses(*e, dg, dp, player),
                None => Seq::empty(),
            },
            Declaration::Constant { value, .. } => uses(*value, dg, dp, player),
            _ => Seq::empty(),
        }
    }
}

/// The uses in the rules, each rule's conditions before its actions, and in
/// the bodies of subroutine definitions.
pub open spec fn rule_uses(rs: Seq<RuleEntry>, dg: Seq<Seq<char>>, dp: Seq<Seq<char>>, player: bool) -> Seq<
    Use,
>
    decreases rs.len(),
{
    if rs.len() == 0 {
        Seq::empty()
    } else {
        rule_uses(rs.drop_last(), dg, dp, player) + match rs.last() {
            RuleEntry::Rule(r) => uses_list(r.conditions@, dg, dp, player) + stmts_uses(
                r.actions@,
                dg,
                dp,
                player,
            ),
            RuleEntry::SubroutineDef { body, .. } => stmts_uses(body@, dg, dp, player),
        }
    }
}

/// Every use of an undeclared default variable in the program, in the order
/// the lowering visits them.
pub open spec fn program_uses(p: ResolvedProgram, player: bool) -> Seq<Use> {
    let dg = declared_names(p.declarations@, false);
    let dp = declared_names(p.declarations@, true);
    declaration_uses(p.declarations@, dg, dp, player) + rule_uses(p.rules@, dg, dp, player)
}

/// The index of the first entry of the table named `name`.
pub open spec fn find_entry(t: Seq<Use>, name: Seq<char>) -> Option<int>
    decreases t.len(),
{
    if t.len() == 0 {
        None
    } else {
        match find_entry(t.drop_last(), name) {
            Some(i) => Some(i),
            None => if t.last().0 == name {
                Some(t.len() - 1)
            } else {
                None
            },
        }
    }
}

/// The table with `u` set: its entry replaced where the name is there,
/// added at the end where it is not.
pub open spec fn insert_entry(t: Seq<Use>, u: Use) -> Seq<Use> {
    match find_entry(t, u.0) {
        Some(i) => t.update(i, u),
        None => t.push(u),
    }
}

/// The name of the player variable that holds each player's language.
pub open spec fn language_index_name() -> Seq<char> {
    "__languageIndex__"@
}

/// The implicit player variables: those the program uses, and the language
/// index where the program translates with a player variable.
pub open spec fn implicit_players(p: ResolvedProgram) -> Seq<Use> {
    let t = record_all(Seq::empty(), program_uses(p, true));
    if directive_names(p.preprocessing.directives@).contains("translateWithPlayerVar"@) {
        insert_entry(t, (language_index_name(), None))
    } else {
        t
    }
}

/// The names that the declarations declare, as strings.
fn declared_name_list(ds: &Vec<Declaration>, player: bool) -> (r: Vec<String>)
    ensures
        views(r@) == declared_names(ds@, player),
{
    let mut r: Vec<String> = Vec::new();
    let mut i: usize = 0;
    while i < ds.len()
        invariant
            i <= ds@.len(),
            views(r@) == declared_names(ds@.take(i as int), player),
        decreases ds@.len() - i,
    {
        assert(ds@.take(i + 1).drop_last() =~= ds@.take(i as int));
        match &ds[i] {
            Declaration::GlobalVariable { name, .. } => {
                if !player {
                    r.push(name.clone());
                }
            },
            Declaration::PlayerVariable { name, .. } => {
                if player {
                    r.push(name.clone());
                }
            },
            _ => {},
        }
        assert(views(r@) =~= declared_names(ds@.take(i + 1), player));
        i = i + 1;
    }
    assert(ds@.take(ds@.len() as int) =~= ds@);
    r
}

/// Sets the entry named `name` of the table to `span`, or adds it.
fn insert_use(table: &mut Vec<(String, Option<Span>)>, name: String, span: Option<Span>)
    ensures
        table_view(final(table)@) == insert_entry(table_view(old(table)@), (name@, span)),
{
    let ghost t = table_view(table@);
    let ghost u = (name@, span);
    let mut i: usize = 0;
    while i < table.len()
        invariant
            i <= table@.len(),
            t == table_view(table@),
            t == table_view(old(table)@),
            u == (name@, span),
            find_entry(t.take(i as int), name@) is None,
        decreases table@.len() - i,
    {
        assert(t.take(i + 1).drop_last() =~= t.take(i as int));
        if str_eq(table[i].0.as_str(), name.as_str()) {
            proof {
                assert(t[i as int].0 == name@);
                assert(t.take(i + 1).last() == t[i as int]);
                assert(find_entry(t.take(i + 1), name@) == Some(i as int));
                lemma_find_entry_prefix(t, name@, i + 1);
            }
            table.set(i, (name, span));
            assert(table_view(table@) =~= t.update(i as int, u));
            return;
        }
        i = i + 1;
    }
    assert(t.take(t.len() as int) =~= t);
    table.push((name, span));
    assert(table_view(table@) =~= t.push((name@, span)));
}

/// The first entry found in a prefix is the first entry of the whole table.
proof fn lemma_find_entry_prefix(t: Seq<Use>, name: Seq<char>, n: int)
    requires
        0 <= n <= t.len(),
        find_entry(t.take(n), name) is Some,
    ensures
        find_entry(t, name) == find_entry(t.take(n), name),
    decreases t.len() - n,
{
    if n < t.len() {
        assert(t.take(n + 1).drop_last() =~= t.take(n));
        lemma_find_entry_prefix(t, name, n + 1);
    } else {
        assert(t.take(n) =~= t);
    }
}

/// The default global and player variables that the program uses without
/// declaring them, each with the span of its first use, in order of first
/// use; the player variables add the language index where the program
/// translates with a player variable.
pub fn implicit_default_variables(hir: &ResolvedProgram) -> (r: (
    Vec<(String, Option<Span>)>,
    Vec<(String, Option<Span>)>,
))
    ensures
        table_view(r.0@) == record_all(Seq::empty(), program_uses(*hir, false)),
        table_view(r.1@) == implicit_players(*hir),
{
    let declared_globals = declared_name_list(&hir.declarations, false);
    let declared_players = declared_name_list(&hir.declarations, true);
    let ghost dg = views(declared_globals@);
    let ghost dp = views(declared_players@);
    let ghost ds = hir.declarations@;
    let ghost rs = hir.rules@;
    let mut globals: Vec<(String, Option<Span>)> = Vec::new();
    let mut players: Vec<(String, Option<Span>)> = Vec::new();
    let ghost empty = Seq::<(String, Option<Span>)>::empty();
    assert(table_view(empty) =~= Seq::<Use>::empty());
    let mut i: usize = 0;
    while i < hir.declarations.len()
        invariant
            i <= ds.len(),
            ds == hir.declarations@,
            dg == views(declared_globals@),
            dp == views(declared_players@),
            table_view(empty) == Seq::<Use>::empty(),
            visited(
                globals@,
                players@,
                empty,
                empty,
                declaration_uses(ds.take(i as int), dg, dp, false),
                declaration_uses(ds.take(i as int), dg, dp, true),
            ),
        decreases ds.len() - i,
    {
        assert(ds.take(i + 1).drop_last() =~= ds.take(i as int));
        let ghost before_g = declaration_uses(ds.take(i as int), dg, dp, false);
        let ghost before_p = declaration_uses(ds.take(i as int), dg, dp, true);
        let initializer = match &hir.declarations[i] {
            Declaration::GlobalVariable { initializer, .. } => match initializer {
                Some(e) => Some(&**e),
                None => None,
            },
            Declaration::PlayerVariable { initializer, .. } => match initializer {
                Some(e) => Some(&**e),
                None => None,
            },
            Declaration::Constant { value, .. } => Some(&**value),
            _ => None,
        };
        match initializer {
            Some(expr) => {
                collect_implicit_expr(
                    expr,
                    &declared_globals,
                    &declared_players,
                    &mut globals,
                    &mut players,
                );
                proof {
                    lemma_record_all_concat(Seq::empty(), before_g, uses(*expr, dg, dp, false));
                    lemma_record_all_concat(Seq::empty(), before_p, uses(*expr, dg, dp, true));
                }
            },
            None => {
                assert(before_g + Seq::<Use>::empty() =~= before_g);
                assert(before_p + Seq::<Use>::empty() =~= before_p);
            },
        }
        i = i + 1;
    }
    assert(ds.take(ds.len() as int) =~= ds);
    let ghost decl_g = declaration_uses(ds, dg, dp, false);
    let ghost decl_p = declaration_uses(ds, dg, dp, true);
    let mut k: usize = 0;
    while k < hir.rules.len()
        invariant
            k <= rs.len(),
            rs == hir.rules@,
            dg == views(declared_globals@),
            dp == views(declared_players@),
            table_view(empty) == Seq::<Use>::empty(),
            visited(
                globals@,
                players@,
                empty,
                empty,
                decl_g + rule_uses(rs.take(k as int), dg, dp, false),
                decl_p + rule_uses(rs.take(k as int), dg, dp, true),
            ),
        decreases rs.len() - k,
    {
        assert(rs.take(k + 1).drop_last() =~= rs.take(k as int));
        let ghost before_g = decl_g + rule_uses(rs.take(k as int), dg, dp, false);
        let ghost before_p = decl_p + rule_uses(rs.take(k as int), dg, dp, true);
        match &hir.rules[k] {
            RuleEntry::Rule(rule) => {
                let mut c: usize = 0;
                while c < rule.conditions.len()
                    invariant
                        c <= rule.conditions@.len(),
                        dg == views(declared_globals@),
                        dp == views(declared_players@),
                        table_view(empty) == Seq::<Use>::empty(),
                        visited(
                            globals@,
                            players@,
                            empty,
                            empty,
                            before_g + uses_list(rule.conditions@.take(c as int), dg, dp, false),
                            before_p + uses_list(rule.conditions@.take(c as int), dg, dp, true),
                        ),
                    decreases rule.conditions@.len() - c,
                {
                    let ghost prev_g = before_g + uses_list(rule.conditions@.take(c as int), dg, dp, false);
                    let ghost prev_p = before_p + uses_list(rule.conditions@.take(c as int), dg, dp, true);
                    collect_implicit_expr(
                        &rule.conditions[c],
                        &declared_globals,
                        &declared_players,
                        &mut globals,
                        &mut players,
                    );
                    proof {
                        let e = rule.conditions@[c as int];
                        lemma_record_all_concat(Seq::empty(), prev_g, uses(e, dg, dp, false));
                        lemma_record_all_concat(Seq::empty(), prev_p, uses(e, dg, dp, true));
                        assert(rule.conditions@.take(c + 1).drop_last() =~= rule.conditions@.take(c as int));
                        assert(prev_g + uses(e, dg, dp, false) =~= before_g + uses_list(rule.conditions@.take(c + 1), dg, dp, false));
                        assert(prev_p + uses(e, dg, dp, true) =~= before_p + uses_list(rule.conditions@.take(c + 1), dg, dp, true));
                    }
                    c = c + 1;
                }
                assert(rule.conditions@.take(rule.conditions@.len() as int) =~= rule.conditions@);
                let ghost mid_g = before_g + uses_list(rule.conditions@, dg, dp, false);
                let ghost mid_p = before_p + uses_list(rule.conditions@, dg, dp, true);
                collect_implicit_stmts(
                    rule.actions.as_slice(),
                    &declared_globals,
                    &declared_players,
                    &mut globals,
                    &mut players,
                );
                proof {
                    lemma_record_all_concat(Seq::empty(), mid_g, stmts_uses(rule.actions@, dg, dp, false));
                    lemma_record_all_concat(Seq::empty(), mid_p, stmts_uses(rule.actions@, dg, dp, true));
                    assert(mid_g + stmts_uses(rule.actions@, dg, dp, false) =~= decl_g + rule_uses(rs.take(k + 1), dg, dp, false));
                    assert(mid_p + stmts_uses(rule.actions@, dg, dp, true) =~= decl_p + rule_uses(rs.take(k + 1), dg, dp, true));
                }
            },
            RuleEntry::SubroutineDef { body, .. } => {
                collect_implicit_stmts(
                    body.as_slice(),
                    &declared_globals,
                    &declared_players,
                    &mut globals,
                    &mut players,
                );
                proof {
                    lemma_record_all_concat(Seq::empty(), before_g, stmts_uses(body@, dg, dp, false));
                    lemma_record_all_concat(Seq::empty(), before_p, stmts_uses(body@, dg, dp, true));
                    assert(before_g + stmts_uses(body@, dg, dp, false) =~= decl_g + rule_uses(rs.take(k + 1), dg, dp, false));
                    assert(before_p + stmts_uses(body@, dg, dp, true) =~= decl_p + rule_uses(rs.take(k + 1), dg, dp, true));
                }
            },
        }
        k = k + 1;
    }
    assert(rs.take(rs.len() as int) =~= rs);
    if has_directive(hir, "translateWithPlayerVar") {
        insert_use(&mut players, "__languageIndex__".to_string(), None);
    }
    (globals, players)
}

/// Where no entry is found, no entry has the name; where one is found, it
/// has the name.
proof fn lemma_find_entry(t: Seq<Use>, name: Seq<char>)
    ensures
        match find_entry(t, name) {
            Some(i) => 0 <= i < t.len() && t[i].0 == name,
            None => forall|i: int| 0 <= i < t.len() ==> (#[trigger] t[i]).0 != name,
        },
    decreases t.len(),
{
    if t.len() > 0 {
        lemma_find_entry(t.drop_last(), name);
        match find_entry(t.drop_last(), name) {
            Some(i) => {},
            None => {
                assert forall|i: int| 0 <= i < t.len() - 1 implies (#[trigger] t[i]).0 != name by {
                    assert(t.drop_last()[i] == t[i]);
                }
            },
        }
    }
}

/// The implicit global and player variables are each listed once.
pub proof fn lemma_implicit_tables_distinct(p: ResolvedProgram)
    ensures
        distinct_names(record_all(Seq::empty(), program_uses(p, false))),
        distinct_names(implicit_players(p)),
{
    lemma_record_all_distinct(Seq::empty(), program_uses(p, false));
    lemma_record_all_distinct(Seq::empty(), program_uses(p, true));
    let t = record_all(Seq::empty(), program_uses(p, true));
    let u = (language_index_name(), None::<Span>);
    lemma_find_entry(t, u.0);
    match find_entry(t, u.0) {
        Some(i) => {
            let n = t.update(i, u);
            assert forall|a: int, b: int| 0 <= a < b < n.len() implies (#[trigger] n[a]).0
                != (#[trigger] n[b]).0 by {
                assert(t[a].0 != t[b].0);
            }
        },
        None => {
            let n = t.push(u);
            assert forall|a: int, b: int| 0 <= a < b < n.len() implies (#[trigger] n[a]).0
                != (#[trigger] n[b]).0 by {
                if b == t.len() {
                    assert(n[a] == t[a]);
                } else {
                    assert(n[a] == t[a]);
                    assert(n[b] == t[b]);
                }
            }
        },
    }
}

} // verus!
