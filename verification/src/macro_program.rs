//! Macro expansion over a whole program: variable initializers, rule event
//! arguments, conditions and actions, and subroutine bodies.
use vstd::prelude::*;
use crate::diagnostics::IntegrationError;
use crate::hir::{Declaration, Event, Expr, ResolvedProgram, Rule, RuleEntry, Stmt};
use crate::macros::{
    copy_stmts, err_expr, err_exprs, err_stmts, error_view, first_error, ok_expr, ok_exprs,
    ok_stmts, same_stmts, ErrorView, MacroBindings, MacroDef, MacroExpander, MacroTable,
};
use crate::strings::views;
use crate::macro_free::{free_expr, free_exprs, free_stmts};

verus! {

/// Whether `defs` are the macro declarations of `ds`, in order: the same
/// names and parameters, and bodies that are the same statements.
pub open spec fn macros_of(ds: Seq<Declaration>, defs: Seq<MacroDef>) -> bool
    decreases ds.len(),
{
    if ds.len() == 0 {
        defs.len() == 0
    } else {
        match ds.last() {
            Declaration::Macro { name, args, body, .. } => {
                &&& defs.len() > 0
                &&& defs.last().name == name
                &&& defs.last().params@ == args@
                &&& same_stmts(defs.last().body@, body@)
                &&& macros_of(ds.drop_last(), defs.drop_last())
            },
            _ => macros_of(ds.drop_last(), defs),
        }
    }
}

impl MacroExpander {
    /// An expander over the macros that a program declares.
    pub fn from_program(program: &ResolvedProgram) -> (x: Self)
        ensures
            macros_of(program.declarations@, x.table.defs@),
            !x.table.attribute_to_site,
            x.stack@.len() == 0,
    {
        let ds = &program.declarations;
        let mut defs: Vec<MacroDef> = Vec::new();
        let mut i: usize = 0;
        assert(ds@.take(0) =~= Seq::<Declaration>::empty());
        while i < ds.len()
            invariant
                i <= ds@.len(),
                ds@ == program.declarations@,
                macros_of(ds@.take(i as int), defs@),
            decreases ds@.len() - i,
        {
            assert(ds@.take(i + 1).drop_last() =~= ds@.take(i as int));
            assert(ds@.take(i + 1).last() == ds@[i as int]);
            if let Declaration::Macro { name, args, body, .. } = &ds[i] {
                let ghost before = defs@;
                let mut params: Vec<String> = Vec::new();
                let mut k: usize = 0;
                while k < args.len()
                    invariant
                        k <= args@.len(),
                        params@ == args@.take(k as int),
                    decreases args@.len() - k,
                {
                    params.push(args[k].clone());
                    k = k + 1;
                    assert(params@ =~= args@.take(k as int));
                }
                assert(args@.take(args@.len() as int) =~= args@);
                defs.push(MacroDef { name: name.clone(), params, body: copy_stmts(body) });
                assert(defs@.drop_last() =~= before);
            }
            i = i + 1;
        }
        assert(ds@.take(ds@.len() as int) =~= ds@);
        MacroExpander::new(defs, false)
    }
}

/// The first error that expanding a declaration meets.
pub open spec fn decl_error(t: MacroTable, d: Declaration) -> Option<ErrorView> {
    match d {
        Declaration::GlobalVariable { initializer: Some(e), .. } => err_expr(
            t,
            Seq::empty(),
            Seq::empty(),
            *e,
        ),
        Declaration::PlayerVariable { initializer: Some(e), .. } => err_expr(
            t,
            Seq::empty(),
            Seq::empty(),
            *e,
        ),
        _ => None,
    }
}

/// The first error that expanding the declarations in order meets.
pub open spec fn decls_error(t: MacroTable, ds: Seq<Declaration>) -> Option<ErrorView>
    decreases ds.len(),
{
    if ds.len() == 0 {
        None
    } else {
        first_error(decls_error(t, ds.drop_last()), decl_error(t, ds.last()))
    }
}

/// The first error that expanding a rule meets: its event arguments, then
/// its conditions, then its actions.
pub open spec fn rule_error(t: MacroTable, r: RuleEntry) -> Option<ErrorView> {
    match r {
        RuleEntry::Rule(rule) => first_error(
            err_exprs(t, Seq::empty(), Seq::empty(), rule.event.args@),
            first_error(
                err_exprs(t, Seq::empty(), Seq::empty(), rule.conditions@),
                err_stmts(t, Seq::empty(), Seq::empty(), rule.actions@),
            ),
        ),
        RuleEntry::SubroutineDef { body, .. } => err_stmts(t, Seq::empty(), Seq::empty(), body@),
    }
}

pub open spec fn rules_error(t: MacroTable, rs: Seq<RuleEntry>) -> Option<ErrorView>
    decreases rs.len(),
{
    if rs.len() == 0 {
        None
    } else {
        first_error(rules_error(t, rs.drop_last()), rule_error(t, rs.last()))
    }
}

/// The first error that expanding a program meets: its declarations first,
/// then its rules.
pub open spec fn program_error(t: MacroTable, p: ResolvedProgram) -> Option<ErrorView> {
    first_error(decls_error(t, p.declarations@), rules_error(t, p.rules@))
}

/// Whether `n` is the declaration `d` with its initializer expanded.
pub open spec fn decl_expanded(t: MacroTable, d: Declaration, n: Declaration) -> bool {
    match (d, n) {
        (
            Declaration::GlobalVariable { name, index, span, name_span, initializer },
            Declaration::GlobalVariable {
                name: n2,
                index: i2,
                span: s2,
                name_span: ns2,
                initializer: in2,
            },
        ) => n2 == name && i2 == index && s2 == span && ns2 == name_span && match (
            initializer,
            in2,
        ) {
            (Some(a), Some(b)) => ok_expr(t, Seq::empty(), Seq::empty(), Seq::empty(), *a, *b),
            (None, None) => true,
            _ => false,
        },
        (
            Declaration::PlayerVariable { name, index, span, name_span, initializer },
            Declaration::PlayerVariable {
                name: n2,
                index: i2,
                span: s2,
                name_span: ns2,
                initializer: in2,
            },
        ) => n2 == name && i2 == index && s2 == span && ns2 == name_span && match (
            initializer,
            in2,
        ) {
            (Some(a), Some(b)) => ok_expr(t, Seq::empty(), Seq::empty(), Seq::empty(), *a, *b),
            (None, None) => true,
            _ => false,
        },
        (Declaration::GlobalVariable { .. }, _) => false,
        (Declaration::PlayerVariable { .. }, _) => false,
        _ => n == d,
    }
}

/// Whether `n` is the rule entry `r` with its macros expanded.
pub open spec fn rule_expanded(t: MacroTable, r: RuleEntry, n: RuleEntry) -> bool {
    match (r, n) {
        (RuleEntry::Rule(a), RuleEntry::Rule(b)) => {
            &&& b.name == a.name && b.span == a.span && b.event.name == a.event.name
            &&& b.annotations == a.annotations && b.new_page == a.new_page
            &&& ok_exprs(t, Seq::empty(), Seq::empty(), Seq::empty(), a.event.args@, b.event.args@)
            &&& ok_exprs(t, Seq::empty(), Seq::empty(), Seq::empty(), a.conditions@, b.conditions@)
            &&& ok_stmts(t, Seq::empty(), Seq::empty(), Seq::empty(), a.actions@, b.actions@)
        },
        (
            RuleEntry::SubroutineDef { name, body, span },
            RuleEntry::SubroutineDef { name: n2, body: b2, span: s2 },
        ) => n2 == name && s2 == span && ok_stmts(
            t,
            Seq::empty(),
            Seq::empty(),
            Seq::empty(),
            body@,
            b2@,
        ),
        _ => false,
    }
}

/// Whether no initializer and no rule of a program holds a macro call or a
/// macro parameter.
pub open spec fn program_free(n: ResolvedProgram) -> bool {
    &&& forall|i: int|
        0 <= i < n.declarations@.len() ==> match #[trigger] n.declarations@[i] {
            Declaration::GlobalVariable { initializer: Some(e), .. } => free_expr(*e),
            Declaration::PlayerVariable { initializer: Some(e), .. } => free_expr(*e),
            _ => true,
        }
    &&& forall|i: int|
        0 <= i < n.rules@.len() ==> match #[trigger] n.rules@[i] {
            RuleEntry::Rule(rule) => free_exprs(rule.event.args@) && free_exprs(rule.conditions@)
                && free_stmts(rule.actions@),
            RuleEntry::SubroutineDef { body, .. } => free_stmts(body@),
        }
}

/// Whether `n` is the program `p` with every macro expanded against `t`.
pub open spec fn program_expanded(t: MacroTable, p: ResolvedProgram, n: ResolvedProgram) -> bool {
    &&& n.files == p.files
    &&& n.preprocessing == p.preprocessing
    &&& n.settings == p.settings
    &&& n.declarations@.len() == p.declarations@.len()
    &&& forall|i: int|
        0 <= i < p.declarations@.len() ==> decl_expanded(
            t,
            #[trigger] p.declarations@[i],
            n.declarations@[i],
        )
    &&& n.rules@.len() == p.rules@.len()
    &&& forall|i: int|
        0 <= i < p.rules@.len() ==> rule_expanded(t, #[trigger] p.rules@[i], n.rules@[i])
}

fn expand_args(x: &mut MacroExpander, args: &Vec<Expr>) -> (r: Result<Vec<Expr>, IntegrationError>)
    requires
        old(x).stack@.len() == 0,
    ensures
        final(x).table == old(x).table,
        final(x).stack@.len() == 0,
        r matches Ok(v) ==> free_exprs(v@),
        match r {
            Ok(v) => err_exprs(old(x).table, Seq::empty(), Seq::empty(), args@) is None && ok_exprs(
                old(x).table,
                Seq::empty(),
                Seq::empty(),
                Seq::empty(),
                args@,
                v@,
            ),
            Err(e) => err_exprs(old(x).table, Seq::empty(), Seq::empty(), args@) == Some(
                error_view(e),
            ) && e.diagnostic.script is None,
        },
{
    let empty = MacroBindings::new();
    let ghost t = x.table;
    proof {
        assert(views(x.stack@) =~= Seq::<Seq<char>>::empty());
        assert(crate::macros::keys_of(empty) =~= Seq::<Seq<char>>::empty());
        crate::macros::lemma_exprs_size(args@);
    }
    let mut out: Vec<Expr> = Vec::new();
    let mut i: usize = 0;
    assert(args@.subrange(0, args@.len() as int) =~= args@);
    while i < args.len()
        invariant
            i <= args@.len(),
            x.table == t,
            t == old(x).table,
            x.stack@.len() == 0,
            empty.names@.len() == 0 && empty.values@.len() == 0,
            out@.len() == i,
            free_exprs(out@),
            forall|j: int|
                0 <= j < i ==> ok_expr(
                    t,
                    Seq::empty(),
                    Seq::empty(),
                    Seq::empty(),
                    #[trigger] args@[j],
                    out@[j],
                ),
            err_exprs(t, Seq::empty(), Seq::empty(), args@) == err_exprs(
                t,
                Seq::empty(),
                Seq::empty(),
                args@.subrange(i as int, args@.len() as int),
            ),
        decreases args@.len() - i,
    {
        let ghost rest = args@.subrange(i as int, args@.len() as int);
        assert(rest[0] == args@[i as int]);
        assert(rest.subrange(1, rest.len() as int) =~= args@.subrange(i + 1, args@.len() as int));
        proof {
            assert(views(x.stack@) =~= Seq::<Seq<char>>::empty());
            assert(crate::macros::keys_of(empty) =~= Seq::<Seq<char>>::empty());
            assert(empty.names@ =~= Seq::<String>::empty());
            assert(empty.values@ =~= Seq::<Expr>::empty());
        }
        assert(free_exprs(empty.values@));
        let ghost before = out@;
        match x.expand_expr(&args[i], &empty) {
            Ok(v) => {
                out.push(v);
                assert(free_exprs(out@)) by {
                    assert forall|j: int| 0 <= j < out@.len() implies free_expr(#[trigger] out@[j]) by {
                        if j < out@.len() - 1 {
                            assert(out@[j] == before[j]);
                        }
                    }
                }
            },
            Err(e) => {
                return Err(e);
            },
        }
        i = i + 1;
    }
    assert(args@.subrange(args@.len() as int, args@.len() as int) =~= Seq::<Expr>::empty());
    Ok(out)
}

fn expand_body(x: &mut MacroExpander, body: &Vec<Stmt>) -> (r: Result<Vec<Stmt>, IntegrationError>)
    requires
        old(x).stack@.len() == 0,
    ensures
        final(x).table == old(x).table,
        final(x).stack@.len() == 0,
        r matches Ok(v) ==> free_stmts(v@),
        match r {
            Ok(v) => err_stmts(old(x).table, Seq::empty(), Seq::empty(), body@) is None && ok_stmts(
                old(x).table,
                Seq::empty(),
                Seq::empty(),
                Seq::empty(),
                body@,
                v@,
            ),
            Err(e) => err_stmts(old(x).table, Seq::empty(), Seq::empty(), body@) == Some(
                error_view(e),
            ) && e.diagnostic.script is None,
        },
{
    let empty = MacroBindings::new();
    proof {
        assert(views(x.stack@) =~= Seq::<Seq<char>>::empty());
        assert(crate::macros::keys_of(empty) =~= Seq::<Seq<char>>::empty());
        assert(empty.names@ =~= Seq::<String>::empty());
        assert(empty.values@ =~= Seq::<Expr>::empty());
        assert(free_exprs(empty.values@));
    }
    x.expand_stmts(body, &empty)
}

fn expand_initializer(x: &mut MacroExpander, e: &Expr) -> (r: Result<Expr, IntegrationError>)
    requires
        old(x).stack@.len() == 0,
    ensures
        final(x).table == old(x).table,
        final(x).stack@.len() == 0,
        r matches Ok(v) ==> free_expr(v),
        match r {
            Ok(v) => err_expr(old(x).table, Seq::empty(), Seq::empty(), *e) is None && ok_expr(
                old(x).table,
                Seq::empty(),
                Seq::empty(),
                Seq::empty(),
                *e,
                v,
            ),
            Err(err) => err_expr(old(x).table, Seq::empty(), Seq::empty(), *e) == Some(
                error_view(err),
            ) && err.diagnostic.script is None,
        },
{
    let empty = MacroBindings::new();
    proof {
        assert(views(x.stack@) =~= Seq::<Seq<char>>::empty());
        assert(crate::macros::keys_of(empty) =~= Seq::<Seq<char>>::empty());
        assert(empty.names@ =~= Seq::<String>::empty());
        assert(empty.values@ =~= Seq::<Expr>::empty());
        assert(free_exprs(empty.values@));
    }
    x.expand_expr(e, &empty)
}

/// Whether `r` is what expanding the program `p` against the table `t` gives.
pub open spec fn expansion_result(t: MacroTable, p: ResolvedProgram, r: Result<ResolvedProgram, IntegrationError>) -> bool {
    match r {
        Ok(n) => program_error(t, p) is None && program_expanded(t, p, n) && program_free(n),
        Err(e) => program_error(t, p) == Some(error_view(e)) && e.diagnostic.script is None,
    }
}

/// Expand every macro of a program; with `attribute_to_site`, expanded code
/// takes the span of the call that produced it.
pub fn expand_macros_with(program: ResolvedProgram, attribute_to_site: bool) -> (r: Result<
    ResolvedProgram,
    IntegrationError,
>)
    ensures
        exists|t: MacroTable|
            {
                &&& macros_of(program.declarations@, t.defs@)
                &&& t.attribute_to_site == attribute_to_site
                &&& #[trigger] expansion_result(t, program, r)
            },
{
    let mut x = MacroExpander::from_program(&program);
    x.table.attribute_to_site = attribute_to_site;
    let ghost t = x.table;
    let ghost p = program;
    let r = expand_with(x, program);
    assert(macros_of(p.declarations@, t.defs@) && t.attribute_to_site == attribute_to_site
        && expansion_result(t, p, r));
    r
}

fn expand_with(expander: MacroExpander, program: ResolvedProgram) -> (r: Result<
    ResolvedProgram,
    IntegrationError,
>)
    requires
        expander.stack@.len() == 0,
    ensures
        expansion_result(expander.table, program, r),
{
    let mut x = expander;
    let ghost t = x.table;
    let ghost p = program;
    let ResolvedProgram { files, declarations, rules, preprocessing, settings } = program;
    let mut rest = declarations;
    let mut decls: Vec<Declaration> = Vec::new();
    let mut k: usize = 0;
    let ghost ds = p.declarations@;
    let total = rest.len();
    while rest.len() > 0
        invariant
            x.table == t,
            t == expander.table,
            p == program,
            ds == p.declarations@,
            ds.len() == total,
            x.stack@.len() == 0,
            k <= ds.len(),
            rest@ == ds.skip(k as int),
            decls@.len() == k,
            forall|i: int| 0 <= i < k ==> decl_expanded(t, #[trigger] ds[i], decls@[i]),
            forall|i: int|
                0 <= i < k ==> match #[trigger] decls@[i] {
                    Declaration::GlobalVariable { initializer: Some(e), .. } => free_expr(*e),
                    Declaration::PlayerVariable { initializer: Some(e), .. } => free_expr(*e),
                    _ => true,
                },
            decls_error(t, ds.take(k as int)) is None,
        decreases rest@.len(),
    {
        assert(ds.skip(k as int)[0] == ds[k as int]);
        let d = rest.remove(0);
        assert(rest@ =~= ds.skip(k + 1));
        assert(ds.take(k + 1).drop_last() =~= ds.take(k as int));
        assert(ds.take(k + 1).last() == ds[k as int]);
        let n = match d {
            Declaration::GlobalVariable { name, index, span, name_span, initializer } => {
                let init = match initializer {
                    Some(e) => match expand_initializer(&mut x, &e) {
                        Ok(v) => Some(Box::new(v)),
                        Err(err) => {
                            assert(first_error(decls_error(t, ds.take(k as int)), decl_error(t, ds[k as int])) == Some(error_view(err)));
                            assert(decls_error(t, ds) == Some(error_view(err))) by {
                                lemma_decls_error_prefix(t, ds, (k + 1) as int);
                            }
                            return Err(err);
                        },
                    },
                    None => None,
                };
                Declaration::GlobalVariable { name, index, span, name_span, initializer: init }
            },
            Declaration::PlayerVariable { name, index, span, name_span, initializer } => {
                let init = match initializer {
                    Some(e) => match expand_initializer(&mut x, &e) {
                        Ok(v) => Some(Box::new(v)),
                        Err(err) => {
                            assert(first_error(decls_error(t, ds.take(k as int)), decl_error(t, ds[k as int])) == Some(error_view(err)));
                            assert(decls_error(t, ds) == Some(error_view(err))) by {
                                lemma_decls_error_prefix(t, ds, (k + 1) as int);
                            }
                            return Err(err);
                        },
                    },
                    None => None,
                };
                Declaration::PlayerVariable { name, index, span, name_span, initializer: init }
            },
            other => other,
        };
        decls.push(n);
        k = k + 1;
    }
    assert(ds.take(ds.len() as int) =~= ds);
    let mut rest_rules = rules;
    let mut out_rules: Vec<RuleEntry> = Vec::new();
    let mut m: usize = 0;
    let ghost rs = p.rules@;
    let total_rules = rest_rules.len();
    while rest_rules.len() > 0
        invariant
            x.table == t,
            t == expander.table,
            p == program,
            ds == p.declarations@,
            rs == p.rules@,
            rs.len() == total_rules,
            x.stack@.len() == 0,
            decls_error(t, ds) is None,
            m <= rs.len(),
            rest_rules@ == rs.skip(m as int),
            out_rules@.len() == m,
            forall|i: int| 0 <= i < m ==> rule_expanded(t, #[trigger] rs[i], out_rules@[i]),
            forall|i: int|
                0 <= i < ds.len() ==> match #[trigger] decls@[i] {
                    Declaration::GlobalVariable { initializer: Some(e), .. } => free_expr(*e),
                    Declaration::PlayerVariable { initializer: Some(e), .. } => free_expr(*e),
                    _ => true,
                },
            decls@.len() == ds.len(),
            forall|i: int| 0 <= i < ds.len() ==> decl_expanded(t, #[trigger] ds[i], decls@[i]),
            forall|i: int|
                0 <= i < m ==> match #[trigger] out_rules@[i] {
                    RuleEntry::Rule(rule) => free_exprs(rule.event.args@) && free_exprs(
                        rule.conditions@,
                    ) && free_stmts(rule.actions@),
                    RuleEntry::SubroutineDef { body, .. } => free_stmts(body@),
                },
            rules_error(t, rs.take(m as int)) is None,
        decreases rest_rules@.len(),
    {
        assert(rs.skip(m as int)[0] == rs[m as int]);
        let entry = rest_rules.remove(0);
        assert(rest_rules@ =~= rs.skip(m + 1));
        assert(rs.take(m + 1).drop_last() =~= rs.take(m as int));
        assert(rs.take(m + 1).last() == rs[m as int]);
        let n = match entry {
            RuleEntry::Rule(rule) => {
                let Rule { name, event, conditions, actions, annotations, new_page, span } = rule;
                let Event { name: event_name, args } = event;
                let args2 = match expand_args(&mut x, &args) {
                    Ok(v) => v,
                    Err(err) => {
                        assert(rules_error(t, rs) == Some(error_view(err))) by {
                            lemma_rules_error_prefix(t, rs, (m + 1) as int);
                        }
                        return Err(err);
                    },
                };
                let conditions2 = match expand_args(&mut x, &conditions) {
                    Ok(v) => v,
                    Err(err) => {
                        assert(rules_error(t, rs) == Some(error_view(err))) by {
                            lemma_rules_error_prefix(t, rs, (m + 1) as int);
                        }
                        return Err(err);
                    },
                };
                let actions2 = match expand_body(&mut x, &actions) {
                    Ok(v) => v,
                    Err(err) => {
                        assert(rules_error(t, rs) == Some(error_view(err))) by {
                            lemma_rules_error_prefix(t, rs, (m + 1) as int);
                        }
                        return Err(err);
                    },
                };
                RuleEntry::Rule(
                    Rule {
                        name,
                        event: Event { name: event_name, args: args2 },
                        conditions: conditions2,
                        actions: actions2,
                        annotations,
                        new_page,
                        span,
                    },
                )
            },
            RuleEntry::SubroutineDef { name, body, span } => {
                let body2 = match expand_body(&mut x, &body) {
                    Ok(v) => v,
                    Err(err) => {
                        assert(rules_error(t, rs) == Some(error_view(err))) by {
                            lemma_rules_error_prefix(t, rs, (m + 1) as int);
                        }
                        return Err(err);
                    },
                };
                RuleEntry::SubroutineDef { name, body: body2, span }
            },
        };
        out_rules.push(n);
        m = m + 1;
    }
    assert(rs.take(rs.len() as int) =~= rs);
    let n = ResolvedProgram { files, declarations: decls, rules: out_rules, preprocessing, settings };
    assert(program_expanded(t, p, n));
    assert(program_free(n));
    Ok(n)
}

/// An error in the first `k` declarations is the first error of all of them.
pub proof fn lemma_decls_error_prefix(t: MacroTable, ds: Seq<Declaration>, k: int)
    requires
        0 <= k <= ds.len(),
        decls_error(t, ds.take(k)) is Some,
    ensures
        decls_error(t, ds) == decls_error(t, ds.take(k)),
    decreases ds.len() - k,
{
    if k < ds.len() {
        assert(ds.take(k + 1).drop_last() =~= ds.take(k));
        lemma_decls_error_prefix(t, ds, k + 1);
    } else {
        assert(ds.take(k) =~= ds);
    }
}

/// An error in the first `k` rules is the first error of all of them.
pub proof fn lemma_rules_error_prefix(t: MacroTable, rs: Seq<RuleEntry>, k: int)
    requires
        0 <= k <= rs.len(),
        rules_error(t, rs.take(k)) is Some,
    ensures
        rules_error(t, rs) == rules_error(t, rs.take(k)),
    decreases rs.len() - k,
{
    if k < rs.len() {
        assert(rs.take(k + 1).drop_last() =~= rs.take(k));
        lemma_rules_error_prefix(t, rs, k + 1);
    } else {
        assert(rs.take(k) =~= rs);
    }
}

/// Expand every macro of a program, keeping the spans of macro bodies.
pub fn expand_macros(program: ResolvedProgram) -> (r: Result<ResolvedProgram, IntegrationError>)
    ensures
        exists|t: MacroTable|
            {
                &&& macros_of(program.declarations@, t.defs@)
                &&& !t.attribute_to_site
                &&& #[trigger] expansion_result(t, program, r)
            },
{
    expand_macros_with(program, false)
}

/// Expand every macro of a program with every expanded span attributed to
/// its invocation site.
pub fn expand_macros_attributed(program: ResolvedProgram) -> (r: Result<ResolvedProgram, IntegrationError>)
    ensures
        exists|t: MacroTable|
            {
                &&& macros_of(program.declarations@, t.defs@)
                &&& t.attribute_to_site
                &&& #[trigger] expansion_result(t, program, r)
            },
{
    expand_macros_with(program, true)
}

} // verus!
