use std::collections::HashSet;

use opy_rs::allocation::allocate_indices;
use opy_rs::control::{
    contains_loop_continue, direct_conditional_dynamic_goto, direct_conditional_goto,
    pure_continue_conditions, pure_goto_conditions, switch_body_is_noop,
};
use opy_rs::directives::{directive_value, has_directive, reject_unlowered_directives};
use opy_rs::hir::{
    default_var_index, Directive, DirectiveState, Expr, IfBranch, OptimizationState, Position,
    Preprocessing, ResolvedProgram, Span, Stmt, SwitchArm,
};
use opy_rs::implicit::{collect_implicit_expr, collect_implicit_stmts};
use opy_rs::macros::{copy_expr, MacroBindings, MacroDef, MacroExpander};
use opy_rs::relocate::{relocate_expr, relocate_stmts};

fn span(line: u32) -> Option<Span> {
    Some(Span {
        file: 0,
        start: Position { line, col: 1 },
        end: Position { line, col: 5 },
    })
}

fn num(text: &str) -> Expr {
    Expr::Number { text: text.to_string(), span: span(1) }
}

fn global(name: &str) -> Expr {
    Expr::GlobalVar { name: name.to_string(), span: span(2) }
}

fn param(name: &str) -> Expr {
    Expr::MacroParam { name: name.to_string(), span: span(3) }
}

fn call(name: &str, args: Vec<Expr>) -> Expr {
    Expr::MacroCall { name: name.to_string(), args, span: span(9) }
}

fn expr_stmt(expr: Expr) -> Stmt {
    Stmt::Expr { expr: Box::new(expr), span: span(4) }
}

fn binary(op: &str, left: Expr, right: Expr) -> Expr {
    Expr::Binary {
        op: op.to_string(),
        left: Box::new(left),
        right: Box::new(right),
        span: span(5),
    }
}

fn def(name: &str, params: &[&str], body: Vec<Stmt>) -> MacroDef {
    MacroDef {
        name: name.to_string(),
        params: params.iter().map(|p| p.to_string()).collect(),
        body,
    }
}

fn default_optimization() -> OptimizationState {
    OptimizationState { enabled: true, for_size: false, for_size_aggressive: false, strict: false }
}

fn program(directives: Vec<(&str, Option<&str>)>) -> ResolvedProgram {
    ResolvedProgram {
        files: Vec::new(),
        declarations: Vec::new(),
        rules: Vec::new(),
        preprocessing: Preprocessing {
            directives: directives
                .into_iter()
                .enumerate()
                .map(|(i, (name, value))| Directive {
                    name: name.to_string(),
                    value: value.map(|v| v.to_string()),
                    span: span(i as u32 + 1),
                    state: DirectiveState { optimization: default_optimization() },
                })
                .collect(),
            optimization: default_optimization(),
            source_file_initial_optimization: Vec::new(),
            translations: None,
        },
        settings: None,
    }
}

#[test]
fn value_macro_substitutes_its_arguments() {
    let double = def("double", &["x"], vec![expr_stmt(binary("+", param("x"), param("x")))]);
    let mut expander = MacroExpander::new(vec![double], false);
    let expanded = expander
        .expand_expr(&call("double", vec![num("2")]), &MacroBindings::new())
        .unwrap();
    assert_eq!(expanded, binary("+", num("2"), num("2")));
    assert!(expander.stack.is_empty());
}

#[test]
fn a_single_statement_expands_its_value_macros() {
    let double = def("double", &["x"], vec![expr_stmt(binary("+", param("x"), param("x")))]);
    let mut expander = MacroExpander::new(vec![double], false);
    let expanded = expander
        .expand_stmt(&expr_stmt(call("double", vec![num("3")])), &MacroBindings::new())
        .unwrap();
    assert_eq!(expanded, expr_stmt(binary("+", num("3"), num("3"))));
    assert!(expander.stack.is_empty());
}

#[test]
fn statement_macro_splices_its_body() {
    let twice = def("twice", &[], vec![expr_stmt(global("a")), expr_stmt(global("b"))]);
    let mut expander = MacroExpander::new(vec![twice], false);
    let statements = vec![expr_stmt(num("1")), expr_stmt(call("twice", vec![])), Stmt::Pass { span: span(7) }];
    let expanded = expander.expand_stmts(&statements, &MacroBindings::new()).unwrap();
    assert_eq!(
        expanded,
        vec![expr_stmt(num("1")), expr_stmt(global("a")), expr_stmt(global("b")), Stmt::Pass { span: span(7) }]
    );
}

#[test]
fn later_macro_declaration_wins() {
    let first = def("m", &[], vec![expr_stmt(num("1"))]);
    let second = def("m", &[], vec![expr_stmt(num("2"))]);
    let mut expander = MacroExpander::new(vec![first, second], false);
    let expanded = expander.expand_expr(&call("m", vec![]), &MacroBindings::new()).unwrap();
    assert_eq!(expanded, num("2"));
}

#[test]
fn undeclared_macro_is_an_error() {
    let mut expander = MacroExpander::new(vec![], false);
    let error = expander.expand_expr(&call("nope", vec![]), &MacroBindings::new()).unwrap_err();
    assert_eq!(error.diagnostic.code, "unsupported-integration-surface");
    assert_eq!(error.diagnostic.message, "macro 'nope' has no declaration");
    assert_eq!(error.diagnostic.span, span(9));
}

#[test]
fn macro_arity_is_checked() {
    let one = def("one", &["x"], vec![expr_stmt(param("x"))]);
    let mut expander = MacroExpander::new(vec![one], false);
    let error = expander.expand_expr(&call("one", vec![num("1"), num("2")]), &MacroBindings::new()).unwrap_err();
    assert_eq!(error.diagnostic.code, "macro-arity");
    assert_eq!(error.diagnostic.message, "macro 'one' expects 1 argument(s) but got 2");
}

#[test]
fn recursive_macro_is_refused() {
    let rec = def("rec", &[], vec![expr_stmt(call("rec", vec![]))]);
    let mut expander = MacroExpander::new(vec![rec], false);
    let error = expander.expand_stmts(&vec![expr_stmt(call("rec", vec![]))], &MacroBindings::new()).unwrap_err();
    assert_eq!(error.diagnostic.code, "macro-recursion");
    assert_eq!(error.diagnostic.message, "recursive macro expansion detected for 'rec'");
    assert!(expander.stack.is_empty());
}

#[test]
fn unbound_macro_parameter_is_an_error() {
    let mut expander = MacroExpander::new(vec![], false);
    let error = expander.expand_expr(&param("y"), &MacroBindings::new()).unwrap_err();
    assert_eq!(error.diagnostic.code, "unsupported-integration-surface");
    assert_eq!(error.diagnostic.message, "macro parameter 'y' has no expansion binding");
}

#[test]
fn value_position_needs_one_expression() {
    let two = def("two", &[], vec![expr_stmt(num("1")), expr_stmt(num("2"))]);
    let pass = def("pass", &[], vec![Stmt::Pass { span: None }]);
    let mut expander = MacroExpander::new(vec![two, pass], false);
    let error = expander.expand_expr(&call("two", vec![]), &MacroBindings::new()).unwrap_err();
    assert_eq!(error.diagnostic.code, "macro-invalid");
    assert_eq!(error.diagnostic.message, "macro 'two' must produce one expression in value position");
    let error = expander.expand_expr(&call("pass", vec![]), &MacroBindings::new()).unwrap_err();
    assert_eq!(error.diagnostic.message, "macro 'pass' must produce an expression in value position");
}

#[test]
fn attributed_expansion_moves_spans_to_the_call() {
    let body = def("g", &[], vec![expr_stmt(global("a"))]);
    let mut expander = MacroExpander::new(vec![body], true);
    let expanded = expander.expand_macro_body("g", vec![], span(40)).unwrap();
    assert_eq!(
        expanded,
        vec![Stmt::Expr {
            expr: Box::new(Expr::GlobalVar { name: "a".to_string(), span: span(40) }),
            span: span(40)
        }]
    );
}

#[test]
fn macro_free_code_expands_to_itself() {
    let mut expander = MacroExpander::new(vec![], false);
    let e = binary("*", num("3"), global("g"));
    let expanded = expander.expand_expr(&e, &MacroBindings::new()).unwrap();
    assert_eq!(expanded, e);
    assert_eq!(copy_expr(&e), e);
}

#[test]
fn relocation_moves_every_span() {
    let mut e = binary("+", num("1"), global("g"));
    relocate_expr(&mut e, span(30).unwrap());
    assert_eq!(
        e,
        Expr::Binary {
            op: "+".to_string(),
            left: Box::new(Expr::Number { text: "1".to_string(), span: span(30) }),
            right: Box::new(Expr::GlobalVar { name: "g".to_string(), span: span(30) }),
            span: span(30),
        }
    );
    let mut statements = vec![Stmt::Pass { span: None }];
    relocate_stmts(&mut statements, span(31).unwrap());
    assert_eq!(statements, vec![Stmt::Pass { span: span(31) }]);
}

#[test]
fn continue_conditions_collect_nested_ifs() {
    let inner = Stmt::If {
        branches: vec![IfBranch { condition: Box::new(global("b")), body: vec![Stmt::Continue { span: None }] }],
        else_body: None,
        span: None,
    };
    let outer = Stmt::If {
        branches: vec![IfBranch { condition: Box::new(global("a")), body: vec![inner] }],
        else_body: None,
        span: None,
    };
    let conditions = pure_continue_conditions(&outer).unwrap();
    assert_eq!(conditions, vec![&global("a"), &global("b")]);
    assert!(contains_loop_continue(&outer));
    assert!(!contains_loop_continue(&Stmt::Pass { span: None }));
}

#[test]
fn goto_shapes_are_recognized() {
    let goto = Stmt::Goto { label: Some("end".to_string()), offset: None, rule_start: false, span: None };
    let guarded = Stmt::If {
        branches: vec![IfBranch { condition: Box::new(global("a")), body: vec![goto] }],
        else_body: None,
        span: span(6),
    };
    let (conditions, label) = pure_goto_conditions(&guarded).unwrap();
    assert_eq!(conditions, vec![&global("a")]);
    assert_eq!(label, "end");
    let (condition, label, at) = direct_conditional_goto(&guarded).unwrap();
    assert_eq!(condition, &global("a"));
    assert_eq!(label, "end");
    assert_eq!(at, span(6));
    assert!(direct_conditional_dynamic_goto(&guarded).is_none());
    let dynamic = Stmt::If {
        branches: vec![IfBranch {
            condition: Box::new(global("a")),
            body: vec![Stmt::Goto { label: None, offset: Some(Box::new(num("2"))), rule_start: false, span: None }],
        }],
        else_body: None,
        span: span(8),
    };
    let (condition, offset, at) = direct_conditional_dynamic_goto(&dynamic).unwrap();
    assert_eq!(condition, &global("a"));
    assert_eq!(offset, &num("2"));
    assert_eq!(at, span(8));
}

#[test]
fn noop_switch_bodies_hold_only_pass_and_break() {
    assert!(switch_body_is_noop(&[Stmt::Pass { span: None }, Stmt::Break { span: None }]));
    assert!(!switch_body_is_noop(&[expr_stmt(num("1"))]));
    let arms = Stmt::Switch {
        value: Box::new(global("a")),
        arms: vec![SwitchArm::Default { body: vec![Stmt::Pass { span: None }], span: None }],
        span: None,
    };
    assert!(switch_body_is_noop(&[arms]));
}

#[test]
fn implicit_default_variables_are_collected_once() {
    let statements = vec![
        Stmt::Assign { target: Box::new(global("A")), value: Box::new(global("B")), span: span(1) },
        Stmt::Assign { target: Box::new(global("A")), value: Box::new(global("x")), span: span(2) },
    ];
    let declared_globals = vec!["B".to_string()];
    let declared_players: Vec<String> = Vec::new();
    let mut globals = Vec::new();
    let mut players = Vec::new();
    collect_implicit_stmts(&statements, &declared_globals, &declared_players, &mut globals, &mut players);
    assert_eq!(globals, vec![("A".to_string(), span(2))]);
    assert!(players.is_empty());
    let mut more = Vec::new();
    collect_implicit_expr(&global("DX"), &declared_globals, &declared_players, &mut more, &mut players);
    assert_eq!(more, vec![("DX".to_string(), span(2))]);
}

#[test]
fn default_variable_names_map_to_slots() {
    assert_eq!(default_var_index("A"), Some(0));
    assert_eq!(default_var_index("BA"), Some(52));
    assert_eq!(default_var_index("DX"), Some(127));
    assert_eq!(default_var_index("DY"), None);
    assert_eq!(default_var_index("a"), None);
}

#[test]
fn explicit_indices_are_kept_and_others_fill_free_slots() {
    let entries = vec![(None, span(1)), (Some(0), span(2)), (None, span(3)), (Some(5), span(4))];
    let reserved: HashSet<u32> = [1].into_iter().collect();
    let slots = allocate_indices(&entries, &reserved, "global").unwrap();
    assert_eq!(slots, vec![2, 0, 3, 5]);
}

#[test]
fn duplicate_explicit_index_is_a_collision() {
    let entries = vec![(Some(4), span(1)), (Some(4), span(2))];
    let error = allocate_indices(&entries, &HashSet::new(), "player").unwrap_err();
    assert_eq!(error.diagnostic.code, "index-collision");
    assert_eq!(error.diagnostic.message, "duplicate explicit player index 4");
    assert_eq!(error.diagnostic.span, span(2));
    let reserved: HashSet<u32> = [7].into_iter().collect();
    let error = allocate_indices(&[(Some(7), span(3))], &reserved, "global").unwrap_err();
    assert_eq!(error.diagnostic.span, span(3));
}

#[test]
fn allocated_slots_are_distinct() {
    let entries = vec![(None, None), (Some(1), None), (None, None), (None, None)];
    let slots = allocate_indices(&entries, &HashSet::new(), "global").unwrap();
    let distinct: HashSet<u32> = slots.iter().copied().collect();
    assert_eq!(distinct.len(), slots.len());
}

#[test]
fn directives_are_found_by_name() {
    let p = program(vec![("a", Some("1")), ("b", None), ("a", Some("2"))]);
    assert!(has_directive(&p, "b"));
    assert!(!has_directive(&p, "c"));
    assert_eq!(directive_value(&p, "a"), Some("2"));
    assert_eq!(directive_value(&p, "b"), None);
    assert_eq!(directive_value(&p, "c"), None);
}

#[test]
fn unlowered_directives_are_refused_at_their_anchor() {
    assert!(reject_unlowered_directives(&program(vec![("disableOptimizations", None)])).is_ok());
    let p = program(vec![("x", None), ("writeToOutputFile", None), ("keepUnusedTranslations", None)]);
    let error = reject_unlowered_directives(&p).unwrap_err();
    assert_eq!(error.diagnostic.code, "backend-directive-unsupported");
    assert_eq!(
        error.diagnostic.message,
        "directive 'writeToOutputFile' requires an editor or translation-output capability outside the forward compiler contract"
    );
    assert_eq!(error.diagnostic.span, span(2));
}
