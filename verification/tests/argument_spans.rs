use opy_rs::argument_origins::{mark_statement_argument_origins, ActionShape};
use opy_rs::hir::{Expr, IfBranch, Position, Span, Stmt};

fn at(line: u32) -> Option<Span> {
    Some(Span { file: 0, start: Position { line, col: 1 }, end: Position { line, col: 2 } })
}

fn num(text: &str, line: u32) -> Expr {
    Expr::Number { text: text.to_string(), span: at(line) }
}

#[test]
fn assignment_arguments_trace_value_player_and_index() {
    let target = Expr::Index {
        array: Box::new(Expr::GlobalVar { name: "a".to_string(), span: at(1) }),
        index: Box::new(num("2", 2)),
        span: at(3),
    };
    let value = Expr::Binary { op: "+".to_string(), left: Box::new(num("1", 4)), right: Box::new(num("5", 5)), span: at(6) };
    let statement = Stmt::Assign { target: Box::new(target), value: Box::new(value), span: at(7) };
    let actions = vec![
        ActionShape::Call("setGlobalVariableAtIndex".to_string()),
        ActionShape::Call("modifyGlobalVariableAtIndex".to_string()),
        ActionShape::ModifyGlobalVariable,
        ActionShape::Other,
    ];
    let mut origins = vec![Vec::new(), Vec::new(), Vec::new(), vec![at(9)]];
    mark_statement_argument_origins(&statement, &actions, &mut origins);
    assert_eq!(origins[0], vec![at(1), at(2), at(6)]);
    assert_eq!(origins[1], vec![at(1), at(2), None, at(5)]);
    assert_eq!(origins[2], vec![at(5)]);
    assert_eq!(origins[3], vec![at(9)]);
}

#[test]
fn outer_branches_take_their_condition_spans() {
    let statement = Stmt::If {
        branches: vec![
            IfBranch { condition: Box::new(num("1", 1)), body: Vec::new() },
            IfBranch { condition: Box::new(num("2", 2)), body: Vec::new() },
        ],
        else_body: None,
        span: at(3),
    };
    let actions = vec![
        ActionShape::If,
        ActionShape::If,
        ActionShape::ElseIf,
        ActionShape::End,
        ActionShape::ElseIf,
        ActionShape::End,
    ];
    let mut origins = vec![Vec::new(); 6];
    mark_statement_argument_origins(&statement, &actions, &mut origins);
    assert_eq!(origins[0], vec![at(1)]);
    assert!(origins[1].is_empty());
    assert!(origins[2].is_empty());
    assert_eq!(origins[4], vec![at(2)]);
}

#[test]
fn for_ranges_and_deletions_trace_their_parts() {
    let statement = Stmt::For {
        variable: Box::new(Expr::PlayerVar {
            player: Box::new(Expr::EventPlayer { span: at(1) }),
            name: "i".to_string(),
            member_span: at(2),
            span: at(3),
        }),
        iterable: Box::new(Expr::Call {
            name: "range".to_string(),
            args: vec![num("0", 4), num("9", 5)],
            debug_source: None,
            span: at(6),
        }),
        body: Vec::new(),
        span: at(7),
    };
    let mut origins = vec![Vec::new()];
    mark_statement_argument_origins(&statement, &vec![ActionShape::ForPlayerVariable], &mut origins);
    assert_eq!(origins[0], vec![at(1), at(4), at(5), None]);

    let target = Expr::Index {
        array: Box::new(Expr::Index {
            array: Box::new(Expr::GlobalVar { name: "a".to_string(), span: at(1) }),
            index: Box::new(num("0", 2)),
            span: at(3),
        }),
        index: Box::new(num("1", 4)),
        span: at(5),
    };
    let statement = Stmt::Delete { target: Box::new(target), span: at(6) };
    let mut origins = vec![Vec::new()];
    mark_statement_argument_origins(
        &statement,
        &vec![ActionShape::Call("modifyGlobalVariableAtIndex".to_string())],
        &mut origins,
    );
    assert_eq!(origins[0], vec![at(5), at(2), None, at(4)]);
}
