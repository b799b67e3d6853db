use opy_rs::hir::{Position, Span};
use opy_rs::reconstruction::{
    classify_rules, is_reserved_name, opy_string_literal, reconstruction_layout,
    reconstruction_layout_of, validate_tables, ActionKind, ProgramTables, ReconstructError,
    ReconstructIssue, RuleEvent, RuleShape, TableEntry,
};
use workshop_rs::{Action, Event, Program, Rule, Subroutine, Value, Variable};
use workshop_rs::source::{Position as WorkshopPosition, SourceFile, Span as WorkshopSpan};

fn entry(name: &str, index: Option<u32>) -> TableEntry {
    TableEntry { name: name.to_string(), index }
}

fn rule(name: &str, event: RuleEvent, actions: Vec<ActionKind>) -> RuleShape {
    RuleShape {
        name: name.to_string(),
        disabled: false,
        event,
        conditions: 0,
        actions,
        span: None,
        action_spans: Vec::new(),
    }
}

fn tables(rules: Vec<RuleShape>) -> ProgramTables {
    ProgramTables {
        has_settings: false,
        global_variables: vec![entry("score", Some(0))],
        player_variables: Vec::new(),
        subroutines: vec![entry("reset", Some(0))],
        rules,
    }
}

fn span(line: u32, col: u32) -> Span {
    Span { file: 0, start: Position { line, col }, end: Position { line, col: col + 4 } }
}

fn codes(issues: &[ReconstructIssue]) -> Vec<String> {
    issues.iter().map(|i| i.code.clone()).collect()
}

#[test]
fn clean_tables_raise_no_issue() {
    let t = tables(Vec::new());
    assert!(validate_tables(&t).is_empty());
}

#[test]
fn invalid_and_reserved_names_are_reported() {
    let mut t = tables(Vec::new());
    t.global_variables = vec![entry("1score", Some(0)), entry("if", Some(1))];
    let issues = validate_tables(&t);
    assert_eq!(codes(&issues), vec!["unsupported-name", "unsupported-name"]);
    assert_eq!(
        issues[0].message,
        "global variable name '1score' is not a valid OPY identifier on the reconstruction surface"
    );
    assert_eq!(
        issues[1].message,
        "global variable name 'if' collides with an OPY keyword or literal and cannot be referenced on the reconstruction surface"
    );
    assert!(issues[0].span.is_none());
    assert!(is_reserved_name("eventPlayer"));
    assert!(!is_reserved_name("score"));
}

#[test]
fn duplicate_names_are_reported_once_per_repeat() {
    let mut t = tables(Vec::new());
    t.player_variables = vec![entry("lives", None), entry("lives", None), entry("lives", None)];
    let issues = validate_tables(&t);
    assert_eq!(issues.len(), 2);
    assert_eq!(issues[0].code, "unsupported-duplicate-name");
    assert_eq!(issues[0].message, "duplicate player variable name 'lives'");
}

#[test]
fn global_slots_must_not_decrease() {
    let mut t = tables(Vec::new());
    t.global_variables = vec![entry("a", Some(5)), entry("b", Some(2)), entry("c", Some(7)), entry("d", None)];
    let issues = validate_tables(&t);
    assert_eq!(codes(&issues), vec!["unsupported-global-order", "unsupported-global-order"]);
    assert_eq!(
        issues[0].message,
        "global variables must be in ascending index order (slot 5 precedes slot 2)"
    );
    assert_eq!(
        issues[1].message,
        "global variables must be in ascending index order (slot 7 precedes slot 3)"
    );
}

#[test]
fn subroutine_slots_must_equal_their_position() {
    let mut t = tables(Vec::new());
    t.subroutines = vec![entry("reset", Some(3)), entry("spawn", None)];
    let issues = validate_tables(&t);
    assert_eq!(issues.len(), 1);
    assert_eq!(issues[0].code, "unsupported-subroutine-index");
    assert_eq!(
        issues[0].message,
        "subroutine 'reset' has index 3 but the OPY surface requires table position 0 (subroutine declarations cannot carry an index)"
    );
}

#[test]
fn custom_settings_are_reported_first() {
    let mut t = tables(Vec::new());
    t.has_settings = true;
    t.global_variables = vec![entry("while", None)];
    let issues = validate_tables(&t);
    assert_eq!(codes(&issues), vec!["unsupported-settings", "unsupported-name"]);
    assert_eq!(issues[0].message, "custom-game-settings are outside the reconstruction surface");
}

#[test]
fn leading_initializers_subroutine_bodies_and_rules_are_laid_out() {
    let t = tables(vec![
        rule("Initialize global variables", RuleEvent::Global, vec![ActionKind::SetGlobalVariable]),
        rule("Initialize player variables", RuleEvent::EachPlayer, vec![ActionKind::SetPlayerVariable]),
        rule("Subroutine reset", RuleEvent::Subroutine("reset".to_string()), vec![ActionKind::Other]),
        rule("main", RuleEvent::Global, vec![ActionKind::Other]),
        rule("other", RuleEvent::Other, Vec::new()),
    ]);
    let layout = reconstruction_layout(&t).ok().expect("canonical layout");
    assert_eq!(layout.global_init, Some(0));
    assert_eq!(layout.player_init, Some(1));
    assert_eq!(layout.sub_rules, vec![2]);
    assert_eq!(layout.normal_rules, vec![3, 4]);
}

#[test]
fn initializer_name_with_another_event_is_an_ordinary_rule() {
    let t = tables(vec![rule(
        "Initialize global variables",
        RuleEvent::EachPlayer,
        vec![ActionKind::SetGlobalVariable],
    )]);
    let (layout, issues) = classify_rules(&t);
    assert!(issues.is_empty());
    assert_eq!(layout.global_init, None);
    assert_eq!(layout.normal_rules, vec![0]);
}

#[test]
fn disabled_initializer_is_left_to_the_ordinary_rules() {
    let mut init = rule("Initialize global variables", RuleEvent::Global, vec![ActionKind::SetGlobalVariable]);
    init.disabled = true;
    let (layout, issues) = classify_rules(&tables(vec![init]));
    assert!(issues.is_empty());
    assert_eq!(layout.global_init, None);
    assert_eq!(layout.normal_rules, vec![0]);
}

#[test]
fn initializer_with_conditions_or_other_actions_is_reported() {
    let mut init = rule("Initialize global variables", RuleEvent::Global, vec![ActionKind::SetGlobalVariable]);
    init.conditions = 1;
    init.span = Some(span(2, 1));
    let (layout, issues) = classify_rules(&tables(vec![init]));
    assert_eq!(layout.global_init, None);
    assert_eq!(issues.len(), 1);
    assert_eq!(issues[0].code, "unsupported-init-rule");
    assert_eq!(
        issues[0].message,
        "initializer rule 'Initialize global variables' carries conditions; the frontend synthesizes it from declarations with none"
    );
    assert_eq!(issues[0].span, Some(span(2, 1)));

    let mut init = rule(
        "Initialize player variables",
        RuleEvent::EachPlayer,
        vec![ActionKind::SetPlayerVariable, ActionKind::SetGlobalVariable],
    );
    init.action_spans = vec![Some(span(3, 5)), Some(span(4, 5))];
    let (_, issues) = classify_rules(&tables(vec![init]));
    assert_eq!(
        issues[0].message,
        "initializer rule 'Initialize player variables' mixes non-Set actions; the frontend's synthesized initializer rule is all-Set"
    );
    assert_eq!(issues[0].span, Some(span(4, 5)));
}

#[test]
fn subroutine_bodies_after_rules_or_out_of_order_are_reported() {
    let mut t = tables(vec![
        rule("main", RuleEvent::Global, Vec::new()),
        rule("Subroutine spawn", RuleEvent::Subroutine("spawn".to_string()), Vec::new()),
        rule("reset body", RuleEvent::Subroutine("reset".to_string()), Vec::new()),
    ]);
    t.subroutines = vec![entry("reset", Some(0)), entry("spawn", Some(1))];
    let result = reconstruction_layout(&t);
    let error = match result {
        Err(e) => e,
        Ok(_) => panic!("the layout is not canonical"),
    };
    assert_eq!(error.issues.len(), 5);
    assert_eq!(
        error.issues[0].message,
        "subroutine-body rule 'Subroutine spawn' appears after a normal rule; the frontend re-lowering emits subroutine rules first"
    );
    assert_eq!(
        error.issues[2].message,
        "subroutine-body rules must appear in subroutine table order; 'Subroutine spawn' is out of order"
    );
    assert_eq!(
        error.issues[4].message,
        "subroutine-body rule name 'reset body' does not match the def form 'Subroutine reset' the frontend synthesizes"
    );
}

#[test]
fn subroutine_body_with_conditions_is_reported() {
    let mut body = rule("Subroutine reset", RuleEvent::Subroutine("reset".to_string()), Vec::new());
    body.conditions = 2;
    let (layout, issues) = classify_rules(&tables(vec![body]));
    assert_eq!(layout.sub_rules, vec![0]);
    assert_eq!(issues.len(), 1);
    assert_eq!(
        issues[0].message,
        "subroutine-body rule 'Subroutine reset' carries conditions; `def` bodies cannot express them"
    );
}

#[test]
fn table_issues_stop_the_rule_checks() {
    let mut t = tables(vec![rule("x", RuleEvent::Subroutine("nothing".to_string()), Vec::new())]);
    t.global_variables = vec![entry("rule", None)];
    let error = reconstruction_layout(&t).err().expect("the name is reserved");
    assert_eq!(codes(&error.issues), vec!["unsupported-name"]);
}

#[test]
fn reconstruction_error_lists_each_issue_on_its_own_line() {
    let error = ReconstructError {
        issues: vec![
            ReconstructIssue {
                code: "unsupported-name".to_string(),
                message: "bad".to_string(),
                span: Some(span(3, 7)),
            },
            ReconstructIssue { code: "unsupported-settings".to_string(), message: "no".to_string(), span: None },
        ],
    };
    assert_eq!(error.to_string(), "unsupported-name: bad at 3:7\nunsupported-settings: no");
    assert_eq!(ReconstructError { issues: Vec::new() }.to_string(), "");
}

#[test]
fn string_literals_escape_quotes_backslashes_and_controls() {
    let name = "quoted \"rule\" \\ path\nnext\u{0001}";
    assert_eq!(opy_string_literal(name), "\"quoted \\\"rule\\\" \\\\ path\\nnext\\u0001\"");
    assert_eq!(opy_string_literal("tab\there\r\u{7f}\u{9f}é"), "\"tab\\there\\r\\u007F\\u009Fé\"");
    assert_eq!(opy_string_literal(""), "\"\"");
}

#[test]
fn workshop_programs_are_read_into_the_layout() {
    let mut program = Program::new();
    program.global_variable(Variable::with_index("score", 0));
    program.subroutine(Subroutine::with_index("reset", 0));
    program.rule(Rule::new("Initialize global variables", Event::Global).action(Action::SetGlobalVariable {
        variable: "score".into(),
        value: Value::number(1.0),
    }));
    program.rule(Rule::new("Subroutine reset", Event::Subroutine("reset".into())).action(
        Action::SetGlobalVariable { variable: "score".into(), value: Value::number(0.0) },
    ));
    program.rule(Rule::new("main", Event::EachPlayer));
    let layout = reconstruction_layout_of(&program).ok().expect("canonical program");
    assert_eq!(layout.global_init, Some(0));
    assert_eq!(layout.player_init, None);
    assert_eq!(layout.sub_rules, vec![1]);
    assert_eq!(layout.normal_rules, vec![2]);
}

#[test]
fn workshop_rule_spans_reach_the_issues() {
    let mut program = Program::new();
    let file = program.add_file(SourceFile::new("main.opy"));
    program.rule(Rule::new("main", Event::Global));
    program.rule(Rule::new("late", Event::Subroutine("late".into())));
    let authored = WorkshopSpan::new(file, WorkshopPosition::new(4, 2), WorkshopPosition::new(4, 9));
    program.set_rule_span(1, Some(authored)).unwrap();
    let error = reconstruction_layout_of(&program).err().expect("body after a rule");
    assert_eq!(error.issues[0].code, "unsupported-rule-order");
    let expected = Span {
        file: file.index() as u32,
        start: Position { line: 4, col: 2 },
        end: Position { line: 4, col: 9 },
    };
    assert_eq!(error.issues[0].span, Some(expected));
    assert!(error.to_string().starts_with(
        "unsupported-rule-order: subroutine-body rule 'late' appears after a normal rule; the frontend re-lowering emits subroutine rules first at 4:2"
    ));
}

#[test]
fn workshop_settings_and_tables_are_read() {
    let mut program = Program::new();
    program.global_variable(Variable::new("b"));
    program.global_variable(Variable::with_index("a", 0));
    program.global_variable(Variable::new("b"));
    let error = reconstruction_layout_of(&program).err().expect("duplicate name");
    assert_eq!(codes(&error.issues), vec!["unsupported-duplicate-name"]);
}
