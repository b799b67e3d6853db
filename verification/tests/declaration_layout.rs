use opy_rs::declaration_plan::{check_declared_names, planned_table};
use opy_rs::declaration_slots::{check_implicit_slot_collisions, plan_declaration_slots, reserve_helper_slots, HelperSlots};
use opy_rs::hir::{
    Declaration, Directive, DirectiveState, Expr, OptimizationState, Position, Preprocessing, ResolvedProgram, Span,
    Translations,
};

fn at(line: u32) -> Option<Span> {
    Some(Span { file: 0, start: Position { line, col: 1 }, end: Position { line, col: 2 } })
}

fn program(declarations: Vec<Declaration>) -> ResolvedProgram {
    ResolvedProgram {
        files: Vec::new(),
        declarations,
        rules: Vec::new(),
        preprocessing: Preprocessing {
            directives: Vec::new(),
            optimization: OptimizationState {
                enabled: false,
                for_size: false,
                for_size_aggressive: false,
                strict: false,
            },
            source_file_initial_optimization: Vec::new(),
            translations: None,
        },
        settings: None,
    }
}

fn player(name: &str, line: u32) -> Declaration {
    Declaration::PlayerVariable { name: name.to_string(), index: None, span: at(line), name_span: None, initializer: None }
}

fn global(name: &str, line: u32) -> Declaration {
    Declaration::GlobalVariable { name: name.to_string(), index: None, span: at(line), name_span: None, initializer: None }
}

#[test]
fn names_repeat_only_within_their_kind() {
    let p = program(vec![global("x", 1), player("x", 2), Declaration::Constant {
        name: "x".to_string(),
        value: Box::new(Expr::Null { span: None }),
        span: at(3),
    }]);
    assert!(check_declared_names(&p).is_ok());
}

#[test]
fn the_first_repeated_name_is_refused() {
    let p = program(vec![player("x", 1), global("y", 2), player("x", 3), global("y", 4)]);
    let error = check_declared_names(&p).err().expect("x repeats");
    assert_eq!(error.diagnostic.code, "symbol-collision");
    assert_eq!(error.diagnostic.message, "duplicate player variable 'x'");
    assert_eq!(error.diagnostic.span, at(3));
}

#[test]
fn tables_are_ordered_by_slot_keeping_ties_in_order() {
    let table = vec![
        ("b".to_string(), 5, None, None),
        ("a".to_string(), 2, at(1), None),
        ("c".to_string(), 5, None, None),
        ("d".to_string(), 0, None, at(2)),
    ];
    let ordered = planned_table(table);
    let names: Vec<&str> = ordered.iter().map(|e| e.0.as_str()).collect();
    assert_eq!(names, vec!["d", "a", "b", "c"]);
    assert_eq!(ordered[1], ("a".to_string(), 2, at(1), None));
}

fn with_index(d: Declaration, slot: u32) -> Declaration {
    match d {
        Declaration::GlobalVariable { name, span, name_span, initializer, .. } => {
            Declaration::GlobalVariable { name, index: Some(slot), span, name_span, initializer }
        }
        Declaration::PlayerVariable { name, span, name_span, initializer, .. } => {
            Declaration::PlayerVariable { name, index: Some(slot), span, name_span, initializer }
        }
        other => other,
    }
}

fn asking(mut p: ResolvedProgram, directive: &str, line: u32) -> ResolvedProgram {
    p.preprocessing.directives.push(Directive {
        name: directive.to_string(),
        value: None,
        span: at(line),
        state: DirectiveState {
            optimization: OptimizationState { enabled: false, for_size: false, for_size_aggressive: false, strict: false },
        },
    });
    p
}

#[test]
fn explicit_slots_of_implicit_default_variables_are_refused() {
    let declarations = vec![with_index(global("score", 2), 1)];
    let implicit = vec![("A".to_string(), at(4)), ("B".to_string(), at(5))];
    let error = check_implicit_slot_collisions(&declarations, &implicit, &Vec::new()).unwrap_err();
    assert_eq!(error.diagnostic.code, "index-collision");
    assert_eq!(error.diagnostic.message, "duplicate use of index 1 for global variables 'B' and 'score'");
    assert_eq!(error.diagnostic.span, at(5));
    let players = vec![with_index(player("lang", 3), 127)];
    let implicit_players = vec![("__languageIndex__".to_string(), None)];
    let error = check_implicit_slot_collisions(&players, &Vec::new(), &implicit_players).unwrap_err();
    assert_eq!(error.diagnostic.message, "duplicate use of index 127 for player variables '__languageIndex__' and 'lang'");
    assert_eq!(error.diagnostic.span, at(3));
    let apart = vec![with_index(global("score", 2), 2), with_index(player("B", 3), 1)];
    assert!(check_implicit_slot_collisions(&apart, &implicit, &Vec::new()).is_ok());
}

#[test]
fn helpers_take_the_highest_free_slots_in_turn() {
    let mut p = program(vec![with_index(global("top", 1), 127)]);
    p.preprocessing.translations = Some(Translations { span: at(1), languages: Vec::new(), entries: Vec::new() });
    let p = asking(asking(p, "useVariableForCompressionAlphabet", 2), "replaceEmptyStringByVariable", 3);
    assert_eq!(
        reserve_helper_slots(&p, &vec![126]).unwrap(),
        HelperSlots { translation: Some(125), compression_alphabet: Some(124), empty_string: Some(123) }
    );
    assert_eq!(
        reserve_helper_slots(&program(Vec::new()), &vec![126]).unwrap(),
        HelperSlots { translation: None, compression_alphabet: None, empty_string: None }
    );
    let all: Vec<u32> = (0..128).collect();
    let error = reserve_helper_slots(&p, &all).unwrap_err();
    assert_eq!(error.diagnostic.code, "index-exhausted");
    assert_eq!(error.diagnostic.message, "no available global variable index remains for translations");
    assert_eq!(error.diagnostic.span, at(1));
    let last_free: Vec<u32> = (1..128).collect();
    let error = reserve_helper_slots(&p, &last_free).unwrap_err();
    assert_eq!(error.diagnostic.message, "no available global variable index remains for the compression alphabet");
    assert_eq!(error.diagnostic.span, at(2));
}

#[test]
fn declarations_are_placed_around_explicit_and_helper_slots() {
    let p = asking(
        program(vec![
            global("x", 1),
            with_index(global("y", 2), 0),
            player("p", 3),
            Declaration::Subroutine { name: "s".to_string(), index: None, span: at(4), name_span: None },
        ]),
        "useVariableForCompressionAlphabet",
        5,
    );
    let slots = plan_declaration_slots(&p).unwrap();
    assert_eq!(slots.helpers, HelperSlots { translation: None, compression_alphabet: Some(127), empty_string: None });
    assert_eq!(slots.globals, vec![1, 0]);
    assert_eq!(slots.players, vec![0]);
    assert_eq!(slots.subroutines, vec![0]);
    let clash = program(vec![with_index(global("a", 1), 3), with_index(global("b", 2), 3)]);
    let error = plan_declaration_slots(&clash).unwrap_err();
    assert_eq!(error.diagnostic.code, "index-collision");
    assert_eq!(error.diagnostic.message, "duplicate explicit global variable index 3");
    assert_eq!(error.diagnostic.span, at(2));
}
