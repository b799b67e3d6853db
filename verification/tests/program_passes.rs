use opy_rs::debug_text::debug_expr_text;
use opy_rs::expr_queries::{
    expr_contains_random, indexed_target_parts, is_literal_key, is_membership_literal,
    is_zero_initializer,
};
use opy_rs::format_chunks::split_format_chunks;
use opy_rs::hir::{
    Declaration, DictEntry, Directive, DirectiveState, Event, Expr, OptimizationState, Position,
    Preprocessing, ResolvedProgram, Rule, RuleAnnotation, RuleEntry, Settings, SettingsNode, Span,
    Stmt, TranslationEntry, Translations,
};
use opy_rs::implicit_program::implicit_default_variables;
use opy_rs::lowering_queries::{
    compression_alphabet_index, helper_global_index, highest_free_index, optimization_state_at,
    reject_rule_metadata, split_rule_condition, translation_helper_index, translation_player_options,
};
use opy_rs::macro_program::{expand_macros, expand_macros_attributed};
use opy_rs::settings::{expand_settings_constants, settings_constants};
use opy_rs::translation_files::translation_files;

fn at(line: u32) -> Option<Span> {
    Some(Span { file: 0, start: Position { line, col: 1 }, end: Position { line, col: 9 } })
}

fn num(text: &str) -> Expr {
    Expr::Number { text: text.to_string(), span: at(1) }
}

fn string(value: &str) -> Expr {
    Expr::String { value: value.to_string(), span: at(1) }
}

fn global(name: &str) -> Expr {
    Expr::GlobalVar { name: name.to_string(), span: at(2) }
}

fn call(name: &str, args: Vec<Expr>) -> Expr {
    Expr::Call { name: name.to_string(), args, debug_source: None, span: at(3) }
}

fn entry(key: Expr, value: Expr, line: u32) -> DictEntry {
    DictEntry { key: Box::new(key), value: Box::new(value), span: at(line) }
}

fn dict(entries: Vec<DictEntry>) -> Expr {
    Expr::Dict { entries, span: at(4) }
}

fn constant(name: &str, value: Expr) -> Declaration {
    Declaration::Constant { name: name.to_string(), value: Box::new(value), span: at(5) }
}

fn optimization(strict: bool) -> OptimizationState {
    OptimizationState { enabled: true, for_size: false, for_size_aggressive: false, strict }
}

fn directive(name: &str, value: Option<&str>, span: Option<Span>, strict: bool) -> Directive {
    Directive {
        name: name.to_string(),
        value: value.map(|v| v.to_string()),
        span,
        state: DirectiveState { optimization: optimization(strict) },
    }
}

fn empty_program() -> ResolvedProgram {
    ResolvedProgram {
        files: Vec::new(),
        declarations: Vec::new(),
        rules: Vec::new(),
        preprocessing: Preprocessing {
            directives: Vec::new(),
            optimization: optimization(false),
            source_file_initial_optimization: Vec::new(),
            translations: None,
        },
        settings: None,
    }
}

fn raw(name: &str, value: &str, line: u32) -> SettingsNode {
    SettingsNode::Raw { name: name.to_string(), value: value.to_string(), span: at(line) }
}

#[test]
fn settings_constants_follow_declaration_order() {
    let declarations = vec![
        constant("first", num("1")),
        Declaration::Subroutine { name: "sub".to_string(), index: None, span: None, name_span: None },
        constant("second", string("two")),
    ];
    let constants = settings_constants(&declarations);
    let names: Vec<&str> = constants.iter().map(|(name, _)| name.as_str()).collect();
    assert_eq!(names, vec!["first", "second"]);
    assert_eq!(*constants[1].1, string("two"));
}

#[test]
fn settings_raw_values_expand_through_constants() {
    let declarations = vec![
        constant("limit", num("5")),
        constant("alias", Expr::Constant { name: "limit".to_string(), span: None }),
        constant(
            "mode",
            dict(vec![
                entry(string("enabled"), Expr::Bool { value: true, span: None }, 6),
                entry(string("general"), dict(vec![entry(string("speed"), num("110"), 7)]), 8),
                entry(num("3"), string("ignored"), 9),
                entry(string("skipped"), Expr::Null { span: None }, 10),
            ]),
        ),
    ];
    let constants = settings_constants(&declarations);
    let settings = Settings {
        span: at(20),
        children: vec![
            raw("max", "alias", 21),
            raw("other", "unknown", 22),
            SettingsNode::Group {
                name: "team1".to_string(),
                children: vec![
                    raw("general", "mode", 23),
                    SettingsNode::Bool { name: "own".to_string(), value: false, span: at(24) },
                ],
                span: at(25),
            },
        ],
    };
    let expanded = expand_settings_constants(settings, &constants);
    assert_eq!(expanded.span, at(20));
    assert_eq!(
        expanded.children,
        vec![
            SettingsNode::Number { name: "max".to_string(), value: "5".to_string(), span: at(21) },
            raw("other", "unknown", 22),
            SettingsNode::Group {
                name: "team1".to_string(),
                children: vec![
                    SettingsNode::Bool { name: "enabled".to_string(), value: true, span: at(6) },
                    SettingsNode::Number {
                        name: "speed".to_string(),
                        value: "110".to_string(),
                        span: at(7),
                    },
                    SettingsNode::Bool { name: "own".to_string(), value: false, span: at(24) },
                ],
                span: at(25),
            },
        ]
    );
}

#[test]
fn settings_groups_outside_teams_keep_their_general_child() {
    let declarations =
        vec![constant("mode", dict(vec![entry(string("speed"), num("90"), 6)]))];
    let constants = settings_constants(&declarations);
    let settings = Settings {
        span: None,
        children: vec![SettingsNode::Group {
            name: "lobby".to_string(),
            children: vec![raw("general", "mode", 2)],
            span: at(3),
        }],
    };
    let expanded = expand_settings_constants(settings, &constants);
    assert_eq!(
        expanded.children,
        vec![SettingsNode::Group {
            name: "lobby".to_string(),
            children: vec![SettingsNode::Group {
                name: "general".to_string(),
                children: vec![SettingsNode::Number {
                    name: "speed".to_string(),
                    value: "90".to_string(),
                    span: at(6),
                }],
                span: at(2),
            }],
            span: at(3),
        }]
    );
}

#[test]
fn later_constant_declaration_wins_in_settings() {
    let declarations = vec![constant("v", num("1")), constant("v", string("late"))];
    let constants = settings_constants(&declarations);
    let settings = Settings { span: None, children: vec![raw("name", "v", 2)] };
    let expanded = expand_settings_constants(settings, &constants);
    assert_eq!(
        expanded.children,
        vec![SettingsNode::String { name: "name".to_string(), value: "late".to_string(), span: at(2) }]
    );
}

#[test]
fn program_wide_implicit_variables_are_collected() {
    let mut program = empty_program();
    program.declarations = vec![
        Declaration::GlobalVariable {
            name: "x".to_string(),
            index: None,
            span: None,
            name_span: None,
            initializer: Some(Box::new(global("A"))),
        },
        Declaration::PlayerVariable {
            name: "D".to_string(),
            index: None,
            span: None,
            name_span: None,
            initializer: None,
        },
    ];
    program.rules = vec![
        RuleEntry::Rule(Rule {
            name: "r".to_string(),
            event: Event { name: "global".to_string(), args: Vec::new() },
            conditions: vec![Expr::GlobalVar { name: "B".to_string(), span: at(7) }],
            annotations: Vec::new(),
            new_page: false,
            actions: vec![Stmt::Assign {
                target: Box::new(Expr::PlayerVar {
                    player: Box::new(Expr::EventPlayer { span: None }),
                    name: "C".to_string(),
                    member_span: at(8),
                    span: at(9),
                }),
                value: Box::new(Expr::GlobalVar { name: "A".to_string(), span: at(10) }),
                span: None,
            }],
            span: None,
        }),
        RuleEntry::SubroutineDef {
            name: "s".to_string(),
            body: vec![Stmt::Expr {
                expr: Box::new(Expr::PlayerVar {
                    player: Box::new(Expr::EventPlayer { span: None }),
                    name: "D".to_string(),
                    member_span: None,
                    span: at(11),
                }),
                span: None,
            }],
            span: None,
        },
    ];
    let (globals, players) = implicit_default_variables(&program);
    assert_eq!(globals, vec![("A".to_string(), at(2)), ("B".to_string(), at(7))]);
    assert_eq!(players, vec![("C".to_string(), at(8))]);
}

#[test]
fn translated_programs_add_the_language_index_player_variable() {
    let mut program = empty_program();
    program.preprocessing.directives = vec![directive("translateWithPlayerVar", None, at(1), false)];
    let (globals, players) = implicit_default_variables(&program);
    assert!(globals.is_empty());
    assert_eq!(players, vec![("__languageIndex__".to_string(), None)]);
}

#[test]
fn random_calls_are_found_at_any_depth() {
    assert!(expr_contains_random(&call("random.int", vec![num("1"), num("2")])));
    let nested = Expr::Binary {
        op: "+".to_string(),
        left: Box::new(num("1")),
        right: Box::new(Expr::Array { elements: vec![call("random.real", Vec::new())], span: None }),
        span: None,
    };
    assert!(expr_contains_random(&nested));
    assert!(expr_contains_random(&dict(vec![entry(string("k"), call("random.choice", Vec::new()), 1)])));
    assert!(!expr_contains_random(&call("randomish", vec![num("1")])));
    assert!(!expr_contains_random(&call("abs", vec![global("A")])));
}

#[test]
fn literal_keys_are_plain_literals() {
    assert!(is_literal_key(&num("0")));
    assert!(is_literal_key(&string("a")));
    assert!(is_literal_key(&Expr::Null { span: None }));
    assert!(!is_literal_key(&global("A")));
    assert!(is_membership_literal(&string("a"), false));
    assert!(!is_membership_literal(&string("a"), true));
    assert!(is_membership_literal(&num("2"), true));
}

#[test]
fn zero_initializer_is_the_literal_zero() {
    assert!(is_zero_initializer(&num("0")));
    assert!(!is_zero_initializer(&num("0.0")));
    assert!(!is_zero_initializer(&num("1")));
    assert!(!is_zero_initializer(&string("0")));
}

#[test]
fn indexed_targets_split_into_variable_and_indices() {
    let target = Expr::Index {
        array: Box::new(Expr::Index {
            array: Box::new(global("A")),
            index: Box::new(num("1")),
            span: None,
        }),
        index: Box::new(num("2")),
        span: None,
    };
    let mut indices = Vec::new();
    let base = indexed_target_parts(&target, &mut indices);
    assert_eq!(base, Some(&global("A")));
    assert_eq!(indices, vec![&num("2"), &num("1")]);
    let mut none = Vec::new();
    assert_eq!(indexed_target_parts(&call("f", Vec::new()), &mut none), None);
}

#[test]
fn debug_text_reads_like_source() {
    let e = Expr::Binary {
        op: "+".to_string(),
        left: Box::new(global("A")),
        right: Box::new(call("max", vec![num("1"), string("say \"hi\"")])),
        span: None,
    };
    assert_eq!(debug_expr_text(&e), "A + max(1, \"say \\\"hi\\\"\")");
    let d = dict(vec![entry(string("k"), Expr::Bool { value: true, span: None }, 1)]);
    assert_eq!(debug_expr_text(&d), "{\"k\": true}");
}

#[test]
fn format_strings_split_into_chunks_of_three_arguments() {
    assert_eq!(
        split_format_chunks("a{0}b{1}c{2}d{3}e", 4),
        Some(vec![
            ("a{0}b{1}c{2}".to_string(), vec![0, 1, 2]),
            ("d{0}e".to_string(), vec![3]),
        ])
    );
    assert_eq!(split_format_chunks("{1}{1}", 2), Some(vec![("{0}{0}".to_string(), vec![1])]));
    assert_eq!(split_format_chunks("a{x}b", 0), Some(vec![("a{x}b".to_string(), Vec::new())]));
    assert_eq!(split_format_chunks("", 0), Some(vec![(String::new(), Vec::new())]));
    assert_eq!(split_format_chunks("{5}", 2), None);
}

#[test]
fn program_macros_expand_in_rules() {
    let mut program = empty_program();
    program.declarations = vec![Declaration::Macro {
        name: "twice".to_string(),
        args: vec!["x".to_string()],
        body: vec![Stmt::Expr {
            expr: Box::new(Expr::Binary {
                op: "*".to_string(),
                left: Box::new(Expr::MacroParam { name: "x".to_string(), span: at(2) }),
                right: Box::new(num("2")),
                span: at(2),
            }),
            span: at(2),
        }],
        span: at(1),
    }];
    program.rules = vec![RuleEntry::Rule(Rule {
        name: "r".to_string(),
        event: Event { name: "global".to_string(), args: Vec::new() },
        conditions: Vec::new(),
        annotations: Vec::new(),
        new_page: false,
        actions: vec![Stmt::Assign {
            target: Box::new(global("A")),
            value: Box::new(Expr::MacroCall { name: "twice".to_string(), args: vec![num("3")], span: at(9) }),
            span: at(9),
        }],
        span: None,
    })];
    let expanded = expand_macros(program).expect("macro expands");
    match &expanded.rules[0] {
        RuleEntry::Rule(rule) => match &rule.actions[0] {
            Stmt::Assign { value, .. } => assert_eq!(
                **value,
                Expr::Binary {
                    op: "*".to_string(),
                    left: Box::new(num("3")),
                    right: Box::new(num("2")),
                    span: at(2),
                }
            ),
            other => panic!("unexpected statement {other:?}"),
        },
        other => panic!("unexpected entry {other:?}"),
    }
}

#[test]
fn program_macro_errors_stop_the_expansion() {
    let mut program = empty_program();
    program.rules = vec![RuleEntry::SubroutineDef {
        name: "s".to_string(),
        body: vec![Stmt::Expr {
            expr: Box::new(Expr::MacroCall { name: "missing".to_string(), args: Vec::new(), span: at(4) }),
            span: at(4),
        }],
        span: None,
    }];
    assert!(expand_macros_attributed(program).is_err());
}

fn with_directive(name: &str, value: Option<&str>) -> ResolvedProgram {
    let mut program = empty_program();
    program.preprocessing.directives = vec![directive(name, value, at(3), false)];
    program
}

#[test]
fn helper_slots_take_the_highest_free_index() {
    assert_eq!(highest_free_index(&vec![127, 126]), Some(125));
    assert_eq!(highest_free_index(&Vec::new()), Some(127));
    let all: Vec<u32> = (0..128).collect();
    assert_eq!(highest_free_index(&all), None);
    assert_eq!(compression_alphabet_index(&empty_program(), &Vec::new()).unwrap(), None);
    let program = with_directive("useVariableForCompressionAlphabet", None);
    assert_eq!(compression_alphabet_index(&program, &vec![127]).unwrap(), Some(126));
    let error = helper_global_index(&program, &all, "useVariableForCompressionAlphabet", "no slot left")
        .unwrap_err();
    assert_eq!(error.diagnostic.code, "index-exhausted");
    assert_eq!(error.diagnostic.message, "no slot left");
    assert_eq!(error.diagnostic.span, at(3));
}

#[test]
fn translation_options_are_whole_words() {
    assert_eq!(translation_player_options(&empty_program()), (false, false, false));
    let both = with_directive("translateWithPlayerVar", Some(" noDetectionRule\tnoTlErr "));
    assert_eq!(translation_player_options(&both), (true, true, true));
    let partial = with_directive("translateWithPlayerVar", Some("noTlErrX noDetectionRule"));
    assert_eq!(translation_player_options(&partial), (true, true, false));
    let bare = with_directive("translateWithPlayerVar", None);
    assert_eq!(translation_player_options(&bare), (true, false, false));
}

#[test]
fn rule_conditions_split_at_and() {
    let and = |l: Expr, r: Expr| Expr::Binary {
        op: "and".to_string(),
        left: Box::new(l),
        right: Box::new(r),
        span: None,
    };
    let compared = Expr::Binary {
        op: "==".to_string(),
        left: Box::new(and(global("A"), and(global("B"), global("C")))),
        right: Box::new(Expr::Bool { value: true, span: None }),
        span: None,
    };
    let mut conditions = Vec::new();
    split_rule_condition(&compared, &mut conditions);
    assert_eq!(conditions, vec![&global("A"), &global("B"), &global("C")]);
    let plain = Expr::Binary {
        op: "==".to_string(),
        left: Box::new(global("A")),
        right: Box::new(Expr::Bool { value: true, span: None }),
        span: None,
    };
    let mut single = Vec::new();
    split_rule_condition(&plain, &mut single);
    assert_eq!(single, vec![&plain]);
}

fn annotated_rule(annotations: Vec<(&str, Option<Span>)>, new_page: bool) -> Rule {
    Rule {
        name: "r".to_string(),
        event: Event { name: "global".to_string(), args: Vec::new() },
        conditions: Vec::new(),
        actions: Vec::new(),
        annotations: annotations
            .into_iter()
            .map(|(name, span)| RuleAnnotation { name: name.to_string(), span })
            .collect(),
        new_page,
        span: at(30),
    }
}

#[test]
fn rule_metadata_outside_canonical_rules_is_refused() {
    assert!(reject_rule_metadata(&annotated_rule(vec![("Event", at(1)), ("Hero", None)], false)).is_ok());
    let page = reject_rule_metadata(&annotated_rule(vec![("NewPage", at(2))], true)).unwrap_err();
    assert_eq!(page.diagnostic.code, "unsupported-integration-surface");
    assert_eq!(page.diagnostic.message, "rule new-page metadata is not representable in canonical WIR");
    assert_eq!(page.diagnostic.span, at(2));
    let unanchored = reject_rule_metadata(&annotated_rule(Vec::new(), true)).unwrap_err();
    assert_eq!(unanchored.diagnostic.span, at(30));
    let odd = reject_rule_metadata(&annotated_rule(vec![("Event", None), ("Color", None)], false))
        .unwrap_err();
    assert_eq!(odd.diagnostic.message, "rule annotation 'Color' is not representable in canonical WIR");
    assert_eq!(odd.diagnostic.span, at(30));
}

fn span_at(file: u32, line: u32, col: u32) -> Option<Span> {
    Some(Span { file, start: Position { line, col }, end: Position { line, col: col + 1 } })
}

#[test]
fn optimization_state_follows_the_last_directive_before_the_code() {
    let mut program = empty_program();
    program.preprocessing.directives = vec![
        directive("optimizeStrict", None, span_at(0, 2, 1), true),
        directive("other", None, span_at(1, 1, 1), false),
        directive("noOptimizeStrict", None, span_at(0, 10, 1), false),
    ];
    program.preprocessing.source_file_initial_optimization = vec![(2, optimization(true))];
    assert!(!optimization_state_at(&program, None).strict);
    assert!(optimization_state_at(&program, span_at(0, 5, 3)).strict);
    assert!(!optimization_state_at(&program, span_at(0, 12, 1)).strict);
    assert!(!optimization_state_at(&program, span_at(0, 1, 1)).strict);
    assert!(optimization_state_at(&program, span_at(2, 1, 1)).strict);
    assert!(!optimization_state_at(&program, span_at(3, 1, 1)).strict);
}

#[test]
fn translation_helper_takes_the_highest_free_slot() {
    let mut program = empty_program();
    assert_eq!(translation_helper_index(&program, &Vec::new()).unwrap(), None);
    program.preprocessing.translations =
        Some(Translations { span: at(4), languages: Vec::new(), entries: Vec::new() });
    assert_eq!(translation_helper_index(&program, &vec![127]).unwrap(), Some(126));
    let all: Vec<u32> = (0..128).collect();
    let error = translation_helper_index(&program, &all).unwrap_err();
    assert_eq!(error.diagnostic.code, "index-exhausted");
    assert_eq!(error.diagnostic.message, "no available global variable index remains for translations");
    assert_eq!(error.diagnostic.span, at(4));
}

fn translated_program(keep_unused: bool) -> ResolvedProgram {
    let mut program = empty_program();
    program.preprocessing.translations = Some(Translations {
        span: None,
        languages: vec!["en-US".to_string(), "fr-FR".to_string()],
        entries: vec![
            TranslationEntry {
                msgid: "Hello".to_string(),
                context: None,
                translations: vec![("fr-FR".to_string(), "Bonjour\tà\u{1}".to_string())],
            },
            TranslationEntry {
                msgid: "Bye".to_string(),
                context: Some("menu".to_string()),
                translations: Vec::new(),
            },
        ],
    });
    if keep_unused {
        program.preprocessing.directives = vec![directive("keepUnusedTranslations", None, None, false)];
    }
    program
}

const PO_HEADER: &str =
    "msgid \"\"\nmsgstr \"\"\n\"Content-Type: text/plain; charset=UTF-8\\n\"\n\"Language: fr-FR\\n\"\n\n";

#[test]
fn translation_files_list_used_texts_sorted_once() {
    let uses = vec![
        ("Zed \"q\"".to_string(), None),
        ("Hello".to_string(), None),
        ("Zed \"q\"".to_string(), None),
    ];
    let files = translation_files(&translated_program(false), &uses);
    assert_eq!(files.len(), 1);
    assert_eq!(files[0].0, "fr-FR");
    let expected = format!(
        "{PO_HEADER}msgid \"Hello\"\nmsgstr \"Bonjour\\tà\\u0001\"\n\nmsgid \"Zed \\\"q\\\"\"\nmsgstr \"\"\n\n"
    );
    assert_eq!(files[0].1, expected);
    assert!(translation_files(&empty_program(), &uses).is_empty());
}

#[test]
fn kept_unused_translations_join_the_files() {
    let uses = vec![("Hello".to_string(), None)];
    let files = translation_files(&translated_program(true), &uses);
    let expected = format!(
        "{PO_HEADER}msgctxt \"menu\"\nmsgid \"Bye\"\nmsgstr \"\"\n\nmsgid \"Hello\"\nmsgstr \"Bonjour\\tà\\u0001\"\n\n"
    );
    assert_eq!(files[0].1, expected);
}
