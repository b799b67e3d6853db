use opy_rs::element_counts::{
    annotate_element_counts, debug_action_count, debug_action_local_count, debug_condition_count,
    debug_rule_count, debug_value_count, emit_debug_element_counts, rebuild_trees, summary_order,
    CountNode, NodeKind,
};
use opy_rs::hir::{OptimizationState, Preprocessing, ResolvedProgram, SourceFile};
use workshop_rs::catalog::Catalog;
use workshop_rs::program::Program;

fn node(kind: NodeKind, name: &str, children: Vec<CountNode>) -> CountNode {
    CountNode { kind, name: name.to_string(), file: None, children }
}

fn value(name: &str) -> CountNode {
    node(NodeKind::Value, name, Vec::new())
}

fn comparison() -> CountNode {
    node(NodeKind::Condition, "compare", vec![value("global variable"), value("number")])
}

fn wait() -> CountNode {
    node(NodeKind::Action, "Wait", vec![value("number"), value("IgnoreCondition")])
}

#[test]
fn values_cost_what_the_workshop_editor_counts() {
    assert_eq!(debug_value_count(&value("number")), 2);
    assert_eq!(debug_value_count(&value("localized string")), 2);
    assert_eq!(debug_value_count(&node(NodeKind::Value, "customString", vec![value("number")])), 6);
    assert_eq!(debug_value_count(&value("Team")), 2);
    assert_eq!(debug_value_count(&node(NodeKind::Value, "Color", vec![value("x"), value("y")])), 3);
    assert_eq!(
        debug_value_count(&node(NodeKind::Value, "array", vec![value("number"), value("number")])),
        6
    );
    assert_eq!(debug_value_count(&value("Event Player")), 1);
    assert_eq!(debug_value_count(&node(NodeKind::Value, "Abs", vec![value("number")])), 3);
}

#[test]
fn conditions_and_actions_reduce_their_arguments() {
    assert_eq!(debug_condition_count(&comparison()), 3);
    assert_eq!(debug_condition_count(&node(NodeKind::Condition, "c", vec![value("number")])), 2);
    assert_eq!(debug_action_local_count(&wait()), 2);
    let nested = node(NodeKind::Action, "If", vec![value("number"), wait()]);
    assert_eq!(debug_action_local_count(&nested), 2);
    assert_eq!(debug_action_count(&nested), 4);
    let rule = node(NodeKind::Rule, "r", vec![comparison(), nested]);
    assert_eq!(debug_rule_count(&rule), 8);
}

#[test]
fn summary_lists_larger_rules_first_and_keeps_rule_order_on_ties() {
    assert_eq!(summary_order(&vec![3, 1, 7, 3, 2]), vec![2, 0, 3, 4]);
    assert!(summary_order(&vec![1, 0, 1]).is_empty());
}

#[test]
fn element_count_comments_are_sorted_and_placed() {
    let output = "rule (\"small\") {\n    event {\n        Ongoing - Global;\n    }\n    conditions {\n        Global.value == 1;\n    }\n    actions {\n        Wait(1, Ignore Condition);\n    }\n}\n\nrule (\"large\") {\n    actions {\n        Wait(1, Ignore Condition);\n        Wait(1, Ignore Condition);\n    }\n}\n";
    let mut small = node(NodeKind::Rule, "small", vec![comparison(), wait()]);
    small.file = Some(0);
    let large = node(NodeKind::Rule, "large", vec![wait(), wait(), wait()]);
    let files = vec![SourceFile { id: 0, path: "debug.opy".to_string() }];
    let annotated = annotate_element_counts(output, &vec![small, large], &files);
    let expected = "/* Element count: (total 13)\n\n    7: rule \"large\"\n    6: rule \"small\" (debug.opy)\n\n*/\n\n//6 elements\nrule (\"small\") {\n    event {\n        Ongoing - Global;\n    }\n    conditions {\n        Global.value == 1; // 3 elements\n    }\n    actions {\n        Wait(1, Ignore Condition); // 2 elements\n    }\n}\n\n//7 elements\nrule (\"large\") {\n    actions {\n        Wait(1, Ignore Condition); // 2 elements\n        Wait(1, Ignore Condition); // 2 elements\n    }\n}\n";
    assert_eq!(annotated, expected);
}

#[test]
fn single_element_rules_get_no_comment() {
    let output = "rule (\"empty\") {\n}\n";
    let rules = vec![node(NodeKind::Rule, "empty", Vec::new())];
    let annotated = annotate_element_counts(output, &rules, &Vec::new());
    assert_eq!(annotated, "/* Element count: (total 1)\n\n\n*/\n\nrule (\"empty\") {\n}\n");
}

#[test]
fn preorder_listings_rebuild_their_trees() {
    let flat = vec![
        (NodeKind::Rule, "r".to_string(), Some(1), 1),
        (NodeKind::Action, "Wait".to_string(), None, 1),
        (NodeKind::Value, "number".to_string(), None, 0),
        (NodeKind::Rule, "s".to_string(), None, 0),
    ];
    let trees = rebuild_trees(&flat, 2).expect("well-formed listing");
    assert_eq!(trees.len(), 2);
    assert_eq!(trees[0].name, "r");
    assert_eq!(trees[0].file, Some(1));
    assert_eq!(trees[0].children[0].children[0].name, "number");
    assert!(trees[1].children.is_empty());
    assert!(rebuild_trees(&flat, 1).is_none());
    assert!(rebuild_trees(&flat[..2].to_vec(), 1).is_none());
}

#[test]
fn an_empty_program_has_no_elements() {
    let catalog = Catalog::builtin().expect("builtin catalog loads");
    let hir = ResolvedProgram {
        files: Vec::new(),
        declarations: Vec::new(),
        rules: Vec::new(),
        preprocessing: Preprocessing {
            directives: Vec::new(),
            optimization: OptimizationState {
                enabled: true,
                for_size: false,
                for_size_aggressive: false,
                strict: false,
            },
            source_file_initial_optimization: Vec::new(),
            translations: None,
        },
        settings: None,
    };
    let text = emit_debug_element_counts("", &Program::new(), &catalog, &hir).expect("counts");
    assert_eq!(text, "/* Element count: (total 0)\n\n\n*/\n\n");
}
